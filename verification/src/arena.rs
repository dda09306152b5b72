//! A chunked, append-only arena addressed by type-tagged integer handles.
//!
//! The arena stores values in a list of sealed fixed-capacity chunks plus one
//! partially filled current chunk. Handles are dense integers assigned in
//! allocation order; the arena's abstract state is the sequence of all stored
//! values in that order.

use core::marker::PhantomData;
use vstd::arithmetic::div_mod::{
    lemma_fundamental_div_mod, lemma_fundamental_div_mod_converse, lemma_mod_pos_bound,
};
use vstd::arithmetic::mul::{lemma_mul_inequality, lemma_mul_is_distributive_add_other_way};
use vstd::prelude::*;

verus! {

/// A type-tagged dense integer handle into an [`Arena`] holding values of
/// kind `T`. Copyable and free of any borrow of the arena; handles of
/// different node kinds are distinct types even when numerically equal.
#[derive(Debug)]
pub struct NodeId<T> {
    idx: u32,
    _phantom: PhantomData<T>,
}

impl<T> View for NodeId<T> {
    type V = nat;

    closed spec fn view(&self) -> nat {
        self.idx as nat
    }
}

impl<T> NodeId<T> {
    pub fn new(idx: u32) -> (id: NodeId<T>)
        ensures
            id@ == idx,
    {
        NodeId { idx, _phantom: PhantomData }
    }

    pub fn index(&self) -> (i: usize)
        ensures
            i == self@,
    {
        self.idx as usize
    }
}

impl<T> Clone for NodeId<T> {
    fn clone(&self) -> (other: Self)
        ensures
            other == *self,
    {
        NodeId { idx: self.idx, _phantom: PhantomData }
    }
}

impl<T> Copy for NodeId<T> {

}

/// An append-only collection of `T` organized as sealed chunks of a fixed
/// configured capacity plus one partially filled current chunk.
///
/// Abstractly (through `@`) an arena is the sequence of stored values in
/// allocation order; a handle's integer value is its index in that sequence.
pub struct Arena<T> {
    chunks: Vec<Vec<T>>,
    chunk: Vec<T>,
    chunk_size: usize,
}

impl<T> View for Arena<T> {
    type V = Seq<T>;

    closed spec fn view(&self) -> Seq<T> {
        Seq::new(self.spec_len(), |i: int| self.elem_at(i))
    }
}

impl<T> Arena<T> {
    /// The configured capacity of each chunk.
    pub closed spec fn spec_chunk_size(&self) -> int {
        self.chunk_size as int
    }

    /// Number of sealed (full) chunks.
    closed spec fn spec_sealed(&self) -> int {
        self.chunks@.len() as int
    }

    closed spec fn spec_len(&self) -> nat {
        (self.chunks@.len() * self.chunk_size + self.chunk@.len()) as nat
    }

    /// The value at flat index `i`, located by chunk/offset arithmetic.
    closed spec fn elem_at(&self, i: int) -> T {
        let k = self.chunk_size as int;
        if i / k < self.chunks@.len() {
            self.chunks@[i / k]@[i % k]
        } else {
            self.chunk@[i % k]
        }
    }

    /// Well-formedness: a positive chunk capacity, every sealed chunk exactly
    /// full, the current chunk strictly under capacity, and a total length
    /// that keeps every handle representable as a `u32`.
    pub closed spec fn wf(&self) -> bool {
        &&& self.chunk_size >= 1
        &&& forall|i: int|
            0 <= i < self.chunks@.len() ==> (#[trigger] self.chunks@[i])@.len()
                == self.chunk_size
        &&& self.chunk@.len() < self.chunk_size
        &&& self.chunks@.len() * self.chunk_size + self.chunk@.len() <= u32::MAX
    }

    /// Locates flat index `i`: its quotient/remainder decomposition and which
    /// chunk it falls in.
    proof fn lemma_locate(&self, i: int)
        requires
            self.wf(),
            0 <= i < self.spec_len(),
        ensures
            ({
                let k = self.spec_chunk_size();
                let q = i / k;
                let r = i % k;
                &&& 0 <= r < k
                &&& i == q * k + r
                &&& 0 <= q <= self.spec_sealed()
                &&& (q < self.spec_sealed() <==> i < self.spec_sealed() * k)
                &&& (q == self.spec_sealed() ==> r == i - self.spec_sealed() * k)
            }),
    {
        let k = self.spec_chunk_size();
        let n = self.spec_sealed();
        let q = i / k;
        let r = i % k;
        lemma_fundamental_div_mod(i, k);
        lemma_mod_pos_bound(i, k);
        assert(i == q * k + r) by {
            assert(k * q == q * k) by (nonlinear_arith);
        }
        assert(q >= 0) by {
            if q < 0 {
                lemma_mul_inequality(q, -1, k);
            }
        }
        if q > n {
            lemma_mul_inequality(n + 1, q, k);
            lemma_mul_is_distributive_add_other_way(k, n, 1);
            assert(false);
        }
        if q < n {
            lemma_mul_inequality(q + 1, n, k);
            lemma_mul_is_distributive_add_other_way(k, q, 1);
        } else {
            lemma_mul_inequality(n, q, k);
        }
    }

    /// Creates an arena whose chunks hold `chunk_size` values each.
    pub fn new(chunk_size: usize) -> (a: Arena<T>)
        requires
            chunk_size >= 1,
        ensures
            a.wf(),
            a@ == Seq::<T>::empty(),
            a.spec_chunk_size() == chunk_size,
    {
        let a = Arena { chunks: Vec::new(), chunk: Vec::with_capacity(chunk_size), chunk_size };
        proof {
            assert(a@ =~= Seq::<T>::empty());
        }
        a
    }

    /// Appends `item` and returns its handle, whose integer value equals the
    /// pre-insertion length; ids are assigned in increasing allocation order
    /// starting at 0. Seals the current chunk when it reaches capacity.
    pub fn allocate(&mut self, item: T) -> (id: NodeId<T>)
        requires
            old(self).wf(),
            old(self)@.len() < u32::MAX,
        ensures
            final(self).wf(),
            final(self)@ == old(self)@.push(item),
            final(self).spec_chunk_size() == old(self).spec_chunk_size(),
            id@ == old(self)@.len(),
    {
        let idx = self.len();
        self.chunk.push(item);

        if self.chunk.len() >= self.chunk_size {
            let mut sealed = Vec::with_capacity(self.chunk_size);
            core::mem::swap(&mut self.chunk, &mut sealed);
            self.chunks.push(sealed);
        }
        proof {
            self.lemma_view_after_push(*old(self), item);
        }
        NodeId::new(idx as u32)
    }

    /// After the body of `allocate` ran on `pre`, the abstract state of `self`
    /// is `pre`'s with `item` appended.
    proof fn lemma_view_after_push(&self, pre: Arena<T>, item: T)
        requires
            pre.wf(),
            pre.spec_len() < u32::MAX,
            self.chunk_size == pre.chunk_size,
            pre.chunk@.len() + 1 < pre.chunk_size ==> self.chunks@ == pre.chunks@
                && self.chunk@ == pre.chunk@.push(item),
            pre.chunk@.len() + 1 == pre.chunk_size ==> {
                &&& self.chunks@.len() == pre.chunks@.len() + 1
                &&& forall|i: int|
                    0 <= i < pre.chunks@.len() ==> #[trigger] self.chunks@[i] == pre.chunks@[i]
                &&& self.chunks@[pre.chunks@.len() as int]@ == pre.chunk@.push(item)
                &&& self.chunk@ == Seq::<T>::empty()
            },
        ensures
            self.wf(),
            self@ == pre@.push(item),
    {
        let k = pre.spec_chunk_size();
        let n = pre.spec_sealed();
        assert(n * k >= 0) by {
            lemma_mul_inequality(0, n, k);
        }
        if pre.chunk@.len() + 1 == pre.chunk_size {
            lemma_mul_is_distributive_add_other_way(k, n, 1);
            assert(self.spec_len() == pre.spec_len() + 1);
        } else {
            assert(self.spec_len() == pre.spec_len() + 1);
        }
        assert forall|i: int| 0 <= i < self.spec_len() implies self.elem_at(i) == pre@.push(
            item,
        )[i] by {
            self.lemma_locate(i);
            let q = i / k;
            let r = i % k;
            if i < pre.spec_len() {
                pre.lemma_locate(i);
            }
            if pre.chunk@.len() + 1 == pre.chunk_size {
                if q < n {
                    lemma_mul_inequality(q + 1, n, k);
                    lemma_mul_is_distributive_add_other_way(k, q, 1);
                }
            }
        }
        assert(self@ =~= pre@.push(item));
    }

    /// Resolves a handle to a shared reference to its stored value.
    pub fn get(&self, id: NodeId<T>) -> (r: &T)
        requires
            self.wf(),
            id@ < self@.len(),
        ensures
            *r == self@[id@ as int],
    {
        proof {
            self.lemma_locate(id@ as int);
        }
        let idx = id.index();
        let chunk_id = idx / self.chunk_size;
        let offset = idx % self.chunk_size;
        if chunk_id < self.chunks.len() {
            &self.chunks[chunk_id][offset]
        } else {
            &self.chunk[offset]
        }
    }

    /// Resolves a handle to a mutable reference to its stored value; the
    /// arena afterwards holds the same sequence with that position replaced
    /// by whatever the caller wrote through the reference.
    pub fn get_mut(&mut self, id: NodeId<T>) -> (r: &mut T)
        requires
            old(self).wf(),
            id@ < old(self)@.len(),
        ensures
            *r == old(self)@[id@ as int],
            final(self).wf(),
            final(self).spec_chunk_size() == old(self).spec_chunk_size(),
            final(self)@.len() == old(self)@.len(),
            final(self)@[id@ as int] == *final(r),
            forall|j: int|
                0 <= j < old(self)@.len() && j != id@ as int ==> final(self)@[j] == old(
                    self,
                )@[j],
    {
        proof {
            let k = self.spec_chunk_size();
            let n = self.spec_sealed();
            let t = id@ as int;
            self.lemma_locate(t);
            assert forall|j: int| 0 <= j < self@.len() implies (#[trigger] self@[j])
                == self.elem_at(j) && 0 <= j % k < k && j == (j / k) * k + (j % k) && (j / k <= n)
                && (j / k < n <==> j < n * k) && ((j / k == t / k && j % k == t % k) ==> j == t)
                && (j / k == n ==> j % k < self.chunk@.len()) by {
                self.lemma_locate(j);
            }
        }
        let idx = id.index();
        let chunk_id = idx / self.chunk_size;
        let offset = idx % self.chunk_size;
        if chunk_id < self.chunks.len() {
            proof {
                assert(self.chunks@[chunk_id as int]@.len() == self.chunk_size);
            }
            &mut self.chunks[chunk_id][offset]
        } else {
            proof {
                assert(offset < self.chunk@.len());
            }
            &mut self.chunk[offset]
        }
    }

    /// The number of values allocated so far.
    pub fn len(&self) -> (n: usize)
        requires
            self.wf(),
        ensures
            n == self@.len(),
    {
        proof {
            lemma_mul_inequality(0, self.spec_sealed(), self.spec_chunk_size());
        }
        self.chunks.len() * self.chunk_size + self.chunk.len()
    }

    pub fn is_empty(&self) -> (b: bool)
        requires
            self.wf(),
        ensures
            b == (self@.len() == 0),
    {
        self.len() == 0
    }

    /// Every handle issued so far, in allocation order: the ids `0 .. len()`.
    /// Reads only the arena's length, never its contents.
    pub fn iter_ids(&self) -> (ids: Vec<NodeId<T>>)
        requires
            self.wf(),
        ensures
            ids@.len() == self@.len(),
            forall|i: int| 0 <= i < ids@.len() ==> (#[trigger] ids@[i])@ == i,
    {
        let n = self.len();
        let mut ids: Vec<NodeId<T>> = Vec::with_capacity(n);
        let mut i: usize = 0;
        while i < n
            invariant
                i <= n,
                n <= u32::MAX,
                ids@.len() == i,
                forall|j: int| 0 <= j < i ==> (#[trigger] ids@[j])@ == j,
            decreases n - i,
        {
            ids.push(NodeId::new(i as u32));
            i += 1;
        }
        ids
    }

    /// The number of sealed chunks, which under well-formedness equals the
    /// length divided (rounding down) by the chunk capacity.
    pub fn sealed_chunk_count(&self) -> (n: usize)
        requires
            self.wf(),
        ensures
            n == self@.len() as int / self.spec_chunk_size(),
    {
        proof {
            lemma_fundamental_div_mod_converse(self.spec_len() as int, self.spec_chunk_size(),
                self.spec_sealed(), self.chunk@.len() as int);
        }
        self.chunks.len()
    }
}

/// Law: reading a handle immediately after `alloc` returned it yields the
/// allocated value. `alloc` appends `item` to the arena's sequence and hands
/// back the pre-insertion length as the handle, so `get` at that handle is
/// the last element of the extended sequence.
pub proof fn lemma_get_after_alloc<T>(contents: Seq<T>, item: T)
    ensures
        contents.push(item)[contents.len() as int] == item,
{
}

/// Law: handles are stable. Each `alloc` extends the arena's sequence (its
/// postcondition is a `push`, and pushes compose into appending `later`), so
/// any sequence of further allocations leaves every existing index, and hence
/// what `get` returns for an existing handle, unchanged.
pub proof fn lemma_handles_stable<T>(contents: Seq<T>, later: Seq<T>, i: int)
    requires
        0 <= i < contents.len(),
    ensures
        (contents + later)[i] == contents[i],
{
}

/// Law: `len()` counts allocations. A fresh arena's sequence is empty, each
/// `alloc` pushes exactly one value (a push appends a singleton), so after
/// `n` allocations the length is `n`; `iter_ids` then yields exactly the
/// handles `0 .. n`, as its postcondition states.
pub proof fn lemma_len_counts_allocs<T>(contents: Seq<T>, items: Seq<T>)
    ensures
        (contents + items).len() == contents.len() + items.len(),
        forall|x: T| #[trigger] contents.push(x) == contents + seq![x],
{
    assert forall|x: T| #[trigger] contents.push(x) == contents + seq![x] by {
        assert(contents.push(x) =~= contents + seq![x]);
    }
}

} // verus!
