//! Source spans, interned symbols, and the string interner.

use std::collections::HashMap;
use vstd::prelude::*;
use vstd::string::StrSliceExecFns;

verus! {

/// A half-open byte-offset range `[start, end)` into the source buffer.
#[derive(Debug, Clone, Copy, PartialEq, Eq, Structural)]
pub struct Span {
    pub start: u32,
    pub end: u32,
}

impl Span {
    pub fn new(start: u32, end: u32) -> (s: Span)
        ensures
            s.start == start,
            s.end == end,
    {
        Span { start, end }
    }
}

/// A dense integer handle identifying a deduplicated string.
#[derive(Debug, Clone, Copy, PartialEq, Eq, Structural)]
pub struct Symbol(pub u32);

/// True when `m` holds `s` at some index.
pub open spec fn contains_str(m: Seq<Seq<char>>, s: Seq<char>) -> bool {
    exists|i: int| 0 <= i < m.len() && m[i] == s
}

/// The index at which `m` holds `s` (meaningful when `contains_str(m, s)`).
pub open spec fn index_of_str(m: Seq<Seq<char>>, s: Seq<char>) -> int {
    choose|i: int| 0 <= i < m.len() && m[i] == s
}

/// True when no two indices of `m` hold equal strings.
pub open spec fn distinct_strs(m: Seq<Seq<char>>) -> bool {
    forall|i: int, j: int| #![trigger m[i], m[j]] 0 <= i < j < m.len() ==> m[i] != m[j]
}

/// What one `intern` call does to an interner whose strings are `m`: an
/// already-present string leaves the table unchanged and yields its existing
/// index; a new string is appended and yields the next dense index.
pub open spec fn spec_intern(m: Seq<Seq<char>>, s: Seq<char>) -> (Seq<Seq<char>>, int) {
    if contains_str(m, s) {
        (m, index_of_str(m, s))
    } else {
        (m.push(s), m.len() as int)
    }
}

/// Deduplicates strings into dense [`Symbol`] handles.
///
/// Abstractly (through `@`) an interner is the sequence of distinct strings
/// it has issued symbols for, in order of first interning; a symbol's integer
/// value is its string's index in that sequence. The vector of strings is the
/// authoritative store; the hash map is only an index accelerating lookup,
/// and every answer it gives is validated against the vector.
pub struct Interner {
    strings: Vec<String>,
    map: HashMap<String, u32>,
}

impl View for Interner {
    type V = Seq<Seq<char>>;

    closed spec fn view(&self) -> Seq<Seq<char>> {
        Seq::new(self.strings@.len(), |i: int| self.strings@[i]@)
    }
}

impl Interner {
    /// Well-formedness: no duplicate strings, and few enough of them that
    /// every index fits a `u32`.
    pub closed spec fn wf(&self) -> bool {
        &&& distinct_strs(self@)
        &&& self@.len() <= u32::MAX
    }

    pub fn new() -> (r: Interner)
        ensures
            r.wf(),
            r@ == Seq::<Seq<char>>::empty(),
    {
        let r = Interner { strings: Vec::new(), map: HashMap::new() };
        proof {
            assert(r@ =~= Seq::<Seq<char>>::empty());
        }
        r
    }

    /// Returns the existing symbol for `s` if it was interned before,
    /// otherwise records `s` under the next dense index.
    pub fn intern(&mut self, s: &str) -> (sym: Symbol)
        requires
            old(self).wf(),
            old(self)@.len() < u32::MAX,
        ensures
            final(self).wf(),
            final(self)@ == spec_intern(old(self)@, s@).0,
            sym.0 as int == spec_intern(old(self)@, s@).1,
            sym.0 < final(self)@.len(),
            final(self)@[sym.0 as int] == s@,
    {
        // Fast path: the hash map proposes an index, which counts only if the
        // authoritative vector confirms it holds this very string.
        let hit = self.map.get(s);
        if let Some(ix_ref) = hit {
            let ix = *ix_ref;
            let ixu = ix as usize;
            if ixu < self.strings.len() {
                if str_eq(self.strings[ixu].as_str(), s) {
                    proof {
                        lemma_index_of_present(self@, s@, ixu as int);
                    }
                    return Symbol(ix);
                }
            }
        }

        // Authoritative path: scan the vector.
        let n = self.strings.len();
        let mut i: usize = 0;
        while i < n
            invariant
                i <= n,
                n == self@.len(),
                n <= u32::MAX,
                self == old(self),
                old(self).wf(),
                forall|j: int| 0 <= j < i ==> self@[j] != s@,
            decreases n - i,
        {
            if str_eq(self.strings[i].as_str(), s) {
                proof {
                    lemma_index_of_present(self@, s@, i as int);
                }
                return Symbol(i as u32);
            }
            i += 1;
        }
        let ix = n as u32;
        self.strings.push(s.to_owned());
        self.map.insert(s.to_owned(), ix);
        proof {
            assert(!contains_str(old(self)@, s@));
            assert(self@ =~= old(self)@.push(s@));
        }
        Symbol(ix)
    }

    /// Returns the string a previously issued symbol stands for.
    pub fn resolve(&self, symbol: Symbol) -> (r: &str)
        requires
            symbol.0 < self@.len(),
        ensures
            r@ == self@[symbol.0 as int],
    {
        self.strings[symbol.0 as usize].as_str()
    }
}

/// Character-by-character string equality with an exact contract.
pub(crate) fn str_eq(a: &str, b: &str) -> (r: bool)
    ensures
        r == (a@ == b@),
{
    let n = a.unicode_len();
    if n != b.unicode_len() {
        return false;
    }
    let mut i: usize = 0;
    while i < n
        invariant
            i <= n,
            n == a@.len(),
            n == b@.len(),
            forall|j: int| 0 <= j < i ==> a@[j] == b@[j],
        decreases n - i,
    {
        if a.get_char(i) != b.get_char(i) {
            return false;
        }
        i += 1;
    }
    proof {
        assert(a@ =~= b@);
    }
    true
}

/// When a distinct table holds `s` at `i`, that is the index `index_of_str`
/// denotes.
proof fn lemma_index_of_present(m: Seq<Seq<char>>, s: Seq<char>, i: int)
    requires
        distinct_strs(m),
        0 <= i < m.len(),
        m[i] == s,
    ensures
        contains_str(m, s),
        index_of_str(m, s) == i,
{
    assert(contains_str(m, s));
    let j = index_of_str(m, s);
    if j != i {
        assert(m[j] == s);
        assert(false);
    }
}

/// Law: interning is idempotent. Interning a string and then interning equal
/// string content again yields the same symbol and leaves the table unchanged
/// the second time.
pub proof fn lemma_intern_idempotent(m: Seq<Seq<char>>, s: Seq<char>)
    requires
        distinct_strs(m),
    ensures
        spec_intern(spec_intern(m, s).0, s).0 == spec_intern(m, s).0,
        spec_intern(spec_intern(m, s).0, s).1 == spec_intern(m, s).1,
{
    if contains_str(m, s) {
    } else {
        let m1 = m.push(s);
        assert(m1[m.len() as int] == s);
        assert(contains_str(m1, s));
        assert(distinct_strs(m1)) by {
            assert forall|i: int, j: int| 0 <= i < j < m1.len() implies m1[i] != m1[j] by {
                if j == m.len() as int {
                    assert(m1[i] == m[i]);
                }
            }
        }
        lemma_index_of_present(m1, s, m.len() as int);
    }
}

/// Law: resolving the symbol `intern` returned yields string content equal to
/// what was interned; `resolve`'s postcondition reads the table at the
/// symbol's index, and `intern` leaves the interned string there.
pub proof fn lemma_intern_resolve(m: Seq<Seq<char>>, s: Seq<char>)
    ensures
        ({
            let (m1, i) = spec_intern(m, s);
            0 <= i < m1.len() && m1[i] == s
        }),
{
    if contains_str(m, s) {
        let i = index_of_str(m, s);
        assert(0 <= i < m.len() && m[i] == s);
    }
}

} // verus!
