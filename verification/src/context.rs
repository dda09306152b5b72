//! The compiler context: one interner, one set of AST arenas, and an
//! append-only sequence of diagnostics, passed by reference through every
//! compiler pass.

use crate::ast::Ast;
use crate::common::{spec_intern, Interner, Span, Symbol};
use vstd::prelude::*;

verus! {

#[derive(Debug, Clone, Copy)]
pub enum DiagnosticLevel {
    Info,
    Warning,
    Error,
}

/// A leveled, spanned compiler message.
#[derive(Debug)]
pub struct Diagnostic {
    pub level: DiagnosticLevel,
    pub message: String,
    pub span: Span,
}

/// Process-scoped aggregate owning the interner, the AST arenas, and the
/// diagnostics recorded so far. Diagnostics are never removed, only appended.
pub struct CompilerCtx {
    pub interner: Interner,
    pub ast: Ast,
    pub diagnostics: Vec<Diagnostic>,
    pub target: String,
    pub current_pass: &'static str,
}

impl CompilerCtx {
    /// Well-formedness of the owned interner and arenas.
    pub open spec fn wf(&self) -> bool {
        &&& self.interner.wf()
        &&& self.ast.wf()
    }

    /// True when some recorded diagnostic is at `Error` level.
    pub open spec fn spec_has_errors(&self) -> bool {
        exists|i: int|
            0 <= i < self.diagnostics@.len() && (#[trigger] self.diagnostics@[i]).level is Error
    }

    pub fn new(target: &str, arena_chunk_size: usize) -> (ctx: CompilerCtx)
        requires
            arena_chunk_size >= 1,
        ensures
            ctx.wf(),
            ctx.interner@ == Seq::<Seq<char>>::empty(),
            ctx.ast.exprs@ == Seq::<crate::ast::Expr>::empty(),
            ctx.ast.stmts@ == Seq::<crate::ast::Stmt>::empty(),
            ctx.ast.type_specs@ == Seq::<crate::ast::TypeSpec>::empty(),
            ctx.ast.items@ == Seq::<crate::ast::Item>::empty(),
            ctx.ast.patterns@ == Seq::<crate::ast::Pattern>::empty(),
            ctx.ast.exprs.spec_chunk_size() == arena_chunk_size,
            ctx.ast.stmts.spec_chunk_size() == arena_chunk_size,
            ctx.ast.type_specs.spec_chunk_size() == arena_chunk_size,
            ctx.ast.items.spec_chunk_size() == arena_chunk_size,
            ctx.ast.patterns.spec_chunk_size() == arena_chunk_size,
            ctx.diagnostics@ == Seq::<Diagnostic>::empty(),
            ctx.target@ == target@,
            ctx.current_pass@ == "Init"@,
            !ctx.spec_has_errors(),
    {
        CompilerCtx {
            interner: Interner::new(),
            ast: Ast::new(arena_chunk_size),
            diagnostics: Vec::new(),
            target: target.to_owned(),
            current_pass: "Init",
        }
    }

    /// Appends one diagnostic; everything recorded before stays in place.
    pub fn report(&mut self, level: DiagnosticLevel, message: &str, span: Span)
        ensures
            final(self).diagnostics@.len() == old(self).diagnostics@.len() + 1,
            forall|i: int|
                0 <= i < old(self).diagnostics@.len() ==> final(self).diagnostics@[i] == old(
                    self,
                ).diagnostics@[i],
            final(self).diagnostics@.last().level == level,
            final(self).diagnostics@.last().message@ == message@,
            final(self).diagnostics@.last().span == span,
            final(self).interner == old(self).interner,
            final(self).ast == old(self).ast,
            final(self).target == old(self).target,
            final(self).current_pass == old(self).current_pass,
    {
        self.diagnostics.push(Diagnostic { level, message: message.to_owned(), span })
    }

    /// Interns through the owned interner; see [`Interner::intern`].
    pub fn intern(&mut self, s: &str) -> (sym: Symbol)
        requires
            old(self).interner.wf(),
            old(self).interner@.len() < u32::MAX,
        ensures
            final(self).interner.wf(),
            final(self).interner@ == spec_intern(old(self).interner@, s@).0,
            sym.0 as int == spec_intern(old(self).interner@, s@).1,
            final(self).interner@[sym.0 as int] == s@,
            final(self).ast == old(self).ast,
            final(self).diagnostics == old(self).diagnostics,
            final(self).target == old(self).target,
            final(self).current_pass == old(self).current_pass,
    {
        self.interner.intern(s)
    }

    /// True when any `Error`-level diagnostic has been recorded, which marks
    /// the compilation as failed.
    pub fn has_errors(&self) -> (b: bool)
        ensures
            b == self.spec_has_errors(),
    {
        let n = self.diagnostics.len();
        let mut i: usize = 0;
        while i < n
            invariant
                i <= n,
                n == self.diagnostics@.len(),
                forall|j: int| 0 <= j < i ==> !((#[trigger] self.diagnostics@[j]).level is Error),
            decreases n - i,
        {
            if matches!(self.diagnostics[i].level, DiagnosticLevel::Error) {
                return true;
            }
            i += 1;
        }
        false
    }
}

} // verus!
