use frontend_core::ast::Pattern;
use frontend_core::common::Span;
use frontend_core::context::{CompilerCtx, DiagnosticLevel};

#[test]
fn test_new_context_is_clean() {
    let ctx = CompilerCtx::new("x86_64", 16);
    assert_eq!(ctx.target, "x86_64");
    assert_eq!(ctx.current_pass, "Init");
    assert!(ctx.diagnostics.is_empty());
    assert!(!ctx.has_errors());
}

#[test]
fn test_infos_and_warnings_are_not_errors() {
    let mut ctx = CompilerCtx::new("t", 8);
    ctx.report(DiagnosticLevel::Info, "note", Span::new(0, 1));
    ctx.report(DiagnosticLevel::Warning, "careful", Span::new(1, 2));
    assert_eq!(ctx.diagnostics.len(), 2);
    assert!(!ctx.has_errors());
}

#[test]
fn test_error_marks_compilation_failed() {
    let mut ctx = CompilerCtx::new("t", 8);
    ctx.report(DiagnosticLevel::Warning, "careful", Span::new(0, 1));
    ctx.report(DiagnosticLevel::Error, "broken", Span::new(4, 9));
    ctx.report(DiagnosticLevel::Info, "note", Span::new(9, 10));
    assert!(ctx.has_errors());
    // Diagnostics are appended in order and never removed.
    assert_eq!(ctx.diagnostics.len(), 3);
    assert!(matches!(ctx.diagnostics[1].level, DiagnosticLevel::Error));
    assert_eq!(ctx.diagnostics[1].message, "broken");
    assert_eq!(ctx.diagnostics[1].span, Span::new(4, 9));
}

#[test]
fn test_context_interns_through_its_interner() {
    let mut ctx = CompilerCtx::new("t", 4);
    let a = ctx.intern("name");
    let b = ctx.intern("name");
    assert_eq!(a, b);
    assert_eq!(ctx.interner.resolve(a), "name");
}

#[test]
fn test_context_owns_empty_arenas() {
    let ctx = CompilerCtx::new("t", 4);
    assert!(ctx.ast.exprs.is_empty());
    assert!(ctx.ast.stmts.is_empty());
    assert!(ctx.ast.type_specs.is_empty());
    assert!(ctx.ast.items.is_empty());
    assert!(ctx.ast.patterns.is_empty());
}

#[test]
fn test_context_arenas_use_the_given_chunk_size() {
    let mut ctx = CompilerCtx::new("t", 2);
    ctx.ast.patterns.allocate(Pattern::Wildcard);
    ctx.ast.patterns.allocate(Pattern::Wildcard);
    ctx.ast.patterns.allocate(Pattern::Wildcard);
    assert_eq!(ctx.ast.patterns.sealed_chunk_count(), 1);
    assert_eq!(ctx.ast.patterns.len(), 3);
    assert_eq!(ctx.ast.stmts.sealed_chunk_count(), 0);
}
