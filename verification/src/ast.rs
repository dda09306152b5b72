//! The AST node model: the node-kind variants for expressions, statements,
//! items, type specifications and patterns, the cross-arena handles that
//! connect them, and the aggregate holding one arena per node family.
//!
//! Cross-references between nodes are always [`NodeId`] values stored by
//! value, never native references, so the tree is a graph over arena indices
//! with no lifetime entanglement.

use crate::arena::{Arena, NodeId};
use crate::common::{Span, Symbol};
use vstd::prelude::*;

verus! {

pub type ExprId = NodeId<Expr>;

pub type StmtId = NodeId<Stmt>;

pub type ItemId = NodeId<Item>;

pub type TypeSpecId = NodeId<TypeSpec>;

pub type PatternId = NodeId<Pattern>;

#[derive(Debug, Clone)]
pub enum BinaryOp {
    Add,
    Sub,
    Mul,
    Div,
    Mod,
    Eq,
    Ne,
    Lt,
    LtEq,
    Gt,
    GtEq,
    And,
    Or,
}

#[derive(Debug, Clone)]
pub enum UnaryOp {
    Neg,
    Not,
    Deref,
    Ref,
    AddressOf,
}

#[derive(Debug, Clone)]
pub enum AssignOp {
    Assign,
    Add,
    Sub,
    Mul,
    Div,
}

/// A literal value. A float literal carries its decimal digit text (for
/// example `"6000.9"`), exactly as scanned, so that no rounding is baked into
/// the tree.
#[derive(Debug, Clone)]
pub enum Literal {
    Int(i64),
    Float(String),
    Bool(bool),
    String(String),
    Null,
}

#[derive(Debug, Clone)]
pub enum ExprKind {
    Literal(Literal),
    Identifier(Symbol),
    Paren(ExprId),
    Block { stmts: Vec<StmtId>, yield_expr: Option<ExprId> },
    If { cond: ExprId, then_branch: ExprId, else_branch: Option<ExprId> },
    Match { target: ExprId, cases: Vec<MatchCase> },
    Loop { body: ExprId },
    While { cond: ExprId, body: ExprId, else_branch: Option<ExprId> },
    For { binding: Symbol, iterable: ExprId, body: ExprId, else_branch: Option<ExprId> },
    Return(Option<ExprId>),
    Break(Option<ExprId>),
    Continue,
    Binary { lhs: ExprId, op: BinaryOp, rhs: ExprId },
    Assign { target: ExprId, op: AssignOp, value: ExprId },
    Pipeline { lhs: ExprId, rhs: ExprId },
    Cast { target: ExprId, target_type: TypeSpecId },
    Unary { op: UnaryOp, operand: ExprId },
    Call { callee: ExprId, args: Vec<ExprId> },
    MemberAccess { expr: ExprId, member: Symbol },
    IndexAccess { expr: ExprId, index: ExprId },
    Error,
}

#[derive(Debug, Clone)]
pub struct MatchCase {
    pub pattern: PatternId,
    pub body: ExprId,
}

#[derive(Debug, Clone)]
pub struct Expr {
    pub kind: ExprKind,
    pub span: Span,
    pub ty: Option<TypeSpecId>,
}

#[derive(Debug, Clone)]
pub enum StmtKind {
    VarDecl { is_mutable: bool, name: Symbol, ty: Option<TypeSpecId>, init: VarInit },
    Defer(ExprId),
    Expr(ExprId),
}

#[derive(Debug, Clone)]
pub enum VarInit {
    Expr(ExprId),
    Undefined,
}

#[derive(Debug, Clone)]
pub struct Stmt {
    pub kind: StmtKind,
    pub span: Span,
}

#[derive(Debug, Clone)]
pub enum Pattern {
    Literal(Literal),
    Identifier(Symbol),
    Wildcard,
}

#[derive(Debug, Clone)]
pub enum TypeSpecKind {
    Named(Symbol),
    Pointer(TypeSpecId),
    Reference(TypeSpecId),
    Optional(TypeSpecId),
    Array { size: ExprId, elem_ty: TypeSpecId },
    Slice(TypeSpecId),
    Fn { param: Vec<TypeSpecId>, return_ty: TypeSpecId },
    Paren(TypeSpecId),
}

#[derive(Debug, Clone)]
pub struct TypeSpec {
    pub kind: TypeSpecKind,
    pub span: Span,
}

#[derive(Debug, Clone)]
pub enum ItemKind {
    FnDecl { name: Symbol, params: Vec<Param>, ret_ty: Option<TypeSpecId>, body: ExprId },
    StructDecl { name: Symbol, fields: Vec<StructField> },
    EnumDecl { name: Symbol, backing_ty: Option<TypeSpecId>, variants: Vec<EnumVariant> },
    UnionDecl { name: Symbol, variants: Vec<UnionVariant> },
    ImplDecl { self_ty: TypeSpecId, methods: Vec<ItemId> },
    ConstDecl { name: Symbol, ty: TypeSpecId, expr: ExprId },
    ExternDecl { api: String, declarations: Vec<FnSig> },
}

#[derive(Debug, Clone)]
pub struct Param {
    pub name: Symbol,
    pub ty: TypeSpecId,
}

#[derive(Debug, Clone)]
pub struct StructField {
    pub name: Symbol,
    pub ty: TypeSpecId,
}

#[derive(Debug, Clone)]
pub struct EnumVariant {
    pub name: Symbol,
    pub value: Option<i64>,
}

#[derive(Debug, Clone)]
pub struct UnionVariant {
    pub name: Symbol,
    pub data: Option<UnionVariantData>,
}

#[derive(Debug, Clone)]
pub enum UnionVariantData {
    Tuple(Vec<TypeSpecId>),
    Struct(Vec<StructField>),
}

#[derive(Debug, Clone)]
pub struct FnSig {
    pub name: Symbol,
    pub params: Vec<Param>,
    pub return_ty: Option<TypeSpecId>,
}

#[derive(Debug, Clone)]
pub struct Item {
    pub kind: ItemKind,
    pub span: Span,
}

/// One arena per node family.
pub struct Ast {
    pub exprs: Arena<Expr>,
    pub stmts: Arena<Stmt>,
    pub type_specs: Arena<TypeSpec>,
    pub items: Arena<Item>,
    pub patterns: Arena<Pattern>,
}

impl Ast {
    /// Well-formedness: every node arena is well formed.
    pub open spec fn wf(&self) -> bool {
        &&& self.exprs.wf()
        &&& self.stmts.wf()
        &&& self.type_specs.wf()
        &&& self.items.wf()
        &&& self.patterns.wf()
    }

    /// Creates empty node arenas, each with the given chunk capacity.
    pub fn new(chunk_size: usize) -> (ast: Ast)
        requires
            chunk_size >= 1,
        ensures
            ast.wf(),
            ast.exprs@ == Seq::<Expr>::empty(),
            ast.stmts@ == Seq::<Stmt>::empty(),
            ast.type_specs@ == Seq::<TypeSpec>::empty(),
            ast.items@ == Seq::<Item>::empty(),
            ast.patterns@ == Seq::<Pattern>::empty(),
            ast.exprs.spec_chunk_size() == chunk_size,
            ast.stmts.spec_chunk_size() == chunk_size,
            ast.type_specs.spec_chunk_size() == chunk_size,
            ast.items.spec_chunk_size() == chunk_size,
            ast.patterns.spec_chunk_size() == chunk_size,
    {
        Ast {
            exprs: Arena::new(chunk_size),
            stmts: Arena::new(chunk_size),
            type_specs: Arena::new(chunk_size),
            items: Arena::new(chunk_size),
            patterns: Arena::new(chunk_size),
        }
    }
}

} // verus!
