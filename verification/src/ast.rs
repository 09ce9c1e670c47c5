//! The parsed RSScript program the analyses run over: declarations with
//! their spans, type references, statements and expressions.
use vstd::prelude::*;

verus! {

/// A source location.
#[derive(Clone, Debug, PartialEq, Eq, Hash, Default)]
pub struct Span {
    pub file: String,
    pub line: usize,
    pub column: usize,
    pub length: usize,
}

/// The access a parameter or receiver takes to a value.
#[derive(Clone, Copy, Debug, PartialEq, Eq)]
pub enum DataEffect {
    Read,
    Mut,
    Take,
}

/// A generic parameter bound.
#[derive(Clone, Debug, PartialEq, Eq)]
pub enum GenericBound {
    Managed,
    Struct,
    Resource,
    Protocol(String),
}

#[derive(Clone, Debug, PartialEq, Eq)]
pub struct GenericParam {
    pub name: String,
    pub bound: Option<GenericBound>,
    pub span: Span,
}

/// A written type: `owned Fn(read Int) -> List<T>`.
#[derive(Debug)]
pub struct TypeRef {
    pub name: String,
    pub args: Vec<TypeRef>,
    pub fn_params: Vec<TypeRef>,
    pub fn_param_effects: Vec<Option<DataEffect>>,
    pub fn_return: Option<Box<TypeRef>>,
    pub is_fresh: bool,
    pub is_noescape: bool,
    pub is_owned: bool,
    pub malformed_arg_spans: Vec<Span>,
    pub span: Span,
}

#[derive(Debug)]
pub struct Param {
    pub name: String,
    pub ty: TypeRef,
    pub effect: Option<DataEffect>,
    pub span: Span,
}

#[derive(Debug)]
pub struct Block {
    pub statements: Vec<Stmt>,
    pub span: Span,
}

#[derive(Debug)]
pub struct FunctionDecl {
    pub name: String,
    pub lower_name: Option<String>,
    pub type_params: Vec<GenericParam>,
    pub params: Vec<Param>,
    pub return_ty: Option<TypeRef>,
    pub body: Block,
    pub has_body: bool,
    pub is_async: bool,
    pub is_public: bool,
    pub malformed_generic_param_spans: Vec<Span>,
    pub malformed_param_spans: Vec<Span>,
    pub span: Span,
}

/// The representation a declared type chooses.
#[derive(Clone, Copy, Debug, PartialEq, Eq)]
pub enum TypeKind {
    Struct,
    Class,
    Resource,
}

#[derive(Debug)]
pub struct FieldDecl {
    pub name: String,
    pub ty: TypeRef,
    pub is_handle: bool,
    pub is_weak: bool,
    pub span: Span,
}

#[derive(Debug)]
pub struct TypeDecl {
    pub name: String,
    pub kind: TypeKind,
    pub derives: Vec<String>,
    pub type_params: Vec<GenericParam>,
    pub fields: Vec<FieldDecl>,
    pub is_opaque: bool,
    pub drop_body: Option<Block>,
    pub malformed_generic_param_spans: Vec<Span>,
    pub malformed_field_spans: Vec<Span>,
    pub span: Span,
}

#[derive(Debug)]
pub struct VariantDecl {
    pub name: String,
    pub fields: Vec<FieldDecl>,
    pub span: Span,
}

#[derive(Debug)]
pub struct SumTypeDecl {
    pub name: String,
    pub derives: Vec<String>,
    pub type_params: Vec<GenericParam>,
    pub variants: Vec<VariantDecl>,
    pub span: Span,
}

#[derive(Debug)]
pub struct TypeAliasDecl {
    pub name: String,
    pub type_params: Vec<GenericParam>,
    pub target: TypeRef,
    pub span: Span,
}

#[derive(Debug)]
pub struct ConstDecl {
    pub name: String,
    pub value: Expr,
    pub span: Span,
}

#[derive(Clone, Debug, PartialEq, Eq)]
pub struct ModuleDecl {
    pub name: String,
    pub span: Span,
}

#[derive(Clone, Debug, PartialEq, Eq)]
pub struct UseDecl {
    pub path: String,
    pub span: Span,
}

/// A top-level declaration.
#[derive(Debug)]
pub enum Item {
    Module(ModuleDecl),
    Use(UseDecl),
    Type(TypeDecl),
    SumType(SumTypeDecl),
    TypeAlias(TypeAliasDecl),
    Const(ConstDecl),
    Function(FunctionDecl),
}

#[derive(Clone, Debug, PartialEq, Eq)]
pub struct ProtocolDecl {
    pub name: String,
    pub span: Span,
}

#[derive(Clone, Debug, PartialEq, Eq)]
pub struct ProtocolMapping {
    pub method: String,
    pub target: String,
    pub span: Span,
}

#[derive(Clone, Debug, PartialEq, Eq)]
pub struct ProtocolImpl {
    pub protocol: String,
    pub for_type: String,
    pub mappings: Vec<ProtocolMapping>,
    pub span: Span,
}

/// One parsed file, or several merged.
#[derive(Debug)]
pub struct Program {
    pub items: Vec<Item>,
    pub unknown_top_level_spans: Vec<Span>,
    pub malformed_declaration_spans: Vec<Span>,
    pub protocols: Vec<ProtocolDecl>,
    pub protocol_impls: Vec<ProtocolImpl>,
}

#[derive(Clone, Copy, Debug, PartialEq, Eq)]
pub enum BinaryOp {
    Add,
    Sub,
    Mul,
    Div,
    Rem,
    Eq,
    Ne,
    Lt,
    Le,
    Gt,
    Ge,
    And,
    Or,
}

/// The callee of a call expression.
#[derive(Debug)]
pub enum Callee {
    Name(String),
    Qualified { namespace: String, name: String },
    ReceiverCall { receiver: Box<Expr>, method: String, effect: Option<DataEffect> },
}

#[derive(Debug)]
pub struct CallArg {
    pub name: Option<String>,
    pub value: Expr,
    pub malformed: bool,
    pub span: Span,
}

#[derive(Debug)]
pub struct ObjectField {
    pub name: String,
    pub value: Expr,
}

#[derive(Debug)]
pub struct MapEntry {
    pub key: Expr,
    pub value: Expr,
}

#[derive(Debug)]
pub struct FieldPattern {
    pub name: String,
    pub pattern: Option<Box<MatchPattern>>,
}

/// A `match` arm pattern.
#[derive(Debug)]
pub enum MatchPattern {
    Binding { name: String, span: Span },
    Wildcard(Span),
    Variant { name: String, bindings: Vec<MatchPattern>, span: Span },
    Struct { name: String, fields: Vec<FieldPattern>, span: Span },
    List { prefix: Vec<MatchPattern>, rest: Option<String>, suffix: Vec<MatchPattern>, span: Span },
    Literal { value: String, span: Span },
}

#[derive(Debug)]
pub struct MatchArm {
    pub pattern: MatchPattern,
    pub body: Block,
    pub span: Span,
}

/// An expression.
#[derive(Debug)]
pub enum Expr {
    Ident(String, Span),
    Number(String, Span),
    String(String, Span),
    CharLiteral(String, Span),
    MultilineString(String, Span),
    Binary { op: BinaryOp, left: Box<Expr>, right: Box<Expr>, span: Span },
    Field { base: Box<Expr>, name: String, span: Span },
    Index { base: Box<Expr>, index: Box<Expr>, span: Span },
    Call { callee: Callee, args: Vec<CallArg>, span: Span },
    Effect { effect: DataEffect, value: Box<Expr>, span: Span },
    Manage { value: Box<Expr>, span: Span },
    Spawn { value: Box<Expr>, span: Span },
    Await { value: Box<Expr>, span: Span },
    Try { value: Box<Expr>, span: Span },
    Closure { params: Vec<Param>, body: Block, span: Span },
    Match { value: Box<Expr>, arms: Vec<MatchArm>, malformed_arm_spans: Vec<Span>, span: Span },
    ObjectLiteral { fields: Vec<ObjectField>, span: Span },
    MapLiteral { entries: Vec<MapEntry>, span: Span },
    ArrayLiteral { items: Vec<Expr>, span: Span },
    Unknown(Span),
}

#[derive(Debug)]
pub struct LetStmt {
    pub name: String,
    pub is_async: bool,
    pub is_mut: bool,
    pub malformed: bool,
    pub type_annotation: Option<TypeRef>,
    pub value: Option<Expr>,
    pub span: Span,
}

#[derive(Debug)]
pub struct ReturnStmt {
    pub value: Option<Expr>,
    pub span: Span,
}

#[derive(Debug)]
pub struct WithStmt {
    pub resource: Expr,
    pub binding: String,
    pub body: Block,
    pub span: Span,
}

#[derive(Debug)]
pub struct IfStmt {
    pub condition: Expr,
    pub then_body: Block,
    pub else_body: Option<Block>,
    pub span: Span,
}

#[derive(Debug)]
pub struct LoopStmt {
    pub condition: Option<Expr>,
    pub body: Block,
    pub span: Span,
}

#[derive(Debug)]
pub struct ForStmt {
    pub binding: String,
    pub iterable: Expr,
    pub body: Block,
    pub span: Span,
}

#[derive(Debug)]
pub struct TaskGroupStmt {
    pub body: Block,
    pub span: Span,
}

#[derive(Debug)]
pub struct SelectArm {
    pub binding: String,
    pub operation: Expr,
    pub body: Block,
    pub span: Span,
}

#[derive(Debug)]
pub struct SelectStmt {
    pub arms: Vec<SelectArm>,
    pub span: Span,
}

#[derive(Debug)]
pub struct MatchStmt {
    pub value: Expr,
    pub arms: Vec<MatchArm>,
    pub malformed_arm_spans: Vec<Span>,
    pub span: Span,
}

#[derive(Debug)]
pub struct LetElseStmt {
    pub pattern: MatchPattern,
    pub value: Expr,
    pub else_body: Block,
    pub span: Span,
}

#[derive(Debug)]
pub struct AssignStmt {
    pub target: Expr,
    pub value: Expr,
    pub span: Span,
}

/// A statement.
#[derive(Debug)]
pub enum Stmt {
    Let(LetStmt),
    Return(ReturnStmt),
    With(WithStmt),
    MalformedWith(Span),
    If(IfStmt),
    MalformedIf(Span),
    Loop(LoopStmt),
    MalformedLoop(Span),
    For(ForStmt),
    MalformedFor(Span),
    TaskGroup(TaskGroupStmt),
    Select(SelectStmt),
    Match(MatchStmt),
    MalformedMatch(Span),
    LetElse(LetElseStmt),
    Assign(AssignStmt),
    Expr(Expr),
    Break(Span),
    Continue(Span),
    Unknown(Span),
}

impl DataEffect {
    pub open spec fn spec_text(self) -> Seq<char> {
        match self {
            DataEffect::Read => "read"@,
            DataEffect::Mut => "mut"@,
            DataEffect::Take => "take"@,
        }
    }

    /// The keyword that spells this effect.
    pub fn as_str(&self) -> (r: &'static str)
        ensures
            r@ == self.spec_text(),
    {
        match self {
            DataEffect::Read => "read",
            DataEffect::Mut => "mut",
            DataEffect::Take => "take",
        }
    }
}

impl Span {
    pub fn clone_span(&self) -> (r: Span)
        ensures
            r == *self,
    {
        Span { file: self.file.clone(), line: self.line, column: self.column, length: self.length }
    }
}

} // verus!
