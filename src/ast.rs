//! The syntax tree the walker classifies: the constructs that carry
//! categories, each with the byte ranges of its tokens in the source text.
//! Constructs without categories are kept as `Other` and walked as no-ops.
use vstd::prelude::*;

verus! {

/// A half-open byte range `[start, end)` of the source text.
#[derive(Clone, Copy, Debug, PartialEq, Eq, Structural)]
pub struct Span {
    pub start: usize,
    pub end: usize,
}

/// A parsed source unit: its statements in order (items are statements).
#[derive(Debug)]
pub struct File {
    pub stmts: Vec<Stmt>,
}

#[derive(Debug)]
pub enum Item {
    Fn(ItemFn),
    Enum(ItemEnum),
    Use(ItemUse),
    Other,
}

/// `pub`, `pub(crate)`, ... or nothing.
#[derive(Clone, Copy, Debug)]
pub enum Visibility {
    Inherited,
    Visible(Span),
}

#[derive(Debug)]
pub struct ItemFn {
    pub vis: Visibility,
    pub sig: Signature,
    pub block: Block,
}

/// `extern "C"`: the keyword and its optional string label.
#[derive(Clone, Copy, Debug)]
pub struct Abi {
    pub extern_token: Span,
    pub name: Option<Span>,
}

#[derive(Debug)]
pub struct Signature {
    pub constness: Option<Span>,
    pub asyncness: Option<Span>,
    pub unsafety: Option<Span>,
    pub abi: Option<Abi>,
    pub fn_token: Span,
    pub ident: Span,
    pub inputs: Vec<FnArg>,
    pub output: Option<Box<Type>>,
}

#[derive(Debug)]
pub enum FnArg {
    Receiver { self_token: Span, mutability: Option<Span>, lifetime: Option<Span> },
    Typed(PatType),
}

#[derive(Debug)]
pub struct ItemEnum {
    pub vis: Visibility,
    pub enum_token: Span,
    pub ident: Span,
    pub variants: Vec<Variant>,
}

#[derive(Debug)]
pub struct Variant {
    pub ident: Span,
    pub discriminant: Option<Expr>,
}

#[derive(Debug)]
pub struct ItemUse {
    pub vis: Visibility,
    pub use_token: Span,
    pub tree: UseTree,
}

#[derive(Debug)]
pub enum UseTree {
    Path { ident: Span, tree: Box<UseTree> },
    Name { ident: Span },
    Rename { ident: Span, as_token: Span, rename: Span },
    Glob,
    Group(Vec<UseTree>),
}

#[derive(Debug)]
pub struct Block {
    pub stmts: Vec<Stmt>,
}

#[derive(Debug)]
pub enum Stmt {
    Local(Local),
    Expr(Expr),
    Macro(StmtMacro),
    Item(Item),
}

/// `let pat = init;`
#[derive(Debug)]
pub struct Local {
    pub let_token: Span,
    pub pat: Pat,
    pub init: Option<Expr>,
}

/// `path!(...)`: the path, the bang, and the string literals among the
/// macro's tokens.
#[derive(Debug)]
pub struct StmtMacro {
    pub path: Span,
    pub bang: Span,
    pub str_literals: Vec<Span>,
}

#[derive(Clone, Copy, Debug, PartialEq, Eq, Structural)]
pub enum LitKind {
    /// Strings, byte strings, C strings, bytes and chars.
    Str,
    /// Integers and floats.
    Num,
    Bool,
    Other,
}

#[derive(Clone, Copy, Debug)]
pub struct Lit {
    pub span: Span,
    pub kind: LitKind,
}

#[derive(Debug)]
pub enum Expr {
    Lit(Lit),
    ForLoop { for_token: Span, pat: Box<Pat>, in_token: Span, expr: Box<Expr>, body: Block },
    Unsafe { unsafe_token: Span, block: Block },
    MethodCall { receiver: Box<Expr>, method: Span, args: Vec<Expr> },
    Path(ExprPath),
    Reference { mutability: Option<Span>, expr: Box<Expr> },
    Unary(Box<Expr>),
    Binary { left: Box<Expr>, right: Box<Expr> },
    Try(Box<Expr>),
    If { if_token: Span, cond: Box<Expr>, then_branch: Block, else_branch: Option<ElseBranch> },
    Call { func: Box<Expr>, args: Vec<Expr> },
    Block(Block),
    Paren(Box<Expr>),
    Cast { expr: Box<Expr>, as_token: Span, ty: Box<Type> },
    Field { base: Box<Expr>, member: Member },
    Match { match_token: Span, expr: Box<Expr>, arms: Vec<Arm> },
    Tuple(Vec<Expr>),
    Other,
}

/// `else expr`, or an `if` guard of an arm: the keyword and its expression.
#[derive(Debug)]
pub struct ElseBranch {
    pub token: Span,
    pub expr: Box<Expr>,
}

#[derive(Clone, Copy, Debug)]
pub enum Member {
    Named(Span),
    Unnamed(Span),
}

#[derive(Debug)]
pub struct Arm {
    pub pat: Pat,
    pub guard: Option<ElseBranch>,
    pub body: Box<Expr>,
}

/// A path in expression or pattern position, with an optional `<T as Trait>`.
#[derive(Debug)]
pub struct ExprPath {
    pub qself: Option<QSelf>,
    pub path: Path,
}

#[derive(Debug)]
pub struct QSelf {
    pub ty: Box<Type>,
    pub as_token: Option<Span>,
}

#[derive(Debug)]
pub struct Path {
    pub segments: Vec<PathSegment>,
}

#[derive(Debug)]
pub struct PathSegment {
    pub ident: Span,
    pub arguments: PathArguments,
}

#[derive(Debug)]
pub enum PathArguments {
    Bare,
    AngleBracketed(Vec<GenericArgument>),
    Parenthesized { inputs: Vec<Type>, output: Option<Box<Type>> },
}

#[derive(Debug)]
pub enum GenericArgument {
    Type(Type),
    Lifetime(Span),
    Other,
}

#[derive(Debug)]
pub enum Pat {
    Ident { by_ref: Option<Span>, mutability: Option<Span>, ident: Span },
    Reference { mutability: Option<Span>, pat: Box<Pat> },
    Type(PatType),
    Path(ExprPath),
    Tuple(Vec<Pat>),
    TupleStruct { qself: Option<QSelf>, path: Path, elems: Vec<Pat> },
    Or(Vec<Pat>),
    Lit(Lit),
    /// Any other pattern (`_`, `..`, ranges, ...), classified as a whole.
    Other(Span),
}

/// `pat: ty`
#[derive(Debug)]
pub struct PatType {
    pub pat: Box<Pat>,
    pub ty: Box<Type>,
}

#[derive(Debug)]
pub enum Type {
    Reference { lifetime: Option<Span>, mutability: Option<Span>, elem: Box<Type> },
    Path { qself: Option<QSelf>, path: Path },
    Tuple(Vec<Type>),
    ImplTrait { impl_token: Span, bounds: Vec<TypeParamBound> },
    Other,
}

#[derive(Debug)]
pub enum TypeParamBound {
    Lifetime(Span),
    /// `use<'a, T>`
    PreciseCapture { use_token: Span, params: Vec<CapturedParam> },
    Other,
}

#[derive(Clone, Copy, Debug)]
pub enum CapturedParam {
    Ident(Span),
    Lifetime(Span),
}

} // verus!
