//! The tree walker. Walking a construct emits, in source order, the tags its
//! tokens receive. A tag either fixes a category, declares a name (the
//! category is also remembered for the name's text), or defers the category
//! of a bare name to the resolver (kind `NeedIdentification`).
use vstd::prelude::*;
use crate::ast::{
    Abi, Arm, Block, CapturedParam, ElseBranch, Expr, ExprPath, File, FnArg, GenericArgument, Item,
    ItemEnum, ItemFn, ItemUse, Lit, LitKind, Local, Member, Pat, PatType, Path, PathArguments,
    PathSegment, QSelf, Signature, Span, Stmt, StmtMacro, Type, TypeParamBound, UseTree, Variant,
    Visibility,
};
use crate::tokens::{SpannedToken, TokenTag};

verus! {

/// One tag emitted by the walker.
#[derive(Clone, Copy, Debug, PartialEq, Eq, Structural)]
pub struct Event {
    pub token: SpannedToken,
    /// The tagged text is a declaration: its category is remembered.
    pub declares: bool,
}

pub open spec fn tag(sp: Span, k: TokenTag) -> Seq<Event> {
    seq![Event { token: SpannedToken { kind: k, start: sp.start, end: sp.end }, declares: false }]
}

pub open spec fn declare(sp: Span, k: TokenTag) -> Seq<Event> {
    seq![Event { token: SpannedToken { kind: k, start: sp.start, end: sp.end }, declares: true }]
}

pub open spec fn opt_tag(o: Option<Span>, k: TokenTag) -> Seq<Event> {
    match o {
        Some(sp) => tag(sp, k),
        None => seq![],
    }
}

pub open spec fn tags(s: Seq<Span>, k: TokenTag) -> Seq<Event>
    decreases s.len(),
{
    if s.len() == 0 {
        seq![]
    } else {
        tags(s.drop_last(), k) + tag(s.last(), k)
    }
}

pub open spec fn file_events(f: File) -> Seq<Event> {
    stmts_events(f.stmts@)
}

pub open spec fn item_events(i: Item) -> Seq<Event>
    decreases i,
{
    match i {
        Item::Fn(f) => fn_events(f),
        Item::Enum(e) => enum_events(e),
        Item::Use(u) => use_events(u),
        Item::Other => seq![],
    }
}

pub open spec fn vis_events(v: Visibility) -> Seq<Event> {
    match v {
        Visibility::Inherited => seq![],
        Visibility::Visible(sp) => tag(sp, TokenTag::Keyword),
    }
}

/// Function item: visibility, signature, body.
pub open spec fn fn_events(f: ItemFn) -> Seq<Event>
    decreases f,
{
    vis_events(f.vis) + sig_events(f.sig) + block_events(f.block)
}

pub open spec fn abi_events(a: Option<Abi>) -> Seq<Event> {
    match a {
        Some(abi) => tag(abi.extern_token, TokenTag::Keyword) + opt_tag(abi.name, TokenTag::LitStr),
        None => seq![],
    }
}

/// Qualifiers, `extern` and its label, `fn`, the declared name, the
/// parameters and the return type.
pub open spec fn sig_events(s: Signature) -> Seq<Event>
    decreases s,
{
    opt_tag(s.constness, TokenTag::Keyword) + opt_tag(s.asyncness, TokenTag::Keyword) + opt_tag(
        s.unsafety,
        TokenTag::Keyword,
    ) + abi_events(s.abi) + tag(s.fn_token, TokenTag::Keyword) + declare(
        s.ident,
        TokenTag::Function,
    ) + fn_args_events(s.inputs@) + opt_type_events(s.output)
}

pub open spec fn fn_args_events(s: Seq<FnArg>) -> Seq<Event>
    decreases s,
{
    if s.len() == 0 {
        seq![]
    } else {
        fn_args_events(s.drop_last()) + fn_arg_events(s.last())
    }
}

pub open spec fn fn_arg_events(a: FnArg) -> Seq<Event>
    decreases a,
{
    match a {
        FnArg::Receiver { self_token, mutability, lifetime } => tag(
            self_token,
            TokenTag::SelfToken,
        ) + opt_tag(mutability, TokenTag::Keyword) + opt_tag(lifetime, TokenTag::LifeTime),
        FnArg::Typed(pt) => pat_type_events(pt),
    }
}

pub open spec fn opt_type_events(o: Option<Box<Type>>) -> Seq<Event>
    decreases o,
{
    match o {
        Some(t) => type_events(*t),
        None => seq![],
    }
}

/// Enum item: `enum`, the type name and each variant name are declared.
pub open spec fn enum_events(e: ItemEnum) -> Seq<Event>
    decreases e,
{
    vis_events(e.vis) + tag(e.enum_token, TokenTag::Keyword) + declare(e.ident, TokenTag::Type)
        + variants_events(e.variants@)
}

pub open spec fn variants_events(s: Seq<Variant>) -> Seq<Event>
    decreases s,
{
    if s.len() == 0 {
        seq![]
    } else {
        variants_events(s.drop_last()) + variant_events(s.last())
    }
}

pub open spec fn variant_events(v: Variant) -> Seq<Event>
    decreases v,
{
    declare(v.ident, TokenTag::Enum) + opt_expr_events(v.discriminant)
}

pub open spec fn use_events(u: ItemUse) -> Seq<Event>
    decreases u,
{
    vis_events(u.vis) + tag(u.use_token, TokenTag::Keyword) + use_tree_events(u.tree)
}

pub open spec fn use_tree_events(t: UseTree) -> Seq<Event>
    decreases t,
{
    match t {
        UseTree::Path { ident, tree } => tag(ident, TokenTag::Segment) + use_tree_events(*tree),
        UseTree::Name { ident } => tag(ident, TokenTag::NeedIdentification),
        UseTree::Rename { ident, as_token, rename } => tag(ident, TokenTag::Segment) + tag(
            as_token,
            TokenTag::Keyword,
        ) + tag(rename, TokenTag::Segment),
        UseTree::Glob => seq![],
        UseTree::Group(items) => use_trees_events(items@),
    }
}

pub open spec fn use_trees_events(s: Seq<UseTree>) -> Seq<Event>
    decreases s,
{
    if s.len() == 0 {
        seq![]
    } else {
        use_trees_events(s.drop_last()) + use_tree_events(s.last())
    }
}

pub open spec fn block_events(b: Block) -> Seq<Event>
    decreases b,
{
    stmts_events(b.stmts@)
}

pub open spec fn stmts_events(s: Seq<Stmt>) -> Seq<Event>
    decreases s,
{
    if s.len() == 0 {
        seq![]
    } else {
        stmts_events(s.drop_last()) + stmt_events(s.last())
    }
}

pub open spec fn stmt_events(s: Stmt) -> Seq<Event>
    decreases s,
{
    match s {
        Stmt::Local(l) => local_events(l),
        Stmt::Expr(e) => expr_events(e),
        Stmt::Macro(m) => macro_events(m),
        Stmt::Item(i) => item_events(i),
    }
}

/// `let`, the bound pattern, and the initializer if any.
pub open spec fn local_events(l: Local) -> Seq<Event>
    decreases l,
{
    tag(l.let_token, TokenTag::Keyword) + pat_events(l.pat) + opt_expr_events(l.init)
}

/// The macro's path through its bang is one macro span; string literals in
/// its tokens are tagged.
pub open spec fn macro_events(m: StmtMacro) -> Seq<Event> {
    tag(Span { start: m.path.start, end: m.bang.end }, TokenTag::Macro) + tags(
        m.str_literals@,
        TokenTag::LitStr,
    )
}

pub open spec fn lit_events(l: Lit) -> Seq<Event> {
    match l.kind {
        LitKind::Str => tag(l.span, TokenTag::LitStr),
        LitKind::Num => tag(l.span, TokenTag::LitNum),
        LitKind::Bool => tag(l.span, TokenTag::LitBool),
        LitKind::Other => seq![],
    }
}

pub open spec fn opt_expr_events(o: Option<Expr>) -> Seq<Event>
    decreases o,
{
    match o {
        Some(e) => expr_events(e),
        None => seq![],
    }
}

pub open spec fn exprs_events(s: Seq<Expr>) -> Seq<Event>
    decreases s,
{
    if s.len() == 0 {
        seq![]
    } else {
        exprs_events(s.drop_last()) + expr_events(s.last())
    }
}

pub open spec fn branch_events(b: ElseBranch) -> Seq<Event>
    decreases b,
{
    tag(b.token, TokenTag::Keyword) + expr_events(*b.expr)
}

pub open spec fn opt_branch_events(o: Option<ElseBranch>) -> Seq<Event>
    decreases o,
{
    match o {
        Some(b) => branch_events(b),
        None => seq![],
    }
}

pub open spec fn member_events(m: Member) -> Seq<Event> {
    match m {
        Member::Named(sp) => tag(sp, TokenTag::Ident),
        Member::Unnamed(sp) => tag(sp, TokenTag::LitNum),
    }
}

pub open spec fn expr_events(e: Expr) -> Seq<Event>
    decreases e,
{
    match e {
        Expr::Lit(l) => lit_events(l),
        Expr::ForLoop { for_token, pat, in_token, expr, body } => tag(for_token, TokenTag::Keyword)
            + pat_events(*pat) + tag(in_token, TokenTag::Keyword) + expr_events(*expr)
            + block_events(body),
        Expr::Unsafe { unsafe_token, block } => tag(unsafe_token, TokenTag::Keyword) + block_events(
            block,
        ),
        Expr::MethodCall { receiver, method, args } => expr_events(*receiver) + tag(
            method,
            TokenTag::Function,
        ) + exprs_events(args@),
        Expr::Path(p) => expr_path_events(p),
        Expr::Reference { mutability, expr } => opt_tag(mutability, TokenTag::Keyword)
            + expr_events(*expr),
        Expr::Unary(x) => expr_events(*x),
        Expr::Binary { left, right } => expr_events(*left) + expr_events(*right),
        Expr::Try(x) => expr_events(*x),
        Expr::If { if_token, cond, then_branch, else_branch } => tag(if_token, TokenTag::Keyword)
            + expr_events(*cond) + block_events(then_branch) + opt_branch_events(else_branch),
        Expr::Call { func, args } => expr_events(*func) + exprs_events(args@),
        Expr::Block(b) => block_events(b),
        Expr::Paren(x) => expr_events(*x),
        Expr::Cast { expr, as_token, ty } => expr_events(*expr) + tag(as_token, TokenTag::Keyword)
            + type_events(*ty),
        Expr::Field { base, member } => expr_events(*base) + member_events(member),
        Expr::Match { match_token, expr, arms } => tag(match_token, TokenTag::Keyword)
            + expr_events(*expr) + arms_events(arms@),
        Expr::Tuple(elems) => exprs_events(elems@),
        Expr::Other => seq![],
    }
}

pub open spec fn arm_events(a: Arm) -> Seq<Event>
    decreases a,
{
    pat_events(a.pat) + opt_branch_events(a.guard) + expr_events(*a.body)
}

pub open spec fn arms_events(s: Seq<Arm>) -> Seq<Event>
    decreases s,
{
    if s.len() == 0 {
        seq![]
    } else {
        arms_events(s.drop_last()) + arm_events(s.last())
    }
}

/// A path whose role is not fixed by its position: its last segment is
/// deferred.
pub open spec fn expr_path_events(p: ExprPath) -> Seq<Event>
    decreases p,
{
    opt_qself_events(p.qself) + path_events(p.path, None)
}

pub open spec fn opt_qself_events(o: Option<QSelf>) -> Seq<Event>
    decreases o,
{
    match o {
        Some(q) => type_events(*q.ty) + opt_tag(q.as_token, TokenTag::Keyword),
        None => seq![],
    }
}

/// Every segment but the last is a path segment; the last one gets `last`
/// and is declared with it, or is deferred when `last` is `None`.
pub open spec fn path_events(p: Path, last: Option<TokenTag>) -> Seq<Event>
    decreases p,
{
    let s = p.segments@;
    if s.len() == 0 {
        seq![]
    } else {
        segments_events(s.drop_last()) + last_segment_events(s.last(), last)
    }
}

pub open spec fn segments_events(s: Seq<PathSegment>) -> Seq<Event>
    decreases s,
{
    if s.len() == 0 {
        seq![]
    } else {
        segments_events(s.drop_last()) + tag(s.last().ident, TokenTag::Segment)
            + path_args_events(s.last().arguments)
    }
}

pub open spec fn last_segment_events(seg: PathSegment, last: Option<TokenTag>) -> Seq<Event>
    decreases seg,
{
    (match last {
        Some(k) => declare(seg.ident, k),
        None => tag(seg.ident, TokenTag::NeedIdentification),
    }) + path_args_events(seg.arguments)
}

pub open spec fn path_args_events(a: PathArguments) -> Seq<Event>
    decreases a,
{
    match a {
        PathArguments::Bare => seq![],
        PathArguments::AngleBracketed(args) => generic_args_events(args@),
        PathArguments::Parenthesized { inputs, output } => types_events(inputs@) + opt_type_events(
            output,
        ),
    }
}

pub open spec fn generic_args_events(s: Seq<GenericArgument>) -> Seq<Event>
    decreases s,
{
    if s.len() == 0 {
        seq![]
    } else {
        generic_args_events(s.drop_last()) + match s.last() {
            GenericArgument::Type(t) => type_events(t),
            GenericArgument::Lifetime(sp) => tag(sp, TokenTag::LifeTime),
            GenericArgument::Other => seq![],
        }
    }
}

pub open spec fn pat_type_events(pt: PatType) -> Seq<Event>
    decreases pt,
{
    pat_events(*pt.pat) + type_events(*pt.ty)
}

/// Patterns: a bound name is declared as an identifier; a tuple-struct
/// pattern's last path segment is an enum constructor.
pub open spec fn pat_events(p: Pat) -> Seq<Event>
    decreases p,
{
    match p {
        Pat::Ident { by_ref, mutability, ident } => opt_tag(by_ref, TokenTag::Keyword) + opt_tag(
            mutability,
            TokenTag::Keyword,
        ) + declare(ident, TokenTag::Ident),
        Pat::Reference { mutability, pat } => opt_tag(mutability, TokenTag::Keyword) + pat_events(
            *pat,
        ),
        Pat::Type(pt) => pat_type_events(pt),
        Pat::Path(ep) => expr_path_events(ep),
        Pat::Tuple(elems) => pats_events(elems@),
        Pat::TupleStruct { qself, path, elems } => opt_qself_events(qself) + path_events(
            path,
            Some(TokenTag::Enum),
        ) + pats_events(elems@),
        Pat::Or(cases) => pats_events(cases@),
        Pat::Lit(l) => lit_events(l),
        Pat::Other(sp) => tag(sp, TokenTag::Ident),
    }
}

pub open spec fn pats_events(s: Seq<Pat>) -> Seq<Event>
    decreases s,
{
    if s.len() == 0 {
        seq![]
    } else {
        pats_events(s.drop_last()) + pat_events(s.last())
    }
}

/// Types: the last segment of a type path is declared as a type.
pub open spec fn type_events(t: Type) -> Seq<Event>
    decreases t,
{
    match t {
        Type::Reference { lifetime, mutability, elem } => opt_tag(lifetime, TokenTag::LifeTime)
            + opt_tag(mutability, TokenTag::Keyword) + type_events(*elem),
        Type::Path { qself, path } => opt_qself_events(qself) + path_events(
            path,
            Some(TokenTag::Type),
        ),
        Type::Tuple(elems) => types_events(elems@),
        Type::ImplTrait { impl_token, bounds } => tag(impl_token, TokenTag::Keyword) + bounds_events(
            bounds@,
        ),
        Type::Other => seq![],
    }
}

pub open spec fn types_events(s: Seq<Type>) -> Seq<Event>
    decreases s,
{
    if s.len() == 0 {
        seq![]
    } else {
        types_events(s.drop_last()) + type_events(s.last())
    }
}

pub open spec fn bounds_events(s: Seq<TypeParamBound>) -> Seq<Event>
    decreases s,
{
    if s.len() == 0 {
        seq![]
    } else {
        bounds_events(s.drop_last()) + bound_events(s.last())
    }
}

pub open spec fn bound_events(b: TypeParamBound) -> Seq<Event> {
    match b {
        TypeParamBound::Lifetime(sp) => tag(sp, TokenTag::LifeTime),
        TypeParamBound::PreciseCapture { use_token, params } => tag(use_token, TokenTag::Keyword)
            + captured_params_events(params@),
        TypeParamBound::Other => seq![],
    }
}

pub open spec fn captured_param_events(c: CapturedParam) -> Seq<Event> {
    match c {
        CapturedParam::Ident(sp) => tag(sp, TokenTag::Ident),
        CapturedParam::Lifetime(sp) => tag(sp, TokenTag::LifeTime),
    }
}

pub open spec fn captured_params_events(s: Seq<CapturedParam>) -> Seq<Event>
    decreases s.len(),
{
    if s.len() == 0 {
        seq![]
    } else {
        captured_params_events(s.drop_last()) + captured_param_events(s.last())
    }
}

// The walk itself. Each function appends to `out` exactly the events its
// construct emits.

fn push_tag(out: &mut Vec<Event>, sp: Span, k: TokenTag)
    ensures
        final(out)@ == old(out)@ + tag(sp, k),
{
    out.push(Event { token: SpannedToken { kind: k, start: sp.start, end: sp.end }, declares: false });
}

fn push_declare(out: &mut Vec<Event>, sp: Span, k: TokenTag)
    ensures
        final(out)@ == old(out)@ + declare(sp, k),
{
    out.push(Event { token: SpannedToken { kind: k, start: sp.start, end: sp.end }, declares: true });
}

fn try_push_tag(out: &mut Vec<Event>, o: Option<Span>, k: TokenTag)
    ensures
        final(out)@ == old(out)@ + opt_tag(o, k),
{
    if let Some(sp) = o {
        push_tag(out, sp, k);
    } else {
        assert(old(out)@ + opt_tag(o, k) =~= old(out)@);
    }
}

fn push_tags(out: &mut Vec<Event>, v: &Vec<Span>, k: TokenTag)
    ensures
        final(out)@ == old(out)@ + tags(v@, k),
{
    let ghost start = out@;
    let mut i: usize = 0;
    while i < v.len()
        invariant
            i <= v.len(),
            out@ == start + tags(v@.take(i as int), k),
        decreases v.len() - i,
    {
        push_tag(out, v[i], k);
        assert(v@.take(i + 1).drop_last() =~= v@.take(i as int));
        i += 1;
    }
    assert(v@.take(v.len() as int) =~= v@);
}

/// Walks a parsed unit: every statement in order.
pub fn register_file(f: &File, out: &mut Vec<Event>)
    ensures
        final(out)@ == old(out)@ + file_events(*f),
{
    register_statements(&f.stmts, out);
}

pub fn register_item(i: &Item, out: &mut Vec<Event>)
    ensures
        final(out)@ == old(out)@ + item_events(*i),
    decreases i,
{
    match i {
        Item::Fn(f) => register_function_item(f, out),
        Item::Enum(e) => register_enum_item(e, out),
        Item::Use(u) => register_use_item(u, out),
        Item::Other => {
            assert(old(out)@ + item_events(*i) =~= old(out)@);
        },
    }
}

fn register_visibility(v: &Visibility, out: &mut Vec<Event>)
    ensures
        final(out)@ == old(out)@ + vis_events(*v),
{
    match v {
        Visibility::Inherited => {
            assert(old(out)@ + vis_events(*v) =~= old(out)@);
        },
        Visibility::Visible(sp) => push_tag(out, *sp, TokenTag::Keyword),
    }
}

fn register_function_item(f: &ItemFn, out: &mut Vec<Event>)
    ensures
        final(out)@ == old(out)@ + fn_events(*f),
    decreases f,
{
    register_visibility(&f.vis, out);
    register_signature(&f.sig, out);
    register_block(&f.block, out);
    assert(final(out)@ =~= old(out)@ + fn_events(*f));
}

fn register_signature(s: &Signature, out: &mut Vec<Event>)
    ensures
        final(out)@ == old(out)@ + sig_events(*s),
    decreases s,
{
    try_push_tag(out, s.constness, TokenTag::Keyword);
    try_push_tag(out, s.asyncness, TokenTag::Keyword);
    try_push_tag(out, s.unsafety, TokenTag::Keyword);
    let ghost before_abi = out@;
    if let Some(abi) = s.abi {
        push_tag(out, abi.extern_token, TokenTag::Keyword);
        try_push_tag(out, abi.name, TokenTag::LitStr);
    }
    assert(out@ =~= before_abi + abi_events(s.abi));
    push_tag(out, s.fn_token, TokenTag::Keyword);
    push_declare(out, s.ident, TokenTag::Function);
    register_fn_args(&s.inputs, out);
    register_return_type(&s.output, out);
    assert(final(out)@ =~= old(out)@ + sig_events(*s));
}

fn register_fn_args(v: &Vec<FnArg>, out: &mut Vec<Event>)
    ensures
        final(out)@ == old(out)@ + fn_args_events(v@),
    decreases v,
{
    let ghost start = out@;
    let mut i: usize = 0;
    while i < v.len()
        invariant
            i <= v.len(),
            out@ == start + fn_args_events(v@.take(i as int)),
        decreases v.len() - i,
    {
        register_fn_arg(&v[i], out);
        assert(v@.take(i + 1).drop_last() =~= v@.take(i as int));
        i += 1;
    }
    assert(v@.take(v.len() as int) =~= v@);
}

fn register_fn_arg(a: &FnArg, out: &mut Vec<Event>)
    ensures
        final(out)@ == old(out)@ + fn_arg_events(*a),
    decreases a,
{
    match a {
        FnArg::Receiver { self_token, mutability, lifetime } => {
            push_tag(out, *self_token, TokenTag::SelfToken);
            try_push_tag(out, *mutability, TokenTag::Keyword);
            try_push_tag(out, *lifetime, TokenTag::LifeTime);
            assert(final(out)@ =~= old(out)@ + fn_arg_events(*a));
        },
        FnArg::Typed(pt) => register_pat_type(pt, out),
    }
}

fn register_return_type(o: &Option<Box<Type>>, out: &mut Vec<Event>)
    ensures
        final(out)@ == old(out)@ + opt_type_events(*o),
    decreases o,
{
    match o {
        Some(t) => register_type(t, out),
        None => {
            assert(old(out)@ + opt_type_events(*o) =~= old(out)@);
        },
    }
}

fn register_enum_item(e: &ItemEnum, out: &mut Vec<Event>)
    ensures
        final(out)@ == old(out)@ + enum_events(*e),
    decreases e,
{
    register_visibility(&e.vis, out);
    push_tag(out, e.enum_token, TokenTag::Keyword);
    push_declare(out, e.ident, TokenTag::Type);
    register_variants(&e.variants, out);
    assert(final(out)@ =~= old(out)@ + enum_events(*e));
}

fn register_variants(v: &Vec<Variant>, out: &mut Vec<Event>)
    ensures
        final(out)@ == old(out)@ + variants_events(v@),
    decreases v,
{
    let ghost start = out@;
    let mut i: usize = 0;
    while i < v.len()
        invariant
            i <= v.len(),
            out@ == start + variants_events(v@.take(i as int)),
        decreases v.len() - i,
    {
        let var = &v[i];
        let ghost before = out@;
        push_declare(out, var.ident, TokenTag::Enum);
        register_opt_expr(&var.discriminant, out);
        assert(out@ =~= before + variant_events(*var));
        assert(v@.take(i + 1).drop_last() =~= v@.take(i as int));
        i += 1;
    }
    assert(v@.take(v.len() as int) =~= v@);
}

fn register_use_item(u: &ItemUse, out: &mut Vec<Event>)
    ensures
        final(out)@ == old(out)@ + use_events(*u),
    decreases u,
{
    register_visibility(&u.vis, out);
    push_tag(out, u.use_token, TokenTag::Keyword);
    register_use_tree(&u.tree, out);
    assert(final(out)@ =~= old(out)@ + use_events(*u));
}

fn register_use_tree(t: &UseTree, out: &mut Vec<Event>)
    ensures
        final(out)@ == old(out)@ + use_tree_events(*t),
    decreases t,
{
    match t {
        UseTree::Path { ident, tree } => {
            push_tag(out, *ident, TokenTag::Segment);
            register_use_tree(tree, out);
            assert(final(out)@ =~= old(out)@ + use_tree_events(*t));
        },
        UseTree::Name { ident } => push_tag(out, *ident, TokenTag::NeedIdentification),
        UseTree::Rename { ident, as_token, rename } => {
            push_tag(out, *ident, TokenTag::Segment);
            push_tag(out, *as_token, TokenTag::Keyword);
            push_tag(out, *rename, TokenTag::Segment);
            assert(final(out)@ =~= old(out)@ + use_tree_events(*t));
        },
        UseTree::Glob => {
            assert(old(out)@ + use_tree_events(*t) =~= old(out)@);
        },
        UseTree::Group(items) => register_use_trees(items, out),
    }
}

fn register_use_trees(v: &Vec<UseTree>, out: &mut Vec<Event>)
    ensures
        final(out)@ == old(out)@ + use_trees_events(v@),
    decreases v,
{
    let ghost start = out@;
    let mut i: usize = 0;
    while i < v.len()
        invariant
            i <= v.len(),
            out@ == start + use_trees_events(v@.take(i as int)),
        decreases v.len() - i,
    {
        register_use_tree(&v[i], out);
        assert(v@.take(i + 1).drop_last() =~= v@.take(i as int));
        i += 1;
    }
    assert(v@.take(v.len() as int) =~= v@);
}

pub fn register_block(b: &Block, out: &mut Vec<Event>)
    ensures
        final(out)@ == old(out)@ + block_events(*b),
    decreases b,
{
    register_statements(&b.stmts, out);
}

fn register_statements(v: &Vec<Stmt>, out: &mut Vec<Event>)
    ensures
        final(out)@ == old(out)@ + stmts_events(v@),
    decreases v,
{
    let ghost start = out@;
    let mut i: usize = 0;
    while i < v.len()
        invariant
            i <= v.len(),
            out@ == start + stmts_events(v@.take(i as int)),
        decreases v.len() - i,
    {
        register_statement(&v[i], out);
        assert(v@.take(i + 1).drop_last() =~= v@.take(i as int));
        i += 1;
    }
    assert(v@.take(v.len() as int) =~= v@);
}

pub fn register_statement(s: &Stmt, out: &mut Vec<Event>)
    ensures
        final(out)@ == old(out)@ + stmt_events(*s),
    decreases s,
{
    match s {
        Stmt::Local(l) => register_local(l, out),
        Stmt::Expr(e) => register_expr(e, out),
        Stmt::Macro(m) => register_macro_statement(m, out),
        Stmt::Item(i) => register_item(i, out),
    }
}

fn register_local(l: &Local, out: &mut Vec<Event>)
    ensures
        final(out)@ == old(out)@ + local_events(*l),
    decreases l,
{
    push_tag(out, l.let_token, TokenTag::Keyword);
    register_pat(&l.pat, out);
    register_opt_expr(&l.init, out);
    assert(final(out)@ =~= old(out)@ + local_events(*l));
}

fn register_macro_statement(m: &StmtMacro, out: &mut Vec<Event>)
    ensures
        final(out)@ == old(out)@ + macro_events(*m),
{
    push_tag(out, Span { start: m.path.start, end: m.bang.end }, TokenTag::Macro);
    push_tags(out, &m.str_literals, TokenTag::LitStr);
    assert(final(out)@ =~= old(out)@ + macro_events(*m));
}

fn register_lit_expr(l: &Lit, out: &mut Vec<Event>)
    ensures
        final(out)@ == old(out)@ + lit_events(*l),
{
    match l.kind {
        LitKind::Str => push_tag(out, l.span, TokenTag::LitStr),
        LitKind::Num => push_tag(out, l.span, TokenTag::LitNum),
        LitKind::Bool => push_tag(out, l.span, TokenTag::LitBool),
        LitKind::Other => {
            assert(old(out)@ + lit_events(*l) =~= old(out)@);
        },
    }
}

fn register_opt_expr(o: &Option<Expr>, out: &mut Vec<Event>)
    ensures
        final(out)@ == old(out)@ + opt_expr_events(*o),
    decreases o,
{
    match o {
        Some(e) => register_expr(e, out),
        None => {
            assert(old(out)@ + opt_expr_events(*o) =~= old(out)@);
        },
    }
}

fn register_exprs(v: &Vec<Expr>, out: &mut Vec<Event>)
    ensures
        final(out)@ == old(out)@ + exprs_events(v@),
    decreases v,
{
    let ghost start = out@;
    let mut i: usize = 0;
    while i < v.len()
        invariant
            i <= v.len(),
            out@ == start + exprs_events(v@.take(i as int)),
        decreases v.len() - i,
    {
        register_expr(&v[i], out);
        assert(v@.take(i + 1).drop_last() =~= v@.take(i as int));
        i += 1;
    }
    assert(v@.take(v.len() as int) =~= v@);
}

fn register_branch(o: &Option<ElseBranch>, out: &mut Vec<Event>)
    ensures
        final(out)@ == old(out)@ + opt_branch_events(*o),
    decreases o,
{
    match o {
        Some(b) => {
            push_tag(out, b.token, TokenTag::Keyword);
            register_expr(&b.expr, out);
            assert(final(out)@ =~= old(out)@ + opt_branch_events(*o));
        },
        None => {
            assert(old(out)@ + opt_branch_events(*o) =~= old(out)@);
        },
    }
}

fn register_member(m: &Member, out: &mut Vec<Event>)
    ensures
        final(out)@ == old(out)@ + member_events(*m),
{
    match m {
        Member::Named(sp) => push_tag(out, *sp, TokenTag::Ident),
        Member::Unnamed(sp) => push_tag(out, *sp, TokenTag::LitNum),
    }
}

pub fn register_expr(e: &Expr, out: &mut Vec<Event>)
    ensures
        final(out)@ == old(out)@ + expr_events(*e),
    decreases e,
{
    match e {
        Expr::Lit(l) => register_lit_expr(l, out),
        Expr::ForLoop { for_token, pat, in_token, expr, body } => {
            push_tag(out, *for_token, TokenTag::Keyword);
            register_pat(pat, out);
            push_tag(out, *in_token, TokenTag::Keyword);
            register_expr(expr, out);
            register_block(body, out);
        },
        Expr::Unsafe { unsafe_token, block } => {
            push_tag(out, *unsafe_token, TokenTag::Keyword);
            register_block(block, out);
        },
        Expr::MethodCall { receiver, method, args } => {
            register_expr(receiver, out);
            push_tag(out, *method, TokenTag::Function);
            register_exprs(args, out);
        },
        Expr::Path(p) => register_path_expr(p, out),
        Expr::Reference { mutability, expr } => {
            try_push_tag(out, *mutability, TokenTag::Keyword);
            register_expr(expr, out);
        },
        Expr::Unary(x) => register_expr(x, out),
        Expr::Binary { left, right } => {
            register_expr(left, out);
            register_expr(right, out);
        },
        Expr::Try(x) => register_expr(x, out),
        Expr::If { if_token, cond, then_branch, else_branch } => {
            push_tag(out, *if_token, TokenTag::Keyword);
            register_expr(cond, out);
            register_block(then_branch, out);
            register_branch(else_branch, out);
        },
        Expr::Call { func, args } => {
            register_expr(func, out);
            register_exprs(args, out);
        },
        Expr::Block(b) => register_block(b, out),
        Expr::Paren(x) => register_expr(x, out),
        Expr::Cast { expr, as_token, ty } => {
            register_expr(expr, out);
            push_tag(out, *as_token, TokenTag::Keyword);
            register_type(ty, out);
        },
        Expr::Field { base, member } => {
            register_expr(base, out);
            register_member(member, out);
        },
        Expr::Match { match_token, expr, arms } => {
            push_tag(out, *match_token, TokenTag::Keyword);
            register_expr(expr, out);
            register_arms(arms, out);
        },
        Expr::Tuple(elems) => register_exprs(elems, out),
        Expr::Other => {},
    }
    assert(final(out)@ =~= old(out)@ + expr_events(*e));
}

fn register_arms(v: &Vec<Arm>, out: &mut Vec<Event>)
    ensures
        final(out)@ == old(out)@ + arms_events(v@),
    decreases v,
{
    let ghost start = out@;
    let mut i: usize = 0;
    while i < v.len()
        invariant
            i <= v.len(),
            out@ == start + arms_events(v@.take(i as int)),
        decreases v.len() - i,
    {
        register_arm(&v[i], out);
        assert(v@.take(i + 1).drop_last() =~= v@.take(i as int));
        i += 1;
    }
    assert(v@.take(v.len() as int) =~= v@);
}

fn register_arm(a: &Arm, out: &mut Vec<Event>)
    ensures
        final(out)@ == old(out)@ + arm_events(*a),
    decreases a,
{
    register_pat(&a.pat, out);
    register_branch(&a.guard, out);
    register_expr(&a.body, out);
    assert(final(out)@ =~= old(out)@ + arm_events(*a));
}

fn register_path_expr(p: &ExprPath, out: &mut Vec<Event>)
    ensures
        final(out)@ == old(out)@ + expr_path_events(*p),
    decreases p,
{
    register_qself(&p.qself, out);
    register_path(&p.path, None, out);
    assert(final(out)@ =~= old(out)@ + expr_path_events(*p));
}

fn register_qself(o: &Option<QSelf>, out: &mut Vec<Event>)
    ensures
        final(out)@ == old(out)@ + opt_qself_events(*o),
    decreases o,
{
    match o {
        Some(q) => {
            register_type(&q.ty, out);
            try_push_tag(out, q.as_token, TokenTag::Keyword);
            assert(final(out)@ =~= old(out)@ + opt_qself_events(*o));
        },
        None => {
            assert(old(out)@ + opt_qself_events(*o) =~= old(out)@);
        },
    }
}

/// Walks a path: leading segments as path segments, the last one with
/// `last`, or deferred.
fn register_path(p: &Path, last: Option<TokenTag>, out: &mut Vec<Event>)
    ensures
        final(out)@ == old(out)@ + path_events(*p, last),
    decreases p,
{
    let v = &p.segments;
    if v.len() == 0 {
        assert(old(out)@ + path_events(*p, last) =~= old(out)@);
        return;
    }
    let ghost start = out@;
    let n = v.len() - 1;
    let mut i: usize = 0;
    while i < n
        invariant
            i <= n,
            n == v.len() - 1,
            v == &p.segments,
            out@ == start + segments_events(v@.take(i as int)),
        decreases n - i,
    {
        push_tag(out, v[i].ident, TokenTag::Segment);
        register_path_argument(&v[i].arguments, out);
        assert(v@.take(i + 1).drop_last() =~= v@.take(i as int));
        assert(out@ =~= start + segments_events(v@.take(i + 1)));
        i += 1;
    }
    assert(v@.take(n as int) =~= v@.drop_last());
    register_path_segment(&v[n], last, out);
    assert(final(out)@ =~= old(out)@ + path_events(*p, last));
}

fn register_path_segment(seg: &PathSegment, last: Option<TokenTag>, out: &mut Vec<Event>)
    ensures
        final(out)@ == old(out)@ + last_segment_events(*seg, last),
    decreases seg,
{
    match last {
        Some(k) => push_declare(out, seg.ident, k),
        None => push_tag(out, seg.ident, TokenTag::NeedIdentification),
    }
    register_path_argument(&seg.arguments, out);
    assert(final(out)@ =~= old(out)@ + last_segment_events(*seg, last));
}

fn register_path_argument(a: &PathArguments, out: &mut Vec<Event>)
    ensures
        final(out)@ == old(out)@ + path_args_events(*a),
    decreases a,
{
    match a {
        PathArguments::Bare => {
            assert(old(out)@ + path_args_events(*a) =~= old(out)@);
        },
        PathArguments::AngleBracketed(args) => register_angle_brackets_arg(args, out),
        PathArguments::Parenthesized { inputs, output } => {
            register_types(inputs, out);
            register_return_type(output, out);
            assert(final(out)@ =~= old(out)@ + path_args_events(*a));
        },
    }
}

fn register_angle_brackets_arg(v: &Vec<GenericArgument>, out: &mut Vec<Event>)
    ensures
        final(out)@ == old(out)@ + generic_args_events(v@),
    decreases v,
{
    let ghost start = out@;
    let mut i: usize = 0;
    while i < v.len()
        invariant
            i <= v.len(),
            out@ == start + generic_args_events(v@.take(i as int)),
        decreases v.len() - i,
    {
        register_generic_argument(&v[i], out);
        assert(v@.take(i + 1).drop_last() =~= v@.take(i as int));
        i += 1;
    }
    assert(v@.take(v.len() as int) =~= v@);
}

fn register_generic_argument(g: &GenericArgument, out: &mut Vec<Event>)
    ensures
        final(out)@ == old(out)@ + (match *g {
            GenericArgument::Type(t) => type_events(t),
            GenericArgument::Lifetime(sp) => tag(sp, TokenTag::LifeTime),
            GenericArgument::Other => seq![],
        }),
    decreases g,
{
    match g {
        GenericArgument::Type(t) => register_type(t, out),
        GenericArgument::Lifetime(sp) => push_tag(out, *sp, TokenTag::LifeTime),
        GenericArgument::Other => {
            assert(old(out)@ + seq![] =~= old(out)@);
        },
    }
}

fn register_pat_type(pt: &PatType, out: &mut Vec<Event>)
    ensures
        final(out)@ == old(out)@ + pat_type_events(*pt),
    decreases pt,
{
    register_pat(&pt.pat, out);
    register_type(&pt.ty, out);
    assert(final(out)@ =~= old(out)@ + pat_type_events(*pt));
}

pub fn register_pat(p: &Pat, out: &mut Vec<Event>)
    ensures
        final(out)@ == old(out)@ + pat_events(*p),
    decreases p,
{
    match p {
        Pat::Ident { by_ref, mutability, ident } => {
            try_push_tag(out, *by_ref, TokenTag::Keyword);
            try_push_tag(out, *mutability, TokenTag::Keyword);
            push_declare(out, *ident, TokenTag::Ident);
        },
        Pat::Reference { mutability, pat } => {
            try_push_tag(out, *mutability, TokenTag::Keyword);
            register_pat(pat, out);
        },
        Pat::Type(pt) => register_pat_type(pt, out),
        Pat::Path(ep) => register_path_expr(ep, out),
        Pat::Tuple(elems) => register_pats(elems, out),
        Pat::TupleStruct { qself, path, elems } => {
            register_qself(qself, out);
            register_path(path, Some(TokenTag::Enum), out);
            register_pats(elems, out);
        },
        Pat::Or(cases) => register_pats(cases, out),
        Pat::Lit(l) => register_lit_expr(l, out),
        Pat::Other(sp) => push_tag(out, *sp, TokenTag::Ident),
    }
    assert(final(out)@ =~= old(out)@ + pat_events(*p));
}

fn register_pats(v: &Vec<Pat>, out: &mut Vec<Event>)
    ensures
        final(out)@ == old(out)@ + pats_events(v@),
    decreases v,
{
    let ghost start = out@;
    let mut i: usize = 0;
    while i < v.len()
        invariant
            i <= v.len(),
            out@ == start + pats_events(v@.take(i as int)),
        decreases v.len() - i,
    {
        register_pat(&v[i], out);
        assert(v@.take(i + 1).drop_last() =~= v@.take(i as int));
        i += 1;
    }
    assert(v@.take(v.len() as int) =~= v@);
}

pub fn register_type(t: &Type, out: &mut Vec<Event>)
    ensures
        final(out)@ == old(out)@ + type_events(*t),
    decreases t,
{
    match t {
        Type::Reference { lifetime, mutability, elem } => {
            try_push_tag(out, *lifetime, TokenTag::LifeTime);
            try_push_tag(out, *mutability, TokenTag::Keyword);
            register_type(elem, out);
        },
        Type::Path { qself, path } => {
            register_qself(qself, out);
            register_path(path, Some(TokenTag::Type), out);
        },
        Type::Tuple(elems) => register_types(elems, out),
        Type::ImplTrait { impl_token, bounds } => {
            push_tag(out, *impl_token, TokenTag::Keyword);
            register_bounds(bounds, out);
        },
        Type::Other => {},
    }
    assert(final(out)@ =~= old(out)@ + type_events(*t));
}

fn register_types(v: &Vec<Type>, out: &mut Vec<Event>)
    ensures
        final(out)@ == old(out)@ + types_events(v@),
    decreases v,
{
    let ghost start = out@;
    let mut i: usize = 0;
    while i < v.len()
        invariant
            i <= v.len(),
            out@ == start + types_events(v@.take(i as int)),
        decreases v.len() - i,
    {
        register_type(&v[i], out);
        assert(v@.take(i + 1).drop_last() =~= v@.take(i as int));
        i += 1;
    }
    assert(v@.take(v.len() as int) =~= v@);
}

fn register_bounds(v: &Vec<TypeParamBound>, out: &mut Vec<Event>)
    ensures
        final(out)@ == old(out)@ + bounds_events(v@),
{
    let ghost start = out@;
    let mut i: usize = 0;
    while i < v.len()
        invariant
            i <= v.len(),
            out@ == start + bounds_events(v@.take(i as int)),
        decreases v.len() - i,
    {
        register_bound(&v[i], out);
        assert(v@.take(i + 1).drop_last() =~= v@.take(i as int));
        i += 1;
    }
    assert(v@.take(v.len() as int) =~= v@);
}

fn register_bound(b: &TypeParamBound, out: &mut Vec<Event>)
    ensures
        final(out)@ == old(out)@ + bound_events(*b),
{
    match b {
        TypeParamBound::Lifetime(sp) => push_tag(out, *sp, TokenTag::LifeTime),
        TypeParamBound::PreciseCapture { use_token, params } => {
            push_tag(out, *use_token, TokenTag::Keyword);
            register_precise_capture(params, out);
            assert(final(out)@ =~= old(out)@ + bound_events(*b));
        },
        TypeParamBound::Other => {
            assert(old(out)@ + bound_events(*b) =~= old(out)@);
        },
    }
}

fn register_precise_capture(v: &Vec<CapturedParam>, out: &mut Vec<Event>)
    ensures
        final(out)@ == old(out)@ + captured_params_events(v@),
{
    let ghost start = out@;
    let mut i: usize = 0;
    while i < v.len()
        invariant
            i <= v.len(),
            out@ == start + captured_params_events(v@.take(i as int)),
        decreases v.len() - i,
    {
        match v[i] {
            CapturedParam::Ident(sp) => push_tag(out, sp, TokenTag::Ident),
            CapturedParam::Lifetime(sp) => push_tag(out, sp, TokenTag::LifeTime),
        }
        assert(v@.take(i + 1).drop_last() =~= v@.take(i as int));
        i += 1;
    }
    assert(v@.take(v.len() as int) =~= v@);
}

} // verus!
