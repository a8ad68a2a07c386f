use rust_highlight::ast::{
    Expr, ExprPath, File, Item, ItemUse, Lit, LitKind, Local, Member, Path, PathArguments,
    PathSegment, Pat, Span, Stmt, StmtMacro, UseTree, Visibility,
};
use rust_highlight::comments::scan_comments;
use rust_highlight::memory::slice_eq;
use rust_highlight::registry::SpanRegistry;
use rust_highlight::walk::register_file;
use rust_highlight::{FallbackTable, IdentificationError, RustHighlighter, SpannedToken, TokenTag};

fn sp(start: usize, end: usize) -> Span {
    Span { start, end }
}

fn wrap(name: &str, text: &str) -> String {
    format!("<span class=\"hlrs-{}\">{}</span>", name, text)
}

fn strip_markers(s: &str) -> String {
    let mut out = String::new();
    let mut rest = s;
    while !rest.is_empty() {
        if rest.starts_with("<span class=\"hlrs-") {
            let close = rest.find("\">").unwrap();
            rest = &rest[close + 2..];
        } else if rest.starts_with("</span>") {
            rest = &rest["</span>".len()..];
        } else {
            let c = rest.chars().next().unwrap();
            out.push(c);
            rest = &rest[c.len_utf8()..];
        }
    }
    out
}

fn depths(s: &str) -> Vec<i64> {
    let mut d = 0i64;
    let mut out = Vec::new();
    let mut rest = s;
    while !rest.is_empty() {
        if rest.starts_with("<span class=\"hlrs-") {
            d += 1;
            out.push(d);
            rest = &rest[1..];
        } else if rest.starts_with("</span>") {
            d -= 1;
            out.push(d);
            rest = &rest[1..];
        } else {
            let c = rest.chars().next().unwrap();
            rest = &rest[c.len_utf8()..];
        }
    }
    out
}

fn seg(s: Span) -> PathSegment {
    PathSegment { ident: s, arguments: PathArguments::Bare }
}

fn path_expr(idents: &[Span]) -> Expr {
    Expr::Path(ExprPath { qself: None, path: Path { segments: idents.iter().map(|s| seg(*s)).collect() } })
}

/// `let (a, b) = (1, "s"); // done`
fn tuple_file() -> (&'static str, File) {
    let code = "let (a, b) = (1, \"s\"); // done";
    let pat = Pat::Tuple(vec![
        Pat::Ident { by_ref: None, mutability: None, ident: sp(5, 6) },
        Pat::Ident { by_ref: None, mutability: None, ident: sp(8, 9) },
    ]);
    let init = Expr::Tuple(vec![
        Expr::Lit(Lit { span: sp(14, 15), kind: LitKind::Num }),
        Expr::Lit(Lit { span: sp(17, 20), kind: LitKind::Str }),
    ]);
    let file = File { stmts: vec![Stmt::Local(Local { let_token: sp(0, 3), pat, init: Some(init) })] };
    (code, file)
}

#[test]
fn output_markup_is_balanced() {
    let (code, file) = tuple_file();
    let out = RustHighlighter::highlight(code, &file);
    let d = depths(&out);
    assert!(d.iter().all(|x| *x >= 0));
    assert_eq!(*d.last().unwrap(), 0);
    assert_eq!(out.matches("<span").count(), out.matches("</span>").count());
    assert_eq!(out.matches("<span").count(), 6);
}

#[test]
fn stripping_markers_gives_input() {
    let (code, file) = tuple_file();
    let out = RustHighlighter::highlight(code, &file);
    assert_ne!(out, code);
    assert_eq!(strip_markers(&out), code);
    assert_eq!(
        out,
        format!(
            "{} ({}, {}) = ({}, {}); {}",
            wrap("Keyword", "let"),
            wrap("Ident", "a"),
            wrap("Ident", "b"),
            wrap("LitNum", "1"),
            wrap("LitStr", "\"s\""),
            wrap("Comment", "// done")
        )
    );
}

#[test]
fn wider_span_opens_first() {
    let mut reg = SpanRegistry::new();
    reg.register_tag_at_index(0, 3, TokenTag::Ident);
    reg.register_tag_at_index(0, 5, TokenTag::Keyword);
    assert_eq!(reg.len(), 4);
    assert_eq!(reg.get(0), SpannedToken { kind: TokenTag::Keyword, start: 0, end: 5 });
    assert_eq!(reg.get(1), SpannedToken { kind: TokenTag::Ident, start: 0, end: 3 });
    assert_eq!(reg.get(2).kind, TokenTag::EndOfToken);
    assert_eq!(reg.get(2).start, 3);
    assert_eq!(reg.get(3).start, 5);
}

#[test]
fn nested_markup_in_output() {
    // A macro span and a string literal inside it, then a span with the same
    // start as a shorter one.
    let code = "println!(\"hi\");";
    let mac = StmtMacro { path: sp(0, 7), bang: sp(7, 8), str_literals: vec![sp(9, 13)] };
    let file = File { stmts: vec![Stmt::Macro(mac)] };
    let out = RustHighlighter::highlight(code, &file);
    assert_eq!(out, format!("{}({});", wrap("Macro", "println!"), wrap("LitStr", "\"hi\"")));
}

#[test]
fn resolving_twice_gives_same_categories() {
    let code = "x.len()";
    let call = Expr::MethodCall { receiver: Box::new(path_expr(&[sp(0, 1)])), method: sp(2, 5), args: vec![] };
    let file = File { stmts: vec![Stmt::Expr(call)] };
    let mut events = Vec::new();
    register_file(&file, &mut events);
    let mut h = RustHighlighter::new(code, FallbackTable::conventional());
    h.collect(&events);
    h.register_comments();
    let deferred = SpannedToken { kind: TokenTag::NeedIdentification, start: 0, end: 1 };
    let first = h.identify_token(&deferred);
    let second = h.identify_token(&deferred);
    assert_eq!(first, second);
    assert_eq!(first, Ok(SpannedToken { kind: TokenTag::Ident, start: 0, end: 1 }));
    let out1 = h.write_tokens();
    let out2 = h.write_tokens();
    assert_eq!(out1, out2);
    assert_eq!(out1, format!("{}.{}()", wrap("Ident", "x"), wrap("Function", "len")));
}

#[test]
fn identify_errors() {
    let code = "a";
    let file = File { stmts: vec![] };
    let mut events = Vec::new();
    register_file(&file, &mut events);
    let mut h = RustHighlighter::new(code, FallbackTable::conventional());
    h.collect(&events);
    let kw = SpannedToken { kind: TokenTag::Keyword, start: 0, end: 1 };
    assert_eq!(h.identify_token(&kw), Err(IdentificationError::AlreadyIdentified));
    let unknown = SpannedToken { kind: TokenTag::NeedIdentification, start: 0, end: 1 };
    assert_eq!(h.identify_token(&unknown), Err(IdentificationError::NoIdentificationNeeded));
    assert_eq!(IdentificationError::AlreadyIdentified.message(), "Item already identified");
}

#[test]
fn empty_input() {
    let out = RustHighlighter::highlight("", &File { stmts: vec![] });
    assert_eq!(out, "");
}

#[test]
fn duplicate_and_degenerate_spans() {
    let mut reg = SpanRegistry::new();
    reg.register_tag_at_index(2, 4, TokenTag::Type);
    reg.register_tag_at_index(2, 4, TokenTag::Type);
    assert_eq!(reg.len(), 2);
    reg.register_tag_at_index(3, 3, TokenTag::Keyword);
    reg.register_tag_at_index(5, 4, TokenTag::Keyword);
    assert_eq!(reg.len(), 2);
    // Two spans ending at one offset keep one close each.
    reg.register_tag_at_index(3, 4, TokenTag::Ident);
    assert_eq!(reg.len(), 4);
    assert_eq!(reg.get(2).start, 4);
    assert_eq!(reg.get(3).start, 4);
}

#[test]
fn comment_scanner_spans() {
    let code = "a // one\n/// doc é\nb //";
    let spans = scan_comments(code);
    assert_eq!(spans, vec![(2, 8), (9, 19), (22, 24)]);
    assert!(scan_comments("no comments / here").is_empty());
}

#[test]
fn non_ascii_offsets() {
    // "é" takes two bytes; offsets are bytes, insertion goes by characters.
    let code = "let é = 1; // ü";
    let file = File {
        stmts: vec![Stmt::Local(Local {
            let_token: sp(0, 3),
            pat: Pat::Ident { by_ref: None, mutability: None, ident: sp(4, 6) },
            init: Some(Expr::Lit(Lit { span: sp(9, 10), kind: LitKind::Num })),
        })],
    };
    assert!(RustHighlighter::accepts(code, &file));
    let out = RustHighlighter::highlight(code, &file);
    assert_eq!(
        out,
        format!(
            "{} {} = {}; {}",
            wrap("Keyword", "let"),
            wrap("Ident", "é"),
            wrap("LitNum", "1"),
            wrap("Comment", "// ü")
        )
    );
}

#[test]
fn spans_outside_text_are_not_accepted() {
    let file = File {
        stmts: vec![Stmt::Expr(Expr::Lit(Lit { span: sp(0, 9), kind: LitKind::Num }))],
    };
    assert!(!RustHighlighter::accepts("1", &file));
    let backwards = File {
        stmts: vec![Stmt::Expr(Expr::Lit(Lit { span: sp(1, 0), kind: LitKind::Num }))],
    };
    assert!(!RustHighlighter::accepts("1", &backwards));
}

#[test]
fn use_tree_tags() {
    // use a::{b as c, d};
    let code = "use a::{b as c, d};";
    let tree = UseTree::Path {
        ident: sp(4, 5),
        tree: Box::new(UseTree::Group(vec![
            UseTree::Rename { ident: sp(8, 9), as_token: sp(10, 12), rename: sp(13, 14) },
            UseTree::Name { ident: sp(16, 17) },
        ])),
    };
    let item = ItemUse { vis: Visibility::Visible(sp(0, 0)), use_token: sp(0, 3), tree };
    let file = File { stmts: vec![Stmt::Item(Item::Use(item))] };
    let out = RustHighlighter::highlight(code, &file);
    assert_eq!(
        out,
        format!(
            "{} {}::{{{} {} {}, {}}};",
            wrap("Keyword", "use"),
            wrap("Segment", "a"),
            wrap("Segment", "b"),
            wrap("Keyword", "as"),
            wrap("Segment", "c"),
            wrap("Ident", "d")
        )
    );
}

#[test]
fn field_members() {
    let code = "p.0.x";
    let inner = Expr::Field { base: Box::new(path_expr(&[sp(0, 1)])), member: Member::Unnamed(sp(2, 3)) };
    let outer = Expr::Field { base: Box::new(inner), member: Member::Named(sp(4, 5)) };
    let out = RustHighlighter::highlight(code, &File { stmts: vec![Stmt::Expr(outer)] });
    assert_eq!(out, format!("{}.{}.{}", wrap("Ident", "p"), wrap("LitNum", "0"), wrap("Ident", "x")));
}

#[test]
fn self_resolves_to_self_reference() {
    let code = "self";
    let out = RustHighlighter::highlight(code, &File { stmts: vec![Stmt::Expr(path_expr(&[sp(0, 4)]))] });
    assert_eq!(out, wrap("SelfToken", "self"));
}

#[test]
fn custom_fallback_rule() {
    let code = "Foo";
    let file = File { stmts: vec![Stmt::Expr(path_expr(&[sp(0, 3)]))] };
    let mut table = FallbackTable::new();
    table.add_rule("Foo", TokenTag::Type);
    let mut events = Vec::new();
    register_file(&file, &mut events);
    let mut h = RustHighlighter::new(code, table);
    h.collect(&events);
    h.register_comments();
    assert_eq!(h.write_tokens(), wrap("Type", "Foo"));
}

#[test]
fn markers_of_categories() {
    assert_eq!(TokenTag::Keyword.to_string(), "<span class=\"hlrs-Keyword\">");
    assert_eq!(TokenTag::EndOfToken.to_string(), "</span>");
    assert_eq!(TokenTag::LitStr.name(), "LitStr");
    let a = SpannedToken { kind: TokenTag::Ident, start: 0, end: 5 };
    let b = SpannedToken { kind: TokenTag::Ident, start: 0, end: 3 };
    assert!(a.precedes(&b));
    assert!(!b.precedes(&a));
}

#[test]
fn byte_slices_compare() {
    assert!(slice_eq(b"let Ok", 4, 6, b"Ok"));
    assert!(!slice_eq(b"let Ok", 4, 6, b"Err"));
    assert!(!slice_eq(b"let Ok", 0, 2, b"Ok"));
}
