use rust_highlight::ast::{
    Block, Expr, ExprPath, File, FnArg, Item, ItemEnum, ItemFn, Lit, LitKind, Local, Path,
    PathArguments, PathSegment, Pat, Signature, Span, Stmt, Variant, Visibility,
};
use rust_highlight::walk::register_file;
use rust_highlight::{FallbackTable, RustHighlighter};

fn sp(start: usize, end: usize) -> Span {
    Span { start, end }
}

fn open(name: &str) -> String {
    format!("<span class=\"hlrs-{}\">", name)
}

fn wrap(name: &str, text: &str) -> String {
    format!("{}{}</span>", open(name), text)
}

fn bare_path(idents: &[Span]) -> Path {
    Path {
        segments: idents
            .iter()
            .map(|s| PathSegment { ident: *s, arguments: PathArguments::Bare })
            .collect(),
    }
}

fn path_expr(idents: &[Span]) -> Expr {
    Expr::Path(ExprPath { qself: None, path: bare_path(idents) })
}

fn let_stmt(let_token: Span, ident: Span, init: Option<Expr>) -> Stmt {
    Stmt::Local(Local {
        let_token,
        pat: Pat::Ident { by_ref: None, mutability: None, ident },
        init,
    })
}

fn num(span: Span) -> Expr {
    Expr::Lit(Lit { span, kind: LitKind::Num })
}

#[test]
fn let_binding_categories_in_order() {
    let code = "let x = 5;";
    let file = File { stmts: vec![let_stmt(sp(0, 3), sp(4, 5), Some(num(sp(8, 9))))] };
    assert!(RustHighlighter::accepts(code, &file));
    let out = RustHighlighter::highlight(code, &file);
    let expected = format!(
        "{} {} = {};",
        wrap("Keyword", "let"),
        wrap("Ident", "x"),
        wrap("LitNum", "5")
    );
    assert_eq!(out, expected);
}

#[test]
fn method_signature_with_self() {
    let code = "fn foo(&self) {}";
    let sig = Signature {
        constness: None,
        asyncness: None,
        unsafety: None,
        abi: None,
        fn_token: sp(0, 2),
        ident: sp(3, 6),
        inputs: vec![FnArg::Receiver { self_token: sp(8, 12), mutability: None, lifetime: None }],
        output: None,
    };
    let item = ItemFn { vis: Visibility::Inherited, sig, block: Block { stmts: vec![] } };
    let file = File { stmts: vec![Stmt::Item(Item::Fn(item))] };
    let out = RustHighlighter::highlight(code, &file);
    let expected = format!(
        "{} {}(&{}) {{}}",
        wrap("Keyword", "fn"),
        wrap("Function", "foo"),
        wrap("SelfToken", "self")
    );
    assert_eq!(out, expected);
    assert!(!out.contains("NeedIdentification"));
}

fn status_file(variants: &[(usize, usize)], later: (usize, usize, usize, usize), lets: (usize, usize, usize, usize)) -> File {
    let item = ItemEnum {
        vis: Visibility::Inherited,
        enum_token: sp(0, 4),
        ident: sp(5, 11),
        variants: variants
            .iter()
            .map(|(s, e)| Variant { ident: sp(*s, *e), discriminant: None })
            .collect(),
    };
    let init = path_expr(&[sp(later.0, later.1), sp(later.2, later.3)]);
    File {
        stmts: vec![
            Stmt::Item(Item::Enum(item)),
            let_stmt(sp(lets.0, lets.1), sp(lets.2, lets.3), Some(init)),
        ],
    }
}

#[test]
fn declared_variant_resolves_through_memory() {
    // "enum Status { Ok, Err }\nlet s = Status::Ok;"
    let code = "enum Status { Ok, Err }\nlet s = Status::Ok;";
    let file = status_file(&[(14, 16), (18, 21)], (32, 38, 40, 42), (24, 27, 28, 29));
    // No fallback rules: only identifier memory can make `Ok` a constructor.
    let mut events = Vec::new();
    register_file(&file, &mut events);
    let mut h = RustHighlighter::new(code, FallbackTable::new());
    h.collect(&events);
    h.register_comments();
    let out = h.write_tokens();
    let expected = format!(
        "{} {} {{ {}, {} }}\n{} {} = {}::{};",
        wrap("Keyword", "enum"),
        wrap("Type", "Status"),
        wrap("Enum", "Ok"),
        wrap("Enum", "Err"),
        wrap("Keyword", "let"),
        wrap("Ident", "s"),
        wrap("Segment", "Status"),
        wrap("Enum", "Ok")
    );
    assert_eq!(out, expected);
    assert_eq!(RustHighlighter::highlight(code, &file), expected);
}

#[test]
fn declared_unconventional_variant_resolves_through_memory() {
    let code = "enum Status { Active }\nlet s = Status::Active;";
    let file = status_file(&[(14, 20)], (31, 37, 39, 45), (23, 26, 27, 28));
    let out = RustHighlighter::highlight(code, &file);
    assert!(out.ends_with(&format!("::{};", wrap("Enum", "Active"))));
}

#[test]
fn comment_then_statement() {
    let code = "// a comment\nlet y = 1;";
    let file = File { stmts: vec![let_stmt(sp(13, 16), sp(17, 18), Some(num(sp(21, 22))))] };
    let out = RustHighlighter::highlight(code, &file);
    let expected = format!(
        "{}\n{} {} = {};",
        wrap("Comment", "// a comment"),
        wrap("Keyword", "let"),
        wrap("Ident", "y"),
        wrap("LitNum", "1")
    );
    assert_eq!(out, expected);
    assert_eq!(out.matches(&open("Comment")).count(), 1);
}

#[test]
fn undeclared_constructor_uses_fallback() {
    let code = "Ok(5)";
    let call = Expr::Call { func: Box::new(path_expr(&[sp(0, 2)])), args: vec![num(sp(3, 4))] };
    let file = File { stmts: vec![Stmt::Expr(call)] };
    let out = RustHighlighter::highlight(code, &file);
    assert_eq!(out, format!("{}({})", wrap("Enum", "Ok"), wrap("LitNum", "5")));
}

#[test]
fn undeclared_constructor_without_rules_is_identifier() {
    let code = "Ok(5)";
    let call = Expr::Call { func: Box::new(path_expr(&[sp(0, 2)])), args: vec![num(sp(3, 4))] };
    let file = File { stmts: vec![Stmt::Expr(call)] };
    let mut events = Vec::new();
    register_file(&file, &mut events);
    let mut h = RustHighlighter::new(code, FallbackTable::new());
    h.collect(&events);
    h.register_comments();
    assert_eq!(h.write_tokens(), format!("{}({})", wrap("Ident", "Ok"), wrap("LitNum", "5")));
}
