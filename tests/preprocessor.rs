use rust_highlight::preprocessor::{
    split_at_char, str_lt, FeatureError, RustHighlighterPreprocessor, WhichlangSetting,
    DEFAULT_ICON,
};

#[test]
fn preprocessor_name() {
    assert_eq!(RustHighlighterPreprocessor.name(), "rust-highlight");
}

#[test]
fn default_features_when_block_has_none() {
    let p = RustHighlighterPreprocessor;
    let f = p.whichlang_features(WhichlangSetting::NoTable, None).unwrap().unwrap();
    assert_eq!(f, vec![("icon".to_string(), DEFAULT_ICON.to_string())]);
    let t = p.features_attribute(WhichlangSetting::Boolean(true), None).unwrap();
    assert_eq!(t, format!("icon={} ", DEFAULT_ICON));
}

#[test]
fn block_features_override_and_sort() {
    let p = RustHighlighterPreprocessor;
    let f = p
        .whichlang_features(WhichlangSetting::Boolean(false), Some("title=Main,icon=@x.svg,a=1"))
        .unwrap()
        .unwrap();
    assert_eq!(
        f,
        vec![
            ("a".to_string(), "1".to_string()),
            ("icon".to_string(), "@x.svg".to_string()),
            ("title".to_string(), "Main".to_string()),
        ]
    );
    let t = p.features_attribute(WhichlangSetting::NoTable, Some("title=Main")).unwrap();
    assert_eq!(t, format!("icon={} title=Main ", DEFAULT_ICON));
}

#[test]
fn no_features_without_whichlang_key() {
    let p = RustHighlighterPreprocessor;
    assert_eq!(p.whichlang_features(WhichlangSetting::KeyMissing, Some("a=1")), Ok(None));
    assert_eq!(p.features_attribute(WhichlangSetting::KeyMissing, None), Ok(String::new()));
}

#[test]
fn feature_errors() {
    let p = RustHighlighterPreprocessor;
    assert_eq!(
        p.whichlang_features(WhichlangSetting::NotBoolean, None),
        Err(FeatureError::WhichlangNotBoolean)
    );
    assert_eq!(
        p.whichlang_features(WhichlangSetting::NoTable, Some("a=1,flag")),
        Err(FeatureError::FeatureWithoutValue)
    );
}

#[test]
fn splitting_and_ordering() {
    assert_eq!(split_at_char("a,b,,c", ','), vec!["a", "b", "", "c"]);
    assert_eq!(split_at_char("", ','), vec![""]);
    assert!(str_lt("icon", "title"));
    assert!(str_lt("ab", "abc"));
    assert!(!str_lt("b", "abc"));
    assert!(!str_lt("same", "same"));
}

#[test]
fn block_html() {
    let p = RustHighlighterPreprocessor;
    assert_eq!(
        p.code_block_html("icon=x ", "code"),
        "<pre><code class=\"language-hlrs icon=x \">code</code></pre>"
    );
}

#[test]
fn finds_code_blocks() {
    let p = RustHighlighterPreprocessor;
    let doc = "intro é\n```hlrs\nlet x = 5;\n```\ntext\n```hlrs,title=T\nfn f() {}\n```\n```rust\nno\n```";
    let blocks = p.find_code_blocks(doc);
    assert_eq!(blocks.len(), 2);
    assert_eq!(blocks[0].start, 8);
    assert_eq!(blocks[0].features, None);
    assert_eq!(blocks[0].code, "let x = 5;");
    assert_eq!(blocks[1].features.as_deref(), Some("title=T"));
    assert_eq!(blocks[1].code, "fn f() {}");
    let chars: Vec<char> = doc.chars().collect();
    let whole: String = chars[blocks[1].start..blocks[1].end].iter().collect();
    assert_eq!(whole, "```hlrs,title=T\nfn f() {}\n```");
}

#[test]
fn unterminated_block_is_not_found() {
    let p = RustHighlighterPreprocessor;
    assert!(p.find_code_blocks("```hlrs\nlet x = 1;\n").is_empty());
    assert!(p.find_code_blocks("```hlrs,t=1").is_empty());
}

#[test]
fn replaces_blocks_with_html() {
    let p = RustHighlighterPreprocessor;
    let doc = "a\n```hlrs\nx\n```\nb ü\n```hlrs\ny\n```\nc";
    let blocks = p.find_code_blocks(doc);
    assert_eq!(blocks.len(), 2);
    let html = vec!["<X>".to_string(), "<Y>".to_string()];
    assert_eq!(p.replace_blocks(doc, &blocks, &html), "a\n<X>\nb ü\n<Y>\nc");
}
