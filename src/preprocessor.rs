//! What the document preprocessor decides for each annotated code block:
//! the feature options of the block and the HTML that replaces it.
use vstd::prelude::*;
use vstd::string::{StrSliceExecFns, StringExecFns, StringSliceAdditionalSpecFns};
use vstd::utf8::encode_utf8;
use crate::render::{
    char_index, lemma_char_index_bounds, lemma_char_index_monotone, rope_byte_to_char, rope_chars,
    rope_from_str, rope_insert, rope_remove, rope_to_string,
};

verus! {

/// The pieces of `s` around each occurrence of `sep`: the pieces finished so
/// far and the piece being read.
pub open spec fn split_state(s: Seq<char>, sep: char) -> (Seq<Seq<char>>, Seq<char>)
    decreases s.len(),
{
    if s.len() == 0 {
        (seq![], seq![])
    } else {
        let (done, cur) = split_state(s.drop_last(), sep);
        if s.last() == sep {
            (done.push(cur), seq![])
        } else {
            (done, cur.push(s.last()))
        }
    }
}

/// The pieces of `s` separated by `sep`; one more than there are
/// separators.
pub open spec fn split_spec(s: Seq<char>, sep: char) -> Seq<Seq<char>> {
    split_state(s, sep).0.push(split_state(s, sep).1)
}

/// Splits `s` at every `sep`.
pub fn split_at_char(s: &str, sep: char) -> (r: Vec<String>)
    ensures
        r@.len() == split_spec(s@, sep).len(),
        forall|i: int| 0 <= i < r@.len() ==> #[trigger] r@[i]@ == split_spec(s@, sep)[i],
{
    let n = s.unicode_len();
    let mut done: Vec<String> = Vec::new();
    let mut cur = String::new();
    let mut i: usize = 0;
    while i < n
        invariant
            i <= n,
            n == s@.len(),
            done@.len() == split_state(s@.take(i as int), sep).0.len(),
            forall|k: int|
                0 <= k < done@.len() ==> #[trigger] done@[k]@ == split_state(s@.take(i as int), sep).0[k],
            cur@ == split_state(s@.take(i as int), sep).1,
        decreases n - i,
    {
        let c = s.get_char(i);
        assert(s@.take(i + 1).drop_last() =~= s@.take(i as int));
        if c == sep {
            let piece = cur;
            done.push(piece);
            cur = String::new();
        } else {
            let one = s.substring_char(i, i + 1);
            assert(one@ =~= seq![c]);
            cur.append(one);
            assert(cur@ =~= split_state(s@.take(i + 1), sep).1);
        }
        i += 1;
    }
    assert(s@.take(n as int) =~= s@);
    done.push(cur);
    done
}

/// Lexicographic order of character sequences by code point.
pub open spec fn lex_lt(a: Seq<char>, b: Seq<char>) -> bool
    decreases a.len(),
{
    if a.len() == 0 {
        b.len() > 0
    } else if b.len() == 0 {
        false
    } else if a[0] != b[0] {
        (a[0] as u32) < (b[0] as u32)
    } else {
        lex_lt(a.drop_first(), b.drop_first())
    }
}

/// Whether `a` sorts before `b`.
pub fn str_lt(a: &str, b: &str) -> (r: bool)
    ensures
        r == lex_lt(a@, b@),
{
    let na = a.unicode_len();
    let nb = b.unicode_len();
    assert(a@.skip(0) =~= a@ && b@.skip(0) =~= b@);
    let mut i: usize = 0;
    while i < na && i < nb
        invariant
            i <= na,
            i <= nb,
            na == a@.len(),
            nb == b@.len(),
            lex_lt(a@, b@) == lex_lt(a@.skip(i as int), b@.skip(i as int)),
        decreases na - i,
    {
        let ca = a.get_char(i);
        let cb = b.get_char(i);
        assert(a@.skip(i as int)[0] == ca && b@.skip(i as int)[0] == cb);
        if ca != cb {
            return (ca as u32) < (cb as u32);
        }
        assert(a@.skip(i as int).drop_first() =~= a@.skip(i + 1));
        assert(b@.skip(i as int).drop_first() =~= b@.skip(i + 1));
        i += 1;
    }
    i == na && i < nb
}

/// A feature map as a list sorted by key, each key once.
pub open spec fn assoc_insert(
    m: Seq<(Seq<char>, Seq<char>)>,
    k: Seq<char>,
    v: Seq<char>,
) -> Seq<(Seq<char>, Seq<char>)>
    decreases m.len(),
{
    if m.len() == 0 {
        seq![(k, v)]
    } else if m[0].0 == k {
        seq![(k, v)] + m.drop_first()
    } else if lex_lt(k, m[0].0) {
        seq![(k, v)] + m
    } else {
        seq![m[0]] + assoc_insert(m.drop_first(), k, v)
    }
}

pub open spec fn pairs_view(v: Seq<(String, String)>) -> Seq<(Seq<char>, Seq<char>)> {
    Seq::new(v.len(), |i: int| (v[i].0@, v[i].1@))
}

/// Sets `k` to `v` in a feature map.
pub fn feature_insert(m: &mut Vec<(String, String)>, k: String, v: String)
    ensures
        pairs_view(final(m)@) == assoc_insert(pairs_view(old(m)@), k@, v@),
{
    let ghost m0 = pairs_view(m@);
    assert(m0.skip(0) =~= m0 && m0.take(0) + assoc_insert(m0, k@, v@) =~= assoc_insert(m0, k@, v@));
    let mut i: usize = 0;
    while i < m.len()
        invariant
            i <= m@.len(),
            m0 == pairs_view(m@),
            m@ == old(m)@,
            assoc_insert(m0, k@, v@) == m0.take(i as int) + assoc_insert(m0.skip(i as int), k@, v@),
            forall|j: int| 0 <= j < i ==> #[trigger] m0[j].0 != k@ && !lex_lt(k@, m0[j].0),
        decreases m@.len() - i,
    {
        let same = m[i].0.eq(&k);
        assert(m0.skip(i as int)[0] == m0[i as int]);
        if same {
            assert(m0[i as int].0 == k@);
            m.set(i, (k, v));
            assert(pairs_view(m@) =~= m0.take(i as int) + assoc_insert(m0.skip(i as int), k@, v@)) by {
                assert(m0.skip(i as int).drop_first() =~= m0.skip(i + 1));
            }
            return ;
        }
        if str_lt(k.as_str(), m[i].0.as_str()) {
            m.insert(i, (k, v));
            assert(pairs_view(m@) =~= m0.take(i as int) + assoc_insert(m0.skip(i as int), k@, v@));
            return ;
        }
        assert(m0.take(i as int) + assoc_insert(m0.skip(i as int), k@, v@) =~= m0.take(i + 1)
            + assoc_insert(m0.skip(i + 1), k@, v@)) by {
            assert(m0.skip(i as int).drop_first() =~= m0.skip(i + 1));
        }
        i += 1;
    }
    assert(m0.skip(i as int) =~= Seq::<(Seq<char>, Seq<char>)>::empty());
    m.push((k, v));
    assert(pairs_view(m@) =~= m0.take(i as int) + assoc_insert(m0.skip(i as int), k@, v@));
}

/// The feature icon used when a block names none.
pub const DEFAULT_ICON: &'static str = "@https://www.rust-lang.org/static/images/rust-logo-blk.svg";

/// What the host configuration holds for this preprocessor's `whichlang`
/// option.
#[derive(Clone, Copy, Debug, PartialEq, Eq, Structural)]
pub enum WhichlangSetting {
    /// The configuration has no table for this preprocessor.
    NoTable,
    /// The table exists but has no `whichlang` key.
    KeyMissing,
    /// `whichlang` is a boolean.
    Boolean(bool),
    /// `whichlang` holds something other than a boolean.
    NotBoolean,
}

#[derive(Clone, Copy, Debug, PartialEq, Eq, Structural)]
pub enum FeatureError {
    /// The `whichlang` option is not a boolean.
    WhichlangNotBoolean,
    /// A feature of a block has no `=value`.
    FeatureWithoutValue,
}

pub open spec fn default_features() -> Seq<(Seq<char>, Seq<char>)> {
    seq![("icon"@, DEFAULT_ICON@)]
}

/// Each `key=value` piece, in order, sets its key.
pub open spec fn apply_features(m: Seq<(Seq<char>, Seq<char>)>, pieces: Seq<Seq<char>>) -> Result<
    Seq<(Seq<char>, Seq<char>)>,
    FeatureError,
>
    decreases pieces.len(),
{
    if pieces.len() == 0 {
        Ok(m)
    } else {
        match apply_features(m, pieces.drop_last()) {
            Err(e) => Err(e),
            Ok(m1) => {
                let parts = split_spec(pieces.last(), '=');
                if parts.len() < 2 {
                    Err(FeatureError::FeatureWithoutValue)
                } else {
                    Ok(assoc_insert(m1, parts[0], parts[1]))
                }
            },
        }
    }
}

/// Once a piece fails, the whole list fails with that error.
proof fn lemma_apply_features_err(
    m: Seq<(Seq<char>, Seq<char>)>,
    pieces: Seq<Seq<char>>,
    k: int,
    e: FeatureError,
)
    requires
        0 <= k <= pieces.len(),
        apply_features(m, pieces.take(k)) == Err::<Seq<(Seq<char>, Seq<char>)>, FeatureError>(e),
    ensures
        apply_features(m, pieces) == Err::<Seq<(Seq<char>, Seq<char>)>, FeatureError>(e),
    decreases pieces.len(),
{
    if k == pieces.len() {
        assert(pieces.take(k) =~= pieces);
    } else {
        assert(pieces.drop_last().take(k) =~= pieces.take(k));
        lemma_apply_features_err(m, pieces.drop_last(), k, e);
    }
}

/// The features of a block: none when the configuration names
/// `whichlang` nowhere in a table of its own; else the defaults, overridden
/// by the block's comma-separated `key=value` list.
pub open spec fn features_spec(setting: WhichlangSetting, f: Option<Seq<char>>) -> Result<
    Option<Seq<(Seq<char>, Seq<char>)>>,
    FeatureError,
> {
    match setting {
        WhichlangSetting::NotBoolean => Err(FeatureError::WhichlangNotBoolean),
        WhichlangSetting::KeyMissing => Ok(None),
        _ => match f {
            None => Ok(Some(default_features())),
            Some(s) => match apply_features(default_features(), split_spec(s, ',')) {
                Ok(m) => Ok(Some(m)),
                Err(e) => Err(e),
            },
        },
    }
}

/// `key=value ` for each feature, in key order.
pub open spec fn features_text(m: Seq<(Seq<char>, Seq<char>)>) -> Seq<char>
    decreases m.len(),
{
    if m.len() == 0 {
        seq![]
    } else {
        features_text(m.drop_last()) + m.last().0 + "="@ + m.last().1 + " "@
    }
}

/// The element that replaces an annotated block.
pub open spec fn block_html_spec(features: Seq<char>, highlighted: Seq<char>) -> Seq<char> {
    "<pre><code class=\"language-hlrs "@ + features + "\">"@ + highlighted + "</code></pre>"@
}

pub open spec fn opt_view(f: Option<&str>) -> Option<Seq<char>> {
    match f {
        Some(x) => Some(x@),
        None => None,
    }
}

/// The document preprocessor.
pub struct RustHighlighterPreprocessor;

impl RustHighlighterPreprocessor {
    /// The preprocessor's name in the host configuration.
    pub fn name(&self) -> (r: &'static str)
        ensures
            r@ == "rust-highlight"@,
    {
        "rust-highlight"
    }

    /// The feature map of a block whose fence carries the list `f`, if any.
    pub fn whichlang_features(&self, setting: WhichlangSetting, f: Option<&str>) -> (r: Result<
        Option<Vec<(String, String)>>,
        FeatureError,
    >)
        ensures
            match (r, features_spec(setting, opt_view(f))) {
                (Ok(None), Ok(None)) => true,
                (Ok(Some(m)), Ok(Some(s))) => pairs_view(m@) == s,
                (Err(e1), Err(e2)) => e1 == e2,
                _ => false,
            },
    {
        match setting {
            WhichlangSetting::NotBoolean => {
                return Err(FeatureError::WhichlangNotBoolean);
            },
            WhichlangSetting::KeyMissing => {
                return Ok(None);
            },
            _ => {},
        }
        let mut m: Vec<(String, String)> = Vec::new();
        feature_insert(&mut m, "icon".to_owned(), DEFAULT_ICON.to_owned());
        assert(pairs_view(m@) =~= default_features()) by {
            reveal_with_fuel(assoc_insert, 1);
        }
        let list = match f {
            None => {
                return Ok(Some(m));
            },
            Some(list) => list,
        };
        let pieces = split_at_char(list, ',');
        let ghost ps = split_spec(list@, ',');
        let mut i: usize = 0;
        assert(ps.take(0) =~= Seq::<Seq<char>>::empty());
        while i < pieces.len()
            invariant
                i <= pieces@.len(),
                pieces@.len() == ps.len(),
                ps == split_spec(list@, ','),
                opt_view(f) == Some(list@),
                setting != WhichlangSetting::NotBoolean,
                setting != WhichlangSetting::KeyMissing,
                forall|k: int| 0 <= k < pieces@.len() ==> #[trigger] pieces@[k]@ == ps[k],
                apply_features(default_features(), ps.take(i as int)) == Ok::<
                    Seq<(Seq<char>, Seq<char>)>,
                    FeatureError,
                >(pairs_view(m@)),
            decreases pieces@.len() - i,
        {
            let parts = split_at_char(pieces[i].as_str(), '=');
            assert(ps.take(i + 1).drop_last() =~= ps.take(i as int));
            assert(pieces@[i as int]@ == ps[i as int]);
            if parts.len() < 2 {
                proof {
                    assert(ps.take(i + 1).last() == ps[i as int]);
                    assert(apply_features(default_features(), ps.take(i + 1)) == Err::<
                        Seq<(Seq<char>, Seq<char>)>,
                        FeatureError,
                    >(FeatureError::FeatureWithoutValue));
                    lemma_apply_features_err(
                        default_features(),
                        ps,
                        i + 1,
                        FeatureError::FeatureWithoutValue,
                    );
                }
                return Err(FeatureError::FeatureWithoutValue);
            }
            let key = parts[0].clone();
            let value = parts[1].clone();
            assert(ps.take(i + 1).last() == ps[i as int]);
            feature_insert(&mut m, key, value);
            i += 1;
        }
        assert(ps.take(ps.len() as int) =~= ps);
        Ok(Some(m))
    }

    /// The feature text of a block's `class`: `key=value ` for each feature
    /// in key order, or nothing when there are no features.
    pub fn features_attribute(&self, setting: WhichlangSetting, f: Option<&str>) -> (r: Result<
        String,
        FeatureError,
    >)
        ensures
            match (r, features_spec(setting, opt_view(f))) {
                (Ok(t), Ok(None)) => t@ == Seq::<char>::empty(),
                (Ok(t), Ok(Some(s))) => t@ == features_text(s),
                (Err(e1), Err(e2)) => e1 == e2,
                _ => false,
            },
    {
        match self.whichlang_features(setting, f) {
            Err(e) => Err(e),
            Ok(None) => Ok(String::new()),
            Ok(Some(m)) => {
                let mut text = String::new();
                let mut i: usize = 0;
                while i < m.len()
                    invariant
                        i <= m@.len(),
                        text@ == features_text(pairs_view(m@).take(i as int)),
                    decreases m@.len() - i,
                {
                    text.append(m[i].0.as_str());
                    text.append("=");
                    text.append(m[i].1.as_str());
                    text.append(" ");
                    assert(pairs_view(m@).take(i + 1).drop_last() =~= pairs_view(m@).take(i as int));
                    i += 1;
                }
                assert(pairs_view(m@).take(m@.len() as int) =~= pairs_view(m@));
                Ok(text)
            },
        }
    }

    /// The HTML element for a block: its features in the class, the
    /// highlighted code inside.
    pub fn code_block_html(&self, features: &str, highlighted: &str) -> (r: String)
        ensures
            r@ == block_html_spec(features@, highlighted@),
    {
        let mut r = "<pre><code class=\"language-hlrs ".to_owned();
        r.append(features);
        r.append("\">");
        r.append(highlighted);
        r.append("</code></pre>");
        r
    }
}

/// "```hlrs" begins at byte `i`.
pub open spec fn fence_open(b: Seq<u8>, i: int) -> bool {
    0 <= i && i + 7 <= b.len() && b.subrange(i, i + 7) == seq![96u8, 96, 96, 104, 108, 114, 115]
}

/// A newline followed by "```" begins at byte `k`.
pub open spec fn fence_close(b: Seq<u8>, k: int) -> bool {
    0 <= k && k + 4 <= b.len() && b.subrange(k, k + 4) == seq![10u8, 96, 96, 96]
}

/// How far past `from` the first closing fence begins, if any.
pub open spec fn close_distance(b: Seq<u8>, from: int) -> Option<nat>
    decreases b.len() - from,
{
    if from < 0 || from + 4 > b.len() {
        None
    } else if fence_close(b, from) {
        Some(0)
    } else {
        match close_distance(b, from + 1) {
            Some(d) => Some(d + 1),
            None => None,
        }
    }
}

/// How far past `from` the first newline is; `None` when there is none.
pub open spec fn newline_distance(b: Seq<u8>, from: int) -> Option<nat>
    decreases b.len() - from,
{
    if from < 0 || from >= b.len() {
        None
    } else if b[from] == 10u8 {
        Some(0)
    } else {
        match newline_distance(b, from + 1) {
            Some(d) => Some(d + 1),
            None => None,
        }
    }
}

/// The block that starts at byte `i`, if one does: `(start, end, features,
/// code_start, code_end)`. The fence "```hlrs" is followed either by a
/// newline, or by a comma and a feature list up to the end of its line; the
/// code then runs to the first newline followed by "```", which ends the
/// block.
pub open spec fn block_at(b: Seq<u8>, i: int) -> Option<(int, int, Option<(int, int)>, int, int)> {
    if !fence_open(b, i) || i + 7 >= b.len() {
        None
    } else if b[i + 7] == 44u8 {
        match newline_distance(b, i + 8) {
            None => None,
            Some(d) => {
                let line_end = i + 8 + d;
                match close_distance(b, line_end + 1) {
                    None => None,
                    Some(c) => {
                        let k = line_end + 1 + c;
                        Some((i, k + 4, Some((i + 8, line_end)), line_end + 1, k))
                    },
                }
            },
        }
    } else if b[i + 7] == 10u8 {
        match close_distance(b, i + 8) {
            None => None,
            Some(c) => {
                let k = i + 8 + c;
                Some((i, k + 4, None, i + 8, k))
            },
        }
    } else {
        None
    }
}

/// The blocks found scanning from byte `i`: the leftmost block, then the
/// blocks after its end.
pub open spec fn blocks_from(b: Seq<u8>, i: int) -> Seq<(int, int, Option<(int, int)>, int, int)>
    decreases b.len() - i
    via blocks_from_decreases
{
    if i < 0 || i >= b.len() {
        seq![]
    } else {
        match block_at(b, i) {
            Some(m) => seq![m] + blocks_from(b, m.1),
            None => blocks_from(b, i + 1),
        }
    }
}

#[via_fn]
proof fn blocks_from_decreases(b: Seq<u8>, i: int) {
    if 0 <= i < b.len() {
        if let Some(m) = block_at(b, i) {
            lemma_block_at(b, i);
        }
    }
}

pub open spec fn code_blocks_spec(b: Seq<u8>) -> Seq<(int, int, Option<(int, int)>, int, int)> {
    blocks_from(b, 0)
}

pub open spec fn raw_block_view(m: (usize, usize, Option<(usize, usize)>, usize, usize)) -> (
    int,
    int,
    Option<(int, int)>,
    int,
    int,
) {
    (
        m.0 as int,
        m.1 as int,
        match m.2 {
            Some(f) => Some((f.0 as int, f.1 as int)),
            None => None,
        },
        m.3 as int,
        m.4 as int,
    )
}

/// Relies on `regex::Regex::new` and `regex::Regex::captures_iter`: the
/// pattern compiles, and its successive non-overlapping leftmost matches,
/// with the spans of the whole match, of the feature group and of the code
/// group, are the blocks as `block_at` describes them (the feature list is
/// greedy up to its line's end, the code lazy up to the first closing
/// fence).
#[verifier::external_body]
fn code_block_matches(content: &str) -> (r: Vec<(usize, usize, Option<(usize, usize)>, usize, usize)>)
    ensures
        r@.len() == code_blocks_spec(content.spec_bytes()).len(),
        forall|i: int|
            0 <= i < r@.len() ==> raw_block_view(#[trigger] r@[i]) == code_blocks_spec(
                content.spec_bytes(),
            )[i],
{
    let re = regex::Regex::new(r"```hlrs(?:,([^\n]*))?\n([\s\S]*?)\n```").unwrap();
    re.captures_iter(content).map(|c| {
        let full = c.get(0).unwrap();
        let code = c.get(2).unwrap();
        (full.start(), full.end(), c.get(1).map(|f| (f.start(), f.end())), code.start(), code.end())
    }).collect()
}

proof fn lemma_close_distance(b: Seq<u8>, from: int)
    ensures
        close_distance(b, from) matches Some(d) ==> from + d + 4 <= b.len(),
    decreases b.len() - from,
{
    if from >= 0 && from + 4 <= b.len() && !fence_close(b, from) {
        lemma_close_distance(b, from + 1);
    }
}

proof fn lemma_newline_distance(b: Seq<u8>, from: int)
    ensures
        newline_distance(b, from) matches Some(d) ==> from + d < b.len(),
    decreases b.len() - from,
{
    if from >= 0 && from < b.len() && b[from] != 10u8 {
        lemma_newline_distance(b, from + 1);
    }
}

/// A block starting at `i` is well placed: its feature list and code lie
/// between its start and end, and it ends after it starts.
proof fn lemma_block_at(b: Seq<u8>, i: int)
    ensures
        block_at(b, i) matches Some(m) ==> i == m.0 && m.0 < m.3 && m.3 <= m.4 && m.4 < m.1 && m.1
            <= b.len() && (m.2 matches Some(f) ==> m.0 <= f.0 <= f.1 <= m.3),
{
    lemma_newline_distance(b, i + 8);
    if let Some(d) = newline_distance(b, i + 8) {
        lemma_close_distance(b, i + 8 + d + 1);
    }
    lemma_close_distance(b, i + 8);
}

/// Blocks found from byte `i` are in order, do not overlap, start at or
/// after `i` and lie within the text.
proof fn lemma_blocks_from_ordered(b: Seq<u8>, i: int)
    requires
        0 <= i,
    ensures
        ({
            let s = blocks_from(b, i);
            &&& forall|k: int|
                0 <= k < s.len() ==> i <= (#[trigger] s[k]).0 <= s[k].3 <= s[k].4 <= s[k].1 <= b.len()
                    && (s[k].2 matches Some(f) ==> s[k].0 <= f.0 <= f.1 <= s[k].3)
            &&& forall|k: int, l: int| 0 <= k < l < s.len() ==> (#[trigger] s[l]).0 >= (#[trigger] s[k]).1
        }),
    decreases b.len() - i,
{
    if i < b.len() {
        match block_at(b, i) {
            Some(m) => {
                lemma_block_at(b, i);
                lemma_blocks_from_ordered(b, m.1);
                let rest = blocks_from(b, m.1);
                let s = blocks_from(b, i);
                assert(s =~= seq![m] + rest);
                assert forall|k: int, l: int| 0 <= k < l < s.len() implies (#[trigger] s[l]).0 >= (
                #[trigger] s[k]).1 by {
                    assert(s[l] == rest[l - 1]);
                    if k > 0 {
                        assert(s[k] == rest[k - 1]);
                    }
                }
                assert forall|k: int| 0 <= k < s.len() implies i <= (#[trigger] s[k]).0 <= s[k].3
                    <= s[k].4 <= s[k].1 <= b.len() && (s[k].2 matches Some(f) ==> s[k].0 <= f.0
                    <= f.1 <= s[k].3) by {
                    if k > 0 {
                        assert(s[k] == rest[k - 1]);
                    }
                }
            },
            None => {
                lemma_blocks_from_ordered(b, i + 1);
            },
        }
    }
}

/// An annotated block of a document, in character positions: the whole
/// fenced block, its feature list if any, and its code.
pub struct CodeBlock {
    pub start: usize,
    pub end: usize,
    pub features: Option<String>,
    pub code: String,
}

/// The blocks in character positions, in order and apart.
pub open spec fn blocks_ordered(blocks: Seq<CodeBlock>, len: int) -> bool {
    &&& forall|k: int| 0 <= k < blocks.len() ==> (#[trigger] blocks[k]).start <= blocks[k].end <= len
    &&& forall|k: int, l: int|
        0 <= k < l < blocks.len() ==> (#[trigger] blocks[l]).start >= (#[trigger] blocks[k]).end
}

/// `blk` is the block `m` of `c`'s bytes, in character positions.
pub open spec fn block_matches(
    c: Seq<char>,
    blk: CodeBlock,
    m: (int, int, Option<(int, int)>, int, int),
) -> bool {
    &&& blk.start == char_index(c, m.0)
    &&& blk.end == char_index(c, m.1)
    &&& blk.code@ == c.subrange(char_index(c, m.3), char_index(c, m.4))
    &&& match (blk.features, m.2) {
        (Some(f), Some(fr)) => f@ == c.subrange(char_index(c, fr.0), char_index(c, fr.1)),
        (None, None) => true,
        _ => false,
    }
}

/// The text of `content` with each block's range replaced, last block
/// first.
pub open spec fn replace_from(
    content: Seq<char>,
    ranges: Seq<(int, int)>,
    repl: Seq<Seq<char>>,
    i: int,
) -> Seq<char>
    decreases ranges.len() - i,
{
    if i < 0 || i >= ranges.len() {
        content
    } else {
        let p = replace_from(content, ranges, repl, i + 1);
        p.take(ranges[i].0) + repl[i] + p.skip(ranges[i].1)
    }
}

pub open spec fn block_ranges(blocks: Seq<CodeBlock>) -> Seq<(int, int)> {
    Seq::new(blocks.len(), |k: int| (blocks[k].start as int, blocks[k].end as int))
}

/// Replacing blocks from `j` on leaves the text before block `j` as it was.
proof fn lemma_replace_prefix(
    content: Seq<char>,
    ranges: Seq<(int, int)>,
    repl: Seq<Seq<char>>,
    j: int,
    upto: int,
)
    requires
        0 <= j <= ranges.len(),
        repl.len() == ranges.len(),
        0 <= upto <= content.len(),
        forall|k: int| j <= k < ranges.len() ==> upto <= (#[trigger] ranges[k]).0 <= ranges[k].1 <= content.len(),
        forall|k: int, l: int|
            j <= k < l < ranges.len() ==> (#[trigger] ranges[l]).0 >= (#[trigger] ranges[k]).1,
    ensures
        replace_from(content, ranges, repl, j).len() >= upto,
        replace_from(content, ranges, repl, j).take(upto) == content.take(upto),
        j < ranges.len() ==> replace_from(content, ranges, repl, j + 1).len() >= ranges[j].1,
    decreases ranges.len() - j,
{
    if j < ranges.len() {
        lemma_replace_prefix(content, ranges, repl, j + 1, ranges[j].1);
        let p = replace_from(content, ranges, repl, j + 1);
        assert((p.take(ranges[j].0) + repl[j] + p.skip(ranges[j].1)).take(upto) =~= p.take(
            ranges[j].1,
        ).take(upto));
        assert(content.take(ranges[j].1).take(upto) =~= content.take(upto));
    }
}

fn convert_block(
    content: &str,
    rope: &ropey::Rope,
    raw: (usize, usize, Option<(usize, usize)>, usize, usize),
) -> (r: CodeBlock)
    requires
        rope_chars(*rope) == content@,
        ({
            let m = raw_block_view(raw);
            0 <= m.0 <= m.3 <= m.4 <= m.1 <= content.spec_bytes().len() && (m.2 matches Some(f)
                ==> m.0 <= f.0 <= f.1 <= m.3)
        }),
    ensures
        block_matches(content@, r, raw_block_view(raw)),
{
    let (start, end, features, code_start, code_end) = raw;
    proof {
        lemma_char_index_monotone(content@, code_start as int, code_end as int);
        lemma_char_index_bounds(content@, code_end as int);
        lemma_char_index_bounds(content@, end as int);
    }
    let s = rope_byte_to_char(rope, start);
    let e = rope_byte_to_char(rope, end);
    let cs = rope_byte_to_char(rope, code_start);
    let ce = rope_byte_to_char(rope, code_end);
    let code = content.substring_char(cs, ce).to_owned();
    let feature_text = match features {
        Some((fs, fe)) => {
            proof {
                lemma_char_index_monotone(content@, fs as int, fe as int);
                lemma_char_index_bounds(content@, fe as int);
            }
            let a = rope_byte_to_char(rope, fs);
            let z = rope_byte_to_char(rope, fe);
            Some(content.substring_char(a, z).to_owned())
        },
        None => None,
    };
    CodeBlock { start: s, end: e, features: feature_text, code }
}

impl RustHighlighterPreprocessor {
    /// The annotated blocks of a document, in order.
    pub fn find_code_blocks(&self, content: &str) -> (r: Vec<CodeBlock>)
        ensures
            r@.len() == code_blocks_spec(content.spec_bytes()).len(),
            forall|k: int|
                0 <= k < r@.len() ==> block_matches(
                    content@,
                    #[trigger] r@[k],
                    code_blocks_spec(content.spec_bytes())[k],
                ),
            blocks_ordered(r@, content@.len() as int),
    {
        let ghost b = content.spec_bytes();
        let ghost spec_blocks = code_blocks_spec(b);
        proof {
            lemma_blocks_from_ordered(b, 0);
        }
        let raw = code_block_matches(content);
        let rope = rope_from_str(content);
        let mut out: Vec<CodeBlock> = Vec::new();
        let mut i: usize = 0;
        while i < raw.len()
            invariant
                i <= raw@.len(),
                raw@.len() == spec_blocks.len(),
                b == content.spec_bytes(),
                spec_blocks == code_blocks_spec(b),
                rope_chars(rope) == content@,
                forall|k: int| 0 <= k < raw@.len() ==> raw_block_view(#[trigger] raw@[k]) == spec_blocks[k],
                forall|k: int|
                    0 <= k < spec_blocks.len() ==> 0 <= (#[trigger] spec_blocks[k]).0 <= spec_blocks[k].3
                        <= spec_blocks[k].4 <= spec_blocks[k].1 <= b.len() && (spec_blocks[k].2 matches Some(
                        f,
                    ) ==> spec_blocks[k].0 <= f.0 <= f.1 <= spec_blocks[k].3),
                out@.len() == i,
                forall|k: int| 0 <= k < i ==> block_matches(content@, #[trigger] out@[k], spec_blocks[k]),
            decreases raw@.len() - i,
        {
            assert(raw_block_view(raw@[i as int]) == spec_blocks[i as int]);
            let blk = convert_block(content, &rope, raw[i]);
            out.push(blk);
            i += 1;
        }
        proof {
            assert forall|k: int| 0 <= k < out@.len() implies (#[trigger] out@[k]).start <= out@[k].end
                <= content@.len() by {
                let m = spec_blocks[k];
                assert(block_matches(content@, out@[k], m));
                lemma_char_index_monotone(content@, m.0, m.1);
                lemma_char_index_bounds(content@, m.1);
            }
            assert forall|k: int, l: int| 0 <= k < l < out@.len() implies (#[trigger] out@[l]).start
                >= (#[trigger] out@[k]).end by {
                assert(block_matches(content@, out@[k], spec_blocks[k]));
                assert(block_matches(content@, out@[l], spec_blocks[l]));
                lemma_char_index_monotone(content@, spec_blocks[k].1, spec_blocks[l].0);
            }
        }
        out
    }

    /// The document with each block replaced by its HTML.
    pub fn replace_blocks(&self, content: &str, blocks: &Vec<CodeBlock>, html: &Vec<String>) -> (r:
        String)
        requires
            blocks_ordered(blocks@, content@.len() as int),
            html@.len() == blocks@.len(),
        ensures
            r@ == replace_from(
                content@,
                block_ranges(blocks@),
                Seq::new(html@.len(), |k: int| html@[k]@),
                0,
            ),
    {
        let ghost ranges = block_ranges(blocks@);
        let ghost repl = Seq::new(html@.len(), |k: int| html@[k]@);
        let mut rope = rope_from_str(content);
        let mut i: usize = blocks.len();
        while i > 0
            invariant
                i <= blocks@.len(),
                html@.len() == blocks@.len(),
                ranges == block_ranges(blocks@),
                repl == Seq::new(html@.len(), |k: int| html@[k]@),
                blocks_ordered(blocks@, content@.len() as int),
                rope_chars(rope) == replace_from(content@, ranges, repl, i as int),
            decreases i,
        {
            i -= 1;
            proof {
                lemma_replace_prefix(content@, ranges, repl, i as int, 0);
            }
            let a = blocks[i].start;
            let z = blocks[i].end;
            rope_remove(&mut rope, a, z);
            rope_insert(&mut rope, a, html[i].as_str());
        }
        rope_to_string(&rope)
    }
}

} // verus!
