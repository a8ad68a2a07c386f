//! The comment scanner: a textual pass, independent of the tree, that finds
//! line comments.
use vstd::prelude::*;
use vstd::string::StringSliceAdditionalSpecFns;

verus! {

/// The comment spans of `b` found by scanning from byte `i`; `open` is the
/// start of a comment still running at `i`. A comment runs from `//` up to
/// its line end, the newline excluded.
pub open spec fn comment_scan(b: Seq<u8>, i: int, open: Option<int>) -> Seq<(int, int)>
    decreases b.len() - i,
{
    if i < 0 || i >= b.len() {
        match open {
            Some(s) => seq![(s, b.len() as int)],
            None => seq![],
        }
    } else {
        match open {
            Some(s) => if b[i] == 10u8 {
                seq![(s, i)] + comment_scan(b, i + 1, None)
            } else {
                comment_scan(b, i + 1, Some(s))
            },
            None => if i + 1 < b.len() && b[i] == 47u8 && b[i + 1] == 47u8 {
                comment_scan(b, i + 2, Some(i))
            } else {
                comment_scan(b, i + 1, None)
            },
        }
    }
}

/// The comment spans of a text, in order.
pub open spec fn comment_spans(b: Seq<u8>) -> Seq<(int, int)> {
    comment_scan(b, 0, None)
}

/// Relies on `regex::Regex::new` and `regex::Regex::find_iter`: the pattern
/// compiles, and the successive non-overlapping leftmost matches of
/// `//`, an optional `/`, then any run of characters other than a newline,
/// are the spans from each `//` to the end of its line.
#[verifier::external_body]
fn comment_matches(code: &str) -> (r: Vec<(usize, usize)>)
    ensures
        r@.len() == comment_spans(code.spec_bytes()).len(),
        forall|i: int|
            0 <= i < r@.len() ==> (#[trigger] r@[i].0 as int, r@[i].1 as int) == comment_spans(
                code.spec_bytes(),
            )[i],
{
    let comment_regex = regex::Regex::new(r"\/\/\/?[^\n]*").unwrap();
    comment_regex.find_iter(code).map(|m| (m.start(), m.end())).collect()
}

proof fn lemma_comment_scan_bounds(b: Seq<u8>, i: int, open: Option<int>)
    requires
        0 <= i <= b.len(),
        match open {
            Some(s) => 0 <= s < i,
            None => true,
        },
    ensures
        forall|k: int|
            0 <= k < comment_scan(b, i, open).len() ==> {
                let (s, e) = #[trigger] comment_scan(b, i, open)[k];
                0 <= s < e <= b.len()
            },
    decreases b.len() - i,
{
    let r = comment_scan(b, i, open);
    if i >= b.len() {
        if let Some(s) = open {
            assert(r =~= seq![(s, b.len() as int)]);
        }
    } else {
        match open {
            Some(s) => if b[i] == 10u8 {
                lemma_comment_scan_bounds(b, i + 1, None);
                let rest = comment_scan(b, i + 1, None);
                assert(r =~= seq![(s, i)] + rest);
                assert forall|k: int| 0 <= k < r.len() implies {
                    let (s, e) = #[trigger] r[k];
                    0 <= s < e <= b.len()
                } by {
                    if k > 0 {
                        assert(r[k] == rest[k - 1]);
                    }
                }
            } else {
                lemma_comment_scan_bounds(b, i + 1, Some(s));
                assert(r == comment_scan(b, i + 1, Some(s)));
            },
            None => if i + 1 < b.len() && b[i] == 47u8 && b[i + 1] == 47u8 {
                lemma_comment_scan_bounds(b, i + 2, Some(i));
                assert(r == comment_scan(b, i + 2, Some(i)));
            } else {
                lemma_comment_scan_bounds(b, i + 1, None);
                assert(r == comment_scan(b, i + 1, None));
            },
        }
    }
}

/// Every comment span is non-empty and lies within the text.
pub proof fn lemma_comment_spans_bounds(b: Seq<u8>)
    ensures
        forall|k: int|
            0 <= k < comment_spans(b).len() ==> {
                let (s, e) = #[trigger] comment_spans(b)[k];
                0 <= s < e <= b.len()
            },
{
    lemma_comment_scan_bounds(b, 0, None);
}

/// The comment spans of `code` as byte ranges, in order of position.
pub fn scan_comments(code: &str) -> (r: Vec<(usize, usize)>)
    ensures
        r@.len() == comment_spans(code.spec_bytes()).len(),
        forall|i: int|
            0 <= i < r@.len() ==> (#[trigger] r@[i].0 as int, r@[i].1 as int) == comment_spans(
                code.spec_bytes(),
            )[i],
        forall|i: int| 0 <= i < r@.len() ==> #[trigger] r@[i].0 < r@[i].1 <= code.spec_bytes().len(),
{
    proof {
        lemma_comment_spans_bounds(code.spec_bytes());
    }
    let r = comment_matches(code);
    assert forall|i: int| 0 <= i < r@.len() implies #[trigger] r@[i].0 < r@[i].1
        <= code.spec_bytes().len() by {
        assert((r@[i].0 as int, r@[i].1 as int) == comment_spans(code.spec_bytes())[i]);
    }
    r
}

} // verus!
