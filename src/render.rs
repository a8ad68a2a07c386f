//! The renderer: inserts markers into the text in one forward pass over the
//! entries, at byte offsets of the source text, into a rope buffer.
use vstd::prelude::*;
use vstd::utf8::{encode_scalar, encode_utf8};
use ropey::Rope;
use crate::tokens::SpannedToken;

verus! {

/// `ropey::Rope`, the text buffer markers and replacements are inserted
/// into; opaque, its characters are named by `rope_chars`.
#[verifier::external_type_specification]
#[verifier::external_body]
pub struct ExRope(ropey::Rope);

/// The characters a rope holds.
pub uninterp spec fn rope_chars(r: Rope) -> Seq<char>;

/// Relies on `ropey::Rope::from_str`: the rope holds the given text.
#[verifier::external_body]
pub(crate) fn rope_from_str(s: &str) -> (r: Rope)
    ensures
        rope_chars(r) == s@,
{
    Rope::from_str(s)
}

/// Relies on `ropey::Rope::len_chars`: the number of characters held.
#[verifier::external_body]
pub(crate) fn rope_len_chars(r: &Rope) -> (n: usize)
    ensures
        n == rope_chars(*r).len(),
{
    r.len_chars()
}

/// Relies on `ropey::Rope::byte_to_char`: the index of the character the
/// byte belongs to (one past the end for the end); it panics past the end.
#[verifier::external_body]
pub(crate) fn rope_byte_to_char(r: &Rope, byte_idx: usize) -> (n: usize)
    requires
        byte_idx <= encode_utf8(rope_chars(*r)).len(),
    ensures
        n == char_index(rope_chars(*r), byte_idx as int),
{
    r.byte_to_char(byte_idx)
}

/// Relies on `ropey::Rope::insert`: the text goes in at the character
/// index; it panics past the end.
#[verifier::external_body]
pub(crate) fn rope_insert(r: &mut Rope, char_idx: usize, text: &str)
    requires
        char_idx <= rope_chars(*old(r)).len(),
    ensures
        rope_chars(*final(r)) == rope_chars(*old(r)).take(char_idx as int) + text@ + rope_chars(
            *old(r),
        ).skip(char_idx as int),
{
    r.insert(char_idx, text)
}

/// Relies on `ropey::Rope::remove`: the characters in `start..end` go;
/// it panics on a reversed range or one past the end.
#[verifier::external_body]
pub(crate) fn rope_remove(r: &mut Rope, start: usize, end: usize)
    requires
        start <= end <= rope_chars(*old(r)).len(),
    ensures
        rope_chars(*final(r)) == rope_chars(*old(r)).take(start as int) + rope_chars(*old(r)).skip(
            end as int,
        ),
{
    r.remove(start..end)
}

/// Relies on the `Display` impl of `ropey::Rope`: it writes the characters
/// held, in order.
#[verifier::external_body]
pub(crate) fn rope_to_string(r: &Rope) -> (s: String)
    ensures
        s@ == rope_chars(*r),
{
    r.to_string()
}

/// Number of bytes in the UTF-8 encoding of `c`.
pub open spec fn utf8_width(c: char) -> int {
    encode_scalar(c as u32).len() as int
}

/// Index of the character that byte `b` of the UTF-8 encoding of `s`
/// belongs to; `s.len()` at and past the end.
pub open spec fn char_index(s: Seq<char>, b: int) -> int
    decreases s.len(),
{
    if s.len() == 0 || b < utf8_width(s[0]) {
        0
    } else {
        1 + char_index(s.drop_first(), b - utf8_width(s[0]))
    }
}

proof fn lemma_utf8_width_pos(c: char)
    ensures
        utf8_width(c) >= 1,
{
}

pub proof fn lemma_char_index_bounds(s: Seq<char>, b: int)
    ensures
        0 <= char_index(s, b) <= s.len(),
    decreases s.len(),
{
    if s.len() > 0 {
        lemma_char_index_bounds(s.drop_first(), b - utf8_width(s[0]));
    }
}

pub proof fn lemma_char_index_monotone(s: Seq<char>, a: int, b: int)
    requires
        a <= b,
    ensures
        char_index(s, a) <= char_index(s, b),
    decreases s.len(),
{
    if s.len() > 0 {
        lemma_utf8_width_pos(s[0]);
        if a >= utf8_width(s[0]) {
            lemma_char_index_monotone(s.drop_first(), a - utf8_width(s[0]), b - utf8_width(s[0]));
        } else {
            lemma_char_index_bounds(s.drop_first(), b - utf8_width(s[0]));
        }
    }
}

/// `code` with `marks[i]` inserted before character `cuts[i]`, the marks at
/// one cut in order.
pub open spec fn weave(code: Seq<char>, cuts: Seq<int>, marks: Seq<Seq<char>>) -> Seq<char>
    decreases cuts.len(),
{
    if cuts.len() == 0 || marks.len() == 0 {
        code
    } else {
        weave(code.take(cuts.last()), cuts.drop_last(), marks.drop_last()) + marks.last()
            + code.skip(cuts.last())
    }
}

/// Total number of characters in `marks`.
pub open spec fn total_len(marks: Seq<Seq<char>>) -> int
    decreases marks.len(),
{
    if marks.len() == 0 {
        0
    } else {
        total_len(marks.drop_last()) + marks.last().len()
    }
}

pub open spec fn cuts_within(cuts: Seq<int>, k: int) -> bool {
    forall|i: int| 0 <= i < cuts.len() ==> 0 <= #[trigger] cuts[i] <= k
}

pub open spec fn nondecreasing(cuts: Seq<int>) -> bool {
    forall|i: int, j: int| 0 <= i < j < cuts.len() ==> #[trigger] cuts[i] <= #[trigger] cuts[j]
}

proof fn lemma_total_len_nonneg(marks: Seq<Seq<char>>)
    ensures
        total_len(marks) >= 0,
    decreases marks.len(),
{
    if marks.len() > 0 {
        lemma_total_len_nonneg(marks.drop_last());
    }
}

proof fn lemma_weave_split(code: Seq<char>, cuts: Seq<int>, marks: Seq<Seq<char>>, k: int)
    requires
        cuts.len() == marks.len(),
        0 <= k <= code.len(),
        cuts_within(cuts, k),
        nondecreasing(cuts),
    ensures
        weave(code, cuts, marks) == weave(code.take(k), cuts, marks) + code.skip(k),
        weave(code.take(k), cuts, marks).len() == k + total_len(marks),
    decreases cuts.len(),
{
    if cuts.len() == 0 {
        assert(code =~= code.take(k) + code.skip(k));
    } else {
        let l = cuts.last();
        assert(cuts_within(cuts.drop_last(), l));
        lemma_weave_split(code.take(l), cuts.drop_last(), marks.drop_last(), l);
        lemma_weave_split(code.take(k).take(l), cuts.drop_last(), marks.drop_last(), l);
        assert(code.take(k).take(l) =~= code.take(l));
        assert(code.take(l).take(l) =~= code.take(l));
        assert(code.take(k).skip(l) + code.skip(k) =~= code.skip(l));
    }
}

/// One insertion step of the renderer.
proof fn lemma_weave_step(code: Seq<char>, cuts: Seq<int>, marks: Seq<Seq<char>>, i: int)
    requires
        cuts.len() == marks.len(),
        0 <= i < cuts.len(),
        cuts_within(cuts, code.len() as int),
        nondecreasing(cuts),
    ensures
        weave(code, cuts.take(i + 1), marks.take(i + 1)) == {
            let w = weave(code, cuts.take(i), marks.take(i));
            let at = cuts[i] + total_len(marks.take(i));
            w.take(at) + marks[i] + w.skip(at)
        },
        total_len(marks.take(i + 1)) == total_len(marks.take(i)) + marks[i].len(),
        weave(code, cuts.take(i), marks.take(i)).len() == code.len() + total_len(marks.take(i)),
{
    let c = cuts[i];
    let cs = cuts.take(i);
    let ms = marks.take(i);
    assert(cuts.take(i + 1).drop_last() =~= cs);
    assert(marks.take(i + 1).drop_last() =~= ms);
    assert(cuts_within(cs, c));
    assert(nondecreasing(cs));
    lemma_weave_split(code, cs, ms, c);
    let w = weave(code, cs, ms);
    let at = c + total_len(ms);
    assert(w.take(at) =~= weave(code.take(c), cs, ms));
    assert(w.skip(at) =~= code.skip(c));
    assert(cuts_within(cs, code.len() as int));
    lemma_weave_split(code, cs, ms, code.len() as int);
    assert(code.take(code.len() as int) =~= code);
    assert(code.skip(code.len() as int) =~= Seq::<char>::empty());
    assert(w =~= weave(code, cs, ms) + Seq::<char>::empty());
}

/// Stripping the inserted marks, that is inserting empty ones, gives back
/// the source text.
pub proof fn lemma_weave_blank(code: Seq<char>, cuts: Seq<int>, n: nat)
    requires
        cuts.len() == n,
        cuts_within(cuts, code.len() as int),
        nondecreasing(cuts),
    ensures
        weave(code, cuts, Seq::new(n, |i: int| Seq::<char>::empty())) == code,
    decreases n,
{
    if n > 0 {
        let l = cuts.last();
        let marks = Seq::new(n, |i: int| Seq::<char>::empty());
        assert(marks.drop_last() =~= Seq::new((n - 1) as nat, |i: int| Seq::<char>::empty()));
        assert(cuts_within(cuts.drop_last(), l));
        lemma_weave_blank(code.take(l), cuts.drop_last(), (n - 1) as nat);
        assert(code.take(l) + Seq::<char>::empty() + code.skip(l) =~= code);
    }
}

/// The character positions of the entries' byte offsets.
pub open spec fn cuts_of(code: Seq<char>, entries: Seq<SpannedToken>) -> Seq<int> {
    Seq::new(entries.len(), |i: int| char_index(code, entries[i].start as int))
}

/// The marker text of each entry.
pub open spec fn marks_of(entries: Seq<SpannedToken>) -> Seq<Seq<char>> {
    Seq::new(entries.len(), |i: int| entries[i].kind.marker_spec())
}

/// The text rendered from the entries: each entry's marker inserted at its
/// start offset, in entry order.
pub open spec fn render_spec(code: Seq<char>, entries: Seq<SpannedToken>) -> Seq<char> {
    weave(code, cuts_of(code, entries), marks_of(entries))
}

pub open spec fn starts_nondecreasing(entries: Seq<SpannedToken>) -> bool {
    forall|i: int, j: int|
        0 <= i < j < entries.len() ==> #[trigger] entries[i].start <= #[trigger] entries[j].start
}

pub proof fn lemma_cuts_of(code: Seq<char>, entries: Seq<SpannedToken>)
    requires
        starts_nondecreasing(entries),
    ensures
        nondecreasing(cuts_of(code, entries)),
        cuts_within(cuts_of(code, entries), code.len() as int),
        cuts_of(code, entries).len() == marks_of(entries).len(),
{
    let cuts = cuts_of(code, entries);
    assert forall|i: int, j: int| 0 <= i < j < cuts.len() implies #[trigger] cuts[i]
        <= #[trigger] cuts[j] by {
        lemma_char_index_monotone(code, entries[i].start as int, entries[j].start as int);
    }
    assert forall|i: int| 0 <= i < cuts.len() implies 0 <= #[trigger] cuts[i] <= code.len() by {
        lemma_char_index_bounds(code, entries[i].start as int);
    }
}

/// Renders `entries` (already carrying their final categories) into `code`:
/// each entry's marker goes in at its start offset shifted by what was
/// inserted before it.
pub fn render_entries(code: &str, entries: &Vec<SpannedToken>) -> (r: String)
    requires
        starts_nondecreasing(entries@),
        forall|i: int| 0 <= i < entries@.len() ==> #[trigger] entries@[i].start <= code.len(),
    ensures
        r@ == render_spec(code@, entries@),
{
    let source = rope_from_str(code);
    let mut output = rope_from_str(code);
    let base = rope_len_chars(&source);
    let ghost cuts = cuts_of(code@, entries@);
    let ghost marks = marks_of(entries@);
    proof {
        lemma_cuts_of(code@, entries@);
        assert(cuts.take(0) =~= Seq::<int>::empty());
        assert(code@.len() == base);
    }
    let mut i: usize = 0;
    while i < entries.len()
        invariant
            i <= entries@.len(),
            rope_chars(source) == code@,
            base == code@.len(),
            cuts == cuts_of(code@, entries@),
            marks == marks_of(entries@),
            nondecreasing(cuts),
            cuts_within(cuts, code@.len() as int),
            cuts.len() == marks.len(),
            cuts.len() == entries@.len(),
            forall|k: int| 0 <= k < entries@.len() ==> #[trigger] entries@[k].start <= code.len(),
            rope_chars(output) == weave(code@, cuts.take(i as int), marks.take(i as int)),
        decreases entries@.len() - i,
    {
        let token = entries[i];
        let tag = token.kind.marker();
        proof {
            lemma_weave_step(code@, cuts, marks, i as int);
            lemma_char_index_bounds(code@, token.start as int);
            lemma_total_len_nonneg(marks.take(i as int));
        }
        let at = rope_byte_to_char(&source, token.start);
        let offset = rope_len_chars(&output) - base;
        rope_insert(&mut output, at + offset, tag);
        i += 1;
    }
    proof {
        assert(cuts.take(entries@.len() as int) =~= cuts);
        assert(marks.take(entries@.len() as int) =~= marks);
    }
    rope_to_string(&output)
}

} // verus!
