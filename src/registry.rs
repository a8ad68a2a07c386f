//! The span registry: open and close entries kept in render order.
//!
//! Each registered span `[start, end)` with `start < end` is one opening
//! entry carrying its category and one closing entry
//! (`SpannedToken::close_at(end)`). Registering a span twice changes nothing.
use vstd::prelude::*;
use crate::tokens::{key_le, key_lt, SpannedToken, TokenTag};

verus! {

/// Whether an entry is shaped as an open or a close entry.
pub open spec fn entry_ok(t: SpannedToken) -> bool {
    if t.kind == TokenTag::EndOfToken {
        t.end == usize::MAX
    } else {
        t.start < t.end && t.end < usize::MAX
    }
}

pub open spec fn sorted(s: Seq<SpannedToken>) -> bool {
    forall|i: int, j: int| 0 <= i < j < s.len() ==> key_le(#[trigger] s[i], #[trigger] s[j])
}

/// Opens minus closes.
pub open spec fn depth(s: Seq<SpannedToken>) -> int
    decreases s.len(),
{
    if s.len() == 0 {
        0
    } else {
        depth(s.drop_last()) + if s.last().is_close() {
            -1int
        } else {
            1int
        }
    }
}

/// Every prefix holds at least as many opens as closes, and the whole holds
/// as many of each: every open is matched by exactly one later close.
pub open spec fn balanced(s: Seq<SpannedToken>) -> bool {
    &&& forall|k: int| 0 <= k <= s.len() ==> depth(#[trigger] s.take(k)) >= 0
    &&& depth(s) == 0
}

pub open spec fn registry_wf(s: Seq<SpannedToken>) -> bool {
    &&& sorted(s)
    &&& forall|i: int| 0 <= i < s.len() ==> entry_ok(#[trigger] s[i])
    &&& balanced(s)
}

/// Index of the first entry that `t` precedes.
pub open spec fn insert_index(s: Seq<SpannedToken>, t: SpannedToken) -> int
    decreases s.len(),
{
    if s.len() == 0 {
        0
    } else if key_lt(t, s[0]) {
        0
    } else {
        1 + insert_index(s.drop_first(), t)
    }
}

pub open spec fn insert_sorted(s: Seq<SpannedToken>, t: SpannedToken) -> Seq<SpannedToken> {
    s.insert(insert_index(s, t), t)
}

/// The entries after registering `t` as a span.
pub open spec fn register_spec(s: Seq<SpannedToken>, t: SpannedToken) -> Seq<SpannedToken> {
    if t.start >= t.end || s.contains(t) {
        s
    } else {
        insert_sorted(insert_sorted(s, t), SpannedToken::close_at(t.end))
    }
}

/// The spans a sequence of entries opens.
pub open spec fn opened(s: Seq<SpannedToken>) -> Set<SpannedToken> {
    Set::new(|t: SpannedToken| s.contains(t) && !t.is_close())
}

pub proof fn lemma_key_le_trans(a: SpannedToken, b: SpannedToken, c: SpannedToken)
    requires
        key_le(a, b),
        key_le(b, c),
    ensures
        key_le(a, c),
{
}

proof fn lemma_insert_index(s: Seq<SpannedToken>, t: SpannedToken, i: int)
    requires
        0 <= i <= s.len(),
        forall|j: int| 0 <= j < i ==> !key_lt(t, #[trigger] s[j]),
        i == s.len() || key_lt(t, s[i]),
    ensures
        insert_index(s, t) == i,
    decreases i,
{
    if i > 0 {
        lemma_insert_index(s.drop_first(), t, i - 1);
    }
}

proof fn lemma_insert_index_bounds(s: Seq<SpannedToken>, t: SpannedToken)
    ensures
        0 <= insert_index(s, t) <= s.len(),
        forall|j: int| 0 <= j < insert_index(s, t) ==> !key_lt(t, #[trigger] s[j]),
        insert_index(s, t) < s.len() ==> key_lt(t, s[insert_index(s, t)]),
    decreases s.len(),
{
    if s.len() > 0 && !key_lt(t, s[0]) {
        lemma_insert_index_bounds(s.drop_first(), t);
        assert forall|j: int| 0 <= j < insert_index(s, t) implies !key_lt(t, #[trigger] s[j]) by {
            if j > 0 {
                assert(s[j] == s.drop_first()[j - 1]);
            }
        }
    }
}

proof fn lemma_depth_append(a: Seq<SpannedToken>, b: Seq<SpannedToken>)
    ensures
        depth(a + b) == depth(a) + depth(b),
    decreases b.len(),
{
    if b.len() > 0 {
        lemma_depth_append(a, b.drop_last());
        assert((a + b).drop_last() =~= a + b.drop_last());
    }
}

proof fn lemma_depth_insert(s: Seq<SpannedToken>, i: int, x: SpannedToken, k: int)
    requires
        0 <= i <= s.len(),
        0 <= k <= s.len() + 1,
    ensures
        k <= i ==> depth(s.insert(i, x).take(k)) == depth(s.take(k)),
        k > i ==> depth(s.insert(i, x).take(k)) == depth(s.take(k - 1)) + depth(seq![x]),
{
    let r = s.insert(i, x);
    if k <= i {
        assert(r.take(k) =~= s.take(k));
    } else {
        assert(r.take(k) =~= s.take(i) + seq![x] + s.subrange(i, k - 1));
        assert(s.take(k - 1) =~= s.take(i) + s.subrange(i, k - 1));
        lemma_depth_append(s.take(i) + seq![x], s.subrange(i, k - 1));
        lemma_depth_append(s.take(i), seq![x]);
        lemma_depth_append(s.take(i), s.subrange(i, k - 1));
    }
}

proof fn lemma_insert_sorted_sorted(s: Seq<SpannedToken>, t: SpannedToken)
    requires
        sorted(s),
    ensures
        sorted(insert_sorted(s, t)),
{
    lemma_insert_index_bounds(s, t);
    let i = insert_index(s, t);
    let r = insert_sorted(s, t);
    assert forall|a: int, b: int| 0 <= a < b < r.len() implies key_le(
        #[trigger] r[a],
        #[trigger] r[b],
    ) by {
        if b < i {
        } else if b == i {
            assert(!key_lt(t, s[a]));
        } else if a < i {
            assert(!key_lt(t, s[a]));
            if i < s.len() {
                lemma_key_le_trans(s[a], t, s[i]);
            }
        } else if a == i {
            lemma_key_le_trans(t, s[i], s[b - 1]);
        } else {
        }
    }
}

proof fn lemma_depth_single(x: SpannedToken)
    ensures
        depth(seq![x]) == if x.is_close() {
            -1int
        } else {
            1int
        },
{
    assert(seq![x].drop_last() =~= Seq::<SpannedToken>::empty());
    reveal_with_fuel(depth, 2);
}

/// Inserting an open entry and, after it, a close entry keeps a sequence
/// balanced.
proof fn lemma_pair_balanced(s: Seq<SpannedToken>, i: int, t: SpannedToken, j: int, c: SpannedToken)
    requires
        balanced(s),
        0 <= i <= s.len(),
        i < j <= s.len() + 1,
        !t.is_close(),
        c.is_close(),
    ensures
        balanced(s.insert(i, t).insert(j, c)),
{
    let s1 = s.insert(i, t);
    let s2 = s1.insert(j, c);
    lemma_depth_single(t);
    lemma_depth_single(c);
    assert forall|k: int| 0 <= k <= s1.len() implies depth(#[trigger] s1.take(k)) >= if k > i {
        1int
    } else {
        0int
    } by {
        lemma_depth_insert(s, i, t, k);
        if k > i {
            assert(depth(s.take(k - 1)) >= 0);
        } else {
            assert(depth(s.take(k)) >= 0);
        }
    }
    assert forall|k: int| 0 <= k <= s2.len() implies depth(#[trigger] s2.take(k)) >= 0 by {
        lemma_depth_insert(s1, j, c, k);
        if k > j {
            assert(depth(s1.take(k - 1)) >= 1);
        } else {
            assert(depth(s1.take(k)) >= 0);
        }
    }
    lemma_depth_insert(s, i, t, s.len() as int + 1);
    assert(s1.take(s1.len() as int) =~= s1);
    assert(s.take(s.len() as int) =~= s);
    lemma_depth_insert(s1, j, c, s1.len() as int + 1);
    assert(s2.take(s2.len() as int) =~= s2);
}

proof fn lemma_pair_shapes(s: Seq<SpannedToken>, i: int, t: SpannedToken, j: int, c: SpannedToken)
    requires
        forall|k: int| 0 <= k < s.len() ==> entry_ok(#[trigger] s[k]),
        0 <= i <= s.len(),
        0 <= j <= s.len() + 1,
        entry_ok(t),
        entry_ok(c),
    ensures
        forall|k: int| 0 <= k < s.len() + 2 ==> entry_ok(#[trigger] s.insert(i, t).insert(j, c)[k]),
{
    let s1 = s.insert(i, t);
    assert forall|k: int| 0 <= k < s1.len() implies entry_ok(#[trigger] s1[k]) by {
        if k > i {
            assert(s1[k] == s[k - 1]);
        }
    }
    let s2 = s1.insert(j, c);
    assert forall|k: int| 0 <= k < s2.len() implies entry_ok(#[trigger] s2[k]) by {
        if k > j {
            assert(s2[k] == s1[k - 1]);
        }
    }
}

proof fn lemma_pair_opened(s: Seq<SpannedToken>, i: int, t: SpannedToken, j: int, c: SpannedToken)
    requires
        0 <= i <= s.len(),
        i < j <= s.len() + 1,
        !t.is_close(),
        c.is_close(),
    ensures
        opened(s.insert(i, t).insert(j, c)) == opened(s).insert(t),
{
    let s1 = s.insert(i, t);
    let s2 = s1.insert(j, c);
    assert forall|x: SpannedToken| opened(s2).contains(x) implies opened(s).insert(t).contains(
        x,
    ) by {
        let k = choose|k: int| 0 <= k < s2.len() && s2[k] == x;
        if x != t {
            if k < j {
                if k > i {
                    assert(s[k - 1] == x);
                } else {
                    assert(s[k] == x);
                }
            } else if k > j {
                if k - 1 > i {
                    assert(s[k - 2] == x);
                } else {
                    assert(s[k - 1] == x);
                }
            }
        }
    }
    assert forall|x: SpannedToken| opened(s).insert(t).contains(x) implies opened(s2).contains(
        x,
    ) by {
        if x == t {
            assert(s2[i] == t);
        } else {
            let k = choose|k: int| 0 <= k < s.len() && s[k] == x;
            let k1 = if k < i {
                k
            } else {
                k + 1
            };
            assert(s1[k1] == x);
            let k2 = if k1 < j {
                k1
            } else {
                k1 + 1
            };
            assert(s2[k2] == x);
        }
    }
    assert(opened(s2) =~= opened(s).insert(t));
}

/// Registering keeps the registry sorted, well-shaped and balanced, and
/// adds exactly the span to the opened set.
pub proof fn lemma_register_wf(s: Seq<SpannedToken>, t: SpannedToken)
    requires
        registry_wf(s),
        t.kind != TokenTag::EndOfToken,
        t.end < usize::MAX,
    ensures
        registry_wf(register_spec(s, t)),
        t.start < t.end ==> opened(register_spec(s, t)) == opened(s).insert(t),
        t.start >= t.end ==> register_spec(s, t) == s,
{
    if t.start >= t.end || s.contains(t) {
        if s.contains(t) && t.start < t.end {
            assert(opened(s).insert(t) =~= opened(s));
        }
        return ;
    }
    let c = SpannedToken::close_at(t.end);
    lemma_insert_index_bounds(s, t);
    let i = insert_index(s, t);
    let s1 = insert_sorted(s, t);
    lemma_insert_sorted_sorted(s, t);
    lemma_insert_index_bounds(s1, c);
    let j = insert_index(s1, c);
    lemma_insert_sorted_sorted(s1, c);
    assert(j > i) by {
        if j <= i {
            assert(s1[j] == t || key_le(s1[j], t));
            assert(key_lt(c, s1[j]));
        }
    }
    lemma_pair_balanced(s, i, t, j, c);
    lemma_pair_shapes(s, i, t, j, c);
    lemma_pair_opened(s, i, t, j, c);
}

/// Every entry lies within a text of `len` bytes.
pub open spec fn entries_within(entries: Seq<SpannedToken>, len: int) -> bool {
    forall|i: int|
        0 <= i < entries.len() ==> #[trigger] entries[i].start <= len && (!entries[i].is_close()
            ==> entries[i].end <= len)
}

pub proof fn lemma_register_within(s: Seq<SpannedToken>, t: SpannedToken, len: int)
    requires
        entries_within(s, len),
        registry_wf(s),
        t.kind != TokenTag::EndOfToken,
        t.start < t.end <= len,
        t.end < usize::MAX,
        !s.contains(t),
    ensures
        entries_within(register_spec(s, t), len),
{
    let c = SpannedToken::close_at(t.end);
    let s1 = insert_sorted(s, t);
    let s2 = insert_sorted(s1, c);
    lemma_insert_within(s, t, len);
    lemma_insert_within(s1, c, len);
}

proof fn lemma_insert_within(s: Seq<SpannedToken>, t: SpannedToken, len: int)
    requires
        entries_within(s, len),
        t.start <= len,
        !t.is_close() ==> t.end <= len,
    ensures
        entries_within(insert_sorted(s, t), len),
{
    let i = insert_index(s, t);
    lemma_insert_index_bounds(s, t);
    let r = s.insert(i, t);
    assert forall|k: int| 0 <= k < r.len() implies #[trigger] r[k].start <= len && (
    !r[k].is_close() ==> r[k].end <= len) by {
        if k < i {
            assert(r[k] == s[k]);
        } else if k > i {
            assert(r[k] == s[k - 1]);
        }
    }
}

/// The ordered collection of open and close entries.
pub struct SpanRegistry {
    entries: Vec<SpannedToken>,
}

impl SpanRegistry {
    pub closed spec fn view(&self) -> Seq<SpannedToken> {
        self.entries@
    }

    pub open spec fn wf(&self) -> bool {
        registry_wf(self@)
    }

    pub fn new() -> (r: SpanRegistry)
        ensures
            r@ == Seq::<SpannedToken>::empty(),
            r.wf(),
    {
        let r = SpanRegistry { entries: Vec::new() };
        assert(r@.take(0) =~= r@);
        r
    }

    pub fn len(&self) -> (r: usize)
        ensures
            r == self@.len(),
    {
        self.entries.len()
    }

    pub fn get(&self, i: usize) -> (r: SpannedToken)
        requires
            i < self@.len(),
        ensures
            r == self@[i as int],
    {
        self.entries[i]
    }

    fn contains(&self, t: &SpannedToken) -> (r: bool)
        ensures
            r == self@.contains(*t),
    {
        let mut i: usize = 0;
        while i < self.entries.len()
            invariant
                i <= self.entries@.len(),
                forall|j: int| 0 <= j < i ==> self.entries@[j] != *t,
            decreases self.entries@.len() - i,
        {
            if self.entries[i] == *t {
                return true;
            }
            i += 1;
        }
        false
    }

    fn insert_sorted(&mut self, t: SpannedToken)
        ensures
            final(self)@ == insert_sorted(old(self)@, t),
    {
        let mut i: usize = 0;
        while i < self.entries.len() && !t.precedes(&self.entries[i])
            invariant
                i <= self.entries@.len(),
                forall|j: int| 0 <= j < i ==> !key_lt(t, #[trigger] self.entries@[j]),
            decreases self.entries@.len() - i,
        {
            i += 1;
        }
        proof {
            lemma_insert_index(self.entries@, t, i as int);
        }
        self.entries.insert(i, t);
    }

    /// Registers the span `[start, end)` with category `tag`: its open entry
    /// and its close entry, each at its place in render order. A degenerate
    /// span or one already registered leaves the registry as it is.
    pub fn register_tag_at_index(&mut self, start: usize, end: usize, tag: TokenTag)
        requires
            old(self).wf(),
            tag != TokenTag::EndOfToken,
            end < usize::MAX,
        ensures
            final(self).wf(),
            final(self)@ == register_spec(old(self)@, SpannedToken { kind: tag, start, end }),
            start < end ==> opened(final(self)@) == opened(old(self)@).insert(
                SpannedToken { kind: tag, start, end },
            ),
            start >= end ==> final(self)@ == old(self)@,
    {
        let t = SpannedToken { kind: tag, start, end };
        proof {
            lemma_register_wf(self@, t);
        }
        if start >= end || self.contains(&t) {
            return ;
        }
        self.insert_sorted(t);
        self.insert_sorted(SpannedToken { kind: TokenTag::EndOfToken, start: end, end: usize::MAX });
    }
}

} // verus!
