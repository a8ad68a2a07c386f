//! The highlighter: collects the walker's tags and the comment spans into
//! the registry, identifier memory and the deferred side table, resolves the
//! deferred names, and renders.
use vstd::prelude::*;
use vstd::string::StringSliceAdditionalSpecFns;
use std::collections::HashMap;
use crate::ast::File;
use crate::comments::{comment_spans, scan_comments};
use crate::error::IdentificationError;
use crate::memory::{
    conventional_rules, copy_bytes, is_category, memory_map, resolve_text, table_lookup,
    FallbackTable, IdentMemory,
};
use crate::registry::{
    balanced, depth, entries_within, entry_ok, lemma_register_within, lemma_register_wf, opened,
    register_spec, registry_wf, sorted, SpanRegistry,
};
use crate::render::{
    cuts_of, lemma_cuts_of, lemma_weave_blank, render_entries, render_spec, starts_nondecreasing,
    weave,
};
use crate::tokens::{key_le, SpannedToken, TokenTag};
use crate::walk::{file_events, register_file, Event};

verus! {

broadcast use vstd::std_specs::hash::group_hash_axioms;

/// What collection has gathered: the registry entries, the deferred side
/// table (start of a deferred name to its end) and identifier memory.
pub struct Collected {
    pub entries: Seq<SpannedToken>,
    pub deferred: Map<usize, usize>,
    pub memory: Seq<(Seq<u8>, TokenTag)>,
}

pub open spec fn empty_collected() -> Collected {
    Collected { entries: Seq::empty(), deferred: Map::empty(), memory: Seq::empty() }
}

/// A collected state over a text of `len` bytes is well formed: the
/// registry is sorted, well shaped and balanced, and lies within the text;
/// each deferred name lies within the text; every deferred entry of the
/// registry has its text recorded; memory holds final categories only.
pub open spec fn state_wf(st: Collected, len: int) -> bool {
    &&& registry_wf(st.entries)
    &&& entries_within(st.entries, len)
    &&& forall|k: usize| #[trigger]
        st.deferred.contains_key(k) ==> k < st.deferred[k] <= len
    &&& forall|t: SpannedToken|
        #[trigger] opened(st.entries).contains(t) && t.kind == TokenTag::NeedIdentification
            ==> st.deferred.contains_key(t.start)
    &&& forall|i: int| 0 <= i < st.memory.len() ==> is_category(#[trigger] st.memory[i].1)
}

/// Every tag lies within a text of `len` bytes.
pub open spec fn events_fit(evs: Seq<Event>, len: int) -> bool {
    forall|i: int|
        0 <= i < evs.len() ==> #[trigger] evs[i].token.start <= evs[i].token.end && evs[i].token.end
            <= len
}

/// Collecting one tag: its span goes into the registry; a deferred name
/// also into the side table; a declaration also into memory.
pub open spec fn apply_event(st: Collected, ev: Event, bytes: Seq<u8>) -> Collected {
    let t = ev.token;
    if t.kind == TokenTag::EndOfToken {
        st
    } else {
        Collected {
            entries: register_spec(st.entries, t),
            deferred: if t.kind == TokenTag::NeedIdentification && t.start < t.end {
                st.deferred.insert(t.start, t.end)
            } else {
                st.deferred
            },
            memory: if ev.declares && is_category(t.kind) {
                st.memory.push((bytes.subrange(t.start as int, t.end as int), t.kind))
            } else {
                st.memory
            },
        }
    }
}

pub open spec fn collect_spec(st: Collected, evs: Seq<Event>, bytes: Seq<u8>) -> Collected
    decreases evs.len(),
{
    if evs.len() == 0 {
        st
    } else {
        apply_event(collect_spec(st, evs.drop_last(), bytes), evs.last(), bytes)
    }
}

/// Registers each comment span.
pub open spec fn register_comments_spec(
    entries: Seq<SpannedToken>,
    spans: Seq<(int, int)>,
) -> Seq<SpannedToken>
    decreases spans.len(),
{
    if spans.len() == 0 {
        entries
    } else {
        register_spec(
            register_comments_spec(entries, spans.drop_last()),
            SpannedToken {
                kind: TokenTag::Comment,
                start: spans.last().0 as usize,
                end: spans.last().1 as usize,
            },
        )
    }
}

/// The resolver on one entry: a deferred entry gets the category of its
/// recorded text; any other entry is already identified.
pub open spec fn identify_spec(
    st: Collected,
    rules: Seq<(Seq<u8>, TokenTag)>,
    bytes: Seq<u8>,
    t: SpannedToken,
) -> Result<SpannedToken, IdentificationError> {
    if t.kind != TokenTag::NeedIdentification {
        Err(IdentificationError::AlreadyIdentified)
    } else if !st.deferred.contains_key(t.start) {
        Err(IdentificationError::NoIdentificationNeeded)
    } else {
        Ok(
            SpannedToken {
                kind: resolve_text(
                    memory_map(st.memory),
                    rules,
                    bytes.subrange(t.start as int, st.deferred[t.start] as int),
                ),
                start: t.start,
                end: t.end,
            },
        )
    }
}

pub open spec fn final_token(
    st: Collected,
    rules: Seq<(Seq<u8>, TokenTag)>,
    bytes: Seq<u8>,
    t: SpannedToken,
) -> SpannedToken {
    match identify_spec(st, rules, bytes, t) {
        Ok(r) => r,
        Err(_) => t,
    }
}

/// The entries in render order with their final categories.
pub open spec fn final_entries(
    st: Collected,
    rules: Seq<(Seq<u8>, TokenTag)>,
    bytes: Seq<u8>,
) -> Seq<SpannedToken> {
    Seq::new(st.entries.len(), |i: int| final_token(st, rules, bytes, st.entries[i]))
}

/// The state collected for `code` and its tree: the walk's tags, then the
/// comment spans.
pub open spec fn collected(code: &str, file: File) -> Collected {
    let bytes = code.spec_bytes();
    let st = collect_spec(empty_collected(), file_events(file), bytes);
    Collected {
        entries: register_comments_spec(st.entries, comment_spans(bytes)),
        deferred: st.deferred,
        memory: st.memory,
    }
}

/// The entries `highlight` renders, in order, with their final categories.
pub open spec fn highlighted_entries(code: &str, file: File) -> Seq<SpannedToken> {
    final_entries(collected(code, file), conventional_rules(), code.spec_bytes())
}

/// What `highlight` accepts: a text shorter than the largest offset, and a
/// tree whose spans lie within it.
pub open spec fn highlight_requires(code: &str, file: File) -> bool {
    &&& code.spec_bytes().len() < usize::MAX
    &&& events_fit(file_events(file), code.spec_bytes().len() as int)
}

proof fn lemma_apply_event_wf(st: Collected, ev: Event, bytes: Seq<u8>)
    requires
        state_wf(st, bytes.len() as int),
        bytes.len() < usize::MAX,
        ev.token.start <= ev.token.end <= bytes.len(),
    ensures
        state_wf(apply_event(st, ev, bytes), bytes.len() as int),
{
    let t = ev.token;
    if t.kind != TokenTag::EndOfToken {
        lemma_register_wf(st.entries, t);
        let r = apply_event(st, ev, bytes);
        assert forall|i: int| 0 <= i < r.entries.len() implies #[trigger] r.entries[i].start
            <= bytes.len() && (!r.entries[i].is_close() ==> r.entries[i].end <= bytes.len()) by {
            if t.start < t.end && !st.entries.contains(t) {
                lemma_register_within(st.entries, t, bytes.len() as int);
            }
        }
        assert forall|x: SpannedToken|
            #[trigger] opened(r.entries).contains(x) && x.kind
                == TokenTag::NeedIdentification implies r.deferred.contains_key(x.start) by {
            if t.start < t.end {
                if x != t {
                    assert(opened(st.entries).contains(x));
                }
            } else {
                assert(opened(st.entries).contains(x));
            }
        }
        assert forall|i: int| 0 <= i < r.memory.len() implies is_category(
            #[trigger] r.memory[i].1,
        ) by {
            if i < st.memory.len() {
                assert(r.memory[i] == st.memory[i]);
            }
        }
    }
}

proof fn lemma_collect_wf(st: Collected, evs: Seq<Event>, bytes: Seq<u8>)
    requires
        state_wf(st, bytes.len() as int),
        bytes.len() < usize::MAX,
        events_fit(evs, bytes.len() as int),
    ensures
        state_wf(collect_spec(st, evs, bytes), bytes.len() as int),
    decreases evs.len(),
{
    if evs.len() > 0 {
        assert(events_fit(evs.drop_last(), bytes.len() as int));
        lemma_collect_wf(st, evs.drop_last(), bytes);
        lemma_apply_event_wf(collect_spec(st, evs.drop_last(), bytes), evs.last(), bytes);
    }
}

proof fn lemma_register_comment_wf(st: Collected, s: int, e: int, len: int)
    requires
        state_wf(st, len),
        0 <= s < e <= len,
        len < usize::MAX,
    ensures
        ({
            let t = SpannedToken { kind: TokenTag::Comment, start: s as usize, end: e as usize };
            state_wf(Collected { entries: register_spec(st.entries, t), ..st }, len)
        }),
{
    let t = SpannedToken { kind: TokenTag::Comment, start: s as usize, end: e as usize };
    lemma_register_wf(st.entries, t);
    let r = Collected { entries: register_spec(st.entries, t), ..st };
    if !st.entries.contains(t) {
        lemma_register_within(st.entries, t, len);
    }
    assert forall|x: SpannedToken|
        #[trigger] opened(r.entries).contains(x) && x.kind
            == TokenTag::NeedIdentification implies r.deferred.contains_key(x.start) by {
        assert(opened(st.entries).contains(x));
    }
}

proof fn lemma_comments_wf(st: Collected, spans: Seq<(int, int)>, len: int)
    requires
        state_wf(st, len),
        len < usize::MAX,
        forall|k: int| 0 <= k < spans.len() ==> 0 <= (#[trigger] spans[k]).0 < spans[k].1 <= len,
    ensures
        state_wf(
            Collected { entries: register_comments_spec(st.entries, spans), ..st },
            len,
        ),
    decreases spans.len(),
{
    if spans.len() > 0 {
        lemma_comments_wf(st, spans.drop_last(), len);
        let mid = Collected { entries: register_comments_spec(st.entries, spans.drop_last()), ..st };
        lemma_register_comment_wf(mid, spans.last().0, spans.last().1, len);
    }
}

/// The collected state of any accepted input is well formed.
pub proof fn lemma_collected_wf(code: &str, file: File)
    requires
        highlight_requires(code, file),
    ensures
        state_wf(collected(code, file), code.spec_bytes().len() as int),
{
    let bytes = code.spec_bytes();
    let len = bytes.len() as int;
    let e = empty_collected();
    assert(e.entries.take(0) =~= e.entries);
    assert(state_wf(e, len));
    lemma_collect_wf(e, file_events(file), bytes);
    crate::comments::lemma_comment_spans_bounds(bytes);
    lemma_comments_wf(collect_spec(e, file_events(file), bytes), comment_spans(bytes), len);
}

proof fn lemma_memory_categories(decls: Seq<(Seq<u8>, TokenTag)>, text: Seq<u8>)
    requires
        forall|i: int| 0 <= i < decls.len() ==> is_category(#[trigger] decls[i].1),
        memory_map(decls).contains_key(text),
    ensures
        is_category(memory_map(decls)[text]),
    decreases decls.len(),
{
    if decls.last().0 != text {
        lemma_memory_categories(decls.drop_last(), text);
    }
}

proof fn lemma_table_categories(rules: Seq<(Seq<u8>, TokenTag)>, text: Seq<u8>)
    requires
        forall|i: int| 0 <= i < rules.len() ==> is_category(#[trigger] rules[i].1),
    ensures
        table_lookup(rules, text) matches Some(k) ==> is_category(k),
    decreases rules.len(),
{
    if rules.len() > 0 && rules[0].0 != text {
        lemma_table_categories(rules.drop_first(), text);
    }
}

proof fn lemma_depth_same_shape(a: Seq<SpannedToken>, b: Seq<SpannedToken>)
    requires
        a.len() == b.len(),
        forall|i: int| 0 <= i < a.len() ==> (#[trigger] a[i]).is_close() == b[i].is_close(),
    ensures
        depth(a) == depth(b),
    decreases a.len(),
{
    if a.len() > 0 {
        lemma_depth_same_shape(a.drop_last(), b.drop_last());
    }
}

/// Resolution keeps each entry's place, offsets and open/close shape, and
/// gives every open entry of a well-formed state a final category.
pub proof fn lemma_final_entries(st: Collected, rules: Seq<(Seq<u8>, TokenTag)>, bytes: Seq<u8>)
    requires
        state_wf(st, bytes.len() as int),
        forall|i: int| 0 <= i < rules.len() ==> is_category(#[trigger] rules[i].1),
    ensures
        ({
            let e = final_entries(st, rules, bytes);
            &&& e.len() == st.entries.len()
            &&& forall|i: int|
                0 <= i < e.len() ==> (#[trigger] e[i]).start == st.entries[i].start && e[i].end
                    == st.entries[i].end && e[i].is_close() == st.entries[i].is_close()
            &&& forall|i: int| 0 <= i < e.len() && !(#[trigger] e[i]).is_close() ==> is_category(e[i].kind)
        }),
{
    let e = final_entries(st, rules, bytes);
    assert forall|i: int| 0 <= i < e.len() implies (#[trigger] e[i]).start == st.entries[i].start
        && e[i].end == st.entries[i].end && e[i].is_close() == st.entries[i].is_close() && (
    !e[i].is_close() ==> is_category(e[i].kind)) by {
        let t = st.entries[i];
        assert(entry_ok(t));
        if t.kind == TokenTag::NeedIdentification {
            assert(opened(st.entries).contains(t));
            let text = bytes.subrange(t.start as int, st.deferred[t.start] as int);
            if memory_map(st.memory).contains_key(text) {
                lemma_memory_categories(st.memory, text);
            } else {
                lemma_table_categories(rules, text);
            }
        }
    }
}

proof fn lemma_highlighted_entries(code: &str, file: File)
    requires
        highlight_requires(code, file),
    ensures
        ({
            let s = collected(code, file).entries;
            let e = highlighted_entries(code, file);
            &&& registry_wf(s)
            &&& e.len() == s.len()
            &&& forall|i: int|
                0 <= i < e.len() ==> (#[trigger] e[i]).start == s[i].start && e[i].end == s[i].end
                    && e[i].is_close() == s[i].is_close()
            &&& forall|i: int| 0 <= i < e.len() && !(#[trigger] e[i]).is_close() ==> is_category(e[i].kind)
        }),
{
    lemma_collected_wf(code, file);
    let rules = conventional_rules();
    assert forall|i: int| 0 <= i < rules.len() implies is_category(#[trigger] rules[i].1) by {}
    lemma_final_entries(collected(code, file), rules, code.spec_bytes());
}

/// Well-formed markup: in the order `highlight` inserts its markers, no
/// prefix closes more markers than it opened, and the whole closes every
/// marker it opened; so each open marker has exactly one matching close
/// marker after it. Every open marker carries a final category.
pub proof fn lemma_markup_well_formed(code: &str, file: File)
    requires
        highlight_requires(code, file),
    ensures
        balanced(highlighted_entries(code, file)),
        forall|i: int|
            0 <= i < highlighted_entries(code, file).len() && !(#[trigger] highlighted_entries(
                code,
                file,
            )[i]).is_close() ==> is_category(highlighted_entries(code, file)[i].kind),
{
    lemma_highlighted_entries(code, file);
    let s = collected(code, file).entries;
    let e = highlighted_entries(code, file);
    assert forall|k: int| 0 <= k <= e.len() implies depth(#[trigger] e.take(k)) >= 0 by {
        lemma_depth_same_shape(e.take(k), s.take(k));
        assert(depth(s.take(k)) >= 0);
    }
    lemma_depth_same_shape(e, s);
}

/// Content preservation: removing the inserted markers from what
/// `highlight` renders, that is inserting empty text in their place, gives
/// back the input text exactly.
pub proof fn lemma_content_preserved(code: &str, file: File)
    requires
        highlight_requires(code, file),
    ensures
        ({
            let e = highlighted_entries(code, file);
            weave(code@, cuts_of(code@, e), Seq::new(e.len(), |i: int| Seq::<char>::empty()))
                == code@
        }),
{
    lemma_highlighted_entries(code, file);
    let s = collected(code, file).entries;
    let e = highlighted_entries(code, file);
    assert forall|a: int, b: int| 0 <= a < b < e.len() implies #[trigger] e[a].start
        <= #[trigger] e[b].start by {
        assert(key_le(s[a], s[b]));
    }
    lemma_cuts_of(code@, e);
    lemma_weave_blank(code@, cuts_of(code@, e), e.len());
}

/// Nesting: of two spans with the same start, the one that ends later opens
/// first.
pub proof fn lemma_wider_span_opens_first(code: &str, file: File)
    requires
        highlight_requires(code, file),
    ensures
        ({
            let e = highlighted_entries(code, file);
            forall|i: int, j: int|
                0 <= i < e.len() && 0 <= j < e.len() && !(#[trigger] e[i]).is_close()
                    && !(#[trigger] e[j]).is_close() && e[i].start == e[j].start && e[i].end
                    > e[j].end ==> i < j
        }),
{
    lemma_highlighted_entries(code, file);
    let s = collected(code, file).entries;
    let e = highlighted_entries(code, file);
    assert forall|i: int, j: int|
        0 <= i < e.len() && 0 <= j < e.len() && !(#[trigger] e[i]).is_close()
            && !(#[trigger] e[j]).is_close() && e[i].start == e[j].start && e[i].end
            > e[j].end implies i < j by {
        if j < i {
            assert(key_le(s[j], s[i]));
        }
    }
}

/// Resolution determinism: the resolver's answer for an entry depends only
/// on identifier memory, the deferred side table, the fallback rules and the
/// text, not on the other entries or the order in which entries are
/// resolved; so resolving the same collected state twice gives the same
/// categories.
pub proof fn lemma_resolution_deterministic(
    a: Collected,
    b: Collected,
    rules: Seq<(Seq<u8>, TokenTag)>,
    bytes: Seq<u8>,
    t: SpannedToken,
)
    requires
        a.memory == b.memory,
        a.deferred == b.deferred,
    ensures
        identify_spec(a, rules, bytes, t) == identify_spec(b, rules, bytes, t),
        a.entries == b.entries ==> final_entries(a, rules, bytes) == final_entries(b, rules, bytes),
{
    if a.entries == b.entries {
        assert(final_entries(a, rules, bytes) =~= final_entries(b, rules, bytes));
    }
}

/// The highlighter of one source unit.
pub struct RustHighlighter<'a> {
    code: &'a str,
    token_set: SpanRegistry,
    unidentified: HashMap<usize, usize>,
    ident_map: IdentMemory,
    fallback: FallbackTable,
}

impl<'a> RustHighlighter<'a> {
    pub closed spec fn view(&self) -> Collected {
        Collected {
            entries: self.token_set@,
            deferred: self.unidentified@,
            memory: self.ident_map@,
        }
    }

    pub closed spec fn code(&self) -> &'a str {
        self.code
    }

    pub closed spec fn rules(&self) -> Seq<(Seq<u8>, TokenTag)> {
        self.fallback@
    }

    pub closed spec fn wf(&self) -> bool {
        &&& self.token_set.wf()
        &&& self.fallback.wf()
        &&& self.code.spec_bytes().len() < usize::MAX
        &&& state_wf(self@, self.code.spec_bytes().len() as int)
    }

    /// A highlighter for `code` with nothing collected yet.
    pub fn new(code: &'a str, fallback: FallbackTable) -> (r: RustHighlighter<'a>)
        requires
            code.spec_bytes().len() < usize::MAX,
            fallback.wf(),
        ensures
            r.wf(),
            r@ == empty_collected(),
            r.code() == code,
            r.rules() == fallback@,
    {
        let r = RustHighlighter {
            code,
            token_set: SpanRegistry::new(),
            unidentified: HashMap::new(),
            ident_map: IdentMemory::new(),
            fallback,
        };
        assert(r@.entries.take(0) =~= r@.entries);
        assert(r@ =~= empty_collected());
        r
    }

    fn apply_event(&mut self, ev: Event)
        requires
            old(self).wf(),
            ev.token.start <= ev.token.end <= old(self).code().spec_bytes().len(),
        ensures
            final(self).wf(),
            final(self)@ == apply_event(old(self)@, ev, old(self).code().spec_bytes()),
            final(self).code() == old(self).code(),
            final(self).rules() == old(self).rules(),
    {
        proof {
            lemma_apply_event_wf(self@, ev, self.code.spec_bytes());
        }
        let t = ev.token;
        if t.kind == TokenTag::EndOfToken {
            return ;
        }
        self.token_set.register_tag_at_index(t.start, t.end, t.kind);
        if t.kind == TokenTag::NeedIdentification && t.start < t.end {
            self.unidentified.insert(t.start, t.end);
        }
        if ev.declares && t.kind != TokenTag::EndOfToken && t.kind != TokenTag::NeedIdentification {
            let text = copy_bytes(self.code.as_bytes(), t.start, t.end);
            self.ident_map.insert(text, t.kind);
        }
    }

    /// Collects the walker's tags, in order.
    pub fn collect(&mut self, events: &Vec<Event>)
        requires
            old(self).wf(),
            events_fit(events@, old(self).code().spec_bytes().len() as int),
        ensures
            final(self).wf(),
            final(self)@ == collect_spec(old(self)@, events@, old(self).code().spec_bytes()),
            final(self).code() == old(self).code(),
            final(self).rules() == old(self).rules(),
    {
        let ghost bytes = self.code.spec_bytes();
        let mut i: usize = 0;
        assert(events@.take(0) =~= Seq::<Event>::empty());
        while i < events.len()
            invariant
                i <= events@.len(),
                self.wf(),
                self.code() == old(self).code(),
                self.rules() == old(self).rules(),
                bytes == old(self).code().spec_bytes(),
                events_fit(events@, bytes.len() as int),
                self@ == collect_spec(old(self)@, events@.take(i as int), bytes),
            decreases events@.len() - i,
        {
            let ev = events[i];
            assert(events@[i as int].token.start <= events@[i as int].token.end);
            self.apply_event(ev);
            assert(events@.take(i + 1).drop_last() =~= events@.take(i as int));
            i += 1;
        }
        assert(events@.take(events@.len() as int) =~= events@);
    }

    /// Runs the comment scanner over the text and registers each comment.
    pub fn register_comments(&mut self)
        requires
            old(self).wf(),
        ensures
            final(self).wf(),
            final(self)@ == (Collected {
                entries: register_comments_spec(
                    old(self)@.entries,
                    comment_spans(old(self).code().spec_bytes()),
                ),
                ..old(self)@
            }),
            final(self).code() == old(self).code(),
            final(self).rules() == old(self).rules(),
    {
        let ghost bytes = self.code.spec_bytes();
        let ghost spans = comment_spans(bytes);
        let comments = scan_comments(self.code);
        let mut i: usize = 0;
        while i < comments.len()
            invariant
                i <= comments@.len(),
                self.wf(),
                self.code() == old(self).code(),
                self.rules() == old(self).rules(),
                bytes == old(self).code().spec_bytes(),
                spans == comment_spans(bytes),
                comments@.len() == spans.len(),
                forall|k: int|
                    0 <= k < comments@.len() ==> (#[trigger] comments@[k].0 as int, comments@[k].1 as int)
                        == spans[k],
                forall|k: int|
                    0 <= k < comments@.len() ==> #[trigger] comments@[k].0 < comments@[k].1
                        <= bytes.len(),
                self@ == (Collected {
                    entries: register_comments_spec(old(self)@.entries, spans.take(i as int)),
                    ..old(self)@
                }),
            decreases comments@.len() - i,
        {
            let (start, end) = comments[i];
            proof {
                assert((comments@[i as int].0 as int, comments@[i as int].1 as int) == spans[i as int]);
                lemma_register_comment_wf(self@, start as int, end as int, bytes.len() as int);
                assert(spans.take(i + 1).drop_last() =~= spans.take(i as int));
            }
            self.token_set.register_tag_at_index(start, end, TokenTag::Comment);
            i += 1;
        }
        assert(spans.take(spans.len() as int) =~= spans);
    }

    /// Resolves a registry entry: a deferred one gets the category memory
    /// recorded for its text, else the fallback table's, else plain
    /// identifier.
    pub fn identify_token(&self, token: &SpannedToken) -> (r: Result<
        SpannedToken,
        IdentificationError,
    >)
        requires
            self.wf(),
        ensures
            r == identify_spec(self@, self.rules(), self.code().spec_bytes(), *token),
    {
        match token.kind {
            TokenTag::NeedIdentification => {
                match self.unidentified.get(&token.start) {
                    None => Err(IdentificationError::NoIdentificationNeeded),
                    Some(end) => {
                        let end = *end;
                        let bytes = self.code.as_bytes();
                        let kind = match self.ident_map.get(bytes, token.start, end) {
                            Some(k) => k,
                            None => match self.fallback.get(bytes, token.start, end) {
                                Some(k) => k,
                                None => TokenTag::Ident,
                            },
                        };
                        Ok(SpannedToken { kind, start: token.start, end: token.end })
                    },
                }
            },
            _ => Err(IdentificationError::AlreadyIdentified),
        }
    }

    /// Resolves every entry and renders the text with their markers.
    pub fn write_tokens(&self) -> (r: String)
        requires
            self.wf(),
        ensures
            r@ == render_spec(
                self.code()@,
                final_entries(self@, self.rules(), self.code().spec_bytes()),
            ),
    {
        let ghost bytes = self.code.spec_bytes();
        let ghost fin = final_entries(self@, self.rules(), bytes);
        let mut resolved: Vec<SpannedToken> = Vec::new();
        let n = self.token_set.len();
        let mut i: usize = 0;
        while i < n
            invariant
                i <= n,
                n == self@.entries.len(),
                self.wf(),
                bytes == self.code().spec_bytes(),
                fin == final_entries(self@, self.rules(), bytes),
                resolved@ == fin.take(i as int),
            decreases n - i,
        {
            let t = self.token_set.get(i);
            let r = match self.identify_token(&t) {
                Ok(x) => x,
                Err(_) => t,
            };
            resolved.push(r);
            assert(resolved@ =~= fin.take(i + 1));
            i += 1;
        }
        proof {
            assert(resolved@ =~= fin);
            lemma_final_entries(self@, self.rules(), bytes);
            let s = self@.entries;
            assert(sorted(s));
            assert forall|a: int, b: int| 0 <= a < b < fin.len() implies #[trigger] fin[a].start
                <= #[trigger] fin[b].start by {
                assert(key_le(s[a], s[b]));
            }
        }
        render_entries(self.code, &resolved)
    }

    /// Whether `highlight` accepts `code` with `file`: the text is shorter
    /// than the largest offset and every span of the tree lies within it.
    pub fn accepts(code: &str, file: &File) -> (r: bool)
        ensures
            r == highlight_requires(code, *file),
    {
        let mut events: Vec<Event> = Vec::new();
        register_file(file, &mut events);
        assert(events@ =~= file_events(*file));
        let len = code.as_bytes().len();
        if len == usize::MAX {
            return false;
        }
        let mut i: usize = 0;
        while i < events.len()
            invariant
                i <= events@.len(),
                events@ == file_events(*file),
                len == code.spec_bytes().len(),
                forall|j: int|
                    0 <= j < i ==> #[trigger] events@[j].token.start <= events@[j].token.end
                        && events@[j].token.end <= len,
            decreases events@.len() - i,
        {
            let t = events[i].token;
            if !(t.start <= t.end && t.end <= len) {
                return false;
            }
            i += 1;
        }
        true
    }

    /// Highlights `code`, given its syntax tree: walks the tree, collects
    /// the comments, resolves deferred names and renders the markers.
    pub fn highlight(code: &str, file: &File) -> (r: String)
        requires
            highlight_requires(code, *file),
        ensures
            r@ == render_spec(code@, highlighted_entries(code, *file)),
    {
        let mut events: Vec<Event> = Vec::new();
        register_file(file, &mut events);
        assert(events@ =~= file_events(*file));
        let mut highlighter = RustHighlighter::new(code, FallbackTable::conventional());
        highlighter.collect(&events);
        highlighter.register_comments();
        highlighter.write_tokens()
    }
}

} // verus!
