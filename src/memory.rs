//! Identifier memory and the fallback table: what the resolver consults to
//! give a deferred name its category.
use vstd::prelude::*;
use vstd::utf8::encode_utf8;
use vstd::string::StringSliceAdditionalSpecFns;
use crate::tokens::TokenTag;

verus! {

/// A category a span can be resolved to: neither the closing marker nor a
/// request for identification.
pub open spec fn is_category(k: TokenTag) -> bool {
    k != TokenTag::EndOfToken && k != TokenTag::NeedIdentification
}

/// The map built by recording each declaration in order; a later
/// declaration of the same text replaces an earlier one.
pub open spec fn memory_map(decls: Seq<(Seq<u8>, TokenTag)>) -> Map<Seq<u8>, TokenTag>
    decreases decls.len(),
{
    if decls.len() == 0 {
        Map::empty()
    } else {
        memory_map(decls.drop_last()).insert(decls.last().0, decls.last().1)
    }
}

/// The first rule of the table whose text is `text`.
pub open spec fn table_lookup(rules: Seq<(Seq<u8>, TokenTag)>, text: Seq<u8>) -> Option<TokenTag>
    decreases rules.len(),
{
    if rules.len() == 0 {
        None
    } else if rules[0].0 == text {
        Some(rules[0].1)
    } else {
        table_lookup(rules.drop_first(), text)
    }
}

/// The category of a deferred name: what memory recorded for its text, else
/// what the fallback table gives, else a plain identifier.
pub open spec fn resolve_text(
    memory: Map<Seq<u8>, TokenTag>,
    rules: Seq<(Seq<u8>, TokenTag)>,
    text: Seq<u8>,
) -> TokenTag {
    if memory.contains_key(text) {
        memory[text]
    } else {
        match table_lookup(rules, text) {
            Some(k) => k,
            None => TokenTag::Ident,
        }
    }
}

/// The conventional fallback rules.
pub open spec fn conventional_rules() -> Seq<(Seq<u8>, TokenTag)> {
    seq![
        (encode_utf8("self"@), TokenTag::SelfToken),
        (encode_utf8("Self"@), TokenTag::SelfToken),
        (encode_utf8("Ok"@), TokenTag::Enum),
        (encode_utf8("Err"@), TokenTag::Enum),
        (encode_utf8("Some"@), TokenTag::Enum),
        (encode_utf8("None"@), TokenTag::Enum),
    ]
}

/// Whether `a[start..end]` equals `b`.
pub fn slice_eq(a: &[u8], start: usize, end: usize, b: &[u8]) -> (r: bool)
    requires
        start <= end <= a@.len(),
    ensures
        r == (a@.subrange(start as int, end as int) == b@),
{
    if end - start != b.len() {
        proof {
            assert(a@.subrange(start as int, end as int).len() != b@.len());
        }
        return false;
    }
    let mut i: usize = 0;
    while i < b.len()
        invariant
            start <= end <= a@.len(),
            end - start == b@.len(),
            i <= b@.len(),
            forall|j: int| 0 <= j < i ==> a@[start + j] == b@[j],
        decreases b@.len() - i,
    {
        if a[start + i] != b[i] {
            proof {
                assert(a@.subrange(start as int, end as int)[i as int] != b@[i as int]);
            }
            return false;
        }
        i += 1;
    }
    assert(a@.subrange(start as int, end as int) =~= b@);
    true
}

/// A copy of `a[start..end]`.
pub fn copy_bytes(a: &[u8], start: usize, end: usize) -> (r: Vec<u8>)
    requires
        start <= end <= a@.len(),
    ensures
        r@ == a@.subrange(start as int, end as int),
{
    let mut r: Vec<u8> = Vec::new();
    let mut i: usize = start;
    while i < end
        invariant
            start <= i <= end <= a@.len(),
            r@ == a@.subrange(start as int, i as int),
        decreases end - i,
    {
        r.push(a[i]);
        assert(r@ =~= a@.subrange(start as int, i + 1));
        i += 1;
    }
    r
}

/// Identifier memory: the declarations seen so far, each the declared
/// text and its category.
pub struct IdentMemory {
    entries: Vec<(Vec<u8>, TokenTag)>,
}

impl IdentMemory {
    pub closed spec fn view(&self) -> Seq<(Seq<u8>, TokenTag)> {
        Seq::new(self.entries@.len(), |i: int| (self.entries@[i].0@, self.entries@[i].1))
    }

    pub fn new() -> (r: IdentMemory)
        ensures
            r@ == Seq::<(Seq<u8>, TokenTag)>::empty(),
    {
        let r = IdentMemory { entries: Vec::new() };
        assert(r@ =~= Seq::<(Seq<u8>, TokenTag)>::empty());
        r
    }

    /// Records that `text` was declared with category `tag`.
    pub fn insert(&mut self, text: Vec<u8>, tag: TokenTag)
        ensures
            final(self)@ == old(self)@.push((text@, tag)),
    {
        self.entries.push((text, tag));
        assert(self@ =~= old(self)@.push((text@, tag)));
    }

    /// What memory recorded for the text `code[start..end]`.
    pub fn get(&self, code: &[u8], start: usize, end: usize) -> (r: Option<TokenTag>)
        requires
            start <= end <= code@.len(),
        ensures
            ({
                let text = code@.subrange(start as int, end as int);
                let m = memory_map(self@);
                r == if m.contains_key(text) {
                    Some(m[text])
                } else {
                    None
                }
            }),
    {
        let ghost text = code@.subrange(start as int, end as int);
        let mut i: usize = self.entries.len();
        while i > 0
            invariant
                i <= self.entries@.len(),
                text == code@.subrange(start as int, end as int),
                start <= end <= code@.len(),
                forall|j: int| i <= j < self@.len() ==> #[trigger] self@[j].0 != text,
            decreases i,
        {
            i -= 1;
            if slice_eq(code, start, end, self.entries[i].0.as_slice()) {
                proof {
                    lemma_memory_map_suffix(self@, i as int + 1, text);
                    assert(self@.take(i + 1).drop_last() =~= self@.take(i as int));
                }
                return Some(self.entries[i].1);
            }
        }
        proof {
            lemma_memory_map_suffix(self@, 0, text);
            assert(self@.take(0) =~= Seq::<(Seq<u8>, TokenTag)>::empty());
        }
        None
    }
}

/// Declarations after index `i` that do not mention `text` do not change
/// what the map holds for it.
proof fn lemma_memory_map_suffix(decls: Seq<(Seq<u8>, TokenTag)>, i: int, text: Seq<u8>)
    requires
        0 <= i <= decls.len(),
        forall|j: int| i <= j < decls.len() ==> #[trigger] decls[j].0 != text,
    ensures
        memory_map(decls).contains_key(text) == memory_map(decls.take(i)).contains_key(text),
        memory_map(decls).contains_key(text) ==> memory_map(decls)[text] == memory_map(
            decls.take(i),
        )[text],
    decreases decls.len(),
{
    if decls.len() > i {
        lemma_memory_map_suffix(decls.drop_last(), i, text);
        assert(decls.drop_last().take(i) =~= decls.take(i));
    } else {
        assert(decls.take(i) =~= decls);
    }
}

/// The fallback table: conventional names and the category each resolves
/// to when memory holds nothing for it. Earlier rules win.
pub struct FallbackTable {
    rules: Vec<(String, TokenTag)>,
}

impl FallbackTable {
    pub closed spec fn view(&self) -> Seq<(Seq<u8>, TokenTag)> {
        Seq::new(self.rules@.len(), |i: int| (encode_utf8(self.rules@[i].0@), self.rules@[i].1))
    }

    pub open spec fn wf(&self) -> bool {
        forall|i: int| 0 <= i < self@.len() ==> is_category(#[trigger] self@[i].1)
    }

    /// A table without rules.
    pub fn new() -> (r: FallbackTable)
        ensures
            r@ == Seq::<(Seq<u8>, TokenTag)>::empty(),
            r.wf(),
    {
        let r = FallbackTable { rules: Vec::new() };
        assert(r@ =~= Seq::<(Seq<u8>, TokenTag)>::empty());
        r
    }

    /// Adds a rule after the existing ones.
    pub fn add_rule(&mut self, name: &str, tag: TokenTag)
        requires
            old(self).wf(),
            is_category(tag),
        ensures
            final(self).wf(),
            final(self)@ == old(self)@.push((encode_utf8(name@), tag)),
    {
        self.rules.push((name.to_owned(), tag));
        assert(self@ =~= old(self)@.push((encode_utf8(name@), tag)));
    }

    /// The conventional rules: `self` and `Self` are self-references; the
    /// result and option constructors `Ok`, `Err`, `Some`, `None` are enum
    /// constructors.
    pub fn conventional() -> (r: FallbackTable)
        ensures
            r.wf(),
            r@ == conventional_rules(),
    {
        let mut r = FallbackTable::new();
        r.add_rule("self", TokenTag::SelfToken);
        r.add_rule("Self", TokenTag::SelfToken);
        r.add_rule("Ok", TokenTag::Enum);
        r.add_rule("Err", TokenTag::Enum);
        r.add_rule("Some", TokenTag::Enum);
        r.add_rule("None", TokenTag::Enum);
        assert(r@ =~= seq![
            (encode_utf8("self"@), TokenTag::SelfToken),
            (encode_utf8("Self"@), TokenTag::SelfToken),
            (encode_utf8("Ok"@), TokenTag::Enum),
            (encode_utf8("Err"@), TokenTag::Enum),
            (encode_utf8("Some"@), TokenTag::Enum),
            (encode_utf8("None"@), TokenTag::Enum),
        ]);
        r
    }

    /// The category the first rule for `code[start..end]` gives.
    pub fn get(&self, code: &[u8], start: usize, end: usize) -> (r: Option<TokenTag>)
        requires
            start <= end <= code@.len(),
        ensures
            r == table_lookup(self@, code@.subrange(start as int, end as int)),
    {
        let ghost text = code@.subrange(start as int, end as int);
        assert(self@.skip(0) =~= self@);
        let mut i: usize = 0;
        while i < self.rules.len()
            invariant
                i <= self@.len(),
                self@.len() == self.rules@.len(),
                start <= end <= code@.len(),
                text == code@.subrange(start as int, end as int),
                table_lookup(self@, text) == table_lookup(self@.skip(i as int), text),
            decreases self.rules@.len() - i,
        {
            let rule = &self.rules[i];
            let rule_bytes = rule.0.as_str().as_bytes();
            assert(self@.skip(i as int)[0] == self@[i as int]);
            if slice_eq(code, start, end, rule_bytes) {
                return Some(rule.1);
            }
            assert(self@.skip(i as int).drop_first() =~= self@.skip(i + 1));
            i += 1;
        }
        None
    }
}

} // verus!
