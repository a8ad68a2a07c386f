//! Categories, tagged spans and the order in which spans are rendered.
use vstd::prelude::*;

verus! {

/// The closed set of categories a span of source text can be given.
#[derive(Clone, Copy, Debug, PartialEq, Eq, Structural, Hash)]
pub enum TokenTag {
    Keyword,
    Ident,
    LitStr,
    LitNum,
    LitBool,
    Function,
    SelfToken,
    Macro,
    Type,
    Enum,
    Segment,
    Comment,
    LifeTime,
    NeedIdentification,
    EndOfToken,
}

impl TokenTag {
    /// Position of the category in declaration order; the last component of
    /// the render order of spans.
    pub open spec fn rank_spec(&self) -> u8 {
        match self {
            TokenTag::Keyword => 0,
            TokenTag::Ident => 1,
            TokenTag::LitStr => 2,
            TokenTag::LitNum => 3,
            TokenTag::LitBool => 4,
            TokenTag::Function => 5,
            TokenTag::SelfToken => 6,
            TokenTag::Macro => 7,
            TokenTag::Type => 8,
            TokenTag::Enum => 9,
            TokenTag::Segment => 10,
            TokenTag::Comment => 11,
            TokenTag::LifeTime => 12,
            TokenTag::NeedIdentification => 13,
            TokenTag::EndOfToken => 14,
        }
    }

    pub fn rank(&self) -> (r: u8)
        ensures
            r == self.rank_spec(),
    {
        match self {
            TokenTag::Keyword => 0,
            TokenTag::Ident => 1,
            TokenTag::LitStr => 2,
            TokenTag::LitNum => 3,
            TokenTag::LitBool => 4,
            TokenTag::Function => 5,
            TokenTag::SelfToken => 6,
            TokenTag::Macro => 7,
            TokenTag::Type => 8,
            TokenTag::Enum => 9,
            TokenTag::Segment => 10,
            TokenTag::Comment => 11,
            TokenTag::LifeTime => 12,
            TokenTag::NeedIdentification => 13,
            TokenTag::EndOfToken => 14,
        }
    }

    /// The name of the category as it appears in the marker's class.
    pub open spec fn name_spec(self) -> Seq<char> {
        match self {
            TokenTag::Keyword => "Keyword"@,
            TokenTag::Ident => "Ident"@,
            TokenTag::LitStr => "LitStr"@,
            TokenTag::LitNum => "LitNum"@,
            TokenTag::LitBool => "LitBool"@,
            TokenTag::Function => "Function"@,
            TokenTag::SelfToken => "SelfToken"@,
            TokenTag::Macro => "Macro"@,
            TokenTag::Type => "Type"@,
            TokenTag::Enum => "Enum"@,
            TokenTag::Segment => "Segment"@,
            TokenTag::Comment => "Comment"@,
            TokenTag::LifeTime => "LifeTime"@,
            TokenTag::NeedIdentification => "NeedIdentification"@,
            TokenTag::EndOfToken => "EndOfToken"@,
        }
    }

    pub fn name(&self) -> (r: &'static str)
        ensures
            r@ == self.name_spec(),
    {
        match self {
            TokenTag::Keyword => "Keyword",
            TokenTag::Ident => "Ident",
            TokenTag::LitStr => "LitStr",
            TokenTag::LitNum => "LitNum",
            TokenTag::LitBool => "LitBool",
            TokenTag::Function => "Function",
            TokenTag::SelfToken => "SelfToken",
            TokenTag::Macro => "Macro",
            TokenTag::Type => "Type",
            TokenTag::Enum => "Enum",
            TokenTag::Segment => "Segment",
            TokenTag::Comment => "Comment",
            TokenTag::LifeTime => "LifeTime",
            TokenTag::NeedIdentification => "NeedIdentification",
            TokenTag::EndOfToken => "EndOfToken",
        }
    }

    /// The marker text inserted for the category: an opening element whose
    /// class is derived from the name, or the fixed closing element.
    pub open spec fn marker_spec(self) -> Seq<char> {
        match self {
            TokenTag::Keyword => "<span class=\"hlrs-Keyword\">"@,
            TokenTag::Ident => "<span class=\"hlrs-Ident\">"@,
            TokenTag::LitStr => "<span class=\"hlrs-LitStr\">"@,
            TokenTag::LitNum => "<span class=\"hlrs-LitNum\">"@,
            TokenTag::LitBool => "<span class=\"hlrs-LitBool\">"@,
            TokenTag::Function => "<span class=\"hlrs-Function\">"@,
            TokenTag::SelfToken => "<span class=\"hlrs-SelfToken\">"@,
            TokenTag::Macro => "<span class=\"hlrs-Macro\">"@,
            TokenTag::Type => "<span class=\"hlrs-Type\">"@,
            TokenTag::Enum => "<span class=\"hlrs-Enum\">"@,
            TokenTag::Segment => "<span class=\"hlrs-Segment\">"@,
            TokenTag::Comment => "<span class=\"hlrs-Comment\">"@,
            TokenTag::LifeTime => "<span class=\"hlrs-LifeTime\">"@,
            TokenTag::NeedIdentification => "<span class=\"hlrs-NeedIdentification\">"@,
            TokenTag::EndOfToken => "</span>"@,
        }
    }

    pub fn marker(&self) -> (r: &'static str)
        ensures
            r@ == self.marker_spec(),
    {
        match self {
            TokenTag::Keyword => "<span class=\"hlrs-Keyword\">",
            TokenTag::Ident => "<span class=\"hlrs-Ident\">",
            TokenTag::LitStr => "<span class=\"hlrs-LitStr\">",
            TokenTag::LitNum => "<span class=\"hlrs-LitNum\">",
            TokenTag::LitBool => "<span class=\"hlrs-LitBool\">",
            TokenTag::Function => "<span class=\"hlrs-Function\">",
            TokenTag::SelfToken => "<span class=\"hlrs-SelfToken\">",
            TokenTag::Macro => "<span class=\"hlrs-Macro\">",
            TokenTag::Type => "<span class=\"hlrs-Type\">",
            TokenTag::Enum => "<span class=\"hlrs-Enum\">",
            TokenTag::Segment => "<span class=\"hlrs-Segment\">",
            TokenTag::Comment => "<span class=\"hlrs-Comment\">",
            TokenTag::LifeTime => "<span class=\"hlrs-LifeTime\">",
            TokenTag::NeedIdentification => "<span class=\"hlrs-NeedIdentification\">",
            TokenTag::EndOfToken => "</span>",
        }
    }

    /// The marker as an owned string.
    pub fn to_string(&self) -> (r: String)
        ensures
            r@ == self.marker_spec(),
    {
        self.marker().to_owned()
    }
}

/// A category over the half-open byte range `[start, end)` of the source.
/// A closing entry of the registry has kind `EndOfToken`, `start` at the
/// position where it closes, and `end == usize::MAX`.
#[derive(Clone, Copy, Debug, PartialEq, Eq, Structural)]
pub struct SpannedToken {
    pub kind: TokenTag,
    pub start: usize,
    pub end: usize,
}

/// Render order: start ascending, then end descending, then category.
pub open spec fn key_lt(a: SpannedToken, b: SpannedToken) -> bool {
    ||| a.start < b.start
    ||| a.start == b.start && a.end > b.end
    ||| a.start == b.start && a.end == b.end && a.kind.rank_spec() < b.kind.rank_spec()
}

pub open spec fn key_le(a: SpannedToken, b: SpannedToken) -> bool {
    !key_lt(b, a)
}

impl SpannedToken {
    /// The closing entry paired with an opening entry ending at `end`.
    pub open spec fn close_at(end: usize) -> SpannedToken {
        SpannedToken { kind: TokenTag::EndOfToken, start: end, end: usize::MAX }
    }

    pub open spec fn is_close(self) -> bool {
        self.kind == TokenTag::EndOfToken
    }

    /// Whether `self` comes strictly before `other` in render order.
    pub fn precedes(&self, other: &SpannedToken) -> (r: bool)
        ensures
            r == key_lt(*self, *other),
    {
        if self.start != other.start {
            self.start < other.start
        } else if self.end != other.end {
            self.end > other.end
        } else {
            self.kind.rank() < other.kind.rank()
        }
    }
}

} // verus!
