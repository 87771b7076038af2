//! Tags: an identifier with an optional index range.

use vstd::prelude::*;
use vstd::std_specs::convert::FromSpecImpl;
use vstd::string::*;

use crate::error::Error;
use crate::range::{Range, RangeView};
use crate::tag_id::{TagId, TagIdView};
use crate::text::{chars_of, decimal_text, parse_index, push_decimal, spec_parse_index};

verus! {

/// The address of an entry, or of one element or a run of elements of a
/// sequence entry.
#[derive(Debug, PartialEq, Eq)]
pub struct Tag {
    pub(crate) id: TagId,
    pub range: Range,
}

/// The mathematical value of a [`Tag`].
pub ghost struct TagView {
    pub id: TagIdView,
    pub range: RangeView,
}

impl TagView {
    /// The tag addresses within a sequence: it has at least one bound.
    pub open spec fn has_range(self) -> bool {
        !self.range.is_unbounded()
    }
}

/// `p` is the first position of `s` that holds `c`.
pub open spec fn is_first_index_of(s: Seq<char>, c: char, p: int) -> bool {
    &&& 0 <= p < s.len()
    &&& s[p] == c
    &&& forall|j: int| 0 <= j < p ==> s[j] != c
}

/// `p` is the last position of `s` that holds `c`.
pub open spec fn is_last_index_of(s: Seq<char>, c: char, p: int) -> bool {
    &&& 0 <= p < s.len()
    &&& s[p] == c
    &&& forall|j: int| p < j < s.len() ==> s[j] != c
}

/// The bound that the text `s` writes: none where `s` is empty, else the
/// index that `s` writes.
pub open spec fn spec_parse_bound(s: Seq<char>) -> Result<Option<usize>, Error> {
    if s.len() == 0 {
        Ok(None)
    } else {
        match spec_parse_index(s) {
            Some(n) => Ok(Some(n)),
            None => Err(Error::InvalidIndex),
        }
    }
}

/// The range that the text `s` between the brackets writes.
///
/// With a `-` in it, `s` writes a lower bound before the first `-` and an
/// upper bound after it, each of which may be left out. Without one, `s`
/// writes a single index, which is both bounds.
pub open spec fn spec_parse_range(s: Seq<char>) -> Result<RangeView, Error> {
    if s.contains('-') {
        let p = choose|p: int| is_first_index_of(s, '-', p);
        match (spec_parse_bound(s.take(p)), spec_parse_bound(s.skip(p + 1))) {
            (Ok(from), Ok(to)) => {
                let range = RangeView { from, to };
                if range.ordered() {
                    Ok(range)
                } else {
                    Err(Error::InvalidSeqIndex)
                }
            },
            _ => Err(Error::InvalidIndex),
        }
    } else {
        match spec_parse_index(s) {
            Some(n) => Ok(RangeView { from: Some(n), to: Some(n) }),
            None => Err(Error::InvalidIndex),
        }
    }
}

/// The tag that the text `s` writes.
///
/// Text that does not end in `]` is a name with no range. Text that does
/// has its range between the last `[` and that `]`, and its name before
/// that `[`.
pub open spec fn spec_parse(s: Seq<char>) -> Result<TagView, Error> {
    if s.len() > 0 && s.last() == ']' {
        let inner = s.drop_last();
        if inner.contains('[') {
            let p = choose|p: int| is_last_index_of(inner, '[', p);
            match spec_parse_range(inner.skip(p + 1)) {
                Ok(range) => Ok(TagView { id: TagIdView::Str(inner.take(p)), range }),
                Err(e) => Err(e),
            }
        } else {
            Err(Error::InvalidArray)
        }
    } else {
        Ok(TagView { id: TagIdView::Str(s), range: RangeView { from: None, to: None } })
    }
}

/// The text of a bound: its decimal digits, or nothing where it is absent.
pub open spec fn bound_text(b: Option<usize>) -> Seq<char> {
    match b {
        Some(n) => decimal_text(n as nat),
        None => Seq::empty(),
    }
}

/// The text of a range that has a bound: the one index of a range that
/// addresses a single element, else the bounds that are given with a `-`
/// between them.
pub open spec fn range_text(r: RangeView) -> Seq<char> {
    if r.is_single() {
        decimal_text(r.start() as nat)
    } else {
        bound_text(r.from) + seq!['-'] + bound_text(r.to)
    }
}

/// The text of a tag: its identifier, followed where it has a range by the
/// range in brackets.
pub open spec fn spec_format(t: TagView) -> Seq<char> {
    if t.has_range() {
        t.id.text() + seq!['['] + range_text(t.range) + seq![']']
    } else {
        t.id.text()
    }
}

/// The view of what parsing returned.
pub open spec fn parse_view(r: Result<Tag, Error>) -> Result<TagView, Error> {
    match r {
        Ok(t) => Ok(t@),
        Err(e) => Err(e),
    }
}

/// The view of what parsing a range returned.
pub open spec fn range_view(r: Result<Range, Error>) -> Result<RangeView, Error> {
    match r {
        Ok(t) => Ok(t@),
        Err(e) => Err(e),
    }
}

/// Reads the characters of `chars` from `start` up to `end` as a bound.
fn parse_bound(chars: &Vec<char>, start: usize, end: usize) -> (r: Result<Option<usize>, Error>)
    requires
        start <= end <= chars.len(),
    ensures
        r == spec_parse_bound(chars@.subrange(start as int, end as int)),
{
    if start == end {
        Ok(None)
    } else {
        match parse_index(chars, start, end) {
            Some(n) => Ok(Some(n)),
            None => Err(Error::InvalidIndex),
        }
    }
}

/// Reads the characters of `chars` from `start` up to `end` as the text
/// between the brackets of a tag.
fn parse_range(chars: &Vec<char>, start: usize, end: usize) -> (r: Result<Range, Error>)
    requires
        start <= end <= chars.len(),
    ensures
        range_view(r) == spec_parse_range(chars@.subrange(start as int, end as int)),
{
    let ghost s = chars@.subrange(start as int, end as int);
    let mut pos: usize = start;
    while pos < end && chars[pos] != '-'
        invariant
            start <= pos <= end <= chars.len(),
            forall|j: int| start <= j < pos ==> chars@[j] != '-',
        decreases end - pos,
    {
        pos = pos + 1;
    }
    if pos < end {
        let ghost p = pos - start;
        proof {
            assert(is_first_index_of(s, '-', p));
            assert(s.contains('-'));
            assert(s.take(p) =~= chars@.subrange(start as int, pos as int));
            assert(s.skip(p + 1) =~= chars@.subrange(pos + 1, end as int));
        }
        let from = match parse_bound(chars, start, pos) {
            Ok(b) => b,
            Err(e) => {
                return Err(e);
            },
        };
        let to = match parse_bound(chars, pos + 1, end) {
            Ok(b) => b,
            Err(e) => {
                return Err(e);
            },
        };
        if let (Some(f), Some(t)) = (from, to) {
            if f > t {
                return Err(Error::InvalidSeqIndex);
            }
        }
        Ok(Range::new(from, to))
    } else {
        proof {
            if s.contains('-') {
                let j = choose|j: int| 0 <= j < s.len() && s[j] == '-';
                assert(chars@[start + j] == '-');
            }
        }
        match parse_index(chars, start, end) {
            Some(n) => Ok(Range::new(Some(n), Some(n))),
            None => Err(Error::InvalidIndex),
        }
    }
}

impl View for Tag {
    type V = TagView;

    open(crate) spec fn view(&self) -> TagView {
        TagView { id: self.id@, range: self.range@ }
    }
}

impl Clone for Tag {
    fn clone(&self) -> (r: Self)
        ensures
            r@ == self@,
    {
        Tag { id: self.id.clone(), range: self.range }
    }
}

impl Tag {
    /// The tag with the given identifier and range.
    pub fn new(id: TagId, range: Range) -> (r: Self)
        ensures
            r@ == (TagView { id: id@, range: range@ }),
    {
        Tag { id, range }
    }

    /// The tag that addresses the whole entry of `id`.
    pub fn new0(id: TagId) -> (r: Self)
        ensures
            r@.id == id@,
            r@.range.is_unbounded(),
    {
        Tag { id, range: Range::default() }
    }

    /// The identifier.
    pub fn id(&self) -> (r: &TagId)
        ensures
            r@ == self@.id,
    {
        &self.id
    }

    /// Whether the tag addresses within a sequence.
    pub fn has_range(&self) -> (r: bool)
        ensures
            r == self@.has_range(),
    {
        self.range.from.is_some() || self.range.to.is_some()
    }

    /// The first index addressed: the lower bound, or 0 without one.
    pub fn start(&self) -> (r: usize)
        ensures
            r == self@.range.start(),
    {
        match self.range.from {
            Some(f) => f,
            None => 0,
        }
    }

    /// Whether the tag addresses exactly one element.
    pub fn is_single(&self) -> (r: bool)
        ensures
            r == self@.range.is_single(),
    {
        match self.range.to {
            Some(t) => t == self.start(),
            None => false,
        }
    }

    /// Reads a tag from its text: a name, or a name followed by a range in
    /// brackets.
    pub fn parse(s: &str) -> (r: Result<Tag, Error>)
        ensures
            parse_view(r) == spec_parse(s@),
    {
        let chars = chars_of(s);
        let n: usize = chars.len();
        if n == 0 || chars[n - 1] != ']' {
            return Ok(Tag::new0(TagId::Str(s.to_owned())));
        }
        let ghost inner = s@.drop_last();
        let mut after: usize = n - 1;
        while after > 0 && chars[after - 1] != '['
            invariant
                after <= n - 1,
                n == chars.len(),
                forall|j: int| after <= j < n - 1 ==> chars@[j] != '[',
            decreases after,
        {
            after = after - 1;
        }
        if after == 0 {
            proof {
                if inner.contains('[') {
                    let j = choose|j: int| 0 <= j < inner.len() && inner[j] == '[';
                    assert(chars@[j] == '[');
                }
            }
            return Err(Error::InvalidArray);
        }
        let open: usize = after - 1;
        proof {
            assert(is_last_index_of(inner, '[', open as int));
            assert(inner.contains('['));
            assert(inner.skip(open + 1) =~= chars@.subrange(after as int, n - 1));
            assert(inner.take(open as int) =~= s@.subrange(0, open as int));
        }
        let range = match parse_range(&chars, after, n - 1) {
            Ok(range) => range,
            Err(e) => {
                return Err(e);
            },
        };
        let id = s.substring_char(0, open).to_owned();
        Ok(Tag::new(TagId::Str(id), range))
    }

    /// Writes the tag as text that [`Tag::parse`] reads.
    pub fn to_string(&self) -> (r: String)
        ensures
            r@ == spec_format(self@),
    {
        let mut out = self.id.to_string();
        if self.has_range() {
            proof {
                reveal_strlit("[");
                reveal_strlit("-");
                reveal_strlit("]");
            }
            out.append("[");
            let ghost head = out@;
            if self.is_single() {
                push_decimal(&mut out, self.start() as u64);
            } else {
                if let Some(f) = self.range.from {
                    push_decimal(&mut out, f as u64);
                }
                out.append("-");
                if let Some(t) = self.range.to {
                    push_decimal(&mut out, t as u64);
                }
            }
            assert(out@ =~= head + range_text(self@.range));
            out.append("]");
            assert(out@ =~= spec_format(self@));
        }
        out
    }

    /// The number of indices addressed, where the range has an upper bound.
    pub fn range_len(&self) -> (r: Option<usize>)
        requires
            self@.range.len() matches Some(n) ==> n <= usize::MAX,
        ensures
            match r {
                Some(n) => self@.range.len() == Some(n as int),
                None => self@.range.len() is None,
            },
    {
        proof {
            use_type_invariant(&self.range);
        }
        match self.range.to {
            Some(t) => Some(t - self.start() + 1),
            None => None,
        }
    }
}

impl core::str::FromStr for Tag {
    type Err = Error;

    fn from_str(s: &str) -> (r: Result<Self, Error>)
        ensures
            parse_view(r) == spec_parse(s@),
    {
        Tag::parse(s)
    }
}

impl From<String> for Tag {
    fn from(s: String) -> (r: Self)
        ensures
            r@.id == TagIdView::Str(s@),
            r@.range.is_unbounded(),
    {
        Tag::new0(TagId::Str(s))
    }
}

impl FromSpecImpl<String> for Tag {
    open spec fn obeys_from_spec() -> bool {
        false
    }

    open spec fn from_spec(s: String) -> Self {
        arbitrary()
    }
}

impl From<u64> for Tag {
    fn from(u: u64) -> (r: Self)
        ensures
            r@.id == TagIdView::Num(u),
            r@.range.is_unbounded(),
    {
        Tag::new0(TagId::Num(u))
    }
}

impl FromSpecImpl<u64> for Tag {
    open spec fn obeys_from_spec() -> bool {
        false
    }

    open spec fn from_spec(u: u64) -> Self {
        arbitrary()
    }
}

impl<'a> From<&'a str> for Tag {
    fn from(s: &'a str) -> (r: Self)
        ensures
            r@.id == TagIdView::Str(s@),
            r@.range.is_unbounded(),
    {
        Tag::new0(TagId::Str(s.to_owned()))
    }
}

impl<'a> FromSpecImpl<&'a str> for Tag {
    open spec fn obeys_from_spec() -> bool {
        false
    }

    open spec fn from_spec(s: &'a str) -> Self {
        arbitrary()
    }
}

} // verus!
