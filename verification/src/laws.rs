//! What holds of the tag grammar and of the store whatever the inputs.

use vstd::prelude::*;

use crate::error::{Error, ErrorKind};
use crate::range::RangeView;
use crate::sequence::{spliced, window, with_element, with_suffix};
use crate::tag::{
    bound_text, is_first_index_of, is_last_index_of, range_text, spec_format, spec_parse,
    spec_parse_bound, spec_parse_range, TagView,
};
use crate::tag_id::TagIdView;
use crate::tag_map::{spec_delete, spec_get, spec_set, window_count, Contents};
use crate::text::{all_digits, is_digit, lemma_decimal_text, spec_parse_index};
use crate::value::ValueView;

verus! {

/// Text that does not end in `]` reads as a name without a range.
pub proof fn lemma_parse_name(name: Seq<char>)
    requires
        name.len() == 0 || name.last() != ']',
    ensures
        spec_parse(name) == Ok::<TagView, Error>(
            TagView { id: TagIdView::Str(name), range: RangeView { from: None, to: None } },
        ),
{
}

/// A name followed by brackets reads as that name with the range that the
/// text between the brackets writes, as long as that text holds no `[`.
pub proof fn lemma_parse_brackets(name: Seq<char>, inner: Seq<char>)
    requires
        !inner.contains('['),
    ensures
        spec_parse(name + seq!['['] + inner + seq![']']) == match spec_parse_range(inner) {
            Ok(range) => Ok::<TagView, Error>(TagView { id: TagIdView::Str(name), range }),
            Err(e) => Err(e),
        },
{
    let s = name + seq!['['] + inner + seq![']'];
    let body = s.drop_last();
    let open = name.len() as int;
    assert(body =~= name + seq!['['] + inner);
    assert(body[open] == '[');
    assert forall|j: int| open < j < body.len() implies body[j] != '[' by {
        assert(body[j] == inner[j - open - 1]);
    }
    assert(is_last_index_of(body, '[', open));
    assert(body.contains('['));
    let p = choose|p: int| is_last_index_of(body, '[', p);
    assert(p == open);
    assert(body.take(open) =~= name);
    assert(body.skip(open + 1) =~= inner);
}

/// Text without a `-` between the brackets reads as a single index.
pub proof fn lemma_parse_single(inner: Seq<char>)
    requires
        !inner.contains('-'),
    ensures
        spec_parse_range(inner) == match spec_parse_index(inner) {
            Some(n) => Ok::<RangeView, Error>(RangeView { from: Some(n), to: Some(n) }),
            None => Err(Error::InvalidIndex),
        },
{
}

/// Two texts with a `-` between them read as a lower and an upper bound, as
/// long as the first holds no `-`.
pub proof fn lemma_parse_bounds(lower: Seq<char>, upper: Seq<char>)
    requires
        !lower.contains('-'),
    ensures
        spec_parse_range(lower + seq!['-'] + upper) == match (
            spec_parse_bound(lower),
            spec_parse_bound(upper),
        ) {
            (Ok(from), Ok(to)) => if (RangeView { from, to }).ordered() {
                Ok::<RangeView, Error>(RangeView { from, to })
            } else {
                Err(Error::InvalidSeqIndex)
            },
            _ => Err(Error::InvalidIndex),
        },
{
    let s = lower + seq!['-'] + upper;
    let dash = lower.len() as int;
    assert(s[dash] == '-');
    assert forall|j: int| 0 <= j < dash implies s[j] != '-' by {
        assert(s[j] == lower[j]);
    }
    assert(is_first_index_of(s, '-', dash));
    assert(s.contains('-'));
    let p = choose|p: int| is_first_index_of(s, '-', p);
    assert(p == dash);
    assert(s.take(dash) =~= lower);
    assert(s.skip(dash + 1) =~= upper);
}

/// The text of a bound holds only digits and reads back as that bound.
pub proof fn lemma_bound_text(b: Option<usize>)
    ensures
        all_digits(bound_text(b)),
        spec_parse_bound(bound_text(b)) == Ok::<Option<usize>, Error>(b),
{
    if let Some(n) = b {
        lemma_decimal_text(n as nat);
    }
}

/// A text of digits holds neither a bracket nor a `-`.
proof fn lemma_digits_plain(s: Seq<char>)
    requires
        all_digits(s),
    ensures
        !s.contains('['),
        !s.contains('-'),
{
    if s.contains('[') {
        let j = choose|j: int| 0 <= j < s.len() && s[j] == '[';
        assert(is_digit(s[j]));
    }
    if s.contains('-') {
        let j = choose|j: int| 0 <= j < s.len() && s[j] == '-';
        assert(is_digit(s[j]));
    }
}

/// A text that writes an index is not empty and holds neither a bracket
/// nor a `-`.
pub proof fn lemma_index_text_plain(s: Seq<char>)
    requires
        spec_parse_index(s) is Some,
    ensures
        s.len() > 0,
        !s.contains('['),
        !s.contains('-'),
{
    let digits = if s.len() > 0 && s[0] == '+' {
        s.skip(1)
    } else {
        s
    };
    assert forall|j: int| 0 <= j < s.len() implies s[j] != '[' && s[j] != '-' by {
        if s[0] == '+' {
            if j > 0 {
                assert(is_digit(digits[j - 1]));
            }
        } else {
            assert(is_digit(digits[j]));
        }
    }
}

/// Bounds written with the lower above the upper are refused, and the
/// refusal is of the kind that blames the request.
pub proof fn lemma_descending_bounds_refused(name: Seq<char>, lower: Seq<char>, upper: Seq<char>)
    requires
        spec_parse_index(lower) is Some,
        spec_parse_index(upper) is Some,
        spec_parse_index(lower)->Some_0 > spec_parse_index(upper)->Some_0,
    ensures
        spec_parse(name + seq!['['] + (lower + seq!['-'] + upper) + seq![']']) == Err::<
            TagView,
            Error,
        >(Error::InvalidSeqIndex),
        Error::InvalidSeqIndex.kind() == ErrorKind::InvalidParams,
{
    let inner = lower + seq!['-'] + upper;
    lemma_index_text_plain(lower);
    lemma_index_text_plain(upper);
    lemma_parse_bounds(lower, upper);
    if inner.contains('[') {
        let j = choose|j: int| 0 <= j < inner.len() && inner[j] == '[';
        if j < lower.len() {
            assert(lower[j] == '[');
        } else if j > lower.len() {
            assert(upper[j - lower.len() - 1] == '[');
        }
    }
    lemma_parse_brackets(name, inner);
}

/// The text of a range reads back as that range, but for the range with no
/// lower bound and the upper bound 0, whose text `0` reads as the single
/// index 0.
pub proof fn lemma_range_round_trip(r: RangeView)
    requires
        r.ordered(),
        !r.is_unbounded(),
        r != (RangeView { from: None, to: Some(0usize) }),
    ensures
        !range_text(r).contains('['),
        spec_parse_range(range_text(r)) == Ok::<RangeView, Error>(r),
{
    let text = range_text(r);
    if r.is_single() {
        let n = r.from->Some_0;
        lemma_decimal_text(n as nat);
        lemma_digits_plain(text);
        lemma_parse_single(text);
    } else {
        let lower = bound_text(r.from);
        let upper = bound_text(r.to);
        lemma_bound_text(r.from);
        lemma_bound_text(r.to);
        lemma_digits_plain(lower);
        lemma_digits_plain(upper);
        lemma_parse_bounds(lower, upper);
        if text.contains('[') {
            let j = choose|j: int| 0 <= j < text.len() && text[j] == '[';
            if j < lower.len() {
                assert(lower[j] == '[');
            } else if j > lower.len() {
                assert(upper[j - lower.len() - 1] == '[');
            }
        }
    }
}

/// Writing a tag as text and reading the text gives the tag again.
///
/// This holds of every named tag but two kinds: a tag without a range whose
/// name ends in `]`, because its text reads as a tag with brackets; and a
/// tag whose range has no lower bound and the upper bound 0, because its
/// text reads as the single index 0.
pub proof fn lemma_format_parse_round_trip(t: TagView)
    requires
        t.id is Str,
        t.range.ordered(),
        t.has_range() || t.id->Str_0.len() == 0 || t.id->Str_0.last() != ']',
        t.range != (RangeView { from: None, to: Some(0usize) }),
    ensures
        spec_parse(spec_format(t)) == Ok::<TagView, Error>(t),
{
    let name = t.id->Str_0;
    if t.has_range() {
        lemma_range_round_trip(t.range);
        lemma_parse_brackets(name, range_text(t.range));
    } else {
        lemma_parse_name(name);
    }
}

/// Writing the same value at the same tag a second time changes nothing.
///
/// This holds of every write but one kind: the first write under an
/// identifier, through a single index, of a sequence of one element. That
/// write stores the element; the second, finding a sequence stored, puts
/// the whole value at the index.
pub proof fn lemma_set_idempotent(m: Contents, tag: TagView, value: ValueView)
    requires
        tag.range.ordered(),
        !(tag.range.is_single() && !m.contains_key(tag.id) && value is Sequence
            && value->Sequence_0.len() == 1),
    ensures
        spec_set(m, tag, value) matches Ok(after) ==> spec_set(after, tag, value) == Ok::<
            Contents,
            Error,
        >(after),
{
    if let Ok(after) = spec_set(m, tag, value) {
        let from = tag.range.start();
        assert(after.contains_key(tag.id));
        if !tag.has_range() {
            assert(after.insert(tag.id, value) =~= after);
        } else {
            let stored = after[tag.id]->Sequence_0;
            match tag.range.to {
                Some(to) => {
                    if tag.range.is_single() {
                        assert(with_element(stored, from, value) =~= stored);
                    } else {
                        let items = value->Sequence_0;
                        assert(spliced(stored, from, to as int, items) =~= stored);
                    }
                },
                None => {
                    let items = value->Sequence_0;
                    assert(with_suffix(stored, from, items) =~= stored);
                },
            }
            assert(after.insert(tag.id, ValueView::Sequence(stored)) =~= after);
        }
    }
}

/// A delete through a tag with a range is refused whatever the store
/// holds, and the refusal is of the kind that blames the request.
pub proof fn lemma_ranged_delete_refused(m: Contents, tag: TagView)
    requires
        tag.has_range(),
    ensures
        spec_delete(m, tag) == Err::<Contents, Error>(Error::CanNotDeleteRange),
        Error::CanNotDeleteRange.kind() == ErrorKind::InvalidParams,
{
}

/// Deleting the same entry a second time succeeds and changes nothing.
pub proof fn lemma_delete_idempotent(m: Contents, tag: TagView)
    ensures
        spec_delete(m, tag) matches Ok(after) ==> spec_delete(after, tag) == Ok::<Contents, Error>(
            after,
        ),
{
    if let Ok(after) = spec_delete(m, tag) {
        assert(after.remove(tag.id) =~= after);
    }
}

/// A read through the tag that was just written gives the value written.
///
/// This holds of every write but the one kind that [`lemma_set_idempotent`]
/// leaves out: there the element is stored, not the sequence that held it.
pub proof fn lemma_get_after_set(m: Contents, tag: TagView, value: ValueView)
    requires
        tag.range.ordered(),
        !(tag.range.is_single() && !m.contains_key(tag.id) && value is Sequence
            && value->Sequence_0.len() == 1),
    ensures
        spec_set(m, tag, value) matches Ok(after) ==> spec_get(after, tag) == Ok::<
            ValueView,
            Error,
        >(value),
{
    if let Ok(after) = spec_set(m, tag, value) {
        if tag.has_range() && !tag.range.is_single() {
            let from = tag.range.start();
            let stored = after[tag.id]->Sequence_0;
            let items = value->Sequence_0;
            assert(window(stored, from, window_count(stored.len(), tag.range)) =~= items);
        }
    }
}

} // verus!
