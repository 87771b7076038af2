//! Reading and rewriting parts of a sequence of values. Positions that a
//! sequence does not reach read as the placeholder, and a write beyond the
//! end fills the gap with placeholders.

use vstd::prelude::*;

use crate::value::{element_or_unit, views_of, Value, ValueView};

verus! {

/// `s` cut, or filled up with placeholders, to exactly `n` elements.
pub open spec fn resized(s: Seq<ValueView>, n: int) -> Seq<ValueView> {
    Seq::new(
        if n >= 0 {
            n as nat
        } else {
            0
        },
        |i: int| element_or_unit(s, i),
    )
}

/// The `count` elements of `s` from index `lo` on, with the placeholder
/// wherever `s` has no element.
pub open spec fn window(s: Seq<ValueView>, lo: int, count: int) -> Seq<ValueView> {
    Seq::new(
        if count >= 0 {
            count as nat
        } else {
            0
        },
        |k: int| element_or_unit(s, lo + k),
    )
}

/// `s` with `v` at index `idx`, grown with placeholders where it was too
/// short to have that index.
pub open spec fn with_element(s: Seq<ValueView>, idx: int, v: ValueView) -> Seq<ValueView> {
    resized(
        s,
        if s.len() > idx {
            s.len() as int
        } else {
            idx + 1
        },
    ).update(idx, v)
}

/// The elements of `s` after index `to`; none where `s` ends at or before
/// `to`.
pub open spec fn tail_after(s: Seq<ValueView>, to: int) -> Seq<ValueView> {
    if 0 <= to + 1 <= s.len() {
        s.skip(to + 1)
    } else {
        Seq::empty()
    }
}

/// `s` with the elements at `from..=to` replaced by `items`: what came
/// before `from` stays, filled up with placeholders where `s` was shorter,
/// and what came after `to` stays.
pub open spec fn spliced(s: Seq<ValueView>, from: int, to: int, items: Seq<ValueView>) -> Seq<
    ValueView,
> {
    resized(s, from) + items + tail_after(s, to)
}

/// `s` with everything from index `from` on replaced by `items`: what came
/// before `from` stays, filled up with placeholders where `s` was shorter.
pub open spec fn with_suffix(s: Seq<ValueView>, from: int, items: Seq<ValueView>) -> Seq<
    ValueView,
> {
    resized(s, from) + items
}

/// The copy of the element of `seq` at `idx`, or the placeholder where
/// `seq` has no such element.
pub fn element(seq: &Vec<Value>, idx: usize) -> (r: Value)
    ensures
        r@ == element_or_unit(views_of(seq@), idx as int),
{
    if idx < seq.len() {
        seq[idx].clone()
    } else {
        Value::Unit
    }
}

/// The copies of the `count` elements of `seq` from index `lo` on, with the
/// placeholder wherever `seq` has no element.
pub fn copy_window(seq: &Vec<Value>, lo: usize, count: usize) -> (r: Vec<Value>)
    requires
        count == 0 || lo + count - 1 <= usize::MAX,
    ensures
        views_of(r@) == window(views_of(seq@), lo as int, count as int),
{
    let mut out: Vec<Value> = Vec::new();
    let mut k: usize = 0;
    while k < count
        invariant
            k <= count,
            count == 0 || lo + count - 1 <= usize::MAX,
            out.len() == k,
            forall|j: int| 0 <= j < k ==> out@[j]@ == element_or_unit(views_of(seq@), lo + j),
        decreases count - k,
    {
        out.push(element(seq, lo + k));
        k = k + 1;
    }
    assert(views_of(out@) =~= window(views_of(seq@), lo as int, count as int));
    out
}

/// Cuts `seq`, or fills it up with placeholders, to exactly `len` elements.
pub fn resize(seq: &mut Vec<Value>, len: usize)
    ensures
        final(seq).len() == len,
        views_of(final(seq)@) == resized(views_of(old(seq)@), len as int),
{
    if seq.len() > len {
        seq.truncate(len);
    } else {
        while seq.len() < len
            invariant
                old(seq).len() <= seq.len() <= len,
                forall|j: int| 0 <= j < old(seq).len() ==> seq@[j] == old(seq)@[j],
                forall|j: int| old(seq).len() <= j < seq.len() ==> seq@[j]@ == ValueView::Unit,
            decreases len - seq.len(),
        {
            seq.push(Value::Unit);
        }
    }
    assert(views_of(seq@) =~= resized(views_of(old(seq)@), len as int));
}

/// Puts `value` at index `idx` of `seq`, growing `seq` with placeholders
/// where it is too short to have that index.
pub fn set_element(seq: &mut Vec<Value>, idx: usize, value: Value)
    requires
        idx < usize::MAX,
    ensures
        views_of(final(seq)@) == with_element(views_of(old(seq)@), idx as int, value@),
{
    if seq.len() <= idx {
        resize(seq, idx + 1);
    }
    seq.set(idx, value);
    assert(views_of(seq@) =~= with_element(views_of(old(seq)@), idx as int, value@));
}

/// Replaces the elements of `seq` at `from..=to` by the as many `items`,
/// keeping what came before and after; a `seq` shorter than `from` is
/// filled up with placeholders first.
pub fn splice(seq: &mut Vec<Value>, from: usize, to: usize, items: Vec<Value>)
    requires
        from <= to < usize::MAX,
        items.len() == to - from + 1,
    ensures
        views_of(final(seq)@) == spliced(
            views_of(old(seq)@),
            from as int,
            to as int,
            views_of(items@),
        ),
{
    let ghost given = views_of(items@);
    let mut items = items;
    let mut tail: Vec<Value> = if to + 1 <= seq.len() {
        seq.split_off(to + 1)
    } else {
        Vec::new()
    };
    assert(views_of(tail@) =~= tail_after(views_of(old(seq)@), to as int));
    resize(seq, from);
    assert(views_of(seq@) =~= resized(views_of(old(seq)@), from as int));
    seq.append(&mut items);
    seq.append(&mut tail);
    assert(views_of(seq@) =~= spliced(views_of(old(seq)@), from as int, to as int, given));
}

/// Replaces everything in `seq` from index `from` on by `items`; a `seq`
/// shorter than `from` is filled up with placeholders first.
pub fn replace_suffix(seq: &mut Vec<Value>, from: usize, items: Vec<Value>)
    requires
        from + items.len() <= usize::MAX,
    ensures
        views_of(final(seq)@) == with_suffix(views_of(old(seq)@), from as int, views_of(items@)),
{
    let ghost given = views_of(items@);
    let mut items = items;
    resize(seq, from);
    seq.append(&mut items);
    assert(views_of(seq@) =~= with_suffix(views_of(old(seq)@), from as int, given));
}

} // verus!
