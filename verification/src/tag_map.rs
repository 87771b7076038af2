//! The store: values held under identifiers and read, written and deleted
//! through tags.

use vstd::prelude::*;

use crate::error::Error;
use crate::range::RangeView;
use crate::sequence::{
    copy_window, element, replace_suffix, set_element, splice, spliced, window, with_element,
    with_suffix,
};
use crate::tag::{Tag, TagView};
use crate::tag_id::TagIdView;
use crate::tag_table::TagTable;
use crate::value::{element_or_unit, lemma_sequence_view, units, views_of, Value, ValueView};

verus! {

/// What a store holds: the value under each identifier that has one.
pub type Contents = Map<TagIdView, ValueView>;

/// The number of elements that a read of `range`, which is no single index,
/// takes from a sequence of `len` elements: up to the upper bound where
/// there is one, up to the end of the sequence where there is none.
pub open spec fn window_count(len: nat, range: RangeView) -> int {
    match range.to {
        Some(t) => t - range.start() + 1,
        None => if len > range.start() {
            len - range.start()
        } else {
            0
        },
    }
}

/// What a read of `range` from the stored sequence `s` gives: a single
/// index reads that element, any other range reads a sequence of the
/// elements in it. Positions that `s` does not reach read as the
/// placeholder.
pub open spec fn read_from(s: Seq<ValueView>, range: RangeView) -> ValueView {
    if range.is_single() {
        element_or_unit(s, range.start())
    } else {
        ValueView::Sequence(window(s, range.start(), window_count(s.len(), range)))
    }
}

/// What reading `tag` from `m` gives.
///
/// A tag without a range reads the stored value whole. A tag with a range
/// reads from a stored sequence, and from nothing else.
pub open spec fn spec_get(m: Contents, tag: TagView) -> Result<ValueView, Error> {
    if !m.contains_key(tag.id) {
        Err(Error::NoSuchTag)
    } else if !tag.has_range() {
        Ok(m[tag.id])
    } else {
        match m[tag.id] {
            ValueView::Sequence(s) => Ok(read_from(s, tag.range)),
            _ => Err(Error::TagIsNotASeq),
        }
    }
}

/// What the stored sequence `s` becomes when `value` is written at `range`,
/// which has a bound.
///
/// A single index takes `value` as the element at that index. A range with
/// both bounds takes a sequence of as many elements as it has indices and
/// puts them in place of those at its indices. A range without an upper
/// bound takes a sequence and puts its elements in place of all from the
/// lower bound on.
pub open spec fn written_into(s: Seq<ValueView>, range: RangeView, value: ValueView) -> Result<
    Seq<ValueView>,
    Error,
> {
    if range.is_single() {
        Ok(with_element(s, range.start(), value))
    } else {
        match (value, range.to) {
            (ValueView::Sequence(items), Some(to)) => if range.len() == Some(items.len() as int) {
                Ok(spliced(s, range.start(), to as int, items))
            } else {
                Err(Error::InvalidValueSeqLen)
            },
            (ValueView::Sequence(items), None) => Ok(with_suffix(s, range.start(), items)),
            _ => Err(Error::ValueIsNotASeq),
        }
    }
}

/// The sequence that is stored when `value` is written at `range`, which
/// has a bound, under an identifier that has no entry yet.
///
/// A sequence gives the elements, of which there must be as many as the
/// range has indices where it has an upper bound. Any other value is the
/// one element, and the range must be a single index. Placeholders stand
/// before the lower bound.
pub open spec fn written_new(range: RangeView, value: ValueView) -> Result<Seq<ValueView>, Error> {
    match value {
        ValueView::Sequence(items) => if range.to is Some && range.len() != Some(
            items.len() as int,
        ) {
            Err(Error::InvalidValueSeqLen)
        } else {
            Ok(units(range.start() as nat) + items)
        },
        _ => if range.is_single() {
            Ok(units(range.start() as nat).push(value))
        } else {
            Err(Error::ValueIsNotASeq)
        },
    }
}

/// What `m` becomes when `value` is written at `tag`, or why it cannot be
/// written.
///
/// A tag without a range stores `value` whole. A tag with a range writes
/// into the stored sequence, or stores a new sequence where the identifier
/// has no entry; it cannot write into a stored value that is no sequence.
pub open spec fn spec_set(m: Contents, tag: TagView, value: ValueView) -> Result<Contents, Error> {
    if !tag.has_range() {
        Ok(m.insert(tag.id, value))
    } else {
        let written = if !m.contains_key(tag.id) {
            written_new(tag.range, value)
        } else {
            match m[tag.id] {
                ValueView::Sequence(s) => written_into(s, tag.range, value),
                _ => Err(Error::TagIsNotAnArray),
            }
        };
        match written {
            Ok(s) => Ok(m.insert(tag.id, ValueView::Sequence(s))),
            Err(e) => Err(e),
        }
    }
}

/// What `m` becomes when the entry of `tag` is deleted, or why it cannot
/// be.
pub open spec fn spec_delete(m: Contents, tag: TagView) -> Result<Contents, Error> {
    if tag.has_range() {
        Err(Error::CanNotDeleteRange)
    } else {
        Ok(m.remove(tag.id))
    }
}

/// The sequence that a read through `tag` returns has a length that fits in
/// `usize`. Only a read of the range from index 0 up to `usize::MAX` from a
/// stored sequence does not fit.
pub open spec fn get_fits(m: Contents, tag: TagView) -> bool {
    (spec_get(m, tag) is Ok && !tag.range.is_single()) ==> (tag.range.len() matches Some(n) ==> n
        <= usize::MAX)
}

/// The sequence that a write through a ranged tag stores has a length that
/// fits in `usize`: it reaches the upper bound of the range where there is
/// one, and holds the given elements after the lower bound where there is
/// none.
pub open spec fn set_fits(m: Contents, tag: TagView, value: ValueView) -> bool {
    (tag.has_range() && spec_set(m, tag, value) is Ok) ==> match tag.range.to {
        Some(to) => to < usize::MAX,
        None => value matches ValueView::Sequence(items) ==> tag.range.start() + items.len()
            <= usize::MAX,
    }
}

/// The view of what a read returned.
pub open spec fn read_view(r: Result<Value, Error>) -> Result<ValueView, Error> {
    match r {
        Ok(v) => Ok(v@),
        Err(e) => Err(e),
    }
}

/// A store of values under identifiers.
#[derive(Debug)]
pub struct TagMap {
    tags: TagTable,
}

impl View for TagMap {
    type V = Contents;

    closed spec fn view(&self) -> Contents {
        self.tags@
    }
}

impl TagMap {
    /// An empty store.
    pub fn new() -> (r: Self)
        ensures
            r@ == Contents::empty(),
    {
        TagMap { tags: TagTable::new() }
    }

    /// The entries, for walking them in ascending order of the identifiers.
    pub fn tags(&self) -> (r: &TagTable)
        ensures
            r@ == self@,
    {
        &self.tags
    }

    /// The entries, for changing them directly.
    pub fn tag_mut(&mut self) -> (r: &mut TagTable)
        ensures
            r@ == old(self)@,
            final(self)@ == final(r)@,
    {
        &mut self.tags
    }

    /// Deletes the entry that `tag` names. Deleting what is not there
    /// succeeds and changes nothing; a tag with a range is refused.
    pub fn delete(&mut self, tag: Tag) -> (r: Result<(), Error>)
        ensures
            match spec_delete(old(self)@, tag@) {
                Ok(after) => r is Ok && final(self)@ == after,
                Err(e) => r == Err::<(), Error>(e) && final(self)@ == old(self)@,
            },
    {
        if tag.has_range() {
            Err(Error::CanNotDeleteRange)
        } else {
            self.tags.remove(&tag.id);
            Ok(())
        }
    }

    /// Reads what `tag` addresses and returns a copy of it. The store stays
    /// as it is.
    pub fn get(&mut self, tag: &Tag) -> (r: Result<Value, Error>)
        requires
            get_fits(old(self)@, tag@),
        ensures
            final(self)@ == old(self)@,
            read_view(r) == spec_get(old(self)@, tag@),
    {
        let stored = match self.tags.get(&tag.id) {
            Some(v) => v,
            None => {
                return Err(Error::NoSuchTag);
            },
        };
        if !tag.has_range() {
            return Ok(stored.clone());
        }
        let seq = match stored {
            Value::Sequence(seq) => seq,
            _ => {
                return Err(Error::TagIsNotASeq);
            },
        };
        proof {
            lemma_sequence_view(*seq);
            use_type_invariant(&tag.range);
        }
        let from: usize = tag.start();
        if tag.is_single() {
            return Ok(element(seq, from));
        }
        let count: usize = match tag.range.to {
            Some(to) => to - from + 1,
            None => if seq.len() > from {
                seq.len() - from
            } else {
                0
            },
        };
        Ok(Value::sequence(copy_window(seq, from, count)))
    }

    /// Takes the sequence stored at position `i` out of the table and
    /// leaves the placeholder there.
    fn take_sequence(&mut self, i: usize) -> (seq: Vec<Value>)
        requires
            i < old(self).tags.ids().len(),
            old(self).tags.items()[i as int] is Sequence,
        ensures
            final(self).tags.ids() == old(self).tags.ids(),
            final(self)@ == old(self)@.insert(old(self).tags.ids()[i as int], ValueView::Unit),
            ValueView::Sequence(views_of(seq@)) == old(self).tags.items()[i as int],
    {
        match self.tags.replace_at(i, Value::Unit) {
            Value::Sequence(seq) => {
                proof {
                    lemma_sequence_view(seq);
                }
                seq
            },
            _ => Vec::new(),
        }
    }

    /// Writes `value` at `tag`. Where the write is refused the store stays
    /// as it is.
    pub fn set(&mut self, tag: Tag, value: Value) -> (r: Result<(), Error>)
        requires
            set_fits(old(self)@, tag@, value@),
        ensures
            match spec_set(old(self)@, tag@, value@) {
                Ok(after) => r is Ok && final(self)@ == after,
                Err(e) => r == Err::<(), Error>(e) && final(self)@ == old(self)@,
            },
    {
        if !tag.has_range() {
            self.tags.insert(tag.id, value);
            return Ok(());
        }
        proof {
            use_type_invariant(&tag.range);
        }
        let from: usize = tag.start();
        match self.tags.position(&tag.id) {
            Ok(i) => {
                match self.tags.value_at(i) {
                    Value::Sequence(_) => {},
                    _ => {
                        return Err(Error::TagIsNotAnArray);
                    },
                }
                let ghost before = old(self)@;
                match tag.range.to {
                    Some(to) => {
                        if to == from {
                            let mut seq = self.take_sequence(i);
                            set_element(&mut seq, from, value);
                            self.tags.replace_at(i, Value::sequence(seq));
                        } else {
                            match value {
                                Value::Sequence(items) => {
                                    proof {
                                        lemma_sequence_view(items);
                                    }
                                    if items.len() == 0 || items.len() - 1 != to - from {
                                        return Err(Error::InvalidValueSeqLen);
                                    }
                                    let mut seq = self.take_sequence(i);
                                    splice(&mut seq, from, to, items);
                                    self.tags.replace_at(i, Value::sequence(seq));
                                },
                                _ => {
                                    return Err(Error::ValueIsNotASeq);
                                },
                            }
                        }
                    },
                    None => {
                        match value {
                            Value::Sequence(items) => {
                                proof {
                                    lemma_sequence_view(items);
                                }
                                let mut seq = self.take_sequence(i);
                                replace_suffix(&mut seq, from, items);
                                self.tags.replace_at(i, Value::sequence(seq));
                            },
                            _ => {
                                return Err(Error::ValueIsNotASeq);
                            },
                        }
                    },
                }
                assert(self@ =~= spec_set(before, tag@, value@)->Ok_0);
            },
            Err(_) => {
                match value {
                    Value::Sequence(items) => {
                        proof {
                            lemma_sequence_view(items);
                        }
                        if let Some(to) = tag.range.to {
                            if items.len() == 0 || items.len() - 1 != to - from {
                                return Err(Error::InvalidValueSeqLen);
                            }
                        }
                        let mut seq: Vec<Value> = Vec::new();
                        replace_suffix(&mut seq, from, items);
                        assert(views_of(seq@) =~= units(from as nat) + views_of(items@));
                        self.tags.insert(tag.id, Value::sequence(seq));
                    },
                    scalar => {
                        if !tag.is_single() {
                            return Err(Error::ValueIsNotASeq);
                        }
                        let mut seq: Vec<Value> = Vec::new();
                        set_element(&mut seq, from, scalar);
                        assert(views_of(seq@) =~= units(from as nat).push(value@));
                        self.tags.insert(tag.id, Value::sequence(seq));
                    },
                }
            },
        }
        Ok(())
    }
}

impl Clone for TagMap {
    fn clone(&self) -> (r: Self)
        ensures
            r@ == self@,
    {
        TagMap { tags: self.tags.clone() }
    }
}

impl Default for TagMap {
    fn default() -> (r: Self)
        ensures
            r@ == Contents::empty(),
    {
        TagMap::new()
    }
}

} // verus!
