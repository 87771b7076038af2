//! The ordered table behind the store: entries kept in ascending order of
//! their identifiers, each identifier at most once.

use vstd::prelude::*;

use crate::tag_id::{lemma_lt_irreflexive, lemma_lt_transitive, Order, TagId, TagIdView};
use crate::value::{Value, ValueView};

verus! {

/// Every identifier of `ids` is below all that follow it.
pub open spec fn ascending(ids: Seq<TagIdView>) -> bool {
    forall|i: int, j: int| 0 <= i < j < ids.len() ==> (#[trigger] ids[i]).lt(#[trigger] ids[j])
}

/// The mapping that sends each identifier of `ids` to the item of `items` at
/// the same position.
pub open spec fn table_map(ids: Seq<TagIdView>, items: Seq<ValueView>) -> Map<
    TagIdView,
    ValueView,
> {
    Map::new(|k: TagIdView| ids.contains(k), |k: TagIdView| items[ids.index_of(k)])
}

/// In an ascending sequence no identifier occurs twice.
pub proof fn lemma_ascending_distinct(ids: Seq<TagIdView>)
    requires
        ascending(ids),
    ensures
        ids.no_duplicates(),
{
    assert forall|i: int, j: int| 0 <= i < ids.len() && 0 <= j < ids.len() && i != j implies ids[i]
        != ids[j] by {
        lemma_lt_irreflexive(ids[i]);
        if i < j {
            assert(ids[i].lt(ids[j]));
        } else {
            assert(ids[j].lt(ids[i]));
        }
    }
}

/// In an ascending sequence each identifier is found at its own position.
proof fn lemma_index_of(ids: Seq<TagIdView>, i: int)
    requires
        ascending(ids),
        0 <= i < ids.len(),
    ensures
        ids.contains(ids[i]),
        ids.index_of(ids[i]) == i,
{
    lemma_ascending_distinct(ids);
}

/// `p` is where `k` belongs in `ids`: all before it are below `k`, all from
/// it on are above.
pub open spec fn insertion_point(ids: Seq<TagIdView>, k: TagIdView, p: int) -> bool {
    &&& 0 <= p <= ids.len()
    &&& forall|j: int| 0 <= j < p ==> (#[trigger] ids[j]).lt(k)
    &&& forall|j: int| p <= j < ids.len() ==> k.lt(#[trigger] ids[j])
}

/// An identifier with an insertion point does not occur.
proof fn lemma_insertion_point_absent(ids: Seq<TagIdView>, k: TagIdView, p: int)
    requires
        insertion_point(ids, k, p),
    ensures
        !ids.contains(k),
{
    lemma_lt_irreflexive(k);
    if ids.contains(k) {
        let j = choose|j: int| 0 <= j < ids.len() && ids[j] == k;
        if j < p {
            assert(ids[j].lt(k));
        } else {
            assert(k.lt(ids[j]));
        }
    }
}

/// Inserting at the insertion point keeps the order and adds one entry to
/// the mapping.
proof fn lemma_insert(
    ids: Seq<TagIdView>,
    items: Seq<ValueView>,
    k: TagIdView,
    v: ValueView,
    p: int,
)
    requires
        ascending(ids),
        ids.len() == items.len(),
        insertion_point(ids, k, p),
    ensures
        ascending(ids.insert(p, k)),
        table_map(ids.insert(p, k), items.insert(p, v)) == table_map(ids, items).insert(k, v),
{
    let ids2 = ids.insert(p, k);
    let items2 = items.insert(p, v);
    assert forall|i: int, j: int| 0 <= i < j < ids2.len() implies (#[trigger] ids2[i]).lt(
        #[trigger] ids2[j],
    ) by {
        if j < p {
            assert(ids[i].lt(ids[j]));
        } else if j == p {
            assert(ids[i].lt(k));
        } else if i < p {
            assert(ids[i].lt(ids[j - 1]));
        } else if i == p {
            assert(k.lt(ids[j - 1]));
        } else {
            assert(ids[i - 1].lt(ids[j - 1]));
        }
    }
    lemma_insertion_point_absent(ids, k, p);
    let m2 = table_map(ids2, items2);
    let m = table_map(ids, items).insert(k, v);
    assert forall|x: TagIdView| m2.contains_key(x) <==> m.contains_key(x) by {
        if ids2.contains(x) {
            let j = choose|j: int| 0 <= j < ids2.len() && ids2[j] == x;
            if j < p {
                assert(ids[j] == x);
            } else if j > p {
                assert(ids[j - 1] == x);
            }
        }
        if ids.contains(x) {
            let j = choose|j: int| 0 <= j < ids.len() && ids[j] == x;
            if j < p {
                assert(ids2[j] == x);
            } else {
                assert(ids2[j + 1] == x);
            }
        }
        if x == k {
            assert(ids2[p] == x);
        }
    }
    assert forall|x: TagIdView| m2.contains_key(x) implies m2[x] == m[x] by {
        let j = choose|j: int| 0 <= j < ids2.len() && ids2[j] == x;
        lemma_index_of(ids2, j);
        if j < p {
            lemma_index_of(ids, j);
        } else if j > p {
            lemma_index_of(ids, j - 1);
        }
    }
    assert(m2 =~= m);
}

/// Replacing the item at a position replaces the value of that position's
/// identifier in the mapping.
proof fn lemma_update(ids: Seq<TagIdView>, items: Seq<ValueView>, p: int, v: ValueView)
    requires
        ascending(ids),
        ids.len() == items.len(),
        0 <= p < ids.len(),
    ensures
        table_map(ids, items.update(p, v)) == table_map(ids, items).insert(ids[p], v),
{
    let m2 = table_map(ids, items.update(p, v));
    let m = table_map(ids, items).insert(ids[p], v);
    lemma_index_of(ids, p);
    assert forall|x: TagIdView| m2.contains_key(x) implies m2[x] == m[x] by {
        let j = choose|j: int| 0 <= j < ids.len() && ids[j] == x;
        lemma_index_of(ids, j);
    }
    assert(m2 =~= m);
}

/// Removing a position keeps the order and removes that position's
/// identifier from the mapping.
proof fn lemma_remove(ids: Seq<TagIdView>, items: Seq<ValueView>, p: int)
    requires
        ascending(ids),
        ids.len() == items.len(),
        0 <= p < ids.len(),
    ensures
        ascending(ids.remove(p)),
        table_map(ids.remove(p), items.remove(p)) == table_map(ids, items).remove(ids[p]),
{
    let ids2 = ids.remove(p);
    let items2 = items.remove(p);
    assert forall|i: int, j: int| 0 <= i < j < ids2.len() implies (#[trigger] ids2[i]).lt(
        #[trigger] ids2[j],
    ) by {
        let i0 = if i < p { i } else { i + 1 };
        let j0 = if j < p { j } else { j + 1 };
        assert(ids[i0].lt(ids[j0]));
    }
    lemma_ascending_distinct(ids);
    let m2 = table_map(ids2, items2);
    let m = table_map(ids, items).remove(ids[p]);
    assert forall|x: TagIdView| m2.contains_key(x) <==> m.contains_key(x) by {
        if ids2.contains(x) {
            let j = choose|j: int| 0 <= j < ids2.len() && ids2[j] == x;
            let j0 = if j < p { j } else { j + 1 };
            assert(ids[j0] == x);
        }
        if ids.contains(x) && x != ids[p] {
            let j = choose|j: int| 0 <= j < ids.len() && ids[j] == x;
            let j2 = if j < p { j } else { j - 1 };
            assert(ids2[j2] == x);
        }
    }
    assert forall|x: TagIdView| m2.contains_key(x) implies m2[x] == m[x] by {
        let j = choose|j: int| 0 <= j < ids2.len() && ids2[j] == x;
        let j0 = if j < p { j } else { j + 1 };
        lemma_index_of(ids2, j);
        lemma_index_of(ids, j0);
    }
    assert(m2 =~= m);
}

/// The identifiers of `entries`, in order.
spec fn ids_of(entries: Seq<(TagId, Value)>) -> Seq<TagIdView> {
    Seq::new(entries.len(), |i: int| entries[i].0@)
}

/// The values of `entries`, in order.
spec fn items_of(entries: Seq<(TagId, Value)>) -> Seq<ValueView> {
    Seq::new(entries.len(), |i: int| entries[i].1@)
}

/// A mapping from identifiers to values that is walked in ascending order of
/// the identifiers.
#[derive(Debug)]
pub struct TagTable {
    entries: Vec<(TagId, Value)>,
}

impl View for TagTable {
    type V = Map<TagIdView, ValueView>;

    open spec fn view(&self) -> Map<TagIdView, ValueView> {
        table_map(self.ids(), self.items())
    }
}

impl TagTable {
    /// The identifiers held, in the order they are walked.
    pub closed spec fn ids(&self) -> Seq<TagIdView> {
        ids_of(self.entries@)
    }

    /// The values held, each at the position of its identifier.
    pub closed spec fn items(&self) -> Seq<ValueView> {
        items_of(self.entries@)
    }

    /// What every table obeys: its identifiers are in ascending order.
    #[verifier::type_invariant]
    pub open spec fn inv(self) -> bool {
        ascending(self.ids())
    }

    /// An empty table.
    pub fn new() -> (r: Self)
        ensures
            r@ == Map::<TagIdView, ValueView>::empty(),
            r.ids().len() == 0,
    {
        let r = TagTable { entries: Vec::new() };
        assert(r@ =~= Map::<TagIdView, ValueView>::empty());
        r
    }

    /// The number of entries. The identifiers of a table are in ascending
    /// order, whatever was inserted and removed before.
    pub fn len(&self) -> (n: usize)
        ensures
            n == self.ids().len(),
            n == self.items().len(),
            n == self@.len(),
            self@.dom().finite(),
            ascending(self.ids()),
    {
        proof {
            use_type_invariant(self);
            lemma_table_size(self.ids(), self.items());
        }
        self.entries.len()
    }

    /// The place of `id`: `Ok` with its position where it is held, `Err`
    /// with the position it would be inserted at where it is not.
    pub fn position(&self, id: &TagId) -> (r: Result<usize, usize>)
        ensures
            match r {
                Ok(i) => i < self.ids().len() && self.ids()[i as int] == id@,
                Err(i) => insertion_point(self.ids(), id@, i as int),
            },
            r is Ok <==> self@.contains_key(id@),
    {
        proof {
            use_type_invariant(self);
        }
        let mut lo: usize = 0;
        let mut hi: usize = self.entries.len();
        while lo < hi
            invariant
                lo <= hi <= self.entries.len(),
                ascending(self.ids()),
                self.ids().len() == self.entries.len(),
                forall|j: int| 0 <= j < lo ==> (#[trigger] self.ids()[j]).lt(id@),
                forall|j: int| hi <= j < self.ids().len() ==> id@.lt(#[trigger] self.ids()[j]),
            decreases hi - lo,
        {
            let mid: usize = lo + (hi - lo) / 2;
            match self.entries[mid].0.order(id) {
                Order::Less => {
                    assert forall|j: int| 0 <= j < mid + 1 implies (#[trigger] self.ids()[j]).lt(
                        id@,
                    ) by {
                        if j < mid {
                            assert(self.ids()[j].lt(self.ids()[mid as int]));
                            lemma_lt_transitive(self.ids()[j], self.ids()[mid as int], id@);
                        }
                    }
                    lo = mid + 1;
                },
                Order::Greater => {
                    assert forall|j: int| mid <= j < self.ids().len() implies id@.lt(
                        #[trigger] self.ids()[j],
                    ) by {
                        if mid < j {
                            assert(self.ids()[mid as int].lt(self.ids()[j]));
                            lemma_lt_transitive(id@, self.ids()[mid as int], self.ids()[j]);
                        }
                    }
                    hi = mid;
                },
                Order::Equal => {
                    assert(self.ids()[mid as int] == id@);
                    return Ok(mid);
                },
            }
        }
        proof {
            lemma_insertion_point_absent(self.ids(), id@, lo as int);
        }
        Err(lo)
    }

    /// Moves the entries out and leaves the table empty. An operation changes
    /// them outside the table and puts them back in order.
    fn take_entries(&mut self) -> (r: Vec<(TagId, Value)>)
        ensures
            r == old(self).entries,
            final(self).entries@.len() == 0,
    {
        let mut entries: Vec<(TagId, Value)> = Vec::new();
        core::mem::swap(&mut self.entries, &mut entries);
        entries
    }

    /// The value stored under `id`, if there is one.
    pub fn get(&self, id: &TagId) -> (r: Option<&Value>)
        ensures
            match r {
                Some(v) => self@.contains_key(id@) && v@ == self@[id@],
                None => !self@.contains_key(id@),
            },
    {
        match self.position(id) {
            Ok(i) => {
                proof {
                    use_type_invariant(self);
                    lemma_index_of(self.ids(), i as int);
                }
                Some(&self.entries[i].1)
            },
            Err(_) => None,
        }
    }

    /// The identifier at position `i` of the walk. It is above every
    /// identifier before it and below every one after it.
    pub fn id_at(&self, i: usize) -> (r: &TagId)
        requires
            i < self.ids().len(),
        ensures
            r@ == self.ids()[i as int],
            forall|j: int| 0 <= j < i ==> (#[trigger] self.ids()[j]).lt(r@),
            forall|j: int| i < j < self.ids().len() ==> r@.lt(#[trigger] self.ids()[j]),
    {
        proof {
            use_type_invariant(self);
        }
        &self.entries[i].0
    }

    /// The value at position `i` of the walk: the one stored under the
    /// identifier at that position.
    pub fn value_at(&self, i: usize) -> (r: &Value)
        requires
            i < self.ids().len(),
        ensures
            r@ == self.items()[i as int],
            self@.contains_key(self.ids()[i as int]),
            r@ == self@[self.ids()[i as int]],
    {
        proof {
            use_type_invariant(self);
            lemma_index_of(self.ids(), i as int);
        }
        &self.entries[i].1
    }

    /// Puts `value` in place of the value at position `i` and returns the
    /// value that was there.
    pub fn replace_at(&mut self, i: usize, value: Value) -> (r: Value)
        requires
            i < old(self).ids().len(),
        ensures
            r@ == old(self).items()[i as int],
            final(self).ids() == old(self).ids(),
            final(self).items() == old(self).items().update(i as int, value@),
            final(self)@ == old(self)@.insert(old(self).ids()[i as int], value@),
    {
        proof {
            use_type_invariant(&*self);
        }
        let ghost given = value@;
        let mut held = value;
        let mut entries = self.take_entries();
        core::mem::swap(&mut entries[i].1, &mut held);
        proof {
            assert(ids_of(entries@) =~= old(self).ids());
            assert(items_of(entries@) =~= old(self).items().update(i as int, given));
            lemma_update(old(self).ids(), old(self).items(), i as int, given);
        }
        self.entries = entries;
        held
    }

    /// Stores `value` under `id` and returns the value that was stored
    /// there before, if there was one.
    pub fn insert(&mut self, id: TagId, value: Value) -> (r: Option<Value>)
        ensures
            final(self)@ == old(self)@.insert(id@, value@),
            match r {
                Some(v) => old(self)@.contains_key(id@) && v@ == old(self)@[id@],
                None => !old(self)@.contains_key(id@),
            },
    {
        match self.position(&id) {
            Ok(i) => {
                proof {
                    use_type_invariant(&*self);
                    lemma_index_of(self.ids(), i as int);
                }
                Some(self.replace_at(i, value))
            },
            Err(i) => {
                proof {
                    use_type_invariant(&*self);
                    lemma_insert(self.ids(), self.items(), id@, value@, i as int);
                }
                let mut entries = self.take_entries();
                entries.insert(i, (id, value));
                proof {
                    assert(ids_of(entries@) =~= old(self).ids().insert(i as int, id@));
                    assert(items_of(entries@) =~= old(self).items().insert(i as int, value@));
                }
                self.entries = entries;
                None
            },
        }
    }

    /// Removes the entry of `id` and returns its value, if there was one.
    pub fn remove(&mut self, id: &TagId) -> (r: Option<Value>)
        ensures
            final(self)@ == old(self)@.remove(id@),
            match r {
                Some(v) => old(self)@.contains_key(id@) && v@ == old(self)@[id@],
                None => !old(self)@.contains_key(id@),
            },
    {
        match self.position(id) {
            Ok(i) => {
                proof {
                    use_type_invariant(&*self);
                    lemma_index_of(self.ids(), i as int);
                    lemma_remove(self.ids(), self.items(), i as int);
                }
                let mut entries = self.take_entries();
                let entry = entries.remove(i);
                proof {
                    assert(ids_of(entries@) =~= old(self).ids().remove(i as int));
                    assert(items_of(entries@) =~= old(self).items().remove(i as int));
                }
                self.entries = entries;
                Some(entry.1)
            },
            Err(_) => {
                assert(self@ =~= old(self)@.remove(id@));
                None
            },
        }
    }
}

impl Clone for TagTable {
    fn clone(&self) -> (r: Self)
        ensures
            r.ids() == self.ids(),
            r.items() == self.items(),
            r@ == self@,
    {
        proof {
            use_type_invariant(self);
        }
        let mut entries: Vec<(TagId, Value)> = Vec::new();
        let mut i: usize = 0;
        while i < self.entries.len()
            invariant
                i <= self.entries.len(),
                entries.len() == i,
                forall|j: int|
                    0 <= j < i ==> entries@[j].0@ == self.entries@[j].0@ && entries@[j].1@
                        == self.entries@[j].1@,
            decreases self.entries.len() - i,
        {
            entries.push((self.entries[i].0.clone(), self.entries[i].1.clone()));
            i = i + 1;
        }
        proof {
            assert(ids_of(entries@) =~= self.ids());
            assert(items_of(entries@) =~= self.items());
        }
        TagTable { entries }
    }
}

impl Default for TagTable {
    fn default() -> (r: Self)
        ensures
            r@ == Map::<TagIdView, ValueView>::empty(),
            r.ids().len() == 0,
    {
        TagTable::new()
    }
}

/// A table holds as many entries as it has identifiers.
proof fn lemma_table_size(ids: Seq<TagIdView>, items: Seq<ValueView>)
    requires
        ascending(ids),
    ensures
        table_map(ids, items).dom().finite(),
        table_map(ids, items).len() == ids.len(),
{
    lemma_ascending_distinct(ids);
    ids.unique_seq_to_set();
    assert(table_map(ids, items).dom() =~= ids.to_set());
}

} // verus!
