//! The structured values held by the store.

use vstd::prelude::*;

verus! {

/// A structured value: the placeholder, a scalar, or a composite of values.
///
/// The store looks only at whether a value is a [`Value::Sequence`]; every
/// other value is carried as it is.
#[derive(Debug, PartialEq, Eq)]
pub enum Value {
    /// The placeholder for an absent value.
    Unit,
    Bool(bool),
    U8(u8),
    U16(u16),
    U32(u32),
    U64(u64),
    I8(i8),
    I16(i16),
    I32(i32),
    I64(i64),
    /// A single-precision number, held as its IEEE 754 bit pattern.
    F32(u32),
    /// A double-precision number, held as its IEEE 754 bit pattern.
    F64(u64),
    Char(char),
    String(String),
    Bytes(Vec<u8>),
    Option(Option<Box<Value>>),
    Newtype(Box<Value>),
    /// An ordered sequence of values.
    Sequence(Vec<Value>),
    /// Key and value pairs, in the order they were given.
    Mapping(Vec<(Value, Value)>),
}

/// The mathematical value of a [`Value`].
pub ghost enum ValueView {
    Unit,
    Bool(bool),
    U8(u8),
    U16(u16),
    U32(u32),
    U64(u64),
    I8(i8),
    I16(i16),
    I32(i32),
    I64(i64),
    F32(u32),
    F64(u64),
    Char(char),
    String(Seq<char>),
    Bytes(Seq<u8>),
    Option(Option<Box<ValueView>>),
    Newtype(Box<ValueView>),
    Sequence(Seq<ValueView>),
    Mapping(Seq<(ValueView, ValueView)>),
}

/// The views of the values in `items`, in order.
pub open spec fn views_of(items: Seq<Value>) -> Seq<ValueView> {
    Seq::new(items.len(), |i: int| items[i]@)
}

/// The element of `s` at `i`, or the placeholder where `s` has none.
pub open spec fn element_or_unit(s: Seq<ValueView>, i: int) -> ValueView {
    if 0 <= i < s.len() {
        s[i]
    } else {
        ValueView::Unit
    }
}

/// `n` placeholders.
pub open spec fn units(n: nat) -> Seq<ValueView> {
    Seq::new(n, |i: int| ValueView::Unit)
}

impl Value {
    /// The mathematical value of `self`.
    pub open spec fn model(&self) -> ValueView
        decreases self,
    {
        match self {
            Value::Unit => ValueView::Unit,
            Value::Bool(v) => ValueView::Bool(*v),
            Value::U8(v) => ValueView::U8(*v),
            Value::U16(v) => ValueView::U16(*v),
            Value::U32(v) => ValueView::U32(*v),
            Value::U64(v) => ValueView::U64(*v),
            Value::I8(v) => ValueView::I8(*v),
            Value::I16(v) => ValueView::I16(*v),
            Value::I32(v) => ValueView::I32(*v),
            Value::I64(v) => ValueView::I64(*v),
            Value::F32(v) => ValueView::F32(*v),
            Value::F64(v) => ValueView::F64(*v),
            Value::Char(v) => ValueView::Char(*v),
            Value::String(v) => ValueView::String(v@),
            Value::Bytes(v) => ValueView::Bytes(v@),
            Value::Option(v) => ValueView::Option(
                match v {
                    Some(b) => Some(Box::new(b.model())),
                    None => None,
                },
            ),
            Value::Newtype(v) => ValueView::Newtype(Box::new(v.model())),
            Value::Sequence(v) => ValueView::Sequence(
                Seq::new(
                    v@.len(),
                    |i: int|
                        if 0 <= i < v@.len() {
                            v@[i].model()
                        } else {
                            ValueView::Unit
                        },
                ),
            ),
            Value::Mapping(v) => ValueView::Mapping(
                Seq::new(
                    v@.len(),
                    |i: int|
                        if 0 <= i < v@.len() {
                            (v@[i].0.model(), v@[i].1.model())
                        } else {
                            (ValueView::Unit, ValueView::Unit)
                        },
                ),
            ),
        }
    }

    /// A sequence of the given items.
    pub fn sequence(items: Vec<Value>) -> (r: Value)
        ensures
            r@ == ValueView::Sequence(views_of(items@)),
    {
        let r = Value::Sequence(items);
        proof {
            lemma_sequence_view(items);
        }
        r
    }
}

impl View for Value {
    type V = ValueView;

    open spec fn view(&self) -> ValueView {
        self.model()
    }
}

/// The view of a sequence value is the sequence of its items' views.
pub proof fn lemma_sequence_view(items: Vec<Value>)
    ensures
        Value::Sequence(items)@ == ValueView::Sequence(views_of(items@)),
{
    assert(Value::Sequence(items)@->Sequence_0 =~= views_of(items@));
}

impl Clone for Value {
    fn clone(&self) -> (res: Self)
        ensures
            res@ == self@,
        decreases self,
    {
        match self {
            Value::Unit => Value::Unit,
            Value::Bool(v) => Value::Bool(*v),
            Value::U8(v) => Value::U8(*v),
            Value::U16(v) => Value::U16(*v),
            Value::U32(v) => Value::U32(*v),
            Value::U64(v) => Value::U64(*v),
            Value::I8(v) => Value::I8(*v),
            Value::I16(v) => Value::I16(*v),
            Value::I32(v) => Value::I32(*v),
            Value::I64(v) => Value::I64(*v),
            Value::F32(v) => Value::F32(*v),
            Value::F64(v) => Value::F64(*v),
            Value::Char(v) => Value::Char(*v),
            Value::String(v) => Value::String(v.clone()),
            Value::Bytes(v) => {
                let c = v.clone();
                assert(c@ =~= v@);
                Value::Bytes(c)
            },
            Value::Option(v) => match v {
                Some(b) => Value::Option(Some(Box::new((&**b).clone()))),
                None => Value::Option(None),
            },
            Value::Newtype(v) => Value::Newtype(Box::new((&**v).clone())),
            Value::Sequence(v) => {
                let mut out: Vec<Value> = Vec::new();
                let mut i: usize = 0;
                while i < v.len()
                    invariant
                        *self is Sequence && self->Sequence_0 == *v,
                        i <= v.len(),
                        out.len() == i,
                        forall|j: int| 0 <= j < i ==> out@[j]@ == v@[j]@,
                    decreases v.len() - i,
                {
                    // Termination: the item is part of the items, which are part
                    // of `self`.
                    assert(decreases_to!(*self => self->Sequence_0));
                    assert(decreases_to!(*v => v[i as int]));
                    out.push(v[i].clone());
                    i = i + 1;
                }
                let r = Value::Sequence(out);
                assert(r@->Sequence_0 =~= self@->Sequence_0);
                r
            },
            Value::Mapping(v) => {
                let mut out: Vec<(Value, Value)> = Vec::new();
                let mut i: usize = 0;
                while i < v.len()
                    invariant
                        *self is Mapping && self->Mapping_0 == *v,
                        i <= v.len(),
                        out.len() == i,
                        forall|j: int|
                            0 <= j < i ==> out@[j].0@ == v@[j].0@ && out@[j].1@ == v@[j].1@,
                    decreases v.len() - i,
                {
                    // Termination: key and value are part of the pair, which is
                    // part of the pairs, which are part of `self`.
                    assert(decreases_to!(*self => self->Mapping_0));
                    assert(decreases_to!(*v => v[i as int]));
                    assert(decreases_to!(v[i as int] => v[i as int].0));
                    out.push((v[i].0.clone(), v[i].1.clone()));
                    i = i + 1;
                }
                let r = Value::Mapping(out);
                assert(r@->Mapping_0 =~= self@->Mapping_0);
                r
            },
        }
    }
}

} // verus!
