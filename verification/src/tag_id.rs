//! Tag identifiers and their total order.

use vstd::prelude::*;
use vstd::std_specs::convert::FromSpecImpl;
use vstd::string::*;
use vstd::utf8::*;

use crate::text::{decimal_text, push_decimal};

verus! {

/// The identity of an entry: a name or a number.
///
/// Names order before numbers; two names order as their UTF-8 bytes do, two
/// numbers by value.
#[derive(Debug, PartialEq, Eq, PartialOrd, Ord)]
pub enum TagId {
    Str(String),
    Num(u64),
}

/// The mathematical value of a [`TagId`].
pub ghost enum TagIdView {
    Str(Seq<char>),
    Num(u64),
}

/// The outcome of comparing two identifiers.
#[derive(Debug, Clone, Copy, PartialEq, Eq, Structural)]
pub enum Order {
    Less,
    Equal,
    Greater,
}

/// `a` and `b` agree on their first `k` bytes, and at position `k` either
/// `a` has ended while `b` goes on, or `a` holds the smaller byte.
pub open spec fn bytes_lt_at(a: Seq<u8>, b: Seq<u8>, k: int) -> bool {
    &&& 0 <= k <= a.len()
    &&& k < b.len()
    &&& forall|i: int| 0 <= i < k ==> a[i] == b[i]
    &&& k < a.len() ==> a[k] < b[k]
}

/// Lexicographic order on byte strings.
pub open spec fn bytes_lt(a: Seq<u8>, b: Seq<u8>) -> bool {
    exists|k: int| bytes_lt_at(a, b, k)
}

impl TagIdView {
    /// The strict order of identifiers.
    pub open spec fn lt(self, other: TagIdView) -> bool {
        match (self, other) {
            (TagIdView::Str(a), TagIdView::Str(b)) => bytes_lt(encode_utf8(a), encode_utf8(b)),
            (TagIdView::Str(_), TagIdView::Num(_)) => true,
            (TagIdView::Num(_), TagIdView::Str(_)) => false,
            (TagIdView::Num(a), TagIdView::Num(b)) => a < b,
        }
    }

    /// The identifier as text: a name as it is, a number in decimal.
    pub open spec fn text(self) -> Seq<char> {
        match self {
            TagIdView::Str(s) => s,
            TagIdView::Num(n) => decimal_text(n as nat),
        }
    }
}

/// No byte string is below itself.
pub proof fn lemma_bytes_lt_irreflexive(a: Seq<u8>)
    ensures
        !bytes_lt(a, a),
{
}

/// The byte order is transitive.
pub proof fn lemma_bytes_lt_transitive(a: Seq<u8>, b: Seq<u8>, c: Seq<u8>)
    requires
        bytes_lt(a, b),
        bytes_lt(b, c),
    ensures
        bytes_lt(a, c),
{
    let k1 = choose|k: int| bytes_lt_at(a, b, k);
    let k2 = choose|k: int| bytes_lt_at(b, c, k);
    let k = if k1 <= k2 { k1 } else { k2 };
    assert(bytes_lt_at(a, c, k));
}

/// No identifier is below itself.
pub proof fn lemma_lt_irreflexive(a: TagIdView)
    ensures
        !a.lt(a),
{
    if let TagIdView::Str(s) = a {
        lemma_bytes_lt_irreflexive(encode_utf8(s));
    }
}

/// The order of identifiers is transitive.
pub proof fn lemma_lt_transitive(a: TagIdView, b: TagIdView, c: TagIdView)
    requires
        a.lt(b),
        b.lt(c),
    ensures
        a.lt(c),
{
    if let (TagIdView::Str(x), TagIdView::Str(y), TagIdView::Str(z)) = (a, b, c) {
        lemma_bytes_lt_transitive(encode_utf8(x), encode_utf8(y), encode_utf8(z));
    }
}

/// Any two identifiers are equal or ordered one way or the other.
pub proof fn lemma_lt_total(a: TagIdView, b: TagIdView)
    ensures
        a == b || a.lt(b) || b.lt(a),
{
    if let (TagIdView::Str(x), TagIdView::Str(y)) = (a, b) {
        let p = encode_utf8(x);
        let q = encode_utf8(y);
        lemma_bytes_total(p, q, 0);
        if p == q {
            encode_utf8_decode_utf8(x);
            encode_utf8_decode_utf8(y);
        }
    }
}

proof fn lemma_bytes_total(a: Seq<u8>, b: Seq<u8>, k: int)
    requires
        0 <= k <= a.len(),
        k <= b.len(),
        forall|i: int| 0 <= i < k ==> a[i] == b[i],
    ensures
        a == b || bytes_lt(a, b) || bytes_lt(b, a),
    decreases a.len() - k,
{
    if k == a.len() {
        if k == b.len() {
            assert(a =~= b);
        } else {
            assert(bytes_lt_at(a, b, k));
        }
    } else if k == b.len() {
        assert(bytes_lt_at(b, a, k));
    } else if a[k] < b[k] {
        assert(bytes_lt_at(a, b, k));
    } else if b[k] < a[k] {
        assert(bytes_lt_at(b, a, k));
    } else {
        lemma_bytes_total(a, b, k + 1);
    }
}

/// Compares two byte strings lexicographically.
fn order_bytes(a: &[u8], b: &[u8]) -> (o: Order)
    ensures
        o == Order::Less <==> bytes_lt(a@, b@),
        o == Order::Equal <==> a@ == b@,
        o == Order::Greater <==> bytes_lt(b@, a@),
{
    let mut i: usize = 0;
    while i < a.len() && i < b.len()
        invariant
            i <= a.len(),
            i <= b.len(),
            forall|j: int| 0 <= j < i ==> a@[j] == b@[j],
        decreases a.len() - i,
    {
        if a[i] < b[i] {
            proof {
                assert(bytes_lt_at(a@, b@, i as int));
                lemma_bytes_asymmetric(a@, b@);
            }
            return Order::Less;
        }
        if a[i] > b[i] {
            proof {
                assert(bytes_lt_at(b@, a@, i as int));
                lemma_bytes_asymmetric(b@, a@);
            }
            return Order::Greater;
        }
        i = i + 1;
    }
    if i < b.len() {
        proof {
            assert(bytes_lt_at(a@, b@, i as int));
            lemma_bytes_asymmetric(a@, b@);
        }
        Order::Less
    } else if i < a.len() {
        proof {
            assert(bytes_lt_at(b@, a@, i as int));
            lemma_bytes_asymmetric(b@, a@);
        }
        Order::Greater
    } else {
        proof {
            assert(a@ =~= b@);
            lemma_bytes_lt_irreflexive(a@);
        }
        Order::Equal
    }
}

/// Of two byte strings, at most one is below the other, and then they differ.
proof fn lemma_bytes_asymmetric(a: Seq<u8>, b: Seq<u8>)
    requires
        bytes_lt(a, b),
    ensures
        !bytes_lt(b, a),
        a != b,
{
    if bytes_lt(b, a) {
        lemma_bytes_lt_transitive(a, b, a);
    }
    lemma_bytes_lt_irreflexive(a);
}

impl View for TagId {
    type V = TagIdView;

    open spec fn view(&self) -> TagIdView {
        match self {
            TagId::Str(s) => TagIdView::Str(s@),
            TagId::Num(n) => TagIdView::Num(*n),
        }
    }
}

impl Clone for TagId {
    fn clone(&self) -> (res: Self)
        ensures
            res == *self,
    {
        match self {
            TagId::Str(s) => TagId::Str(s.clone()),
            TagId::Num(n) => TagId::Num(*n),
        }
    }
}

impl TagId {
    /// The name, if this identifier is one.
    pub fn as_str(&self) -> (r: Option<&str>)
        ensures
            match r {
                Some(s) => self@ == TagIdView::Str(s@),
                None => self is Num,
            },
    {
        match self {
            TagId::Str(v) => Some(v.as_str()),
            TagId::Num(_) => None,
        }
    }

    /// The identifier as text: a name as it is, a number in decimal.
    pub fn to_string(&self) -> (r: String)
        ensures
            r@ == self@.text(),
    {
        match self {
            TagId::Str(v) => v.clone(),
            TagId::Num(v) => {
                let mut out = String::new();
                push_decimal(&mut out, *v);
                out
            },
        }
    }

    /// Where `self` stands relative to `other` in the order of identifiers.
    pub fn order(&self, other: &TagId) -> (o: Order)
        ensures
            o == Order::Less <==> self@.lt(other@),
            o == Order::Equal <==> self@ == other@,
            o == Order::Greater <==> other@.lt(self@),
    {
        match (self, other) {
            (TagId::Str(a), TagId::Str(b)) => {
                let o = order_bytes(a.as_str().as_bytes(), b.as_str().as_bytes());
                proof {
                    encode_utf8_decode_utf8(a@);
                    encode_utf8_decode_utf8(b@);
                }
                o
            },
            (TagId::Str(_), TagId::Num(_)) => Order::Less,
            (TagId::Num(_), TagId::Str(_)) => Order::Greater,
            (TagId::Num(a), TagId::Num(b)) => {
                if *a < *b {
                    Order::Less
                } else if *a > *b {
                    Order::Greater
                } else {
                    Order::Equal
                }
            },
        }
    }
}

impl From<String> for TagId {
    fn from(s: String) -> (r: Self) {
        TagId::Str(s)
    }
}

impl FromSpecImpl<String> for TagId {
    open spec fn obeys_from_spec() -> bool {
        true
    }

    open spec fn from_spec(s: String) -> Self {
        TagId::Str(s)
    }
}

impl From<u64> for TagId {
    fn from(u: u64) -> (r: Self) {
        TagId::Num(u)
    }
}

impl FromSpecImpl<u64> for TagId {
    open spec fn obeys_from_spec() -> bool {
        true
    }

    open spec fn from_spec(u: u64) -> Self {
        TagId::Num(u)
    }
}

impl<'a> From<&'a str> for TagId {
    fn from(s: &'a str) -> (r: Self)
        ensures
            r@ == TagIdView::Str(s@),
    {
        TagId::Str(s.to_owned())
    }
}

impl<'a> FromSpecImpl<&'a str> for TagId {
    open spec fn obeys_from_spec() -> bool {
        false
    }

    open spec fn from_spec(s: &'a str) -> Self {
        arbitrary()
    }
}

} // verus!
