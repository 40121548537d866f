//! The order of values. Every value that can be read under a schema type has
//! a key; two values of one type compare as their keys do.

use vstd::prelude::*;

verus! {

/// The result of a comparison.
#[derive(Debug, Copy, Clone, PartialEq, Eq, Structural)]
pub enum Comparison {
    Less,
    Equal,
    Greater,
}

/// What a value is ordered by: a number, a byte string, or a row of keys.
pub enum Key {
    Int(int),
    Bytes(Seq<u8>),
    List(Seq<Key>),
}

impl Comparison {
    /// The comparison with the sides swapped.
    pub open spec fn spec_reverse(self) -> Comparison {
        match self {
            Comparison::Less => Comparison::Greater,
            Comparison::Equal => Comparison::Equal,
            Comparison::Greater => Comparison::Less,
        }
    }

    /// The first comparison, or the second where the first is `Equal`.
    pub open spec fn spec_then(self, other: Comparison) -> Comparison {
        if self == Comparison::Equal {
            other
        } else {
            self
        }
    }

    /// The comparison with the sides swapped.
    pub fn reverse(self) -> (r: Comparison)
        ensures
            r == self.spec_reverse(),
    {
        match self {
            Comparison::Less => Comparison::Greater,
            Comparison::Equal => Comparison::Equal,
            Comparison::Greater => Comparison::Less,
        }
    }

    /// The first comparison, or the second where the first is `Equal`.
    pub fn then(self, other: Comparison) -> (r: Comparison)
        ensures
            r == self.spec_then(other),
    {
        match self {
            Comparison::Equal => other,
            _ => self,
        }
    }
}

/// The order of two numbers.
pub open spec fn int_order(a: int, b: int) -> Comparison {
    if a < b {
        Comparison::Less
    } else if a == b {
        Comparison::Equal
    } else {
        Comparison::Greater
    }
}

/// The lexicographic order of two byte strings, from position `i` on.
pub open spec fn bytes_order_from(a: Seq<u8>, b: Seq<u8>, i: int) -> Comparison
    decreases a.len() - i,
{
    if i < 0 || i >= a.len() || i >= b.len() {
        int_order(a.len() as int, b.len() as int)
    } else if a[i] != b[i] {
        int_order(a[i] as int, b[i] as int)
    } else {
        bytes_order_from(a, b, i + 1)
    }
}

/// The lexicographic order of two byte strings: the first byte that differs
/// decides; a string is less than each longer one that starts with it.
pub open spec fn bytes_order(a: Seq<u8>, b: Seq<u8>) -> Comparison {
    bytes_order_from(a, b, 0)
}

/// The rank of the shape of a key: numbers before byte strings before rows.
pub open spec fn key_rank(k: Key) -> int {
    match k {
        Key::Int(_) => 0,
        Key::Bytes(_) => 1,
        Key::List(_) => 2,
    }
}

/// The order of two keys. Numbers by size, byte strings and rows
/// lexicographically; keys of different shape by their shape.
pub open spec fn key_order(a: Key, b: Key) -> Comparison
    decreases a, 0nat,
{
    match (a, b) {
        (Key::Int(x), Key::Int(y)) => int_order(x, y),
        (Key::Bytes(x), Key::Bytes(y)) => bytes_order(x, y),
        (Key::List(x), Key::List(y)) => keys_order_from(x, y, 0),
        _ => int_order(key_rank(a), key_rank(b)),
    }
}

/// The lexicographic order of two rows of keys, from position `i` on.
pub open spec fn keys_order_from(a: Seq<Key>, b: Seq<Key>, i: int) -> Comparison
    decreases a, a.len() - i,
{
    if i < 0 || i >= a.len() || i >= b.len() {
        int_order(a.len() as int, b.len() as int)
    } else {
        let first = key_order(a[i], b[i]);
        if first != Comparison::Equal {
            first
        } else {
            keys_order_from(a, b, i + 1)
        }
    }
}

/// Swapping two byte strings reverses their order.
pub proof fn lemma_bytes_order_reverse(a: Seq<u8>, b: Seq<u8>, i: int)
    ensures
        bytes_order_from(b, a, i) == bytes_order_from(a, b, i).spec_reverse(),
    decreases a.len() - i,
{
    if !(i < 0 || i >= a.len() || i >= b.len()) && a[i] == b[i] {
        lemma_bytes_order_reverse(a, b, i + 1);
    }
}

/// The order of byte strings is transitive, through `Less` and `Equal`.
pub proof fn lemma_bytes_order_transitive(a: Seq<u8>, b: Seq<u8>, c: Seq<u8>, i: int)
    requires
        0 <= i,
        bytes_order_from(a, b, i) != Comparison::Greater,
        bytes_order_from(b, c, i) != Comparison::Greater,
    ensures
        bytes_order_from(a, c, i) != Comparison::Greater,
        bytes_order_from(a, c, i) == Comparison::Equal ==> bytes_order_from(a, b, i)
            == Comparison::Equal && bytes_order_from(b, c, i) == Comparison::Equal,
    decreases a.len() - i,
{
    if i < a.len() && i < b.len() && i < c.len() && a[i] == b[i] && b[i] == c[i] {
        lemma_bytes_order_transitive(a, b, c, i + 1);
    }
}

/// Swapping two keys reverses their order: of any two keys exactly one of
/// less, equal and greater holds, and it is the other way round for the
/// swapped pair.
pub proof fn lemma_key_order_reverse(a: Key, b: Key)
    ensures
        key_order(b, a) == key_order(a, b).spec_reverse(),
    decreases a, 0nat,
{
    match (a, b) {
        (Key::Bytes(x), Key::Bytes(y)) => {
            lemma_bytes_order_reverse(x, y, 0);
        },
        (Key::List(x), Key::List(y)) => {
            lemma_keys_order_reverse(x, y, 0);
        },
        _ => {},
    }
}

/// Swapping two rows of keys reverses their order.
pub proof fn lemma_keys_order_reverse(a: Seq<Key>, b: Seq<Key>, i: int)
    ensures
        keys_order_from(b, a, i) == keys_order_from(a, b, i).spec_reverse(),
    decreases a, a.len() - i,
{
    if !(i < 0 || i >= a.len() || i >= b.len()) {
        lemma_key_order_reverse(a[i], b[i]);
        if key_order(a[i], b[i]) == Comparison::Equal {
            lemma_keys_order_reverse(a, b, i + 1);
        }
    }
}

/// Every key is equal to itself.
pub proof fn lemma_key_order_reflexive(a: Key)
    ensures
        key_order(a, a) == Comparison::Equal,
    decreases a, 0nat,
{
    match a {
        Key::Bytes(x) => {
            lemma_bytes_order_reflexive(x, 0);
        },
        Key::List(x) => {
            lemma_keys_order_reflexive(x, 0);
        },
        _ => {},
    }
}

/// Every byte string is equal to itself.
pub proof fn lemma_bytes_order_reflexive(a: Seq<u8>, i: int)
    ensures
        bytes_order_from(a, a, i) == Comparison::Equal,
    decreases a.len() - i,
{
    if !(i < 0 || i >= a.len()) {
        lemma_bytes_order_reflexive(a, i + 1);
    }
}

/// Every row of keys is equal to itself.
pub proof fn lemma_keys_order_reflexive(a: Seq<Key>, i: int)
    ensures
        keys_order_from(a, a, i) == Comparison::Equal,
    decreases a, a.len() - i,
{
    if !(i < 0 || i >= a.len()) {
        lemma_key_order_reflexive(a[i]);
        lemma_keys_order_reflexive(a, i + 1);
    }
}

/// The order of keys is transitive: where `a` is at most `b` and `b` at
/// most `c`, `a` is at most `c`; and `a` is equal to `c` only where all
/// three are equal.
pub proof fn lemma_key_order_transitive(a: Key, b: Key, c: Key)
    requires
        key_order(a, b) != Comparison::Greater,
        key_order(b, c) != Comparison::Greater,
    ensures
        key_order(a, c) != Comparison::Greater,
        key_order(a, c) == Comparison::Equal ==> key_order(a, b) == Comparison::Equal
            && key_order(b, c) == Comparison::Equal,
    decreases a, 0nat,
{
    match (a, b, c) {
        (Key::Bytes(x), Key::Bytes(y), Key::Bytes(z)) => {
            lemma_bytes_order_transitive(x, y, z, 0);
        },
        (Key::List(x), Key::List(y), Key::List(z)) => {
            lemma_keys_order_transitive(x, y, z, 0);
        },
        _ => {},
    }
}

/// The order of rows of keys is transitive.
pub proof fn lemma_keys_order_transitive(a: Seq<Key>, b: Seq<Key>, c: Seq<Key>, i: int)
    requires
        0 <= i,
        keys_order_from(a, b, i) != Comparison::Greater,
        keys_order_from(b, c, i) != Comparison::Greater,
    ensures
        keys_order_from(a, c, i) != Comparison::Greater,
        keys_order_from(a, c, i) == Comparison::Equal ==> keys_order_from(a, b, i)
            == Comparison::Equal && keys_order_from(b, c, i) == Comparison::Equal,
    decreases a, a.len() - i,
{
    if i < a.len() && i < b.len() && i < c.len() {
        lemma_key_order_transitive(a[i], b[i], c[i]);
        lemma_key_order_reverse(a[i], b[i]);
        lemma_key_order_reverse(b[i], c[i]);
        lemma_key_order_reverse(a[i], c[i]);
        if key_order(a[i], b[i]) == Comparison::Equal && key_order(b[i], c[i])
            == Comparison::Equal {
            lemma_keys_order_transitive(a, b, c, i + 1);
        }
    } else if i < a.len() && i < b.len() {
        // `c` ends here: `b` is longer than `c` and yet at most `c`, which cannot be
    } else if i < a.len() && i < c.len() {
        // `b` ends here: `a` is longer than `b` and yet at most `b`, which cannot be
    }
}

/// Compares two byte strings lexicographically.
pub fn compare_bytes(a: &[u8], b: &[u8]) -> (r: Comparison)
    ensures
        r == bytes_order(a@, b@),
{
    let mut index: usize = 0;
    while index < a.len() && index < b.len()
        invariant
            bytes_order(a@, b@) == bytes_order_from(a@, b@, index as int),
        decreases a.len() - index,
    {
        if a[index] < b[index] {
            return Comparison::Less;
        } else if a[index] > b[index] {
            return Comparison::Greater;
        }
        index += 1;
    }
    if a.len() < b.len() {
        Comparison::Less
    } else if a.len() == b.len() {
        Comparison::Equal
    } else {
        Comparison::Greater
    }
}

/// Compares two numbers.
pub fn compare_u128(a: u128, b: u128) -> (r: Comparison)
    ensures
        r == int_order(a as int, b as int),
{
    if a < b {
        Comparison::Less
    } else if a == b {
        Comparison::Equal
    } else {
        Comparison::Greater
    }
}

/// Compares two numbers.
pub fn compare_i128(a: i128, b: i128) -> (r: Comparison)
    ensures
        r == int_order(a as int, b as int),
{
    if a < b {
        Comparison::Less
    } else if a == b {
        Comparison::Equal
    } else {
        Comparison::Greater
    }
}

/// The key of a value, as it was read: what the value is ordered by.
#[derive(Debug)]
pub enum KeyValue<'a> {
    Unsigned(u128),
    Signed(i128),
    Bytes(&'a [u8]),
    List(Vec<KeyValue<'a>>),
}

impl<'a> KeyValue<'a> {
    /// The key that this value stands for.
    pub open spec fn model(&self) -> Key
        decreases self,
    {
        match self {
            KeyValue::Unsigned(v) => Key::Int(*v as int),
            KeyValue::Signed(v) => Key::Int(*v as int),
            KeyValue::Bytes(b) => Key::Bytes(b@),
            KeyValue::List(l) => Key::List(
                Seq::new(
                    l@.len(),
                    |i: int|
                        if 0 <= i < l@.len() {
                            l@[i].model()
                        } else {
                            Key::Int(0)
                        },
                ),
            ),
        }
    }

    /// The key of a boolean.
    pub fn of_bool(b: bool) -> (k: KeyValue<'a>)
        ensures
            k.model() == Key::Int(
                if b {
                    1
                } else {
                    0
                },
            ),
    {
        if b {
            KeyValue::Unsigned(1)
        } else {
            KeyValue::Unsigned(0)
        }
    }
}

impl<'a> View for KeyValue<'a> {
    type V = Key;

    open spec fn view(&self) -> Key {
        self.model()
    }
}

/// The keys that a row of key values stands for.
pub open spec fn key_models(s: Seq<KeyValue>) -> Seq<Key> {
    Seq::new(s.len(), |i: int| s[i].model())
}

/// What a list of key values stands for, over what its items stand for.
pub proof fn lemma_key_list_model(items: Vec<KeyValue>)
    ensures
        KeyValue::List(items).model() == Key::List(key_models(items@)),
{
    let a = KeyValue::List(items).model();
    assert(a->List_0 =~= key_models(items@));
}

/// What a row with one more key value at its end stands for.
pub proof fn lemma_key_models_push(s: Seq<KeyValue>, k: KeyValue)
    ensures
        key_models(s.push(k)) == key_models(s).push(k.model()),
{
    assert(key_models(s.push(k)) =~= key_models(s).push(k.model()));
}

/// Compares two keys.
pub fn compare_keys(a: &KeyValue, b: &KeyValue) -> (r: Comparison)
    ensures
        r == key_order(a@, b@),
    decreases a,
{
    match (a, b) {
        (KeyValue::Unsigned(x), KeyValue::Unsigned(y)) => compare_u128(*x, *y),
        (KeyValue::Signed(x), KeyValue::Signed(y)) => compare_i128(*x, *y),
        (KeyValue::Unsigned(x), KeyValue::Signed(y)) => {
            if *y < 0 {
                Comparison::Greater
            } else {
                compare_u128(*x, *y as u128)
            }
        },
        (KeyValue::Signed(x), KeyValue::Unsigned(y)) => {
            if *x < 0 {
                Comparison::Less
            } else {
                compare_u128(*x as u128, *y)
            }
        },
        (KeyValue::Bytes(x), KeyValue::Bytes(y)) => compare_bytes(x, y),
        (KeyValue::List(x), KeyValue::List(y)) => {
            proof {
                lemma_key_list_model(*x);
                lemma_key_list_model(*y);
            }
            let mut index: usize = 0;
            while index < x.len() && index < y.len()
                invariant
                    decreases_to!(a => x),
                    a@ == Key::List(key_models(x@)),
                    b@ == Key::List(key_models(y@)),
                    keys_order_from(key_models(x@), key_models(y@), 0) == keys_order_from(
                        key_models(x@),
                        key_models(y@),
                        index as int,
                    ),
                decreases x.len() - index,
            {
                proof {
                    assert(decreases_to!(x => x[index as int]));
                }
                let first = compare_keys(&x[index], &y[index]);
                match first {
                    Comparison::Equal => {},
                    _ => {
                        return first;
                    },
                }
                index += 1;
            }
            if x.len() < y.len() {
                Comparison::Less
            } else if x.len() == y.len() {
                Comparison::Equal
            } else {
                Comparison::Greater
            }
        },
        (KeyValue::Unsigned(_), _) => Comparison::Less,
        (KeyValue::Signed(_), _) => Comparison::Less,
        (KeyValue::Bytes(_), KeyValue::List(_)) => Comparison::Less,
        (KeyValue::Bytes(_), _) => Comparison::Greater,
        (KeyValue::List(_), _) => Comparison::Greater,
    }
}

} // verus!
