//! Keys, their byte order, and ranges of keys.

use vstd::prelude::*;

verus! {

/// Byte-wise lexicographic order: whether `a` sorts strictly before `b`.
pub open spec fn key_lt(a: Seq<u8>, b: Seq<u8>) -> bool
    decreases a.len(),
{
    if b.len() == 0 {
        false
    } else if a.len() == 0 {
        true
    } else if a[0] != b[0] {
        a[0] < b[0]
    } else {
        key_lt(a.skip(1), b.skip(1))
    }
}

/// Whether `k` lies in the half-open range `[start, end)`.
/// A missing bound is infinite.
pub open spec fn in_range(k: Seq<u8>, start: Option<Seq<u8>>, end: Option<Seq<u8>>) -> bool {
    &&& start matches Some(s) ==> !key_lt(k, s)
    &&& end matches Some(e) ==> key_lt(k, e)
}

/// The bound that a stored key stands for: the empty key means unbounded.
pub open spec fn stored_bound(key: Seq<u8>) -> Option<Seq<u8>> {
    if key.len() == 0 {
        None
    } else {
        Some(key)
    }
}

/// The lower of two end bounds, where a missing one is plus infinity.
pub open spec fn min_end(a: Option<Seq<u8>>, b: Option<Seq<u8>>) -> Option<Seq<u8>> {
    match (a, b) {
        (None, _) => b,
        (_, None) => a,
        (Some(x), Some(y)) => if key_lt(x, y) {
            a
        } else {
            b
        },
    }
}

/// The higher of two start bounds, where a missing one is minus infinity.
pub open spec fn max_start(a: Option<Seq<u8>>, b: Option<Seq<u8>>) -> Option<Seq<u8>> {
    match (a, b) {
        (None, _) => b,
        (_, None) => a,
        (Some(x), Some(y)) => if key_lt(x, y) {
            b
        } else {
            a
        },
    }
}

/// No key sorts before itself.
pub proof fn key_lt_irreflexive(a: Seq<u8>)
    ensures
        !key_lt(a, a),
    decreases a.len(),
{
    if a.len() > 0 {
        key_lt_irreflexive(a.skip(1));
    }
}

/// The key order is transitive.
pub proof fn key_lt_transitive(a: Seq<u8>, b: Seq<u8>, c: Seq<u8>)
    requires
        key_lt(a, b),
        key_lt(b, c),
    ensures
        key_lt(a, c),
    decreases a.len(),
{
    if a.len() > 0 && a[0] == b[0] && b[0] == c[0] {
        key_lt_transitive(a.skip(1), b.skip(1), c.skip(1));
    }
}

/// Of two different keys one sorts before the other.
pub proof fn key_lt_total(a: Seq<u8>, b: Seq<u8>)
    ensures
        a == b || key_lt(a, b) || key_lt(b, a),
    decreases a.len(),
{
    if a.len() > 0 && b.len() > 0 && a[0] == b[0] {
        key_lt_total(a.skip(1), b.skip(1));
        if a.skip(1) == b.skip(1) {
            assert(a =~= seq![a[0]] + a.skip(1));
            assert(b =~= seq![b[0]] + b.skip(1));
        }
    } else if a.len() == 0 && b.len() == 0 {
        assert(a =~= b);
    }
}

/// No two keys sort before each other.
pub proof fn key_lt_asymmetric(a: Seq<u8>, b: Seq<u8>)
    requires
        key_lt(a, b),
    ensures
        !key_lt(b, a),
{
    if key_lt(b, a) {
        key_lt_transitive(a, b, a);
        key_lt_irreflexive(a);
    }
}

/// What is at most `b` is before everything that `b` is before.
pub proof fn key_le_lt_transitive(a: Seq<u8>, b: Seq<u8>, c: Seq<u8>)
    requires
        !key_lt(b, a),
        key_lt(b, c),
    ensures
        key_lt(a, c),
{
    key_lt_total(a, b);
    if key_lt(a, b) {
        key_lt_transitive(a, b, c);
    }
}

/// What is before `b` is before everything that is at least `b`.
pub proof fn key_lt_le_transitive(a: Seq<u8>, b: Seq<u8>, c: Seq<u8>)
    requires
        key_lt(a, b),
        !key_lt(c, b),
    ensures
        key_lt(a, c),
{
    key_lt_total(b, c);
    if key_lt(b, c) {
        key_lt_transitive(a, b, c);
    }
}

/// Compares two byte strings in key order.
pub fn key_less(a: &[u8], b: &[u8]) -> (less: bool)
    ensures
        less == key_lt(a@, b@),
{
    let mut i: usize = 0;
    assert(a@.skip(0) =~= a@);
    assert(b@.skip(0) =~= b@);
    while i < a.len() && i < b.len()
        invariant
            i <= a.len(),
            i <= b.len(),
            key_lt(a@, b@) == key_lt(a@.skip(i as int), b@.skip(i as int)),
        decreases a.len() - i,
    {
        if a[i] != b[i] {
            return a[i] < b[i];
        }
        assert(a@.skip(i as int).skip(1) =~= a@.skip(i + 1));
        assert(b@.skip(i as int).skip(1) =~= b@.skip(i + 1));
        i = i + 1;
    }
    i < b.len()
}

/// Whether two byte strings are the same.
pub fn bytes_equal(a: &[u8], b: &[u8]) -> (equal: bool)
    ensures
        equal == (a@ == b@),
{
    if a.len() != b.len() {
        return false;
    }
    let mut i: usize = 0;
    while i < a.len()
        invariant
            i <= a.len(),
            a.len() == b.len(),
            forall|j: int| 0 <= j < i ==> a@[j] == b@[j],
        decreases a.len() - i,
    {
        if a[i] != b[i] {
            return false;
        }
        i = i + 1;
    }
    assert(a@ =~= b@);
    true
}

/// Copies a byte string.
pub fn copy_bytes(bytes: &[u8]) -> (copy: Vec<u8>)
    ensures
        copy@ == bytes@,
{
    let mut copy: Vec<u8> = Vec::with_capacity(bytes.len());
    let mut i: usize = 0;
    while i < bytes.len()
        invariant
            i <= bytes.len(),
            copy@ == bytes@.take(i as int),
        decreases bytes.len() - i,
    {
        copy.push(bytes[i]);
        i = i + 1;
        assert(bytes@.take(i as int) =~= bytes@.take(i - 1).push(bytes@[i - 1]));
    }
    assert(bytes@.take(bytes@.len() as int) =~= bytes@);
    copy
}

/// A key in the form the engine stores and orders it by.
#[derive(Debug, PartialEq, Eq)]
pub struct Key {
    encoded: Vec<u8>,
}

impl View for Key {
    type V = Seq<u8>;

    closed spec fn view(&self) -> Seq<u8> {
        self.encoded@
    }
}

impl Key {
    /// Wraps bytes that are in the stored form already.
    pub fn from_encoded(encoded: Vec<u8>) -> (key: Key)
        ensures
            key@ == encoded@,
    {
        Key { encoded }
    }

    /// Copies bytes that are in the stored form already.
    pub fn from_encoded_slice(encoded: &[u8]) -> (key: Key)
        ensures
            key@ == encoded@,
    {
        Key { encoded: copy_bytes(encoded) }
    }

    /// The stored form.
    pub fn as_encoded(&self) -> (encoded: &Vec<u8>)
        ensures
            encoded@ == self@,
    {
        &self.encoded
    }

    /// Takes the stored form out.
    pub fn into_encoded(self) -> (encoded: Vec<u8>)
        ensures
            encoded@ == self@,
    {
        self.encoded
    }
}

impl Clone for Key {
    fn clone(&self) -> (copy: Key)
        ensures
            copy@ == self@,
    {
        Key { encoded: copy_bytes(self.encoded.as_slice()) }
    }
}

/// The model of an optional key.
pub open spec fn bound_view(bound: Option<Key>) -> Option<Seq<u8>> {
    match bound {
        Some(key) => Some(key@),
        None => None,
    }
}

/// Copies an optional key.
pub fn clone_bound(bound: &Option<Key>) -> (copy: Option<Key>)
    ensures
        bound_view(copy) == bound_view(*bound),
{
    match bound {
        Some(key) => Some(key.clone()),
        None => None,
    }
}

/// Whether two optional keys are the same.
pub fn bounds_equal(a: &Option<Key>, b: &Option<Key>) -> (equal: bool)
    ensures
        equal == (bound_view(*a) == bound_view(*b)),
{
    match (a, b) {
        (Some(x), Some(y)) => bytes_equal(x.encoded.as_slice(), y.encoded.as_slice()),
        (None, None) => true,
        _ => false,
    }
}

/// Whether two keys agree up to position `i`, where either `a` ends and `b` goes on, or
/// both go on and `a` has the smaller byte.
pub open spec fn differ_first_at(a: Seq<u8>, b: Seq<u8>, i: int) -> bool {
    &&& 0 <= i <= a.len()
    &&& i < b.len()
    &&& forall|j: int| 0 <= j < i ==> #[trigger] a[j] == b[j]
    &&& i < a.len() ==> a[i] < b[i]
}

/// The key order is the order of a dictionary: the first byte in which two keys differ
/// decides, and a key comes before its continuations.
pub proof fn key_order_is_lexicographic(a: Seq<u8>, b: Seq<u8>)
    ensures
        key_lt(a, b) <==> exists|i: int| differ_first_at(a, b, i),
    decreases a.len(),
{
    if b.len() > 0 && a.len() == 0 {
        assert(differ_first_at(a, b, 0));
    } else if b.len() > 0 && a[0] != b[0] {
        if a[0] < b[0] {
            assert(differ_first_at(a, b, 0));
        }
        assert forall|i: int| differ_first_at(a, b, i) implies i == 0 by {}
    } else if b.len() > 0 {
        let x = a.skip(1);
        let y = b.skip(1);
        key_order_is_lexicographic(x, y);
        if exists|i: int| differ_first_at(x, y, i) {
            let i = choose|i: int| differ_first_at(x, y, i);
            assert forall|j: int| 0 <= j < i + 1 implies #[trigger] a[j] == b[j] by {
                if j > 0 {
                    assert(x[j - 1] == y[j - 1]);
                }
            }
            assert(differ_first_at(a, b, i + 1));
        }
        if exists|i: int| differ_first_at(a, b, i) {
            let i = choose|i: int| differ_first_at(a, b, i);
            assert(i > 0);
            assert forall|j: int| 0 <= j < i - 1 implies #[trigger] x[j] == y[j] by {
                assert(a[j + 1] == b[j + 1]);
            }
            assert(differ_first_at(x, y, i - 1));
        }
    }
}

/// The lower of two end bounds is one of them, and neither of them is below it.
pub proof fn min_end_is_lowest(a: Option<Seq<u8>>, b: Option<Seq<u8>>)
    ensures
        min_end(a, b) == a || min_end(a, b) == b,
        min_end(a, b) is None <==> a is None && b is None,
        min_end(a, b) matches Some(m) ==> (a matches Some(x) ==> !key_lt(x, m)),
        min_end(a, b) matches Some(m) ==> (b matches Some(y) ==> !key_lt(y, m)),
{
    if let (Some(x), Some(y)) = (a, b) {
        key_lt_irreflexive(x);
        key_lt_irreflexive(y);
        if key_lt(x, y) {
            key_lt_asymmetric(x, y);
        }
    } else if let Some(x) = a {
        key_lt_irreflexive(x);
    } else if let Some(y) = b {
        key_lt_irreflexive(y);
    }
}

/// The higher of two start bounds is one of them, and it is below neither of them.
pub proof fn max_start_is_highest(a: Option<Seq<u8>>, b: Option<Seq<u8>>)
    ensures
        max_start(a, b) == a || max_start(a, b) == b,
        max_start(a, b) is None <==> a is None && b is None,
        max_start(a, b) matches Some(m) ==> (a matches Some(x) ==> !key_lt(m, x)),
        max_start(a, b) matches Some(m) ==> (b matches Some(y) ==> !key_lt(m, y)),
{
    if let (Some(x), Some(y)) = (a, b) {
        key_lt_irreflexive(x);
        key_lt_irreflexive(y);
        if key_lt(x, y) {
            key_lt_asymmetric(x, y);
        }
    } else if let Some(x) = a {
        key_lt_irreflexive(x);
    } else if let Some(y) = b {
        key_lt_irreflexive(y);
    }
}

} // verus!
