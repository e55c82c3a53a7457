use vstd::prelude::*;

verus! {

/// Number of bytes in an identifier.
pub const ID_SIZE: usize = 20;

/// A 160-bit identifier of a node or of a piece of content.
#[derive(Clone, Copy, Debug, PartialEq, Eq, Hash)]
pub struct Id {
    pub bytes: [u8; 20],
}

/// Byte-wise XOR of two byte strings of equal length.
pub open spec fn xor_seq(a: Seq<u8>, b: Seq<u8>) -> Seq<u8> {
    Seq::new(a.len(), |i: int| a[i] ^ b[i])
}

/// `a` is strictly smaller than `b` as a big-endian number, looking from byte `i` on.
pub open spec fn be_lt_from(a: Seq<u8>, b: Seq<u8>, i: int) -> bool
    decreases a.len() - i,
{
    if i < 0 || i >= a.len() || i >= b.len() {
        false
    } else if a[i] < b[i] {
        true
    } else if a[i] > b[i] {
        false
    } else {
        be_lt_from(a, b, i + 1)
    }
}

/// Strict numeric order of two big-endian byte strings of equal length.
pub open spec fn be_lt(a: Seq<u8>, b: Seq<u8>) -> bool {
    be_lt_from(a, b, 0)
}

impl Id {
    pub open spec fn view(&self) -> Seq<u8> {
        self.bytes@
    }

    /// The XOR distance between two identifiers.
    pub open spec fn distance_spec(&self, other: Id) -> Seq<u8> {
        xor_seq(self@, other@)
    }

    /// Builds an identifier from exactly twenty bytes.
    pub fn from_bytes(b: &[u8]) -> (r: Option<Id>)
        ensures
            r is Some <==> b@.len() == 20,
            r matches Some(id) ==> id@ == b@,
    {
        if b.len() != ID_SIZE {
            return None;
        }
        let mut bytes = [0u8; 20];
        let mut i: usize = 0;
        while i < 20
            invariant
                b@.len() == 20,
                0 <= i <= 20,
                forall|j: int| 0 <= j < i ==> bytes@[j] == b@[j],
            decreases 20 - i,
        {
            bytes[i] = b[i];
            i = i + 1;
        }
        let id = Id { bytes };
        assert(id@ =~= b@);
        Some(id)
    }

    /// The XOR distance to another identifier, as an identifier.
    pub fn distance(&self, other: &Id) -> (r: Id)
        ensures
            r@ == self.distance_spec(*other),
    {
        let mut bytes = [0u8; 20];
        let mut i: usize = 0;
        while i < 20
            invariant
                0 <= i <= 20,
                forall|j: int| 0 <= j < i ==> bytes@[j] == self@[j] ^ other@[j],
            decreases 20 - i,
        {
            bytes[i] = self.bytes[i] ^ other.bytes[i];
            i = i + 1;
        }
        let r = Id { bytes };
        assert(r@ =~= self.distance_spec(*other));
        r
    }

    /// Whether `a` is strictly closer to `self` than `b` is.
    pub fn is_closer(&self, a: &Id, b: &Id) -> (r: bool)
        ensures
            r == be_lt(self.distance_spec(*a), self.distance_spec(*b)),
    {
        let da = self.distance(a);
        let db = self.distance(b);
        let mut i: usize = 0;
        while i < 20
            invariant
                0 <= i <= 20,
                da@ == self.distance_spec(*a),
                db@ == self.distance_spec(*b),
                be_lt(da@, db@) == be_lt_from(da@, db@, i as int),
            decreases 20 - i,
        {
            if da.bytes[i] < db.bytes[i] {
                return true;
            }
            if da.bytes[i] > db.bytes[i] {
                return false;
            }
            i = i + 1;
        }
        false
    }
}

/// Whether two identifiers are equal.
pub fn ids_equal(a: &Id, b: &Id) -> (r: bool)
    ensures
        r == (a@ == b@),
{
    let mut i: usize = 0;
    while i < 20
        invariant
            0 <= i <= 20,
            forall|m: int| 0 <= m < i ==> a@[m] == b@[m],
        decreases 20 - i,
    {
        if a.bytes[i] != b.bytes[i] {
            return false;
        }
        i = i + 1;
    }
    assert(a@ =~= b@);
    true
}

/// Strict distance order is transitive.
pub proof fn lemma_be_lt_transitive(a: Seq<u8>, b: Seq<u8>, c: Seq<u8>, i: int)
    requires
        be_lt_from(a, b, i),
        be_lt_from(b, c, i),
    ensures
        be_lt_from(a, c, i),
    decreases a.len() - i,
{
    if a[i] == b[i] && b[i] == c[i] {
        lemma_be_lt_transitive(a, b, c, i + 1);
    }
}

/// Strict distance order is irreflexive.
pub proof fn lemma_be_lt_irreflexive(a: Seq<u8>, i: int)
    ensures
        !be_lt_from(a, a, i),
    decreases a.len() - i,
{
    if 0 <= i < a.len() {
        lemma_be_lt_irreflexive(a, i + 1);
    }
}

/// The XOR metric: the distance of an identifier to itself is zero, distance is
/// symmetric, and distances compose by XOR: d(a, c) = d(a, b) XOR d(b, c).
pub proof fn lemma_xor_metric(a: Id, b: Id, c: Id)
    ensures
        a.distance_spec(a) == Seq::new(20, |i: int| 0u8),
        a.distance_spec(b) == b.distance_spec(a),
        a.distance_spec(c) == xor_seq(a.distance_spec(b), b.distance_spec(c)),
{
    assert forall|i: int| 0 <= i < 20 implies #[trigger] a@[i] ^ a@[i] == 0u8 by {
        let x = a@[i];
        assert(x ^ x == 0u8) by (bit_vector);
    }
    assert(a.distance_spec(a) =~= Seq::new(20, |i: int| 0u8));
    assert forall|i: int| 0 <= i < 20 implies #[trigger] a@[i] ^ b@[i] == b@[i] ^ a@[i] by {
        let x = a@[i];
        let y = b@[i];
        assert(x ^ y == y ^ x) by (bit_vector);
    }
    assert(a.distance_spec(b) =~= b.distance_spec(a));
    assert forall|i: int| 0 <= i < 20 implies #[trigger] (a@[i] ^ c@[i]) == ((a@[i] ^ b@[i]) ^ (
    b@[i] ^ c@[i])) by {
        let x = a@[i];
        let y = b@[i];
        let z = c@[i];
        assert(x ^ z == (x ^ y) ^ (y ^ z)) by (bit_vector);
    }
    assert(a.distance_spec(c) =~= xor_seq(a.distance_spec(b), b.distance_spec(c)));
}

} // verus!
