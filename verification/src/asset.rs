//! Asset identifiers, their canonical order, and canonical pairs.
//!
//! The canonical order places the identifier with the greater byte string
//! first. A pair of two different assets therefore has exactly one canonical
//! form, whichever way round it is given.

use crate::error::PoolError;
use vstd::prelude::*;

verus! {

/// Lexicographic order on byte strings: the first byte in which the two differ
/// decides, and a proper prefix is less than what it is a prefix of.
pub open spec fn bytes_less(a: Seq<u8>, b: Seq<u8>) -> bool
    decreases a.len(),
{
    if b.len() == 0 {
        false
    } else if a.len() == 0 {
        true
    } else if a[0] != b[0] {
        a[0] < b[0]
    } else {
        bytes_less(a.drop_first(), b.drop_first())
    }
}

/// Whether `a` comes before `b` in the canonical order: the greater byte string
/// comes first.
pub open spec fn precedes(a: Seq<u8>, b: Seq<u8>) -> bool {
    bytes_less(b, a)
}

/// The two identifiers in canonical order. Equal identifiers stay as they are.
pub open spec fn canonical_pair(a: Seq<u8>, b: Seq<u8>) -> (Seq<u8>, Seq<u8>) {
    if precedes(a, b) {
        (a, b)
    } else {
        (b, a)
    }
}

/// The canonical pair of two identifiers, which must differ.
pub open spec fn canonicalize_result(
    a: Seq<u8>,
    b: Seq<u8>,
) -> Result<(Seq<u8>, Seq<u8>), PoolError> {
    if a == b {
        Err(PoolError::Validation)
    } else {
        Ok(canonical_pair(a, b))
    }
}

/// Of two byte strings exactly one holds: they are equal, the first is less, or
/// the second is less.
pub proof fn lemma_bytes_order_total(a: Seq<u8>, b: Seq<u8>)
    ensures
        a == b || bytes_less(a, b) || bytes_less(b, a),
        !(bytes_less(a, b) && bytes_less(b, a)),
        a == b ==> !bytes_less(a, b),
    decreases a.len(),
{
    if a.len() == 0 || b.len() == 0 {
        if a.len() == 0 && b.len() == 0 {
            assert(a =~= b);
        }
    } else if a[0] == b[0] {
        lemma_bytes_order_total(a.drop_first(), b.drop_first());
        if a.drop_first() == b.drop_first() {
            assert(a =~= seq![a[0]] + a.drop_first());
            assert(b =~= seq![b[0]] + b.drop_first());
        }
    }
}

/// Dropping a common prefix does not change how two byte strings compare.
proof fn lemma_bytes_less_skip(a: Seq<u8>, b: Seq<u8>, i: int)
    requires
        0 <= i <= a.len(),
        i <= b.len(),
        forall|j: int| 0 <= j < i ==> a[j] == b[j],
    ensures
        bytes_less(a, b) == bytes_less(a.skip(i), b.skip(i)),
    decreases i,
{
    if i == 0 {
        assert(a.skip(0) =~= a);
        assert(b.skip(0) =~= b);
    } else {
        lemma_bytes_less_skip(a, b, i - 1);
        let x = a.skip(i - 1);
        let y = b.skip(i - 1);
        assert(x[0] == a[i - 1]);
        assert(y[0] == b[i - 1]);
        assert(x.drop_first() =~= a.skip(i));
        assert(y.drop_first() =~= b.skip(i));
    }
}

/// How one byte string stands to another.
#[derive(Clone, Copy, Debug, PartialEq, Eq, Structural)]
pub enum ByteOrder {
    Less,
    Equal,
    Greater,
}

/// Compares two byte strings lexicographically.
pub fn compare_bytes(a: &Vec<u8>, b: &Vec<u8>) -> (r: ByteOrder)
    ensures
        r == ByteOrder::Less <==> bytes_less(a@, b@),
        r == ByteOrder::Equal <==> a@ == b@,
        r == ByteOrder::Greater <==> bytes_less(b@, a@),
{
    let mut i: usize = 0;
    proof {
        lemma_bytes_order_total(a@, b@);
    }
    while i < a.len() && i < b.len()
        invariant
            i <= a.len(),
            i <= b.len(),
            forall|j: int| 0 <= j < i ==> a@[j] == b@[j],
        decreases a.len() - i,
    {
        if a[i] != b[i] {
            proof {
                lemma_bytes_less_skip(a@, b@, i as int);
                lemma_bytes_less_skip(b@, a@, i as int);
                assert(a@.skip(i as int)[0] == a@[i as int]);
                assert(b@.skip(i as int)[0] == b@[i as int]);
            }
            if a[i] < b[i] {
                return ByteOrder::Less;
            } else {
                return ByteOrder::Greater;
            }
        }
        i += 1;
    }
    proof {
        lemma_bytes_less_skip(a@, b@, i as int);
        lemma_bytes_less_skip(b@, a@, i as int);
    }
    if a.len() < b.len() {
        ByteOrder::Less
    } else if a.len() > b.len() {
        ByteOrder::Greater
    } else {
        assert(a@ =~= b@);
        ByteOrder::Equal
    }
}

/// The identity of an asset: an opaque byte string.
#[derive(Debug)]
pub struct AssetId {
    pub bytes: Vec<u8>,
}

impl View for AssetId {
    type V = Seq<u8>;

    open spec fn view(&self) -> Seq<u8> {
        self.bytes@
    }
}

impl Clone for AssetId {
    fn clone(&self) -> (r: Self)
        ensures
            r@ == self@,
    {
        let bytes = self.bytes.clone();
        assert(bytes@ =~= self.bytes@);
        AssetId { bytes }
    }
}

impl AssetId {
    /// The asset that `bytes` identify.
    pub fn new(bytes: Vec<u8>) -> (r: AssetId)
        ensures
            r@ == bytes@,
    {
        AssetId { bytes }
    }

    /// Whether the two identify the same asset.
    pub fn same_as(&self, other: &AssetId) -> (r: bool)
        ensures
            r == (self@ == other@),
    {
        compare_bytes(&self.bytes, &other.bytes) == ByteOrder::Equal
    }

    /// Whether `self` comes before `other` in the canonical order.
    pub fn comes_before(&self, other: &AssetId) -> (r: bool)
        ensures
            r == precedes(self@, other@),
    {
        compare_bytes(&self.bytes, &other.bytes) == ByteOrder::Greater
    }
}

/// Puts two identifiers in canonical order: the one with the greater byte string
/// first. Equal identifiers come back as they are.
pub fn sort_addresses(address0: AssetId, address1: AssetId) -> (r: (AssetId, AssetId))
    ensures
        (r.0@, r.1@) == canonical_pair(address0@, address1@),
{
    if address0.comes_before(&address1) {
        (address0, address1)
    } else {
        (address1, address0)
    }
}

/// An unordered pair of two different assets in its canonical form: `first`
/// comes before `second` in the canonical order.
#[derive(Debug)]
pub struct PairKey {
    first: AssetId,
    second: AssetId,
}

impl View for PairKey {
    type V = (Seq<u8>, Seq<u8>);

    closed spec fn view(&self) -> (Seq<u8>, Seq<u8>) {
        (self.first@, self.second@)
    }
}

impl Clone for PairKey {
    fn clone(&self) -> (r: Self)
        ensures
            r@ == self@,
    {
        proof {
            use_type_invariant(self);
        }
        PairKey { first: self.first.clone(), second: self.second.clone() }
    }
}

impl PairKey {
    #[verifier::type_invariant]
    pub closed spec fn ordered(self) -> bool {
        precedes(self.first@, self.second@)
    }

    /// The first of a pair in range comes before the second, and so the two
    /// differ.
    pub proof fn lemma_ordered(self)
        requires
            self.ordered(),
        ensures
            precedes(self@.0, self@.1),
            self@.0 != self@.1,
    {
        lemma_bytes_order_total(self@.0, self@.1);
    }

    /// The canonical form of the pair `a`, `b`. Refused where the two are the
    /// same asset.
    pub fn canonicalize(a: AssetId, b: AssetId) -> (r: Result<PairKey, PoolError>)
        ensures
            r matches Ok(key) ==> canonicalize_result(a@, b@) == Ok::<_, PoolError>(key@),
            r matches Err(e) ==> canonicalize_result(a@, b@) == Err::<(Seq<u8>, Seq<u8>), _>(e),
    {
        if a.same_as(&b) {
            return Err(PoolError::Validation);
        }
        proof {
            lemma_bytes_order_total(a@, b@);
        }
        let (first, second) = sort_addresses(a, b);
        Ok(PairKey { first, second })
    }

    /// The asset that comes first.
    pub fn first(&self) -> (r: &AssetId)
        ensures
            r@ == self@.0,
            precedes(self@.0, self@.1),
    {
        proof {
            use_type_invariant(self);
        }
        &self.first
    }

    /// The asset that comes second.
    pub fn second(&self) -> (r: &AssetId)
        ensures
            r@ == self@.1,
            precedes(self@.0, self@.1),
    {
        proof {
            use_type_invariant(self);
        }
        &self.second
    }

    /// Whether the two keys name the same pair.
    pub fn same_as(&self, other: &PairKey) -> (r: bool)
        ensures
            r == (self@ == other@),
    {
        self.first.same_as(&other.first) && self.second.same_as(&other.second)
    }
}

/// A pair has one canonical form, whichever way round it is given.
pub proof fn law_canonical_pair_symmetric(a: Seq<u8>, b: Seq<u8>)
    ensures
        canonical_pair(a, b) == canonical_pair(b, a),
        canonicalize_result(a, b) == canonicalize_result(b, a),
{
    lemma_bytes_order_total(a, b);
}

/// The canonical form of two different assets has the first before the second.
pub proof fn law_canonical_pair_ordered(a: Seq<u8>, b: Seq<u8>)
    requires
        a != b,
    ensures
        precedes(canonical_pair(a, b).0, canonical_pair(a, b).1),
{
    lemma_bytes_order_total(a, b);
}

} // verus!
