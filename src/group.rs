//! Points of the BLS12-381 G1 group and scalars of its field, held as their
//! canonical byte encodings. The group operations themselves are computed by
//! arkworks.

use ark_bls12_381::{Fr, G1Affine};
use ark_ff::PrimeField;
use ark_serialize::{CanonicalDeserialize, CanonicalSerialize};
use vstd::prelude::*;

verus! {

/// What arkworks' compressed decoder (with validation) makes of a byte string,
/// encoded again: the canonical compressed encoding of the point it decodes
/// to, or nothing where it is not the encoding of a point of G1.
pub uninterp spec fn g1_decode_of(b: Seq<u8>) -> Option<Seq<u8>>;

/// A canonical compressed encoding of a point of G1: decoding and encoding it
/// again gives it back.
pub open spec fn g1_valid(b: Seq<u8>) -> bool {
    g1_decode_of(b) == Some(b)
}

/// Compressed encoding of the sum of two encoded points.
pub uninterp spec fn g1_add_of(a: Seq<u8>, b: Seq<u8>) -> Seq<u8>;

/// Compressed encoding of an encoded point multiplied by a scalar given as
/// little-endian bytes (reduced modulo the group order).
pub uninterp spec fn g1_mul_of(p: Seq<u8>, s: Seq<u8>) -> Seq<u8>;

/// Relies on `G1Affine::deserialize_compressed` (with validation), which
/// accepts the encodings of points of the prime-order subgroup, and on
/// `serialize_compressed`, whose output decodes to the same point.
#[verifier::external_body]
fn g1_decode(b: &[u8; 48]) -> (r: Option<[u8; 48]>)
    ensures
        r is Some <==> g1_decode_of(b@) is Some,
        r matches Some(c) ==> g1_decode_of(b@) == Some(c@) && g1_valid(c@),
{
    let p = G1Affine::deserialize_compressed(&b[..]).ok()?;
    let mut out = [0u8; 48];
    p.serialize_compressed(&mut out[..]).unwrap();
    Some(out)
}

/// Relies on `Add` of arkworks' short Weierstrass points, and on the compressed
/// serialization of the result, which decodes again. Point addition in G1 is
/// commutative and associative.
#[verifier::external_body]
fn g1_add(a: &[u8; 48], b: &[u8; 48]) -> (r: [u8; 48])
    requires
        g1_valid(a@),
        g1_valid(b@),
    ensures
        r@ == g1_add_of(a@, b@),
        r@ == g1_add_of(b@, a@),
        g1_valid(r@),
        forall|c: Seq<u8>|
            g1_valid(c) ==> #[trigger] g1_add_of(r@, c) == g1_add_of(a@, g1_add_of(b@, c)),
{
    let x = G1Affine::deserialize_compressed(&a[..]).unwrap();
    let y = G1Affine::deserialize_compressed(&b[..]).unwrap();
    let mut out = [0u8; 48];
    (x + y).serialize_compressed(&mut out[..]).unwrap();
    out
}

/// Relies on `Mul<Fr>` of arkworks' short Weierstrass points, with the scalar
/// read by `Fr::from_le_bytes_mod_order`, and on the compressed serialization of
/// the result. Scalar multiplication in G1 satisfies `(p·s)·t == (p·t)·s`.
#[verifier::external_body]
fn g1_mul(p: &[u8; 48], s: &[u8; 32]) -> (r: [u8; 48])
    requires
        g1_valid(p@),
    ensures
        r@ == g1_mul_of(p@, s@),
        g1_valid(r@),
        forall|t: Seq<u8>|
            t.len() == 32 ==> #[trigger] g1_mul_of(r@, t) == g1_mul_of(g1_mul_of(p@, t), s@),
{
    let x = G1Affine::deserialize_compressed(&p[..]).unwrap();
    let mut out = [0u8; 48];
    (x * Fr::from_le_bytes_mod_order(&s[..])).serialize_compressed(&mut out[..]).unwrap();
    out
}

/// A point of G1, held as its compressed encoding.
#[derive(Clone, Copy, PartialEq, Eq, Debug)]
pub struct Point {
    bytes: [u8; 48],
}

impl View for Point {
    type V = Seq<u8>;

    closed spec fn view(&self) -> Seq<u8> {
        self.bytes@
    }
}

impl Point {
    /// The encoding is that of a point of G1.
    #[verifier::type_invariant]
    spec fn inv(&self) -> bool {
        g1_valid(self.bytes@)
    }

    /// The point that `bytes` encodes, if any, held in canonical form.
    pub fn from_bytes(bytes: [u8; 48]) -> (r: Option<Point>)
        ensures
            r is Some <==> g1_decode_of(bytes@) is Some,
            r matches Some(p) ==> g1_decode_of(bytes@) == Some(p@),
            g1_valid(bytes@) ==> (r matches Some(p) && p@ == bytes@),
    {
        match g1_decode(&bytes) {
            Some(c) => Some(Point { bytes: c }),
            None => None,
        }
    }

    /// The compressed encoding of this point.
    pub fn to_bytes(&self) -> (r: [u8; 48])
        ensures
            r@ == self@,
            g1_valid(r@),
    {
        proof {
            use_type_invariant(self);
        }
        self.bytes
    }

    /// The sum of two points.
    pub fn plus(&self, other: &Point) -> (r: Point)
        ensures
            r@ == g1_add_of(self@, other@),
            r@ == g1_add_of(other@, self@),
            forall|c: Seq<u8>|
                g1_valid(c) ==> #[trigger] g1_add_of(r@, c) == g1_add_of(
                    self@,
                    g1_add_of(other@, c),
                ),
    {
        proof {
            use_type_invariant(self);
            use_type_invariant(other);
        }
        Point { bytes: g1_add(&self.bytes, &other.bytes) }
    }

    /// This point multiplied by a scalar.
    pub fn times(&self, s: &Scalar) -> (r: Point)
        ensures
            r@ == g1_mul_of(self@, s@),
            forall|t: Seq<u8>|
                t.len() == 32 ==> #[trigger] g1_mul_of(r@, t) == g1_mul_of(
                    g1_mul_of(self@, t),
                    s@,
                ),
    {
        proof {
            use_type_invariant(self);
        }
        Point { bytes: g1_mul(&self.bytes, &s.bytes) }
    }
}

/// A scalar of the group's field, as 32 little-endian bytes; values at or above
/// the group order stand for their remainder.
#[derive(Clone, Copy, PartialEq, Eq, Debug)]
pub struct Scalar {
    pub bytes: [u8; 32],
}

impl View for Scalar {
    type V = Seq<u8>;

    open spec fn view(&self) -> Seq<u8> {
        self.bytes@
    }
}

} // verus!
