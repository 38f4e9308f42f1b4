//! Hashed El Gamal encryption of 32-byte messages, and the algebra of its
//! ciphertexts.
//!
//! A ciphertext is `<r·G, H(r·pk) XOR m>` for an ephemeral scalar `r`, where
//! `H` is SHA-256 of the compressed encoding of a point. There is no MAC: a
//! wrong key or an altered ciphertext decrypts, without error, to other bytes.

use crate::group::{g1_add_of, g1_decode_of, g1_mul_of, g1_valid, Point, Scalar};
use sha2::Digest;
use vstd::prelude::*;

verus! {

/// The message type of the scheme: exactly 32 bytes.
pub type Message = [u8; 32];

/// Byte-wise XOR of `a` and `b`, as long as `b`.
pub open spec fn xor_bytes(a: Seq<u8>, b: Seq<u8>) -> Seq<u8> {
    Seq::new(b.len(), |i: int| a[i] ^ b[i])
}

/// The byte-wise XOR of two arrays of the same length.
pub fn cross_product<const N: usize>(a: &[u8; N], b: &[u8; N]) -> (r: [u8; N])
    ensures
        r@ == xor_bytes(a@, b@),
{
    proof {
        vstd::array::array_len_matches_n(a);
        vstd::array::array_len_matches_n(b);
    }
    let mut o: [u8; N] = *a;
    let mut i: usize = 0;
    while i < N
        invariant
            0 <= i <= N,
            o@.len() == N,
            a@.len() == N,
            b@.len() == N,
            forall|j: int| 0 <= j < i ==> o@[j] == a@[j] ^ b@[j],
            forall|j: int| i <= j < N ==> o@[j] == a@[j],
        decreases N - i,
    {
        o[i] = o[i] ^ b[i];
        i += 1;
    }
    assert(o@ =~= xor_bytes(a@, b@));
    o
}

proof fn lemma_xor_comm(a: Seq<u8>, b: Seq<u8>)
    requires
        a.len() == b.len(),
    ensures
        xor_bytes(a, b) == xor_bytes(b, a),
{
    assert forall|i: int| 0 <= i < a.len() implies xor_bytes(a, b)[i] == xor_bytes(b, a)[i] by {
        let x: u8 = a[i];
        let y: u8 = b[i];
        assert(x ^ y == y ^ x) by (bit_vector);
    }
    assert(xor_bytes(a, b) =~= xor_bytes(b, a));
}

proof fn lemma_xor_assoc(a: Seq<u8>, b: Seq<u8>, c: Seq<u8>)
    requires
        a.len() == b.len(),
        b.len() == c.len(),
    ensures
        xor_bytes(xor_bytes(a, b), c) == xor_bytes(a, xor_bytes(b, c)),
{
    assert forall|i: int| 0 <= i < a.len() implies xor_bytes(xor_bytes(a, b), c)[i] == xor_bytes(
        a,
        xor_bytes(b, c),
    )[i] by {
        let x: u8 = a[i];
        let y: u8 = b[i];
        let z: u8 = c[i];
        assert((x ^ y) ^ z == x ^ (y ^ z)) by (bit_vector);
    }
    assert(xor_bytes(xor_bytes(a, b), c) =~= xor_bytes(a, xor_bytes(b, c)));
}

proof fn lemma_xor_cancel(h: Seq<u8>, m: Seq<u8>)
    ensures
        xor_bytes(h, xor_bytes(h, m)) == m,
{
    assert forall|i: int| 0 <= i < m.len() implies xor_bytes(h, xor_bytes(h, m))[i] == m[i] by {
        let x: u8 = h[i];
        let y: u8 = m[i];
        assert(x ^ (x ^ y) == y) by (bit_vector);
    }
    assert(xor_bytes(h, xor_bytes(h, m)) =~= m);
}

/// A name for SHA-256: its digest depends on the input bytes alone.
pub uninterp spec fn sha256_of(data: Seq<u8>) -> Seq<u8>;

/// Relies on sha2's `Sha256::digest`: the SHA-256 digest of `data`, 32 bytes.
#[verifier::external_body]
fn sha256(data: &[u8]) -> (r: Vec<u8>)
    ensures
        r@ == sha256_of(data@),
        r@.len() == 32,
{
    sha2::Sha256::digest(data).to_vec()
}

/// The map from G1 to byte strings: SHA-256 of the point's compressed
/// encoding.
pub open spec fn hash_spec(p: Seq<u8>) -> Seq<u8> {
    sha256_of(p)
}

/// Hashes a point to 32 bytes: SHA-256 of its compressed encoding.
pub fn hash(g: &Point) -> (r: Vec<u8>)
    ensures
        r@ == hash_spec(g@),
        r@.len() == 32,
{
    let bytes: [u8; 48] = g.to_bytes();
    sha256(bytes.as_slice())
}

/// Errors of the scheme.
#[derive(Clone, Copy, Debug, PartialEq, Eq, Structural)]
pub enum Error {
    /// A byte string did not have the length that a fixed-size value needs.
    InvalidBufferSize,
    /// Bytes that should encode a point of G1 do not.
    InvalidPoint,
}

/// Reads a byte string as a 32-byte value; any other length is rejected.
pub fn message_from_bytes(v: &Vec<u8>) -> (r: Result<Message, Error>)
    ensures
        r is Ok <==> v@.len() == 32,
        r matches Ok(m) ==> m@ == v@,
        r matches Err(e) ==> e == Error::InvalidBufferSize,
{
    if v.len() != 32 {
        return Err(Error::InvalidBufferSize);
    }
    let mut m: [u8; 32] = [0u8; 32];
    let mut i: usize = 0;
    while i < 32
        invariant
            0 <= i <= 32,
            v@.len() == 32,
            m@.len() == 32,
            forall|j: int| 0 <= j < i ==> m@[j] == v@[j],
        decreases 32 - i,
    {
        m[i] = v[i];
        i += 1;
    }
    assert(m@ =~= v@);
    Ok(m)
}

/// A Hashed El Gamal ciphertext: `c1 = r·G`, `c2 = H(r·pk) XOR m`.
#[derive(Clone, Copy, PartialEq, Eq, Debug)]
pub struct Ciphertext {
    pub c1: Point,
    pub c2: [u8; 32],
}

impl View for Ciphertext {
    type V = (Seq<u8>, Seq<u8>);

    open spec fn view(&self) -> (Seq<u8>, Seq<u8>) {
        (self.c1@, self.c2@)
    }
}

/// The combination of two ciphertext models: points added, masks XORed.
pub open spec fn add_spec(a: (Seq<u8>, Seq<u8>), b: (Seq<u8>, Seq<u8>)) -> (Seq<u8>, Seq<u8>) {
    (g1_add_of(a.0, b.0), xor_bytes(a.1, b.1))
}

impl Ciphertext {
    /// Aggregates `<u, v>` and `<u', v'>` into `<u + u', v XOR v'>`. The
    /// operation is commutative and associative.
    pub fn add(self, ct: Ciphertext) -> (r: Self)
        ensures
            r@ == add_spec(self@, ct@),
            r@ == add_spec(ct@, self@),
            forall|c: (Seq<u8>, Seq<u8>)|
                g1_valid(c.0) && c.1.len() == 32 ==> #[trigger] add_spec(r@, c) == add_spec(
                    self@,
                    add_spec(ct@, c),
                ),
    {
        let c1 = self.c1.plus(&ct.c1);
        let c2 = cross_product::<32>(&self.c2, &ct.c2);
        proof {
            lemma_xor_comm(self.c2@, ct.c2@);
            let rv = (c1@, c2@);
            assert forall|c: (Seq<u8>, Seq<u8>)|
                g1_valid(c.0) && c.1.len() == 32 implies #[trigger] add_spec(rv, c) == add_spec(
                self@,
                add_spec(ct@, c),
            ) by {
                lemma_xor_assoc(self.c2@, ct.c2@, c.1);
            }
        }
        Ciphertext { c1, c2 }
    }
}

/// The mask for the shared point `c1·sk`: the hash of that point.
pub open spec fn shared_mask(sk: Seq<u8>, c1: Seq<u8>) -> Seq<u8> {
    hash_spec(g1_mul_of(c1, sk))
}

/// The ciphertext of `m` under `pk`, with generator `g` and ephemeral scalar `r`.
pub open spec fn encrypt_spec(m: Seq<u8>, pk: Seq<u8>, g: Seq<u8>, r: Seq<u8>) -> (
    Seq<u8>,
    Seq<u8>,
) {
    (g1_mul_of(g, r), xor_bytes(hash_spec(g1_mul_of(pk, r)), m))
}

/// What the secret key `sk` recovers from a ciphertext.
pub open spec fn decrypt_spec(sk: Seq<u8>, ct: (Seq<u8>, Seq<u8>)) -> Seq<u8> {
    xor_bytes(shared_mask(sk, ct.0), ct.1)
}

/// The Hashed El Gamal scheme over G1.
pub struct HashedElGamal {}

impl HashedElGamal {
    /// Encrypts `message` for `pk`: `<r·generator, H(r·pk) XOR message>`.
    ///
    /// `r` must be drawn uniformly and afresh for each encryption; using it
    /// twice under one key reveals the XOR of the two messages.
    ///
    /// Every secret key `sk` with `pk == generator·sk` recovers `message`.
    pub fn encrypt(message: Message, pk: Point, generator: Point, r: Scalar) -> (res: Result<
        Ciphertext,
        Error,
    >)
        ensures
            res matches Ok(ct) && ct@ == encrypt_spec(
                message@,
                pk@,
                generator@,
                r@,
            ),
            res matches Ok(ct) && forall|sk: Seq<u8>|
                sk.len() == 32 && pk@ == g1_mul_of(generator@, sk) ==> #[trigger] decrypt_spec(
                    sk,
                    ct@,
                ) == message@,
    {
        let c1 = generator.times(&r);
        let inner = pk.times(&r);
        let mask = message_from_bytes(&hash(&inner))?;
        let c2 = cross_product::<32>(&mask, &message);
        let ct = Ciphertext { c1, c2 };
        proof {
            assert forall|sk: Seq<u8>|
                sk.len() == 32 && pk@ == g1_mul_of(generator@, sk) implies #[trigger] decrypt_spec(
                sk,
                ct@,
            ) == message@ by {
                assert(g1_mul_of(c1@, sk) == inner@);
                lemma_xor_cancel(mask@, message@);
            }
        }
        Ok(ct)
    }

    /// Decrypts with the secret key `sk`: `H(sk·c1) XOR c2`. A wrong key or
    /// an altered ciphertext gives other bytes, not an error.
    pub fn decrypt(sk: Scalar, ciphertext: Ciphertext) -> (res: Result<Message, Error>)
        ensures
            res matches Ok(m) && m@ == decrypt_spec(sk@, ciphertext@),
    {
        let s = ciphertext.c1.times(&sk);
        let mask = message_from_bytes(&hash(&s))?;
        Ok(cross_product::<32>(&mask, &ciphertext.c2))
    }
}

/// Hashing is a function of the point alone: equal points give equal digests.
pub proof fn lemma_hash_deterministic(p: Seq<u8>, q: Seq<u8>)
    requires
        p == q,
    ensures
        hash_spec(p) == hash_spec(q),
{
}

/// Altering `c2` alters what is decrypted: two ciphertexts with the same `c1`
/// and different `c2` decrypt, under any key, to different messages.
pub proof fn lemma_tamper_changes_plaintext(
    sk: Seq<u8>,
    a: (Seq<u8>, Seq<u8>),
    b: (Seq<u8>, Seq<u8>),
)
    requires
        a.0 == b.0,
        a.1.len() == 32,
        b.1.len() == 32,
        a.1 != b.1,
    ensures
        decrypt_spec(sk, a) != decrypt_spec(sk, b),
{
    if forall|j: int| 0 <= j < 32 ==> a.1[j] == b.1[j] {
        assert(a.1 =~= b.1);
    }
    let i: int = choose|i: int| 0 <= i < 32 && a.1[i] != b.1[i];
    let h: u8 = shared_mask(sk, a.0)[i];
    let x: u8 = a.1[i];
    let y: u8 = b.1[i];
    assert(x != y ==> h ^ x != h ^ y) by (bit_vector);
    assert(decrypt_spec(sk, a)[i] != decrypt_spec(sk, b)[i]);
}

/// Decrypting a sum of ciphertexts gives the XOR of the two decryptions
/// exactly when the mask of the summed point is, byte for byte, the XOR of the
/// two masks.
pub proof fn lemma_add_decrypt(sk: Seq<u8>, a: (Seq<u8>, Seq<u8>), b: (Seq<u8>, Seq<u8>))
    requires
        a.1.len() == 32,
        b.1.len() == 32,
    ensures
        decrypt_spec(sk, add_spec(a, b)) == xor_bytes(decrypt_spec(sk, a), decrypt_spec(sk, b))
            <==> forall|i: int|
            0 <= i < 32 ==> #[trigger] shared_mask(sk, g1_add_of(a.0, b.0))[i] == shared_mask(
                sk,
                a.0,
            )[i] ^ shared_mask(sk, b.0)[i],
{
    let hs = shared_mask(sk, g1_add_of(a.0, b.0));
    let ha = shared_mask(sk, a.0);
    let hb = shared_mask(sk, b.0);
    let lhs = decrypt_spec(sk, add_spec(a, b));
    let rhs = xor_bytes(decrypt_spec(sk, a), decrypt_spec(sk, b));
    assert forall|i: int| 0 <= i < 32 implies (lhs[i] == rhs[i] <==> hs[i] == ha[i] ^ hb[i]) by {
        let s: u8 = hs[i];
        let p: u8 = ha[i];
        let q: u8 = hb[i];
        let x: u8 = a.1[i];
        let y: u8 = b.1[i];
        assert((s ^ (x ^ y) == (p ^ x) ^ (q ^ y)) <==> (s == p ^ q)) by (bit_vector);
    }
    if forall|i: int| 0 <= i < 32 ==> #[trigger] hs[i] == ha[i] ^ hb[i] {
        assert(lhs =~= rhs);
    }
    if lhs == rhs {
        assert forall|i: int| 0 <= i < 32 implies #[trigger] hs[i] == ha[i] ^ hb[i] by {
            assert(lhs[i] == rhs[i]);
        }
    }
}

/// Length of a serialized ciphertext: the compressed point `c1`, then `c2`.
pub const CIPHERTEXT_LEN: usize = 80;

/// The serialized form of a ciphertext model.
pub open spec fn ciphertext_bytes(ct: (Seq<u8>, Seq<u8>)) -> Seq<u8> {
    ct.0 + ct.1
}

impl Ciphertext {
    /// Serializes as the 48-byte compressed encoding of `c1` followed by the 32
    /// bytes of `c2`.
    pub fn to_bytes(&self) -> (r: Vec<u8>)
        ensures
            r@ == ciphertext_bytes(self@),
            r@.len() == CIPHERTEXT_LEN,
            g1_valid(r@.subrange(0, 48)),
    {
        let p: [u8; 48] = self.c1.to_bytes();
        let mut out: Vec<u8> = Vec::new();
        let mut i: usize = 0;
        while i < 48
            invariant
                0 <= i <= 48,
                p@.len() == 48,
                out@ == p@.subrange(0, i as int),
            decreases 48 - i,
        {
            out.push(p[i]);
            i += 1;
        }
        let mut j: usize = 0;
        while j < 32
            invariant
                0 <= j <= 32,
                p@.len() == 48,
                self.c2@.len() == 32,
                out@ == p@ + self.c2@.subrange(0, j as int),
            decreases 32 - j,
        {
            out.push(self.c2[j]);
            j += 1;
        }
        assert(out@ =~= p@ + self.c2@);
        assert(out@.subrange(0, 48) =~= p@);
        out
    }

    /// Reads a ciphertext in the form that `to_bytes` writes. The point is
    /// decoded and held in canonical form.
    pub fn from_bytes(b: &[u8]) -> (r: Result<Ciphertext, Error>)
        ensures
            b@.len() != CIPHERTEXT_LEN ==> r == Err::<Ciphertext, Error>(Error::InvalidBufferSize),
            b@.len() == CIPHERTEXT_LEN ==> (r is Ok <==> g1_decode_of(b@.subrange(0, 48)) is Some),
            b@.len() == CIPHERTEXT_LEN && g1_decode_of(b@.subrange(0, 48)) is None ==> r == Err::<
                Ciphertext,
                Error,
            >(Error::InvalidPoint),
            r matches Ok(ct) ==> g1_decode_of(b@.subrange(0, 48)) == Some(ct.c1@) && ct.c2@
                == b@.subrange(48, 80),
    {
        if b.len() != CIPHERTEXT_LEN {
            return Err(Error::InvalidBufferSize);
        }
        let mut p: [u8; 48] = [0u8; 48];
        let mut i: usize = 0;
        while i < 48
            invariant
                0 <= i <= 48,
                b@.len() == 80,
                p@.len() == 48,
                forall|k: int| 0 <= k < i ==> p@[k] == b@[k],
            decreases 48 - i,
        {
            p[i] = b[i];
            i += 1;
        }
        let mut c2: [u8; 32] = [0u8; 32];
        let mut j: usize = 0;
        while j < 32
            invariant
                0 <= j <= 32,
                b@.len() == 80,
                c2@.len() == 32,
                forall|k: int| 0 <= k < j ==> c2@[k] == b@[48 + k],
            decreases 32 - j,
        {
            c2[j] = b[48 + j];
            j += 1;
        }
        assert(p@ =~= b@.subrange(0, 48));
        assert(c2@ =~= b@.subrange(48, 80));
        match Point::from_bytes(p) {
            Some(c1) => Ok(Ciphertext { c1, c2 }),
            None => Err(Error::InvalidPoint),
        }
    }
}

/// Serialization round-trips: the bytes written for a ciphertext split back
/// into its canonical point, which decodes to itself, and its mask.
pub proof fn lemma_ciphertext_bytes_round_trip(ct: (Seq<u8>, Seq<u8>))
    requires
        g1_valid(ct.0),
        ct.0.len() == 48,
        ct.1.len() == 32,
    ensures
        ciphertext_bytes(ct).len() == CIPHERTEXT_LEN,
        g1_decode_of(ciphertext_bytes(ct).subrange(0, 48)) == Some(ct.0),
        ciphertext_bytes(ct).subrange(48, 80) == ct.1,
{
    assert(ciphertext_bytes(ct).subrange(0, 48) =~= ct.0);
    assert(ciphertext_bytes(ct).subrange(48, 80) =~= ct.1);
}

} // verus!
