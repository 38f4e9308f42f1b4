use acss::group::{Point, Scalar};
use acss::hashed_el_gamal::{
    cross_product, hash, message_from_bytes, Ciphertext, Error, HashedElGamal, Message,
};
use ark_bls12_381::{Fr, G1Projective as G1};
use ark_ec::Group;
use ark_ff::{One, UniformRand, Zero};
use ark_serialize::CanonicalSerialize;
use ark_std::{ops::Mul, test_rng};
use sha2::Digest;

fn fr_bytes(x: Fr) -> Vec<u8> {
    let mut out = Vec::new();
    x.serialize_compressed(&mut out).unwrap();
    out
}

fn scalar(x: Fr) -> Scalar {
    Scalar {
        bytes: fr_bytes(x).try_into().unwrap(),
    }
}

fn point(p: G1) -> Point {
    let mut out = Vec::new();
    p.serialize_compressed(&mut out).unwrap();
    Point::from_bytes(out.try_into().unwrap()).unwrap()
}

fn generator() -> Point {
    point(G1::generator())
}

#[test]
fn basic_encrypt_decrypt_works() {
    let sk = Fr::rand(&mut test_rng());
    let pk = point(G1::generator().mul(sk));

    let secret = Fr::rand(&mut test_rng());
    let secret_bytes = fr_bytes(secret);

    let ct = HashedElGamal::encrypt(
        message_from_bytes(&secret_bytes).unwrap(),
        pk,
        generator(),
        scalar(Fr::rand(&mut test_rng())),
    )
    .unwrap();
    let recovered_bytes = HashedElGamal::decrypt(scalar(sk), ct).unwrap();
    assert_eq!(recovered_bytes.to_vec(), secret_bytes);
}

#[test]
fn can_add_ciphertexts() {
    let sk = Fr::rand(&mut test_rng());
    let pk = point(G1::generator().mul(sk));

    let secret = Fr::rand(&mut test_rng());
    let secret_bytes = fr_bytes(secret);

    let other_secret = Fr::one();
    let other_secret_bytes = fr_bytes(other_secret);

    let combined = secret + other_secret;
    let combined_bytes = fr_bytes(combined);
    assert_eq!(combined_bytes.len(), 32);

    let ct = HashedElGamal::encrypt(
        message_from_bytes(&secret_bytes).unwrap(),
        pk,
        generator(),
        scalar(Fr::rand(&mut test_rng())),
    )
    .unwrap();
    let other_ct = HashedElGamal::encrypt(
        message_from_bytes(&other_secret_bytes).unwrap(),
        pk,
        generator(),
        scalar(Fr::rand(&mut test_rng())),
    )
    .unwrap();

    let expected = Ciphertext {
        c1: ct.c1.plus(&other_ct.c1),
        c2: cross_product::<32>(&ct.c2, &other_ct.c2),
    };
    assert_eq!(ct.add(other_ct), expected);
}

#[test]
fn decryption_fails_with_bad_key() {
    let sk = Fr::rand(&mut test_rng());
    let bad_sk = Fr::one() + sk;
    let pk = point(G1::generator().mul(sk));

    let secret = Fr::rand(&mut test_rng());
    let secret_bytes = fr_bytes(secret);

    let ct = HashedElGamal::encrypt(
        message_from_bytes(&secret_bytes).unwrap(),
        pk,
        generator(),
        scalar(Fr::rand(&mut test_rng())),
    )
    .unwrap();
    let recovered_bytes = HashedElGamal::decrypt(scalar(bad_sk), ct).unwrap();
    assert!(recovered_bytes.to_vec() != secret_bytes);
}

#[test]
fn decryption_fails_with_bad_ciphertext() {
    let sk = Fr::rand(&mut test_rng());
    let pk = point(G1::generator().mul(sk));

    let secret = Fr::rand(&mut test_rng());
    let secret_bytes = fr_bytes(secret);

    let mut ct = HashedElGamal::encrypt(
        message_from_bytes(&secret_bytes).unwrap(),
        pk,
        generator(),
        scalar(Fr::rand(&mut test_rng())),
    )
    .unwrap();
    ct.c2 = [1; 32];
    match HashedElGamal::decrypt(scalar(sk), ct) {
        Ok(recovered_bytes) => {
            assert!(recovered_bytes.to_vec() != secret_bytes);
        }
        Err(_) => {}
    }
}

#[test]
fn cross_product_xors_bytewise() {
    let a: [u8; 4] = [0x0f, 0xff, 0x00, 0xa5];
    let b: [u8; 4] = [0xf0, 0xff, 0x00, 0x5a];
    assert_eq!(cross_product::<4>(&a, &b), [0xff, 0x00, 0x00, 0xff]);
    assert_eq!(cross_product::<0>(&[], &[]), []);
}

#[test]
fn message_from_bytes_checks_length() {
    let v: Vec<u8> = (0u8..32).collect();
    let m = message_from_bytes(&v).unwrap();
    assert_eq!(m.to_vec(), v);
    assert_eq!(message_from_bytes(&vec![0u8; 31]), Err(Error::InvalidBufferSize));
    assert_eq!(message_from_bytes(&vec![0u8; 33]), Err(Error::InvalidBufferSize));
    assert_eq!(message_from_bytes(&Vec::new()), Err(Error::InvalidBufferSize));
}

#[test]
fn point_from_bytes_rejects_non_points() {
    assert!(Point::from_bytes([0u8; 48]).is_none());
    // every string with the infinity flag set decodes to the identity, held
    // in its canonical encoding
    let identity = point(G1::zero());
    assert_eq!(identity.to_bytes()[0], 0xc0);
    assert_eq!(Point::from_bytes([0xffu8; 48]), Some(identity));
    assert_eq!(Point::from_bytes([0xffu8; 48]).unwrap().to_bytes(), identity.to_bytes());
    let g = generator();
    assert_eq!(Point::from_bytes(g.to_bytes()), Some(g));
}

#[test]
fn point_operations_match_the_group() {
    let g = generator();
    let two = Scalar {
        bytes: fr_bytes(Fr::from(2u64)).try_into().unwrap(),
    };
    assert_eq!(g.plus(&g), point(G1::generator().mul(Fr::from(2u64))));
    assert_eq!(g.times(&two), g.plus(&g));
    assert_ne!(g.times(&two), g);
    let sk = Fr::rand(&mut test_rng());
    assert_eq!(g.times(&scalar(sk)), point(G1::generator().mul(sk)));
}

#[test]
fn hash_is_sha256_of_compressed_point_and_deterministic() {
    let g = generator();
    let first = hash(&g);
    let second = hash(&g);
    assert_eq!(first, second);
    assert_eq!(first.len(), 32);
    let expected = sha2::Sha256::digest(g.to_bytes()).to_vec();
    assert_eq!(first, expected);
    assert_ne!(first, g.to_bytes()[..32].to_vec());
    assert_ne!(hash(&g.plus(&g)), first);
}

#[test]
fn zero_message_round_trip_and_self_sum() {
    let sk = scalar(Fr::from(7u64));
    let g = generator();
    let pk = g.times(&sk);
    let r = scalar(Fr::from(11u64));
    let zero: Message = [0u8; 32];
    let ct = HashedElGamal::encrypt(zero, pk, g, r).unwrap();
    assert_eq!(HashedElGamal::decrypt(sk, ct).unwrap(), [0u8; 32]);
    assert_eq!(ct.c1, g.times(&r));
    assert_eq!(ct.c2.to_vec(), hash(&pk.times(&r)));

    let sum = ct.add(ct);
    assert_eq!(sum.c2, [0u8; 32]);
    assert_eq!(sum.c1, ct.c1.plus(&ct.c1));
    // the sum's mask comes from 2·r·pk, not from the XOR of the two masks
    let expected: Vec<u8> = hash(&sum.c1.times(&sk));
    assert_eq!(HashedElGamal::decrypt(sk, sum).unwrap().to_vec(), expected);
    assert_ne!(expected, vec![0u8; 32]);
}

#[test]
fn sum_decrypts_to_xor_when_masks_combine() {
    let sk = scalar(Fr::from(5u64));
    let g = generator();
    let pk = g.times(&sk);
    let m1: Message = [0x11; 32];
    let m2: Message = [0x2c; 32];
    let a = HashedElGamal::encrypt(m1, pk, g, scalar(Fr::from(3u64))).unwrap();
    let b = HashedElGamal::encrypt(m2, pk, g, scalar(Fr::from(4u64))).unwrap();
    let sum = a.add(b);
    let got = HashedElGamal::decrypt(sk, sum).unwrap();
    let mask_sum: [u8; 32] = message_from_bytes(&hash(&sum.c1.times(&sk))).unwrap();
    let mask_a: [u8; 32] = message_from_bytes(&hash(&a.c1.times(&sk))).unwrap();
    let mask_b: [u8; 32] = message_from_bytes(&hash(&b.c1.times(&sk))).unwrap();
    let m12 = cross_product::<32>(&m1, &m2);
    let masks = cross_product::<32>(&mask_a, &mask_b);
    assert_eq!(got, cross_product::<32>(&mask_sum, &cross_product::<32>(&a.c2, &b.c2)));
    assert_eq!(got == m12, mask_sum == masks);
}

#[test]
fn add_is_commutative_and_associative() {
    let sk = scalar(Fr::from(9u64));
    let g = generator();
    let pk = g.times(&sk);
    let a = HashedElGamal::encrypt([1; 32], pk, g, scalar(Fr::from(21u64))).unwrap();
    let b = HashedElGamal::encrypt([2; 32], pk, g, scalar(Fr::from(22u64))).unwrap();
    let c = HashedElGamal::encrypt([4; 32], pk, g, scalar(Fr::from(23u64))).unwrap();
    assert_eq!(a.add(b), b.add(a));
    assert_eq!(a.add(b).add(c), a.add(b.add(c)));
    assert_eq!(a.add(b).c2, cross_product::<32>(&a.c2, &b.c2));
}

#[test]
fn wrong_keys_do_not_recover_the_message() {
    let g = generator();
    let sk = scalar(Fr::from(1234u64));
    let pk = g.times(&sk);
    let m: Message = [0x5a; 32];
    let ct = HashedElGamal::encrypt(m, pk, g, scalar(Fr::from(77u64))).unwrap();
    assert_eq!(HashedElGamal::decrypt(sk, ct).unwrap(), m);
    for k in 1u64..6 {
        let other = scalar(Fr::from(1234u64 + k));
        assert_ne!(HashedElGamal::decrypt(other, ct).unwrap(), m);
    }
}

#[test]
fn altering_any_byte_of_c2_changes_the_plaintext() {
    let g = generator();
    let sk = scalar(Fr::from(99u64));
    let pk = g.times(&sk);
    let m: Message = [0x42; 32];
    let ct = HashedElGamal::encrypt(m, pk, g, scalar(Fr::from(5u64))).unwrap();
    for i in [0usize, 7, 16, 31] {
        let mut bad = ct;
        bad.c2[i] ^= 0x01;
        let got = HashedElGamal::decrypt(sk, bad).unwrap();
        assert_ne!(got, m);
        assert_eq!(got[i], m[i] ^ 0x01);
    }
}

#[test]
fn ciphertext_bytes_round_trip() {
    let g = generator();
    let sk = scalar(Fr::from(17u64));
    let pk = g.times(&sk);
    let ct = HashedElGamal::encrypt([0x33; 32], pk, g, scalar(Fr::from(8u64))).unwrap();
    let bytes = ct.to_bytes();
    assert_eq!(bytes.len(), 80);
    assert_eq!(bytes[..48].to_vec(), ct.c1.to_bytes().to_vec());
    assert_eq!(bytes[48..].to_vec(), ct.c2.to_vec());
    assert_eq!(Ciphertext::from_bytes(&bytes), Ok(ct));

    // the layout is that of arkworks' canonical serialization of the two fields
    let mut expected = Vec::new();
    G1::generator()
        .mul(Fr::from(8u64))
        .serialize_compressed(&mut expected)
        .unwrap();
    ct.c2.serialize_compressed(&mut expected).unwrap();
    assert_eq!(bytes, expected);
}

#[test]
fn ciphertext_from_bytes_rejects_bad_input() {
    assert_eq!(Ciphertext::from_bytes(&[0u8; 79]), Err(Error::InvalidBufferSize));
    assert_eq!(Ciphertext::from_bytes(&[0u8; 81]), Err(Error::InvalidBufferSize));
    assert_eq!(Ciphertext::from_bytes(&[]), Err(Error::InvalidBufferSize));
    assert_eq!(Ciphertext::from_bytes(&[0u8; 80]), Err(Error::InvalidPoint));
}
