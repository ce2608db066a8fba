use aes::cipher::generic_array::GenericArray;
use aes::cipher::{BlockEncrypt, NewBlockCipher};
use sha2::Digest;
use ring_sig::ring::{hash, rand256Bytes};
use ring_sig::sym::{decrypt, encrypt};
use ring_sig::trapdoor::{compute_trapdoor, invert_trapdoor, PrivateKey, PublicKey};
use ring_sig::RingError;

#[test]
fn key_derivation_matches_the_primitives() {
    let msg = b"abc".to_vec();
    let derived = hash(&msg);
    assert_eq!(derived.len(), 16);

    let sha = sha2::Sha256::digest(&msg[..]);
    let expected = sp_core::hashing::blake2_128(sha.as_slice());
    assert_eq!(derived, expected.to_vec());

    // Deterministic: the same message derives the same key.
    assert_eq!(hash(&msg), derived);
    // A different message derives a different key.
    assert_ne!(hash(&b"abd".to_vec()), derived);
}

#[test]
fn cipher_round_trips_whole_blocks() {
    let key: Vec<u8> = (0u8..16).collect();
    let data: Vec<u8> = (0u8..48).collect();
    let ct = encrypt(&key, &data).expect("encrypt");
    assert_eq!(ct.len(), data.len());
    assert_ne!(ct, data);
    let pt = decrypt(&key, &ct).expect("decrypt");
    assert_eq!(pt, data);
}

#[test]
fn cipher_matches_aes_per_block() {
    let key: Vec<u8> = (100u8..116).collect();
    let data: Vec<u8> = (0u8..32).collect();
    let ct = encrypt(&key, &data).expect("encrypt");

    let cipher = aes::Aes128::new(GenericArray::from_slice(&key));
    for b in 0..2 {
        let mut block = GenericArray::clone_from_slice(&data[b * 16..(b + 1) * 16]);
        cipher.encrypt_block(&mut block);
        assert_eq!(&ct[b * 16..(b + 1) * 16], block.as_slice());
    }
}

#[test]
fn cipher_rejects_partial_blocks() {
    let key: Vec<u8> = vec![7u8; 16];
    let data: Vec<u8> = vec![1u8; 20];
    assert_eq!(encrypt(&key, &data), Err(RingError::BlockLengthMismatch));
    assert_eq!(decrypt(&key, &data), Err(RingError::BlockLengthMismatch));
    // The empty input is zero whole blocks, not an error.
    assert_eq!(encrypt(&key, &Vec::new()), Ok(Vec::new()));
}

// The classic toy RSA key pair: n = 61 * 53, e = 17, d = 2753.
fn toy_keys() -> (PublicKey, PrivateKey) {
    let n = vec![0x0c, 0xa1]; // 3233
    let e = vec![0x11]; // 17
    let d = vec![0x0a, 0xc1]; // 2753
    (PublicKey { n: n.clone(), e }, PrivateKey { n, d })
}

fn be_to_u64(v: &[u8]) -> u64 {
    v.iter().fold(0u64, |acc, b| acc * 256 + *b as u64)
}

fn u64_to_be(mut v: u64) -> Vec<u8> {
    if v == 0 {
        return vec![0];
    }
    let mut out = Vec::new();
    while v > 0 {
        out.push((v % 256) as u8);
        v /= 256;
    }
    out.reverse();
    out
}

#[test]
fn trapdoor_round_trips_over_the_extended_domain() {
    let (pk, sk) = toy_keys();
    let n = 3233u64;
    // Inputs spanning several multiples of the modulus, far past n itself.
    let samples: Vec<u64> = vec![
        0,
        1,
        42,
        n - 1,
        n,
        n + 1,
        5 * n + 17,
        1000 * n + 3232,
        123456789,
        u32::MAX as u64,
    ];
    for x in samples {
        let xb = u64_to_be(x);
        let y = compute_trapdoor(&xb, &pk);
        let back = invert_trapdoor(&y, &sk);
        assert_eq!(be_to_u64(&back), x);
        // And in the other order as well.
        let z = invert_trapdoor(&xb, &sk);
        let forth = compute_trapdoor(&z, &pk);
        assert_eq!(be_to_u64(&forth), x);
        // The permutation keeps the quotient digit.
        assert_eq!(be_to_u64(&y) / n, x / n);
    }
    // A concrete value: 123^17 mod 3233 == 855 by direct computation.
    let y = compute_trapdoor(&u64_to_be(123), &pk);
    assert_eq!(be_to_u64(&y), 855);
}

#[test]
fn random_values_are_wide_and_topless() {
    let v = rand256Bytes().expect("randomness");
    assert_eq!(v.len(), 256);
    assert!(v[0] < 128);
    let w = rand256Bytes().expect("randomness");
    // Two draws of 2047 random bits never coincide in practice.
    assert_ne!(v, w);
}
