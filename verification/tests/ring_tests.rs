use rand::rngs::OsRng;
use rsa::{PublicKeyParts, RsaPrivateKey};
use ring_sig::ring::{verify, RSA_Ring_Signer};
use ring_sig::trapdoor::{PrivateKey, PublicKey};
use ring_sig::RingError;

fn gen_keys(bits: usize, count: usize) -> Vec<RsaPrivateKey> {
    let mut out = Vec::new();
    let mut rng = OsRng;
    for _ in 0..count {
        out.push(RsaPrivateKey::new(&mut rng, bits).expect("key generation"));
    }
    out
}

fn pub_of(k: &RsaPrivateKey) -> PublicKey {
    PublicKey { n: k.n().to_bytes_be(), e: k.e().to_bytes_be() }
}

fn priv_of(k: &RsaPrivateKey) -> PrivateKey {
    PrivateKey { n: k.n().to_bytes_be(), d: k.d().to_bytes_be() }
}

fn ring_of(keys: &[RsaPrivateKey]) -> Vec<PublicKey> {
    keys.iter().map(pub_of).collect()
}

#[test]
fn sign_verify_round_trip() {
    let keys = gen_keys(1024, 3);
    let ring = ring_of(&keys);
    for s in 0..3 {
        let signer = RSA_Ring_Signer::init(ring.clone(), priv_of(&keys[s])).expect("init");
        let msg = b"hello ring".to_vec();
        let sig = signer.sign(&msg).expect("sign");
        assert_eq!(sig.xi.len(), 3);
        let ok = verify(&ring, &sig.xi, &sig.glue, &msg).expect("verify");
        assert!(ok);
    }
}

#[test]
fn concrete_scenario_ring_of_three() {
    let keys = gen_keys(1024, 3);
    let ring = ring_of(&keys);
    let signer = RSA_Ring_Signer::init(ring.clone(), priv_of(&keys[1])).expect("init");
    let msg = b"abc".to_vec();
    let sig = signer.sign(&msg).expect("sign");
    assert_eq!(sig.xi.len(), 3);
    assert!(verify(&ring, &sig.xi, &sig.glue, &msg).expect("verify"));
    let other = b"abd".to_vec();
    assert!(!verify(&ring, &sig.xi, &sig.glue, &other).expect("verify"));
}

#[test]
fn tampering_breaks_verification() {
    let keys = gen_keys(1024, 3);
    let ring = ring_of(&keys);
    let signer = RSA_Ring_Signer::init(ring.clone(), priv_of(&keys[0])).expect("init");
    let msg = b"payload".to_vec();
    let sig = signer.sign(&msg).expect("sign");
    assert!(verify(&ring, &sig.xi, &sig.glue, &msg).expect("verify"));

    // Flip one bit of the message.
    let mut bad_msg = msg.clone();
    bad_msg[0] ^= 1;
    assert!(!verify(&ring, &sig.xi, &sig.glue, &bad_msg).expect("verify"));

    // Flip one bit in each xi entry in turn.
    for j in 0..3 {
        let mut bad_xi = sig.xi.clone();
        bad_xi[j][5] ^= 0x10;
        assert!(!verify(&ring, &bad_xi, &sig.glue, &msg).expect("verify"));
    }

    // Flip one bit of the glue.
    let mut bad_glue = sig.glue.clone();
    bad_glue[7] ^= 0x80;
    assert!(!verify(&ring, &sig.xi, &bad_glue, &msg).expect("verify"));
}

#[test]
fn signatures_share_shape_across_positions() {
    let keys = gen_keys(1024, 3);
    let ring = ring_of(&keys);
    let msg = b"same message".to_vec();
    let mut shapes = Vec::new();
    for s in 0..3 {
        let signer = RSA_Ring_Signer::init(ring.clone(), priv_of(&keys[s])).expect("init");
        let sig = signer.sign(&msg).expect("sign");
        let xi_lens: Vec<usize> = sig.xi.iter().map(|x| x.len()).collect();
        shapes.push((xi_lens, sig.glue.len()));
    }
    // Every position yields the same output shape: 3 xi entries of 129
    // bytes each and a 128-byte glue value.
    for (xi_lens, glue_len) in &shapes {
        assert_eq!(xi_lens, &vec![129, 129, 129]);
        assert_eq!(*glue_len, 128);
    }
}

#[test]
fn init_rejects_bad_rings() {
    let keys = gen_keys(1024, 2);
    let outsider = gen_keys(1024, 1);
    let ring = ring_of(&keys);

    let empty: Vec<PublicKey> = Vec::new();
    assert_eq!(
        RSA_Ring_Signer::init(empty, priv_of(&keys[0])).err(),
        Some(RingError::EmptyRing)
    );

    assert_eq!(
        RSA_Ring_Signer::init(ring.clone(), priv_of(&outsider[0])).err(),
        Some(RingError::SignerKeyMissing)
    );

    let mut dup = ring.clone();
    dup.push(pub_of(&keys[0]));
    assert_eq!(
        RSA_Ring_Signer::init(dup, priv_of(&keys[0])).err(),
        Some(RingError::SignerKeyDuplicated)
    );

    let mut bad = ring.clone();
    bad[1] = PublicKey { n: vec![1, 2, 3], e: vec![3] };
    assert_eq!(
        RSA_Ring_Signer::init(bad, priv_of(&keys[0])).err(),
        Some(RingError::InvalidRingModulus)
    );
}

#[test]
fn verify_rejects_malformed_input() {
    let keys = gen_keys(1024, 2);
    let ring = ring_of(&keys);
    let msg = b"m".to_vec();

    let empty: Vec<PublicKey> = Vec::new();
    assert_eq!(
        verify(&empty, &Vec::new(), &vec![0u8; 128], &msg).err(),
        Some(RingError::EmptyRing)
    );

    let one_xi = vec![vec![0u8; 129]];
    assert_eq!(
        verify(&ring, &one_xi, &vec![0u8; 128], &msg).err(),
        Some(RingError::XiLengthMismatch)
    );

    let mut bad = ring.clone();
    bad[0] = PublicKey { n: vec![9u8; 20], e: vec![3] };
    let two_xi = vec![vec![0u8; 129], vec![0u8; 129]];
    assert_eq!(
        verify(&bad, &two_xi, &vec![0u8; 128], &msg).err(),
        Some(RingError::InvalidRingModulus)
    );

    // Well-formed but wild guesses are merely invalid, not errors.
    let guess_xi = vec![vec![7u8; 129], vec![11u8; 129]];
    assert_eq!(verify(&ring, &guess_xi, &vec![5u8; 128], &msg), Ok(false));
}

#[test]
fn single_member_ring_round_trip() {
    let keys = gen_keys(1024, 1);
    let ring = ring_of(&keys);
    let signer = RSA_Ring_Signer::init(ring.clone(), priv_of(&keys[0])).expect("init");
    let msg = b"alone".to_vec();
    let sig = signer.sign(&msg).expect("sign");
    assert_eq!(sig.xi.len(), 1);
    assert!(verify(&ring, &sig.xi, &sig.glue, &msg).expect("verify"));
    assert!(!verify(&ring, &sig.xi, &sig.glue, &b"alone!".to_vec()).expect("verify"));
}
