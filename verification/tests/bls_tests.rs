use fastcrypto::bls12381::min_pk::{BLS12381KeyPair, BLS12381PrivateKey};
use fastcrypto::traits::{KeyPair, Signer, ToFromBytes};
use walrus_codec::{
    bls12381_min_pk_aggregate, bls12381_min_pk_verify, bls12381_min_pk_verify_aggregate,
    SignatureError,
};

fn keypair_from_scalar(scalar: u8) -> BLS12381KeyPair {
    // a fixed small scalar, valid as a private key
    let mut sk_bytes = [0u8; 32];
    sk_bytes[31] = scalar;
    let sk = BLS12381PrivateKey::from_bytes(&sk_bytes).unwrap();
    BLS12381KeyPair::from(sk)
}

fn test_keypair() -> BLS12381KeyPair {
    keypair_from_scalar(1)
}

#[test]
fn aggregate_zero_signatures_is_empty_input() {
    assert_eq!(
        bls12381_min_pk_aggregate(&Vec::new()).unwrap_err(),
        SignatureError::EmptyInput
    );
}

#[test]
fn aggregate_one_signature_and_verify() {
    let kp = test_keypair();
    let msg = b"a blob commitment";
    let sig = kp.sign(msg);
    let agg = bls12381_min_pk_aggregate(&vec![sig.as_bytes().to_vec()]).unwrap();
    assert_eq!(agg.len(), 96);
    let pk_bytes = kp.public().as_bytes().to_vec();
    let verdict = bls12381_min_pk_verify_aggregate(&vec![pk_bytes], msg, &agg).unwrap();
    assert!(verdict);
}

#[test]
fn aggregate_is_deterministic() {
    let kp = test_keypair();
    let sig = kp.sign(b"same input").as_bytes().to_vec();
    let a1 = bls12381_min_pk_aggregate(&vec![sig.clone()]).unwrap();
    let a2 = bls12381_min_pk_aggregate(&vec![sig]).unwrap();
    assert_eq!(a1, a2);
}

#[test]
fn aggregate_two_signatures_and_verify() {
    let kp1 = keypair_from_scalar(1);
    let kp2 = keypair_from_scalar(2);
    let msg = b"two signers, one message";
    let sigs = vec![
        kp1.sign(msg).as_bytes().to_vec(),
        kp2.sign(msg).as_bytes().to_vec(),
    ];
    let agg = bls12381_min_pk_aggregate(&sigs).unwrap();
    let pks = vec![
        kp1.public().as_bytes().to_vec(),
        kp2.public().as_bytes().to_vec(),
    ];
    assert!(bls12381_min_pk_verify_aggregate(&pks, msg, &agg).unwrap());
    // the verdict is false under the wrong key set
    let wrong = vec![kp1.public().as_bytes().to_vec()];
    assert!(!bls12381_min_pk_verify_aggregate(&wrong, msg, &agg).unwrap());
}

#[test]
fn verify_single_signature() {
    let kp = test_keypair();
    let msg = b"hello shards";
    let sig = kp.sign(msg);
    let ok = bls12381_min_pk_verify(sig.as_bytes(), kp.public().as_bytes(), msg).unwrap();
    assert!(ok);
    let bad = bls12381_min_pk_verify(sig.as_bytes(), kp.public().as_bytes(), b"other").unwrap();
    assert!(!bad);
}

#[test]
fn malformed_signature_bytes_rejected() {
    let kp = test_keypair();
    assert_eq!(
        bls12381_min_pk_verify(&[1, 2, 3], kp.public().as_bytes(), b"m").unwrap_err(),
        SignatureError::MalformedSignature
    );
    assert_eq!(
        bls12381_min_pk_aggregate(&vec![vec![0u8; 5]]).unwrap_err(),
        SignatureError::MalformedSignature
    );
}

#[test]
fn malformed_key_bytes_rejected() {
    let kp = test_keypair();
    let msg = b"m";
    let sig = kp.sign(msg);
    assert_eq!(
        bls12381_min_pk_verify(sig.as_bytes(), &[9, 9], msg).unwrap_err(),
        SignatureError::MalformedKey
    );
    assert_eq!(
        bls12381_min_pk_verify_aggregate(&vec![vec![0u8; 2]], msg, sig.as_bytes()).unwrap_err(),
        SignatureError::MalformedKey
    );
}

#[test]
fn verify_aggregate_malformed_aggregate_rejected() {
    let kp = test_keypair();
    let pk_bytes = kp.public().as_bytes().to_vec();
    assert_eq!(
        bls12381_min_pk_verify_aggregate(&vec![pk_bytes], b"m", &[0u8; 3]).unwrap_err(),
        SignatureError::MalformedSignature
    );
}
