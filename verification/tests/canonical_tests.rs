use fastcrypto::hash::HashFunction;
use walrus_codec::canonical::{decode_pair, decode_sliver, encode_pair, encode_sliver};
use walrus_codec::metadata::{compute_root_hash, decode_metadata, encode_metadata};
use walrus_codec::{Axis, BlobEncoder, BlobMetadataV1, CodecError, EncodingType, Sliver, SliverPair};

fn sample_sliver() -> Sliver {
    Sliver {
        axis: Axis::Secondary,
        index: 513,
        data: vec![1, 2, 3, 254, 255],
    }
}

#[test]
fn sliver_canonical_round_trip() {
    let s = sample_sliver();
    let bytes = encode_sliver(&s);
    let back = decode_sliver(&bytes).unwrap();
    assert_eq!(back.axis, s.axis);
    assert_eq!(back.index, s.index);
    assert_eq!(back.data, s.data);
}

#[test]
fn sliver_canonical_byte_stable() {
    let s = sample_sliver();
    assert_eq!(encode_sliver(&s), encode_sliver(&s));
    // fixed expected layout: tag, index LE, length LE, payload
    let bytes = encode_sliver(&s);
    let mut expected: Vec<u8> = vec![1, 1, 2];
    expected.extend_from_slice(&5u64.to_le_bytes());
    expected.extend_from_slice(&[1, 2, 3, 254, 255]);
    assert_eq!(bytes, expected);
}

#[test]
fn sliver_canonical_empty_payload() {
    let s = Sliver {
        axis: Axis::Primary,
        index: 0,
        data: vec![],
    };
    let bytes = encode_sliver(&s);
    assert_eq!(bytes.len(), 11);
    let back = decode_sliver(&bytes).unwrap();
    assert_eq!(back.axis, Axis::Primary);
    assert_eq!(back.index, 0);
    assert!(back.data.is_empty());
}

#[test]
fn sliver_malformed_inputs_rejected() {
    // truncated header
    assert_eq!(
        decode_sliver(&vec![0, 1, 2]).unwrap_err(),
        CodecError::MalformedEncoding
    );
    // bad axis tag
    let mut bytes = encode_sliver(&sample_sliver());
    bytes[0] = 7;
    assert_eq!(
        decode_sliver(&bytes).unwrap_err(),
        CodecError::MalformedEncoding
    );
    // declared length disagrees with the buffer
    let mut bytes2 = encode_sliver(&sample_sliver());
    bytes2.push(0);
    assert_eq!(
        decode_sliver(&bytes2).unwrap_err(),
        CodecError::MalformedEncoding
    );
}

#[test]
fn pair_canonical_is_concatenation() {
    let p = SliverPair {
        primary: Sliver {
            axis: Axis::Primary,
            index: 3,
            data: vec![10, 20],
        },
        secondary: Sliver {
            axis: Axis::Secondary,
            index: 3,
            data: vec![30],
        },
    };
    let mut expected = encode_sliver(&p.primary);
    expected.extend_from_slice(&encode_sliver(&p.secondary));
    assert_eq!(encode_pair(&p), expected);
}

#[test]
fn pair_canonical_round_trip() {
    let p = SliverPair {
        primary: Sliver {
            axis: Axis::Primary,
            index: 9,
            data: vec![1, 2, 3, 4],
        },
        secondary: Sliver {
            axis: Axis::Secondary,
            index: 9,
            data: vec![5, 6],
        },
    };
    let bytes = encode_pair(&p);
    let back = decode_pair(&bytes).unwrap();
    assert_eq!(back.primary.index, 9);
    assert_eq!(back.secondary.index, 9);
    assert_eq!(back.primary.data, vec![1, 2, 3, 4]);
    assert_eq!(back.secondary.data, vec![5, 6]);
    // mismatched indices are rejected
    let q = SliverPair {
        primary: Sliver {
            axis: Axis::Primary,
            index: 1,
            data: vec![],
        },
        secondary: Sliver {
            axis: Axis::Secondary,
            index: 2,
            data: vec![],
        },
    };
    assert_eq!(
        decode_pair(&encode_pair(&q)).unwrap_err(),
        walrus_codec::CodecError::MalformedEncoding
    );
}

#[test]
fn metadata_canonical_round_trip() {
    let m = BlobMetadataV1 {
        unencoded_length: 123456789,
        encoding_type: EncodingType::RS2,
        hashes: vec![vec![7u8; 32], vec![9u8; 32], vec![11u8; 32]],
    };
    let bytes = encode_metadata(&m);
    assert_eq!(bytes, encode_metadata(&m));
    let back = decode_metadata(&bytes).unwrap();
    assert_eq!(back.unencoded_length, 123456789);
    assert_eq!(back.encoding_type, EncodingType::RS2);
    assert_eq!(back.hashes, m.hashes);
}

#[test]
fn metadata_malformed_inputs_rejected() {
    let m = BlobMetadataV1 {
        unencoded_length: 1,
        encoding_type: EncodingType::RS2,
        hashes: vec![vec![0u8; 32]],
    };
    let good = encode_metadata(&m);
    // wrong version byte
    let mut bad = good.clone();
    bad[0] = 2;
    assert_eq!(
        decode_metadata(&bad).unwrap_err(),
        CodecError::MalformedEncoding
    );
    // wrong code variant tag
    let mut bad2 = good.clone();
    bad2[9] = 0;
    assert_eq!(
        decode_metadata(&bad2).unwrap_err(),
        CodecError::MalformedEncoding
    );
    // truncated digest list
    let mut bad3 = good.clone();
    bad3.pop();
    assert_eq!(
        decode_metadata(&bad3).unwrap_err(),
        CodecError::MalformedEncoding
    );
}

#[test]
fn decode_canonical_reconstructs_blob() {
    let enc = BlobEncoder::new(10).unwrap();
    let data: Vec<u8> = (0u32..200).map(|i| (i * 3 % 256) as u8).collect();
    let (pairs, _, _) = enc.encode(&data).unwrap();
    let mut buffers: Vec<Vec<u8>> = Vec::new();
    for pair in pairs.into_iter() {
        if [1u16, 5, 6, 8].contains(&pair.primary.index) {
            buffers.push(encode_sliver(&pair.primary));
        }
    }
    let out = enc.decode_canonical(data.len() as u64, &buffers).unwrap();
    assert_eq!(out, data);
}

#[test]
fn decode_canonical_rejects_garbage_buffer() {
    let enc = BlobEncoder::new(10).unwrap();
    let buffers: Vec<Vec<u8>> = vec![vec![1, 2, 3]];
    assert_eq!(
        enc.decode_canonical(10, &buffers).unwrap_err(),
        CodecError::MalformedEncoding
    );
}

#[test]
fn tamper_in_sliver_changes_root_hash() {
    let enc = BlobEncoder::new(10).unwrap();
    let data: Vec<u8> = (0u32..500).map(|i| (i % 251) as u8).collect();
    let (pairs, meta, root) = enc.encode(&data).unwrap();
    let hashes = match meta {
        walrus_codec::BlobMetadata::V1(m) => m.hashes,
    };
    assert_eq!(compute_root_hash(&hashes), root);
    // flip one bit in one sliver pair's canonical bytes and rehash it
    let mut pair_bytes = encode_pair(&pairs[4]);
    pair_bytes[17] ^= 0x10;
    let tampered_hash = fastcrypto::hash::Blake2b256::digest(pair_bytes.as_slice()).to_vec();
    let mut tampered = hashes.clone();
    assert_ne!(tampered_hash, tampered[4]);
    tampered[4] = tampered_hash;
    assert_ne!(compute_root_hash(&tampered), root);
}
