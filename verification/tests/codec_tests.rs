use walrus_codec::{Axis, BlobEncoder, BlobMetadata, CodecError, Sliver};

fn encode_pairs(enc: &BlobEncoder, data: &Vec<u8>) -> Vec<walrus_codec::SliverPair> {
    let (pairs, _meta, _root) = enc.encode(data).unwrap();
    pairs
}

fn primary_subset(pairs: Vec<walrus_codec::SliverPair>, indices: &[u16]) -> Vec<Sliver> {
    let mut out = Vec::new();
    for pair in pairs.into_iter() {
        if indices.contains(&pair.primary.index) {
            out.push(pair.primary);
        }
    }
    out
}

#[test]
fn round_trip_systematic_subset() {
    let enc = BlobEncoder::new(10).unwrap();
    let data: Vec<u8> = (0u32..100).map(|i| (i * 7 % 251) as u8).collect();
    let pairs = encode_pairs(&enc, &data);
    assert_eq!(pairs.len(), 10);
    let slivers = primary_subset(pairs, &[0, 1, 2, 3]);
    let out = enc.decode(data.len() as u64, &slivers).unwrap();
    assert_eq!(out, data);
}

#[test]
fn round_trip_parity_subset() {
    let enc = BlobEncoder::new(10).unwrap();
    let data: Vec<u8> = (0u32..333).map(|i| (i * 13 % 256) as u8).collect();
    let pairs = encode_pairs(&enc, &data);
    let slivers = primary_subset(pairs, &[2, 5, 7, 9]);
    assert_eq!(slivers.len(), 4);
    let out = enc.decode(data.len() as u64, &slivers).unwrap();
    assert_eq!(out, data);
}

#[test]
fn round_trip_empty_blob() {
    let enc = BlobEncoder::new(10).unwrap();
    let data: Vec<u8> = Vec::new();
    let pairs = encode_pairs(&enc, &data);
    assert_eq!(pairs.len(), 10);
    let slivers = primary_subset(pairs, &[6, 7, 8, 9]);
    let out = enc.decode(0, &slivers).unwrap();
    assert!(out.is_empty());
}

#[test]
fn round_trip_aligned_size() {
    // n = 10 gives a 4 x 7 symbol matrix; 56 bytes fill it exactly with
    // one two-byte element per symbol.
    let enc = BlobEncoder::new(10).unwrap();
    let data: Vec<u8> = (0u8..56).collect();
    let pairs = encode_pairs(&enc, &data);
    let slivers = primary_subset(pairs, &[1, 4, 6, 9]);
    let out = enc.decode(56, &slivers).unwrap();
    assert_eq!(out, data);
}

#[test]
fn round_trip_single_shard() {
    let enc = BlobEncoder::new(1).unwrap();
    let data: Vec<u8> = vec![42, 0, 17];
    let pairs = encode_pairs(&enc, &data);
    assert_eq!(pairs.len(), 1);
    let slivers = primary_subset(pairs, &[0]);
    let out = enc.decode(3, &slivers).unwrap();
    assert_eq!(out, data);
}

#[test]
fn threshold_exact_succeeds() {
    let enc = BlobEncoder::new(10).unwrap();
    let data: Vec<u8> = vec![9; 77];
    let pairs = encode_pairs(&enc, &data);
    let slivers = primary_subset(pairs, &[0, 4, 5, 6]);
    assert_eq!(slivers.len(), 4);
    assert!(enc.decode(77, &slivers).is_ok());
}

#[test]
fn threshold_one_short_fails() {
    let enc = BlobEncoder::new(10).unwrap();
    let data: Vec<u8> = vec![9; 77];
    let pairs = encode_pairs(&enc, &data);
    let slivers = primary_subset(pairs, &[0, 4, 5]);
    assert_eq!(slivers.len(), 3);
    assert_eq!(
        enc.decode(77, &slivers).unwrap_err(),
        CodecError::InsufficientShares
    );
}

#[test]
fn duplicate_conflicting_payloads_rejected() {
    let enc = BlobEncoder::new(10).unwrap();
    let data: Vec<u8> = vec![5; 40];
    let pairs = encode_pairs(&enc, &data);
    let mut slivers = primary_subset(pairs, &[0, 1, 2, 3]);
    let mut forged = Vec::new();
    forged.extend_from_slice(&slivers[0].data);
    forged[0] ^= 1;
    slivers.push(Sliver {
        axis: Axis::Primary,
        index: 0,
        data: forged,
    });
    assert_eq!(
        enc.decode(40, &slivers).unwrap_err(),
        CodecError::DuplicateShare
    );
}

#[test]
fn duplicate_identical_payloads_tolerated() {
    let enc = BlobEncoder::new(10).unwrap();
    let data: Vec<u8> = vec![5; 40];
    let pairs = encode_pairs(&enc, &data);
    let mut slivers = primary_subset(pairs, &[0, 1, 2, 3]);
    let copy = Sliver {
        axis: Axis::Primary,
        index: slivers[0].index,
        data: slivers[0].data.clone(),
    };
    slivers.push(copy);
    let out = enc.decode(40, &slivers).unwrap();
    assert_eq!(out, data);
}

#[test]
fn wrong_axis_rejected() {
    let enc = BlobEncoder::new(10).unwrap();
    let data: Vec<u8> = vec![1; 30];
    let (pairs, _, _) = enc.encode(&data).unwrap();
    let mut slivers = Vec::new();
    for pair in pairs.into_iter().take(4) {
        slivers.push(pair.secondary);
    }
    assert_eq!(
        enc.decode(30, &slivers).unwrap_err(),
        CodecError::MalformedEncoding
    );
}

#[test]
fn out_of_range_index_rejected() {
    let enc = BlobEncoder::new(10).unwrap();
    let data: Vec<u8> = vec![1; 30];
    let pairs = encode_pairs(&enc, &data);
    let mut slivers = primary_subset(pairs, &[0, 1, 2, 3]);
    slivers[0].index = 10;
    assert_eq!(
        enc.decode(30, &slivers).unwrap_err(),
        CodecError::MalformedEncoding
    );
}

#[test]
fn wrong_sliver_length_rejected() {
    let enc = BlobEncoder::new(10).unwrap();
    let data: Vec<u8> = vec![1; 30];
    let pairs = encode_pairs(&enc, &data);
    let mut slivers = primary_subset(pairs, &[0, 1, 2, 3]);
    slivers[1].data.pop();
    assert_eq!(
        enc.decode(30, &slivers).unwrap_err(),
        CodecError::SizeMismatch
    );
}

#[test]
fn blob_too_large_rejected() {
    // n = 1: one 1 x 1 symbol of at most 65536 elements, so 131072 bytes.
    let enc = BlobEncoder::new(1).unwrap();
    let data: Vec<u8> = vec![0; 131073];
    assert_eq!(enc.encode(&data).unwrap_err(), CodecError::BlobTooLarge);
    let ok: Vec<u8> = vec![0; 131072];
    assert!(enc.encode(&ok).is_ok());
}

#[test]
fn end_to_end_thousand_zeros() {
    let enc = BlobEncoder::new(10).unwrap();
    let data: Vec<u8> = vec![0; 1000];
    let (pairs, meta, _root) = enc.encode(&data).unwrap();
    assert_eq!(pairs.len(), 10);
    match &meta {
        BlobMetadata::V1(m) => {
            assert_eq!(m.unencoded_length, 1000);
            assert_eq!(m.hashes.len(), 10);
        }
    }
    let slivers = primary_subset(pairs, &[0, 3, 8, 9]);
    assert_eq!(slivers.len(), 4);
    let out = enc.decode(1000, &slivers).unwrap();
    assert_eq!(out, vec![0; 1000]);
    // the blob identifier is stable across independent encodings
    let (id1, root1, len1, _) = enc.compute_metadata(&data).unwrap();
    let (id2, root2, len2, _) = enc.compute_metadata(&data).unwrap();
    assert_eq!(id1, id2);
    assert_eq!(root1, root2);
    assert_eq!(len1, 1000);
    assert_eq!(len2, 1000);
}

#[test]
fn decode_is_order_independent() {
    let enc = BlobEncoder::new(10).unwrap();
    let data: Vec<u8> = (0u32..150).map(|i| (i * 11 % 256) as u8).collect();
    let pairs = encode_pairs(&enc, &data);
    let mut slivers = primary_subset(pairs, &[1, 3, 6, 8]);
    slivers.reverse();
    let out = enc.decode(data.len() as u64, &slivers).unwrap();
    assert_eq!(out, data);
}

#[test]
fn determinism_same_root_and_id() {
    let enc = BlobEncoder::new(7).unwrap();
    let data: Vec<u8> = (0u32..513).map(|i| (i % 256) as u8).collect();
    let (_, _, root1) = enc.encode(&data).unwrap();
    let (_, _, root2) = enc.encode(&data).unwrap();
    assert_eq!(root1, root2);
    let (id1, _, _, _) = enc.compute_metadata(&data).unwrap();
    let (id2, _, _, _) = enc.compute_metadata(&data).unwrap();
    assert_eq!(id1, id2);
    // a different blob gives a different identifier
    let other: Vec<u8> = (0u32..513).map(|i| ((i + 1) % 256) as u8).collect();
    let (id3, root3, _, _) = enc.compute_metadata(&other).unwrap();
    assert_ne!(id1, id3);
    assert_ne!(root1, root3);
}
