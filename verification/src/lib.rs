//! Two-axis erasure coding of byte blobs into per-shard slivers, with a
//! deterministic commitment (per-sliver hashes, a root hash, and a blob
//! identifier) and a canonical binary format for slivers and metadata.

use vstd::prelude::*;

pub mod bls;
pub mod canonical;
pub mod codec;
pub mod config;
pub mod gf;
pub mod metadata;
pub mod sliver;

pub use bls::{
    bls12381_min_pk_aggregate, bls12381_min_pk_verify, bls12381_min_pk_verify_aggregate,
    SignatureError,
};
pub use config::{EncodingConfig, EncodingType};
pub use metadata::{BlobEncoder, BlobMetadata, BlobMetadataV1};
pub use sliver::{Axis, Sliver, SliverPair};

verus! {

/// Errors reported by the encoding, decoding and commitment operations.
///
/// All of these describe bad input or insufficient redundancy; none is a
/// transient fault, and no operation retries.
#[derive(Clone, Copy, Debug, PartialEq, Eq, Structural)]
pub enum CodecError {
    /// The shard count or the requested code variant is unusable.
    InvalidConfiguration,
    /// The requested code variant is not one this library implements.
    UnsupportedEncodingType,
    /// The blob exceeds the maximum size the configuration supports.
    BlobTooLarge,
    /// Canonical decoding failed: truncated input, an out-of-range index,
    /// or an invalid tag.
    MalformedEncoding,
    /// Fewer distinct shard indices than the reconstruction threshold.
    InsufficientShares,
    /// Two supplied slivers claim the same shard index with different content.
    DuplicateShare,
    /// A caller-declared length is inconsistent with the actual data.
    SizeMismatch,
}

} // verus!
