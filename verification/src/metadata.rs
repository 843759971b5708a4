//! Blob metadata and the commitment over it: one digest per sliver pair,
//! a root hash over the ordered pair digests (never over raw payloads, so
//! the commitment can be recomputed without retaining slivers), and the
//! blob identifier binding root hash, length and code variant.

use vstd::prelude::*;
use crate::canonical::{decode_sliver, encode_pair, parsed_axis, read_u16, read_u64, sliver_bytes, sliver_parse_ok, u64_le};
use crate::codec::{
    decode_check, decode_primary, decoded_byte, encode_pairs, primary_sliver_data,
    secondary_sliver_data,
};
use crate::config::{self, EncodingConfig, EncodingType};
use crate::sliver::{Axis, Sliver, SliverPair};
use crate::CodecError;

verus! {

/// The digest this library commits with (32 bytes), as a function of the
/// input bytes alone.
pub uninterp spec fn digest_of(bytes: Seq<u8>) -> Seq<u8>;

/// Relies on fastcrypto's Blake2b256: a 32-byte digest of the input,
/// depending on the input bytes alone.
#[verifier::external_body]
fn blake2b256(bytes: &Vec<u8>) -> (r: Vec<u8>)
    ensures
        r@ == digest_of(bytes@),
        r@.len() == 32,
{
    <fastcrypto::hash::Blake2b256 as fastcrypto::hash::HashFunction<32>>::digest(
        bytes.as_slice(),
    ).to_vec()
}

/// The canonical bytes of one sliver pair of the encoding of blob `b`.
pub open spec fn spec_pair_bytes(n: u16, b: Seq<u8>, j: int) -> Seq<u8> {
    sliver_bytes(Axis::Primary, j as u16, primary_sliver_data(b, n, j)) + sliver_bytes(
        Axis::Secondary,
        j as u16,
        secondary_sliver_data(b, n, j),
    )
}

/// The digest of sliver pair `j` of the encoding of blob `b`.
pub open spec fn spec_pair_hash(n: u16, b: Seq<u8>, j: int) -> Seq<u8> {
    digest_of(spec_pair_bytes(n, b, j))
}

/// The ordered pair digests of the encoding of blob `b`.
pub open spec fn spec_hashes(n: u16, b: Seq<u8>) -> Seq<Seq<u8>> {
    Seq::new(n as nat, |j: int| spec_pair_hash(n, b, j))
}

/// Concatenation of an ordered list of digests.
pub open spec fn concat_hashes(hashes: Seq<Seq<u8>>) -> Seq<u8>
    decreases hashes.len()
{
    if hashes.len() == 0 {
        Seq::empty()
    } else {
        concat_hashes(hashes.drop_last()) + hashes.last()
    }
}

/// The root hash over an ordered list of pair digests.
pub open spec fn root_of(hashes: Seq<Seq<u8>>) -> Seq<u8> {
    digest_of(concat_hashes(hashes))
}

/// The root hash of the encoding of blob `b` under `n` shards.
pub open spec fn spec_root_hash(n: u16, b: Seq<u8>) -> Seq<u8> {
    root_of(spec_hashes(n, b))
}

/// The blob identifier derived from a root hash, the unencoded length and
/// the code variant.
pub open spec fn blob_id_of(root: Seq<u8>, len: u64, et: EncodingType) -> Seq<u8> {
    digest_of(root + u64_le(len) + seq![et.spec_code()])
}

/// The blob identifier of the encoding of blob `b` under `n` shards.
pub open spec fn spec_blob_id(n: u16, b: Seq<u8>, et: EncodingType) -> Seq<u8> {
    blob_id_of(spec_root_hash(n, b), b.len() as u64, et)
}

/// Views of a list of byte vectors.
pub open spec fn views(hs: Seq<Vec<u8>>) -> Seq<Seq<u8>> {
    hs.map_values(|v: Vec<u8>| v@)
}

/// Versioned blob metadata; the single current version.
#[derive(Debug)]
pub struct BlobMetadataV1 {
    /// Length in bytes of the blob before encoding.
    pub unencoded_length: u64,
    /// The code variant the blob was encoded with.
    pub encoding_type: EncodingType,
    /// One 32-byte digest per sliver pair, in shard-index order.
    pub hashes: Vec<Vec<u8>>,
}

impl BlobMetadataV1 {
    /// Well-formed metadata: one fixed-width digest per shard, and few
    /// enough shards for the canonical count prefix.
    pub open spec fn wf(self) -> bool {
        self.hashes@.len() <= 65535 && (forall|i: int|
            0 <= i < self.hashes@.len() ==> (#[trigger] self.hashes@[i])@.len() == 32)
    }
}

/// Versioned blob metadata record.
#[derive(Debug)]
pub enum BlobMetadata {
    V1(BlobMetadataV1),
}

impl BlobMetadata {
    /// Well-formedness of the carried version.
    pub open spec fn wf(self) -> bool {
        match self {
            BlobMetadata::V1(inner) => inner.wf(),
        }
    }
}

/// Append the little-endian bytes of `x`.
fn push_u64_le(v: &mut Vec<u8>, x: u64)
    ensures
        final(v)@ == old(v)@ + u64_le(x),
{
    v.push((x & 0xff) as u8);
    v.push(((x >> 8) & 0xff) as u8);
    v.push(((x >> 16) & 0xff) as u8);
    v.push(((x >> 24) & 0xff) as u8);
    v.push(((x >> 32) & 0xff) as u8);
    v.push(((x >> 40) & 0xff) as u8);
    v.push(((x >> 48) & 0xff) as u8);
    v.push(((x >> 56) & 0xff) as u8);
    proof {
        assert(x & 0xff == (x >> 0) & 0xff) by (bit_vector);
        assert(v@ =~= old(v)@ + u64_le(x));
    }
}

/// Concatenate an ordered list of digests.
fn concat_hashes_exec(hashes: &Vec<Vec<u8>>) -> (r: Vec<u8>)
    ensures
        r@ == concat_hashes(views(hashes@)),
{
    let mut r: Vec<u8> = Vec::new();
    let mut i: usize = 0;
    while i < hashes.len()
        invariant
            i <= hashes@.len(),
            r@ == concat_hashes(views(hashes@.take(i as int))),
        decreases hashes@.len() - i,
    {
        let h = &hashes[i];
        let mut m: usize = 0;
        let ghost pre = r@;
        while m < h.len()
            invariant
                m <= h@.len(),
                r@ == pre + h@.take(m as int),
            decreases h@.len() - m,
        {
            r.push(h[m]);
            proof {
                assert(pre + h@.take(m as int + 1) =~= (pre + h@.take(m as int)).push(
                    h@[m as int],
                ));
            }
            m = m + 1;
        }
        proof {
            assert(h@.take(h@.len() as int) =~= h@);
            let tv = views(hashes@.take(i as int + 1));
            assert(tv.drop_last() =~= views(hashes@.take(i as int)));
            assert(tv.last() == hashes@[i as int]@);
            assert(r@ == concat_hashes(tv));
        }
        i = i + 1;
    }
    proof {
        assert(hashes@.take(hashes@.len() as int) =~= hashes@);
    }
    r
}

/// Root hash over an ordered list of pair digests.
pub fn compute_root_hash(hashes: &Vec<Vec<u8>>) -> (r: Vec<u8>)
    ensures
        r@ == root_of(views(hashes@)),
        r@.len() == 32,
{
    let buf = concat_hashes_exec(hashes);
    blake2b256(&buf)
}

/// Blob identifier from a root hash, unencoded length and code variant.
pub fn compute_blob_id(root: &Vec<u8>, len: u64, et: EncodingType) -> (r: Vec<u8>)
    ensures
        r@ == blob_id_of(root@, len, et),
        r@.len() == 32,
{
    let mut buf: Vec<u8> = Vec::new();
    let mut m: usize = 0;
    while m < root.len()
        invariant
            m <= root@.len(),
            buf@ == root@.take(m as int),
        decreases root@.len() - m,
    {
        buf.push(root[m]);
        proof {
            assert(root@.take(m as int + 1) =~= root@.take(m as int).push(root@[m as int]));
        }
        m = m + 1;
    }
    proof {
        assert(root@.take(root@.len() as int) =~= root@);
    }
    push_u64_le(&mut buf, len);
    buf.push(et.code());
    proof {
        assert(buf@ =~= root@ + u64_le(len) + seq![et.spec_code()]);
    }
    blake2b256(&buf)
}

/// Determinism of the commitment: any two root hashes computed for the
/// same blob bytes under the same shard count are equal, and so are the
/// blob identifiers derived from them for the same length and code variant.
pub proof fn lemma_encode_deterministic(
    n: u16,
    b: Seq<u8>,
    r1: Seq<u8>,
    r2: Seq<u8>,
    i1: Seq<u8>,
    i2: Seq<u8>,
    et: EncodingType,
)
    requires
        r1 == spec_root_hash(n, b),
        r2 == spec_root_hash(n, b),
        i1 == blob_id_of(r1, b.len() as u64, et),
        i2 == blob_id_of(r2, b.len() as u64, et),
    ensures
        r1 == r2,
        i1 == i2,
{
}

/// The canonical bytes of a metadata record: a version byte (1), the
/// unencoded length, the code variant tag, the pair-digest count as two
/// little-endian bytes, then the 32-byte digests in order.
pub open spec fn metadata_bytes(m: BlobMetadataV1) -> Seq<u8> {
    seq![1u8] + u64_le(m.unencoded_length) + seq![m.encoding_type.spec_code()] + crate::canonical::u16_le(
        m.hashes@.len() as u16,
    ) + concat_hashes(views(m.hashes@))
}

/// Whether a byte string is the canonical form of some metadata record.
pub open spec fn metadata_parse_ok(bs: Seq<u8>) -> bool {
    bs.len() >= 12 && bs[0] == 1 && bs[9] == 1 && bs.len() == 12 + 32 * (read_u16(bs, 10) as int)
}

/// A concatenation of 32-byte digests is indexed digestwise.
pub proof fn lemma_concat_fixed(hs: Seq<Seq<u8>>)
    requires
        forall|i: int| 0 <= i < hs.len() ==> (#[trigger] hs[i]).len() == 32,
    ensures
        concat_hashes(hs).len() == 32 * hs.len(),
        forall|x: int|
            0 <= x < concat_hashes(hs).len() ==> #[trigger] concat_hashes(hs)[x] == hs[x / 32][x
                % 32],
    decreases hs.len(),
{
    if hs.len() > 0 {
        let pre = hs.drop_last();
        lemma_concat_fixed(pre);
        assert forall|x: int| 0 <= x < concat_hashes(hs).len() implies #[trigger] concat_hashes(
            hs,
        )[x] == hs[x / 32][x % 32] by {
            if x < 32 * pre.len() {
                assert(concat_hashes(hs)[x] == concat_hashes(pre)[x]);
                assert(0 <= x / 32 < pre.len() && pre[x / 32] == hs[x / 32]) by {
                    vstd::arithmetic::div_mod::lemma_fundamental_div_mod(x, 32);
                }
            } else {
                vstd::arithmetic::div_mod::lemma_fundamental_div_mod_converse(
                    x,
                    32,
                    hs.len() - 1,
                    x - 32 * (hs.len() - 1),
                );
                assert(concat_hashes(hs)[x] == hs.last()[x - 32 * (hs.len() - 1)]);
            }
        }
    }
}

/// Tamper sensitivity up to the digest: a change in any one pair digest
/// changes the byte string the root hash is computed over. (That the
/// digest itself then changes is a property of the hash function and is
/// exercised by tests, not proved.)
pub proof fn lemma_tamper_changes_root_input(h1: Seq<Seq<u8>>, h2: Seq<Seq<u8>>, i: int, k: int)
    requires
        h1.len() == h2.len(),
        forall|m: int| 0 <= m < h1.len() ==> (#[trigger] h1[m]).len() == 32,
        forall|m: int| 0 <= m < h2.len() ==> (#[trigger] h2[m]).len() == 32,
        0 <= i < h1.len(),
        0 <= k < 32,
        h1[i][k] != h2[i][k],
    ensures
        concat_hashes(h1) != concat_hashes(h2),
{
    lemma_concat_fixed(h1);
    lemma_concat_fixed(h2);
    vstd::arithmetic::div_mod::lemma_fundamental_div_mod_converse(32 * i + k, 32, i, k);
    assert(concat_hashes(h1)[32 * i + k] == h1[i][k]);
    assert(concat_hashes(h2)[32 * i + k] == h2[i][k]);
}

/// Serialize a metadata record into its canonical bytes.
pub fn encode_metadata(m: &BlobMetadataV1) -> (r: Vec<u8>)
    requires
        m.wf(),
    ensures
        r@ == metadata_bytes(*m),
{
    let mut r: Vec<u8> = Vec::new();
    r.push(1u8);
    push_u64_le(&mut r, m.unencoded_length);
    r.push(m.encoding_type.code());
    let count = m.hashes.len() as u16;
    r.push((count % 256) as u8);
    r.push((count / 256) as u8);
    proof {
        assert(r@ =~= seq![1u8] + u64_le(m.unencoded_length) + seq![m.encoding_type.spec_code()]
            + crate::canonical::u16_le(m.hashes@.len() as u16));
    }
    let mut tail = concat_hashes_exec(&m.hashes);
    r.append(&mut tail);
    r
}

/// Parse the canonical bytes of a metadata record. The whole buffer must
/// be consumed exactly; anything else is `MalformedEncoding`.
#[verifier::loop_isolation(false)]
pub fn decode_metadata(bs: &Vec<u8>) -> (r: Result<BlobMetadataV1, CodecError>)
    ensures
        r is Ok <==> metadata_parse_ok(bs@),
        r matches Ok(m) ==> m.wf() && m.unencoded_length == read_u64(bs@, 1)
            && m.encoding_type == EncodingType::RS2 && m.hashes@.len() == read_u16(bs@, 10)
            && (forall|i: int|
            0 <= i < m.hashes@.len() ==> (#[trigger] m.hashes@[i])@ == bs@.subrange(
                12 + 32 * i,
                12 + 32 * i + 32,
            )),
        r is Err ==> r == Result::<BlobMetadataV1, CodecError>::Err(CodecError::MalformedEncoding),
{
    if bs.len() < 12 {
        return Err(CodecError::MalformedEncoding);
    }
    if bs[0] != 1 || bs[9] != 1 {
        return Err(CodecError::MalformedEncoding);
    }
    let len: u64 = (bs[1] as u64) | ((bs[2] as u64) << 8) | ((bs[3] as u64) << 16) | ((bs[4]
        as u64) << 24) | ((bs[5] as u64) << 32) | ((bs[6] as u64) << 40) | ((bs[7] as u64) << 48)
        | ((bs[8] as u64) << 56);
    let count: u16 = bs[10] as u16 + 256 * (bs[11] as u16);
    if (bs.len() - 12) as u64 != 32 * (count as u64) {
        return Err(CodecError::MalformedEncoding);
    }
    let mut hashes: Vec<Vec<u8>> = Vec::new();
    let mut i: usize = 0;
    while i < count as usize
        invariant
            i <= count,
            hashes@.len() == i,
            forall|m: int|
                0 <= m < i ==> (#[trigger] hashes@[m])@ == bs@.subrange(
                    12 + 32 * m,
                    12 + 32 * m + 32,
                ),
        decreases count - i,
    {
        let mut h: Vec<u8> = Vec::new();
        let base = 12 + 32 * i;
        let mut k: usize = 0;
        while k < 32
            invariant
                base == 12 + 32 * i,
                i < count,
                k <= 32,
                h@.len() == k,
                forall|m: int| 0 <= m < k ==> h@[m] == bs@[12 + 32 * (i as int) + m],
            decreases 32 - k,
        {
            h.push(bs[base + k]);
            k = k + 1;
        }
        proof {
            assert(h@ =~= bs@.subrange(12 + 32 * (i as int), 12 + 32 * (i as int) + 32));
        }
        hashes.push(h);
        i = i + 1;
    }
    Ok(BlobMetadataV1 { unencoded_length: len, encoding_type: EncodingType::RS2, hashes })
}

/// A canonical metadata encoding always parses back to the same record,
/// and the encoding of a given record is a single fixed byte string.
pub proof fn lemma_metadata_roundtrip(m: BlobMetadataV1)
    requires
        m.wf(),
        m.encoding_type == EncodingType::RS2,
    ensures
        metadata_parse_ok(metadata_bytes(m)),
        read_u64(metadata_bytes(m), 1) == m.unencoded_length,
        read_u16(metadata_bytes(m), 10) == m.hashes@.len(),
        forall|i: int|
            0 <= i < m.hashes@.len() ==> metadata_bytes(m).subrange(12 + 32 * i, 12 + 32 * i + 32)
                =~= (#[trigger] m.hashes@[i])@,
{
    let bs = metadata_bytes(m);
    let hv = views(m.hashes@);
    assert(forall|i: int| 0 <= i < hv.len() ==> (#[trigger] hv[i]).len() == 32);
    lemma_concat_fixed(hv);
    assert(bs.len() == 12 + 32 * m.hashes@.len());
    let len = m.unencoded_length;
    assert forall|i: int| 0 <= i < 8 implies bs[1 + i] == crate::canonical::u64_byte(len, i) by {
        assert(u64_le(len)[i] == crate::canonical::u64_byte(len, i));
    }
    assert(read_u64(bs, 1) == len) by {
        assert((((((len >> 0) & 0xff) as u8) as u64) | (((((len >> 8) & 0xff) as u8) as u64) << 8)
            | (((((len >> 16) & 0xff) as u8) as u64) << 16) | (((((len >> 24) & 0xff) as u8)
            as u64) << 24) | (((((len >> 32) & 0xff) as u8) as u64) << 32) | (((((len >> 40)
            & 0xff) as u8) as u64) << 40) | (((((len >> 48) & 0xff) as u8) as u64) << 48)
            | (((((len >> 56) & 0xff) as u8) as u64) << 56)) == len) by (bit_vector);
    }
    let cnt = m.hashes@.len() as u16;
    assert(bs[10] == (cnt % 256) as u8 && bs[11] == (cnt / 256) as u8);
    assert(read_u16(bs, 10) == cnt) by {
        vstd::arithmetic::div_mod::lemma_fundamental_div_mod(cnt as int, 256);
    }
    assert forall|i: int| 0 <= i < m.hashes@.len() implies bs.subrange(
        12 + 32 * i,
        12 + 32 * i + 32,
    ) =~= (#[trigger] m.hashes@[i])@ by {
        assert forall|k: int| 0 <= k < 32 implies bs.subrange(12 + 32 * i, 12 + 32 * i + 32)[k]
            == m.hashes@[i]@[k] by {
            assert(bs[12 + 32 * i + k] == concat_hashes(hv)[32 * i + k]);
            vstd::arithmetic::div_mod::lemma_fundamental_div_mod_converse(32 * i + k, 32, i, k);
            assert(concat_hashes(hv)[32 * i + k] == hv[i][k]);
        }
    }
}

/// The caller-facing encoder for a fixed shard count.
#[derive(Debug)]
pub struct BlobEncoder {
    pub config: EncodingConfig,
}

impl BlobEncoder {
    /// A usable encoder wraps a well-formed configuration.
    pub open spec fn wf(self) -> bool {
        self.config.wf()
    }

    /// The shard count this encoder serves.
    pub open spec fn n(self) -> u16 {
        self.config.n_shards
    }

    /// Build an encoder. Fails with `InvalidConfiguration` exactly when the
    /// shard count is zero.
    pub fn new(n_shards: u16) -> (r: Result<BlobEncoder, CodecError>)
        ensures
            n_shards == 0 <==> r is Err,
            r is Err ==> r == Result::<BlobEncoder, CodecError>::Err(
                CodecError::InvalidConfiguration,
            ),
            r matches Ok(e) ==> e.n() == n_shards && e.wf(),
    {
        match EncodingConfig::new(n_shards) {
            Ok(config) => Ok(BlobEncoder { config }),
            Err(e) => Err(e),
        }
    }

    /// Encode a blob: its sliver pairs, its metadata record, and the root
    /// hash. Every component is a function of the blob bytes and the shard
    /// count alone. Fails exactly when the blob exceeds the configured
    /// maximum length.
    pub fn encode(&self, data: &Vec<u8>) -> (r: Result<
        (Vec<SliverPair>, BlobMetadata, Vec<u8>),
        CodecError,
    >)
        requires
            self.wf(),
        ensures
            r is Err <==> data@.len() > config::max_blob_len(self.n()),
            r is Err ==> r == Result::<(Vec<SliverPair>, BlobMetadata, Vec<u8>), CodecError>::Err(
                CodecError::BlobTooLarge,
            ),
            r matches Ok((pairs, meta, root)) ==> pairs@.len() == self.n() && (forall|j: int|
                0 <= j < pairs@.len() ==> (#[trigger] pairs@[j]).wf() && pairs@[j].primary.index
                    == j && pairs@[j].secondary.index == j && pairs@[j].primary.data@
                    == primary_sliver_data(data@, self.n(), j) && pairs@[j].secondary.data@
                    == secondary_sliver_data(data@, self.n(), j)) && (meta matches BlobMetadata::V1(
                m,
            ) && m.wf() && m.unencoded_length == data@.len() && m.encoding_type
                == EncodingType::RS2 && views(m.hashes@) == spec_hashes(self.n(), data@)) && root@
                == spec_root_hash(self.n(), data@),
    {
        let ghost b = data@;
        let n = self.config.n_shards;
        let pairs = match encode_pairs(&self.config, data) {
            Ok(p) => p,
            Err(e) => {
                return Err(e);
            },
        };
        let mut hashes: Vec<Vec<u8>> = Vec::new();
        let mut j: usize = 0;
        while j < pairs.len()
            invariant
                b == data@,
                n == self.config.n_shards,
                pairs@.len() == n,
                forall|m: int|
                    0 <= m < pairs@.len() ==> (#[trigger] pairs@[m]).wf()
                        && pairs@[m].primary.index == m && pairs@[m].secondary.index == m
                        && pairs@[m].primary.data@ == primary_sliver_data(b, n, m)
                        && pairs@[m].secondary.data@ == secondary_sliver_data(b, n, m),
                j <= pairs@.len(),
                hashes@.len() == j,
                forall|m: int|
                    0 <= m < j ==> (#[trigger] hashes@[m])@ == spec_pair_hash(n, b, m)
                        && hashes@[m]@.len() == 32,
            decreases pairs@.len() - j,
        {
            let enc = encode_pair(&pairs[j]);
            proof {
                assert(enc@ =~= spec_pair_bytes(n, b, j as int));
            }
            let h = blake2b256(&enc);
            hashes.push(h);
            j = j + 1;
        }
        let root = compute_root_hash(&hashes);
        proof {
            assert(views(hashes@) =~= spec_hashes(n, b));
        }
        let meta = BlobMetadata::V1(
            BlobMetadataV1 {
                unencoded_length: data.len() as u64,
                encoding_type: EncodingType::RS2,
                hashes,
            },
        );
        Ok((pairs, meta, root))
    }

    /// Compute only the identifying fields of a blob's metadata: the blob
    /// identifier, the root hash, the unencoded length and the code
    /// variant, without returning sliver payloads.
    pub fn compute_metadata(&self, data: &Vec<u8>) -> (r: Result<
        (Vec<u8>, Vec<u8>, u64, EncodingType),
        CodecError,
    >)
        requires
            self.wf(),
        ensures
            r is Err <==> data@.len() > config::max_blob_len(self.n()),
            r is Err ==> r == Result::<(Vec<u8>, Vec<u8>, u64, EncodingType), CodecError>::Err(
                CodecError::BlobTooLarge,
            ),
            r matches Ok((id, root, len, et)) ==> id@ == spec_blob_id(
                self.n(),
                data@,
                EncodingType::RS2,
            ) && root@ == spec_root_hash(self.n(), data@) && len == data@.len() && et
                == EncodingType::RS2,
    {
        let ghost b = data@;
        let n = self.config.n_shards;
        if data.len() as u64 > self.config.max_blob_len() {
            return Err(CodecError::BlobTooLarge);
        }
        let s = self.config.symbol_elems(data.len() as u64) as u64;
        // hash one sliver pair at a time, never holding the full sliver set
        let mut hashes: Vec<Vec<u8>> = Vec::new();
        let mut j: u16 = 0;
        while j < n
            invariant
                self.wf(),
                b == data@,
                n == self.config.n_shards,
                data@.len() <= config::max_blob_len(n),
                s == config::symbol_elems(n, b.len()),
                j <= n,
                hashes@.len() == j,
                forall|m: int|
                    0 <= m < j ==> (#[trigger] hashes@[m])@ == spec_pair_hash(n, b, m),
            decreases n - j,
        {
            let primary = crate::codec::build_primary_sliver(&self.config, data, s, j);
            let secondary = crate::codec::build_secondary_sliver(&self.config, data, s, j);
            let pair = SliverPair { primary, secondary };
            let enc = encode_pair(&pair);
            proof {
                assert(enc@ =~= spec_pair_bytes(n, b, j as int));
            }
            let h = blake2b256(&enc);
            hashes.push(h);
            j = j + 1;
        }
        let root = compute_root_hash(&hashes);
        proof {
            assert(views(hashes@) =~= spec_hashes(n, b));
        }
        let len = data.len() as u64;
        let id = compute_blob_id(&root, len, EncodingType::RS2);
        Ok((id, root, len, EncodingType::RS2))
    }

    /// Reconstruct a blob from primary slivers; see `decode_primary` for
    /// the exact success condition, error precedence and result.
    pub fn decode(&self, blob_size: u64, slivers: &Vec<Sliver>) -> (r: Result<Vec<u8>, CodecError>)
        requires
            self.wf(),
        ensures
            r is Err <==> decode_check(self.n(), blob_size, slivers@) is Some,
            r matches Err(e) ==> Some(e) == decode_check(self.n(), blob_size, slivers@),
            r matches Ok(v) ==> v@.len() == blob_size && (forall|x: int|
                0 <= x < v@.len() ==> v@[x] == decoded_byte(
                    slivers@,
                    self.n(),
                    blob_size as nat,
                    x,
                )),
    {
        decode_primary(&self.config, blob_size, slivers)
    }

    /// Reconstruct a blob from canonically encoded primary slivers: each
    /// buffer is parsed first (any unparseable buffer is
    /// `MalformedEncoding`), then the parsed slivers are decoded.
    pub fn decode_canonical(&self, blob_size: u64, buffers: &Vec<Vec<u8>>) -> (r: Result<
        Vec<u8>,
        CodecError,
    >)
        requires
            self.wf(),
        ensures
            (exists|i: int| 0 <= i < buffers@.len() && !sliver_parse_ok(#[trigger] buffers@[i]@))
                ==> r == Result::<Vec<u8>, CodecError>::Err(CodecError::MalformedEncoding),
            (forall|i: int| 0 <= i < buffers@.len() ==> sliver_parse_ok(#[trigger] buffers@[i]@))
                ==> (exists|sl: Seq<Sliver>|
                sl.len() == buffers@.len() && (forall|i: int|
                    0 <= i < sl.len() ==> (#[trigger] sl[i]).axis == parsed_axis(buffers@[i]@)
                        && sl[i].index == read_u16(buffers@[i]@, 1) && sl[i].data@
                        == buffers@[i]@.subrange(11, buffers@[i]@.len() as int)) && (r is Err
                    <==> decode_check(self.n(), blob_size, sl) is Some) && (r matches Err(e)
                    ==> Some(e) == decode_check(self.n(), blob_size, sl)) && (r matches Ok(v)
                    ==> v@.len() == blob_size && (forall|x: int|
                    0 <= x < v@.len() ==> v@[x] == decoded_byte(
                        sl,
                        self.n(),
                        blob_size as nat,
                        x,
                    )))),
    {
        let mut slivers: Vec<Sliver> = Vec::new();
        let mut i: usize = 0;
        while i < buffers.len()
            invariant
                i <= buffers@.len(),
                slivers@.len() == i,
                forall|m: int| 0 <= m < i ==> sliver_parse_ok(#[trigger] buffers@[m]@),
                forall|m: int|
                    0 <= m < i ==> (#[trigger] slivers@[m]).axis == parsed_axis(buffers@[m]@)
                        && slivers@[m].index == read_u16(buffers@[m]@, 1) && slivers@[m].data@
                        == buffers@[m]@.subrange(11, buffers@[m]@.len() as int),
            decreases buffers@.len() - i,
        {
            let sl = match decode_sliver(&buffers[i]) {
                Ok(sl) => sl,
                Err(e) => {
                    return Err(e);
                },
            };
            slivers.push(sl);
            i = i + 1;
        }
        let r = decode_primary(&self.config, blob_size, &slivers);
        proof {
            let sl0 = slivers@;
            assert(sl0.len() == buffers@.len() && (forall|i: int|
                0 <= i < sl0.len() ==> (#[trigger] sl0[i]).axis == parsed_axis(buffers@[i]@)
                    && sl0[i].index == read_u16(buffers@[i]@, 1) && sl0[i].data@
                    == buffers@[i]@.subrange(11, buffers@[i]@.len() as int)) && (r is Err
                <==> decode_check(self.n(), blob_size, sl0) is Some) && (r matches Err(e)
                ==> Some(e) == decode_check(self.n(), blob_size, sl0)) && (r matches Ok(v)
                ==> v@.len() == blob_size && (forall|x: int|
                0 <= x < v@.len() ==> v@[x] == decoded_byte(sl0, self.n(), blob_size as nat, x))));
            assert(exists|sl: Seq<Sliver>|
                sl.len() == buffers@.len() && (forall|i: int|
                    0 <= i < sl.len() ==> (#[trigger] sl[i]).axis == parsed_axis(buffers@[i]@)
                        && sl[i].index == read_u16(buffers@[i]@, 1) && sl[i].data@
                        == buffers@[i]@.subrange(11, buffers@[i]@.len() as int)) && (r is Err
                    <==> decode_check(self.n(), blob_size, sl) is Some) && (r matches Err(e)
                    ==> Some(e) == decode_check(self.n(), blob_size, sl)) && (r matches Ok(v)
                    ==> v@.len() == blob_size && (forall|x: int|
                    0 <= x < v@.len() ==> v@[x] == decoded_byte(
                        sl,
                        self.n(),
                        blob_size as nat,
                        x,
                    ))));
        }
        r
    }
}

} // verus!
