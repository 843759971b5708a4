//! Canonical binary format for slivers and sliver pairs: fixed field order,
//! explicit length prefixes, little-endian integers. Hashes are computed
//! over exactly these bytes, and slivers round-trip through them.
//!
//! Layout of a sliver: one axis tag byte (0 primary, 1 secondary), the
//! shard index as two little-endian bytes, the payload length as eight
//! little-endian bytes, then the payload. A pair is the primary sliver's
//! bytes followed by the secondary sliver's bytes.

use vstd::prelude::*;
use vstd::arithmetic::div_mod::lemma_fundamental_div_mod;
use crate::sliver::{Axis, Sliver, SliverPair};
use crate::CodecError;

verus! {

/// Canonical tag byte of an axis.
pub open spec fn axis_tag(a: Axis) -> u8 {
    if a == Axis::Primary {
        0
    } else {
        1
    }
}

/// Little-endian bytes of a 16-bit integer.
pub open spec fn u16_le(x: u16) -> Seq<u8> {
    seq![(x % 256) as u8, (x / 256) as u8]
}

/// 16-bit integer read little-endian at `off`.
pub open spec fn read_u16(bs: Seq<u8>, off: int) -> u16 {
    (bs[off] + 256 * bs[off + 1]) as u16
}

/// Byte `i` of the little-endian form of a 64-bit integer.
pub open spec fn u64_byte(x: u64, i: int) -> u8 {
    ((x >> ((8 * i) as u64)) & 0xff) as u8
}

/// Little-endian bytes of a 64-bit integer.
pub open spec fn u64_le(x: u64) -> Seq<u8> {
    Seq::new(8, |i: int| u64_byte(x, i))
}

/// 64-bit integer read little-endian at `off`.
pub open spec fn read_u64(bs: Seq<u8>, off: int) -> u64 {
    (bs[off] as u64) | ((bs[off + 1] as u64) << 8) | ((bs[off + 2] as u64) << 16) | ((bs[off
        + 3] as u64) << 24) | ((bs[off + 4] as u64) << 32) | ((bs[off + 5] as u64) << 40) | ((bs[off
        + 6] as u64) << 48) | ((bs[off + 7] as u64) << 56)
}

/// The canonical bytes of a sliver.
pub open spec fn sliver_bytes(axis: Axis, index: u16, data: Seq<u8>) -> Seq<u8> {
    seq![axis_tag(axis)] + u16_le(index) + u64_le(data.len() as u64) + data
}

/// Whether a byte string is the canonical form of some sliver.
pub open spec fn sliver_parse_ok(bs: Seq<u8>) -> bool {
    bs.len() >= 11 && bs[0] <= 1 && bs.len() - 11 == read_u64(bs, 3)
}

/// Axis of a well-formed canonical sliver.
pub open spec fn parsed_axis(bs: Seq<u8>) -> Axis {
    if bs[0] == 0 {
        Axis::Primary
    } else {
        Axis::Secondary
    }
}

/// The canonical bytes of a sliver pair: primary then secondary.
pub open spec fn pair_bytes(p: SliverPair) -> Seq<u8> {
    sliver_bytes(p.primary.axis, p.primary.index, p.primary.data@) + sliver_bytes(
        p.secondary.axis,
        p.secondary.index,
        p.secondary.data@,
    )
}

/// Serialize a sliver into its canonical bytes.
pub fn encode_sliver(s: &Sliver) -> (r: Vec<u8>)
    ensures
        r@ == sliver_bytes(s.axis, s.index, s.data@),
{
    let mut r: Vec<u8> = Vec::new();
    let tag: u8 = match s.axis {
        Axis::Primary => 0,
        Axis::Secondary => 1,
    };
    r.push(tag);
    r.push((s.index % 256) as u8);
    r.push((s.index / 256) as u8);
    let len: u64 = s.data.len() as u64;
    r.push((len & 0xff) as u8);
    r.push(((len >> 8) & 0xff) as u8);
    r.push(((len >> 16) & 0xff) as u8);
    r.push(((len >> 24) & 0xff) as u8);
    r.push(((len >> 32) & 0xff) as u8);
    r.push(((len >> 40) & 0xff) as u8);
    r.push(((len >> 48) & 0xff) as u8);
    r.push(((len >> 56) & 0xff) as u8);
    proof {
        assert(len & 0xff == (len >> 0) & 0xff) by (bit_vector);
        assert(r@ =~= seq![axis_tag(s.axis)] + u16_le(s.index) + u64_le(s.data@.len() as u64));
    }
    let ghost header = r@;
    let mut i: usize = 0;
    while i < s.data.len()
        invariant
            i <= s.data@.len(),
            r@ == header + s.data@.take(i as int),
        decreases s.data@.len() - i,
    {
        r.push(s.data[i]);
        proof {
            assert(header + s.data@.take(i as int + 1) =~= (header + s.data@.take(i as int)).push(
                s.data@[i as int],
            ));
        }
        i = i + 1;
    }
    proof {
        assert(s.data@.take(s.data@.len() as int) =~= s.data@);
    }
    r
}

/// Parse the canonical bytes of a sliver. The whole buffer must be consumed
/// exactly; anything else is `MalformedEncoding`.
pub fn decode_sliver(bs: &Vec<u8>) -> (r: Result<Sliver, CodecError>)
    ensures
        r is Ok <==> sliver_parse_ok(bs@),
        r matches Ok(s) ==> s.axis == parsed_axis(bs@) && s.index == read_u16(bs@, 1)
            && s.data@ == bs@.subrange(11, bs@.len() as int),
        r is Err ==> r == Result::<Sliver, CodecError>::Err(CodecError::MalformedEncoding),
{
    if bs.len() < 11 {
        return Err(CodecError::MalformedEncoding);
    }
    let tag = bs[0];
    if tag > 1 {
        return Err(CodecError::MalformedEncoding);
    }
    let index: u16 = bs[1] as u16 + 256 * (bs[2] as u16);
    let len: u64 = (bs[3] as u64) | ((bs[4] as u64) << 8) | ((bs[5] as u64) << 16) | ((bs[6]
        as u64) << 24) | ((bs[7] as u64) << 32) | ((bs[8] as u64) << 40) | ((bs[9] as u64) << 48)
        | ((bs[10] as u64) << 56);
    if (bs.len() - 11) as u64 != len {
        return Err(CodecError::MalformedEncoding);
    }
    let mut data: Vec<u8> = Vec::new();
    let mut i: usize = 11;
    while i < bs.len()
        invariant
            11 <= i <= bs@.len(),
            data@ == bs@.subrange(11, i as int),
        decreases bs@.len() - i,
    {
        data.push(bs[i]);
        proof {
            assert(bs@.subrange(11, i as int + 1) =~= bs@.subrange(11, i as int).push(
                bs@[i as int],
            ));
        }
        i = i + 1;
    }
    let axis = if tag == 0 {
        Axis::Primary
    } else {
        Axis::Secondary
    };
    Ok(Sliver { axis, index, data })
}

/// A canonical sliver encoding always parses back to the same sliver, and
/// the encoding of a given sliver is a single fixed byte string.
pub proof fn lemma_sliver_roundtrip(axis: Axis, index: u16, data: Seq<u8>)
    requires
        data.len() <= u64::MAX,
    ensures
        sliver_parse_ok(sliver_bytes(axis, index, data)),
        parsed_axis(sliver_bytes(axis, index, data)) == axis,
        read_u16(sliver_bytes(axis, index, data), 1) == index,
        sliver_bytes(axis, index, data).subrange(11, sliver_bytes(axis, index, data).len() as int)
            =~= data,
{
    let bs = sliver_bytes(axis, index, data);
    let len = data.len() as u64;
    assert(bs.len() == 11 + data.len());
    assert(bs[0] == axis_tag(axis));
    assert(bs[1] == (index % 256) as u8);
    assert(bs[2] == (index / 256) as u8);
    assert forall|i: int| 0 <= i < 8 implies bs[3 + i] == u64_byte(len, i) by {
        assert(u64_le(len)[i] == u64_byte(len, i));
    }
    assert(read_u64(bs, 3) == len) by {
        let b0 = u64_byte(len, 0);
        let b1 = u64_byte(len, 1);
        let b2 = u64_byte(len, 2);
        let b3 = u64_byte(len, 3);
        let b4 = u64_byte(len, 4);
        let b5 = u64_byte(len, 5);
        let b6 = u64_byte(len, 6);
        let b7 = u64_byte(len, 7);
        assert((((((len >> 0) & 0xff) as u8) as u64) | (((((len >> 8) & 0xff) as u8) as u64) << 8)
            | (((((len >> 16) & 0xff) as u8) as u64) << 16) | (((((len >> 24) & 0xff) as u8)
            as u64) << 24) | (((((len >> 32) & 0xff) as u8) as u64) << 32) | (((((len >> 40)
            & 0xff) as u8) as u64) << 40) | (((((len >> 48) & 0xff) as u8) as u64) << 48)
            | (((((len >> 56) & 0xff) as u8) as u64) << 56)) == len) by (bit_vector);
        assert(bs[3] == b0 && bs[4] == b1 && bs[5] == b2 && bs[6] == b3 && bs[7] == b4 && bs[8]
            == b5 && bs[9] == b6 && bs[10] == b7);
    }
    assert(read_u16(bs, 1) == index) by {
        lemma_fundamental_div_mod(index as int, 256);
    }
    assert(axis_tag(axis) <= 1);
    assert(parsed_axis(bs) == axis);
}

/// A byte string that parses as a sliver is exactly the canonical encoding
/// of the parsed sliver.
pub proof fn lemma_sliver_reassemble(bs: Seq<u8>)
    requires
        sliver_parse_ok(bs),
    ensures
        sliver_bytes(parsed_axis(bs), read_u16(bs, 1), bs.subrange(11, bs.len() as int)) =~= bs,
{
    let axis = parsed_axis(bs);
    let index = read_u16(bs, 1);
    let data = bs.subrange(11, bs.len() as int);
    let out = sliver_bytes(axis, index, data);
    assert(data.len() == bs.len() - 11);
    assert(out.len() == bs.len());
    assert(axis_tag(axis) == bs[0]);
    let a = bs[1];
    let b = bs[2];
    assert(index == a + 256 * b);
    assert(((a + 256 * b) as u16) % 256 == a && ((a + 256 * b) as u16) / 256 == b) by {
        vstd::arithmetic::div_mod::lemma_fundamental_div_mod_converse(
            a + 256 * b,
            256,
            b as int,
            a as int,
        );
    }
    let len = data.len() as u64;
    assert(read_u64(bs, 3) == len);
    let c0 = bs[3];
    let c1 = bs[4];
    let c2 = bs[5];
    let c3 = bs[6];
    let c4 = bs[7];
    let c5 = bs[8];
    let c6 = bs[9];
    let c7 = bs[10];
    let v = (c0 as u64) | ((c1 as u64) << 8) | ((c2 as u64) << 16) | ((c3 as u64) << 24) | ((c4
        as u64) << 32) | ((c5 as u64) << 40) | ((c6 as u64) << 48) | ((c7 as u64) << 56);
    assert(((v >> ((8 * 0) as u64)) & 0xff) as u8 == c0 && ((v >> ((8 * 1) as u64)) & 0xff) as u8
        == c1 && ((v >> ((8 * 2) as u64)) & 0xff) as u8 == c2 && ((v >> ((8 * 3) as u64))
        & 0xff) as u8 == c3 && ((v >> ((8 * 4) as u64)) & 0xff) as u8 == c4 && ((v >> ((8 * 5)
        as u64)) & 0xff) as u8 == c5 && ((v >> ((8 * 6) as u64)) & 0xff) as u8 == c6 && ((v >> ((8
        * 7) as u64)) & 0xff) as u8 == c7) by (bit_vector)
        requires
            v == (c0 as u64) | ((c1 as u64) << 8) | ((c2 as u64) << 16) | ((c3 as u64) << 24) | ((
            c4 as u64) << 32) | ((c5 as u64) << 40) | ((c6 as u64) << 48) | ((c7 as u64) << 56),
    ;
    assert forall|i: int| 0 <= i < out.len() implies out[i] == bs[i] by {
        if i == 0 {
        } else if i < 3 {
            assert(out[i] == u16_le(index)[i - 1]);
        } else if i < 11 {
            assert(out[i] == u64_le(len)[i - 3]);
            assert(u64_le(len)[i - 3] == u64_byte(len, i - 3));
        } else {
            assert(out[i] == data[i - 11]);
        }
    }
}

/// Serialize a sliver pair: primary bytes then secondary bytes.
pub fn encode_pair(p: &SliverPair) -> (r: Vec<u8>)
    ensures
        r@ == pair_bytes(*p),
{
    let mut r = encode_sliver(&p.primary);
    let mut s = encode_sliver(&p.secondary);
    r.append(&mut s);
    r
}

/// Whether a byte string is the canonical form of some well-formed sliver
/// pair: a primary sliver followed by a secondary sliver of the same index.
pub open spec fn pair_parse_ok(bs: Seq<u8>) -> bool {
    let cut = 11 + read_u64(bs, 3);
    bs.len() >= 11 && cut <= bs.len() && sliver_parse_ok(bs.subrange(0, cut as int))
        && sliver_parse_ok(bs.subrange(cut as int, bs.len() as int)) && parsed_axis(
        bs.subrange(0, cut as int),
    ) == Axis::Primary && parsed_axis(bs.subrange(cut as int, bs.len() as int)) == Axis::Secondary
        && read_u16(bs.subrange(0, cut as int), 1) == read_u16(
        bs.subrange(cut as int, bs.len() as int),
        1,
    )
}

/// Parse the canonical bytes of a sliver pair. The whole buffer must be
/// consumed exactly; anything else is `MalformedEncoding`.
#[verifier::loop_isolation(false)]
pub fn decode_pair(bs: &Vec<u8>) -> (r: Result<SliverPair, CodecError>)
    ensures
        r is Ok <==> pair_parse_ok(bs@),
        r matches Ok(p) ==> p.wf() && pair_bytes(p) == bs@,
        r is Err ==> r == Result::<SliverPair, CodecError>::Err(CodecError::MalformedEncoding),
{
    if bs.len() < 11 {
        return Err(CodecError::MalformedEncoding);
    }
    let len1: u64 = (bs[3] as u64) | ((bs[4] as u64) << 8) | ((bs[5] as u64) << 16) | ((bs[6]
        as u64) << 24) | ((bs[7] as u64) << 32) | ((bs[8] as u64) << 40) | ((bs[9] as u64) << 48)
        | ((bs[10] as u64) << 56);
    if len1 > (bs.len() - 11) as u64 {
        return Err(CodecError::MalformedEncoding);
    }
    let cut: usize = 11 + len1 as usize;
    let mut first: Vec<u8> = Vec::new();
    let mut i: usize = 0;
    while i < cut
        invariant
            cut <= bs@.len(),
            i <= cut,
            first@ == bs@.subrange(0, i as int),
        decreases cut - i,
    {
        first.push(bs[i]);
        proof {
            assert(bs@.subrange(0, i as int + 1) =~= bs@.subrange(0, i as int).push(bs@[i as int]));
        }
        i = i + 1;
    }
    let mut second: Vec<u8> = Vec::new();
    let mut m: usize = cut;
    while m < bs.len()
        invariant
            cut <= m <= bs@.len(),
            second@ == bs@.subrange(cut as int, m as int),
        decreases bs@.len() - m,
    {
        second.push(bs[m]);
        proof {
            assert(bs@.subrange(cut as int, m as int + 1) =~= bs@.subrange(
                cut as int,
                m as int,
            ).push(bs@[m as int]));
        }
        m = m + 1;
    }
    proof {
        assert(read_u64(first@, 3) == read_u64(bs@, 3));
    }
    let primary = match decode_sliver(&first) {
        Ok(s) => s,
        Err(e) => {
            return Err(e);
        },
    };
    let secondary = match decode_sliver(&second) {
        Ok(s) => s,
        Err(e) => {
            return Err(e);
        },
    };
    let axes_ok = match (&primary.axis, &secondary.axis) {
        (Axis::Primary, Axis::Secondary) => true,
        _ => false,
    };
    if !axes_ok || primary.index != secondary.index {
        return Err(CodecError::MalformedEncoding);
    }
    let p = SliverPair { primary, secondary };
    proof {
        lemma_sliver_reassemble(first@);
        lemma_sliver_reassemble(second@);
        assert(pair_bytes(p) =~= bs@);
    }
    Ok(p)
}

} // verus!
