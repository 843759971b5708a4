//! The two-dimensional erasure code: turning a blob into `n` primary and
//! `n` secondary slivers, and reconstructing the blob from a sufficient
//! subset of primary slivers.
//!
//! The blob is laid out as a `k_p` by `k_s` matrix of symbols of
//! `s` field elements each, padded with zero bytes (the padding length is
//! derivable from the blob length, so it is never stored). Each column is
//! extended from `k_p` to `n` symbols by evaluating, at points
//! `k_p..n`, the polynomial interpolating the column's symbols at points
//! `0..k_p`; primary sliver `j` is row `j` of the extended matrix. Each row
//! is likewise extended from `k_s` to `n` symbols, and secondary sliver `j`
//! is column `j` of that extension. The code is systematic: slivers with
//! index below the source count carry the source symbols themselves.

use vstd::prelude::*;
use vstd::arithmetic::div_mod::lemma_fundamental_div_mod_converse;
use crate::config;
use crate::config::EncodingConfig;
use crate::gf::{combine, combine_upto, lag_coeff, lagrange_coeff};
use crate::sliver::{
    bytes_of_elems, bytes_to_elems, elems_of_bytes, elems_to_bytes, hi_byte, lo_byte, Axis, Sliver,
    SliverPair,
};
use crate::CodecError;

verus! {

/// Byte `i` of the zero-padded blob.
pub open spec fn byte_at(b: Seq<u8>, i: int) -> u8 {
    if 0 <= i < b.len() {
        b[i]
    } else {
        0
    }
}

/// Field element `i` of the zero-padded blob, read little-endian.
pub open spec fn elem_at(b: Seq<u8>, i: int) -> u16 {
    (byte_at(b, 2 * i) + 256 * byte_at(b, 2 * i + 1)) as u16
}

/// Element `t` of the source symbol in row `r`, column `c`.
pub open spec fn src_elem(b: Seq<u8>, n: u16, r: int, c: int, t: int) -> u16 {
    elem_at(b, (r * config::source_secondary(n) + c) * config::symbol_elems(n, b.len()) + t)
}

/// The evaluation points of the source symbols: `0, 1, ..., k - 1`.
pub open spec fn sys_points(k: int) -> Seq<u16> {
    Seq::new(k as nat, |i: int| i as u16)
}

/// One column of source symbols, at element position `t`.
pub open spec fn col_vals(b: Seq<u8>, n: u16, c: int, t: int) -> Seq<u16> {
    Seq::new(config::source_primary(n) as nat, |r: int| src_elem(b, n, r, c, t))
}

/// One row of source symbols, at element position `t`.
pub open spec fn row_vals(b: Seq<u8>, n: u16, r: int, t: int) -> Seq<u16> {
    Seq::new(config::source_secondary(n) as nat, |c: int| src_elem(b, n, r, c, t))
}

/// Element `t` of the symbol of primary sliver `j` in column `c`.
pub open spec fn primary_elem(b: Seq<u8>, n: u16, j: int, c: int, t: int) -> u16 {
    let k = config::source_primary(n);
    if j < k {
        src_elem(b, n, j, c, t)
    } else {
        combine_upto(
            Seq::new(k as nat, |i: int| lag_coeff(sys_points(k), i, j as u16)),
            col_vals(b, n, c, t),
            k,
        )
    }
}

/// Element `t` of the symbol of secondary sliver `j` in row `r`.
pub open spec fn secondary_elem(b: Seq<u8>, n: u16, j: int, r: int, t: int) -> u16 {
    let k = config::source_secondary(n);
    if j < k {
        src_elem(b, n, r, j, t)
    } else {
        combine_upto(
            Seq::new(k as nat, |i: int| lag_coeff(sys_points(k), i, j as u16)),
            row_vals(b, n, r, t),
            k,
        )
    }
}

/// The field elements of primary sliver `j`: one symbol per column.
pub open spec fn primary_sliver_elems(b: Seq<u8>, n: u16, j: int) -> Seq<u16> {
    let s = config::symbol_elems(n, b.len());
    Seq::new(
        (s * config::source_secondary(n)) as nat,
        |y: int| primary_elem(b, n, j, y / s, y % s),
    )
}

/// The field elements of secondary sliver `j`: one symbol per row.
pub open spec fn secondary_sliver_elems(b: Seq<u8>, n: u16, j: int) -> Seq<u16> {
    let s = config::symbol_elems(n, b.len());
    Seq::new(
        (s * config::source_primary(n)) as nat,
        |y: int| secondary_elem(b, n, j, y / s, y % s),
    )
}

/// The payload bytes of primary sliver `j` of the blob `b`.
pub open spec fn primary_sliver_data(b: Seq<u8>, n: u16, j: int) -> Seq<u8> {
    bytes_of_elems(primary_sliver_elems(b, n, j))
}

/// The payload bytes of secondary sliver `j` of the blob `b`.
pub open spec fn secondary_sliver_data(b: Seq<u8>, n: u16, j: int) -> Seq<u8> {
    bytes_of_elems(secondary_sliver_elems(b, n, j))
}

fn get_byte(b: &Vec<u8>, i: u64) -> (r: u8)
    ensures
        r == byte_at(b@, i as int),
{
    if i < b.len() as u64 {
        b[i as usize]
    } else {
        0
    }
}

fn get_elem(b: &Vec<u8>, i: u64) -> (r: u16)
    requires
        i <= 0x3FFF_FFFF_FFFF_FFFF,
    ensures
        r == elem_at(b@, i as int),
{
    let lo = get_byte(b, 2 * i);
    let hi = get_byte(b, 2 * i + 1);
    lo as u16 + 256 * (hi as u16)
}

fn get_src_elem(cfg: &EncodingConfig, b: &Vec<u8>, s: u64, r_: u64, c: u64, t: u64) -> (e: u16)
    requires
        cfg.wf(),
        s == config::symbol_elems(cfg.n_shards, b@.len()),
        1 <= s <= 65536,
        r_ <= 65535,
        c <= 65535,
        t < s,
    ensures
        e == src_elem(b@, cfg.n_shards, r_ as int, c as int, t as int),
{
    let ks = cfg.source_secondary() as u64;
    proof {
        assert(r_ * ks <= 65535 * 65535 && r_ * ks + c <= 65535 * 65535 + 65535 && (r_ * ks + c)
            * s <= (65535 * 65535 + 65535) * 65536 && (r_ * ks + c) * s + t
            < 0x2_0000_0000_0000) by (nonlinear_arith)
            requires
                r_ <= 65535,
                ks <= 65535,
                c <= 65535,
                s <= 65536,
                t < s,
        ;
    }
    let idx = (r_ * ks + c) * s + t;
    get_elem(b, idx)
}

fn sys_points_vec(k: u16) -> (r: Vec<u16>)
    ensures
        r@ == sys_points(k as int),
{
    let mut xs: Vec<u16> = Vec::new();
    let mut i: u16 = 0;
    while i < k
        invariant
            i <= k,
            xs@.len() == i,
            forall|m: int| 0 <= m < i ==> xs@[m] == m as u16,
        decreases k - i,
    {
        xs.push(i);
        i = i + 1;
    }
    proof {
        assert(xs@ =~= sys_points(k as int));
    }
    xs
}

fn coeffs_for(xs: &Vec<u16>, x: u16) -> (r: Vec<u16>)
    ensures
        r@ == Seq::new(xs@.len(), |i: int| lag_coeff(xs@, i, x)),
{
    let mut coeffs: Vec<u16> = Vec::new();
    let mut i: usize = 0;
    while i < xs.len()
        invariant
            i <= xs@.len(),
            coeffs@.len() == i,
            forall|m: int| 0 <= m < i ==> coeffs@[m] == lag_coeff(xs@, m, x),
        decreases xs@.len() - i,
    {
        let co = lagrange_coeff(&xs, i, x);
        coeffs.push(co);
        i = i + 1;
    }
    proof {
        assert(coeffs@ =~= Seq::new(xs@.len(), |i: int| lag_coeff(xs@, i, x)));
    }
    coeffs
}

fn parity_coeffs(k: u16, j: u16) -> (r: Vec<u16>)
    ensures
        r@ == Seq::new(k as nat, |i: int| lag_coeff(sys_points(k as int), i, j)),
{
    let xs = sys_points_vec(k);
    coeffs_for(&xs, j)
}

pub(crate) fn build_primary_sliver(cfg: &EncodingConfig, data: &Vec<u8>, s: u64, j: u16) -> (sl: Sliver)
    requires
        cfg.wf(),
        data@.len() <= config::max_blob_len(cfg.n_shards),
        s == config::symbol_elems(cfg.n_shards, data@.len()),
        j < cfg.n_shards,
    ensures
        sl.axis == Axis::Primary,
        sl.index == j,
        sl.data@ == primary_sliver_data(data@, cfg.n_shards, j as int),
{
    let ghost b = data@;
    let n = cfg.n_shards;
    let kp = cfg.source_primary();
    let ks = cfg.source_secondary();
    proof {
        config::lemma_symbol_elems_bounds(n, b.len());
    }
    let mut coeffs: Vec<u16> = Vec::new();
    if j >= kp {
        coeffs = parity_coeffs(kp, j);
    }
    let ghost spec_coeffs = Seq::new(
        config::source_primary(n) as nat,
        |i: int| lag_coeff(sys_points(config::source_primary(n)), i, j),
    );
    let mut elems: Vec<u16> = Vec::new();
    let mut c: u16 = 0;
    while c < ks
        invariant
            cfg.wf(),
            b == data@,
            n == cfg.n_shards,
            kp == config::source_primary(n),
            ks == config::source_secondary(n),
            s == config::symbol_elems(n, b.len()),
            1 <= s <= 65536,
            j < n,
            j >= kp ==> coeffs@ == spec_coeffs,
            spec_coeffs == Seq::new(
                config::source_primary(n) as nat,
                |i: int| lag_coeff(sys_points(config::source_primary(n)), i, j),
            ),
            c <= ks,
            elems@.len() == c * s,
            forall|y: int|
                0 <= y < elems@.len() ==> #[trigger] elems@[y] == primary_elem(
                    b,
                    n,
                    j as int,
                    y / (s as int),
                    y % (s as int),
                ),
        decreases ks - c,
    {
        let mut t: u64 = 0;
        while t < s
            invariant
                cfg.wf(),
                b == data@,
                n == cfg.n_shards,
                kp == config::source_primary(n),
                ks == config::source_secondary(n),
                s == config::symbol_elems(n, b.len()),
                1 <= s <= 65536,
                j < n,
                c < ks,
                j >= kp ==> coeffs@ == spec_coeffs,
                spec_coeffs == Seq::new(
                    config::source_primary(n) as nat,
                    |i: int| lag_coeff(sys_points(config::source_primary(n)), i, j),
                ),
                t <= s,
                elems@.len() == c * s + t,
                forall|y: int|
                    0 <= y < elems@.len() ==> #[trigger] elems@[y] == primary_elem(
                        b,
                        n,
                        j as int,
                        y / (s as int),
                        y % (s as int),
                    ),
            decreases s - t,
        {
            let e: u16;
            if j < kp {
                e = get_src_elem(cfg, data, s, j as u64, c as u64, t);
            } else {
                let mut vals: Vec<u16> = Vec::new();
                let mut r_: u16 = 0;
                while r_ < kp
                    invariant
                        cfg.wf(),
                        b == data@,
                        n == cfg.n_shards,
                        kp == config::source_primary(n),
                        s == config::symbol_elems(n, b.len()),
                        1 <= s <= 65536,
                        c <= 65535,
                        t < s,
                        r_ <= kp,
                        vals@.len() == r_,
                        forall|m: int|
                            0 <= m < r_ ==> #[trigger] vals@[m] == src_elem(
                                b,
                                n,
                                m,
                                c as int,
                                t as int,
                            ),
                    decreases kp - r_,
                {
                    let v = get_src_elem(cfg, data, s, r_ as u64, c as u64, t);
                    vals.push(v);
                    r_ = r_ + 1;
                }
                proof {
                    assert(vals@ =~= col_vals(b, n, c as int, t as int));
                }
                e = combine(&coeffs, &vals);
            }
            proof {
                assert(e == primary_elem(b, n, j as int, c as int, t as int));
                lemma_fundamental_div_mod_converse(
                    c as int * (s as int) + t as int,
                    s as int,
                    c as int,
                    t as int,
                );
            }
            elems.push(e);
            t = t + 1;
        }
        proof {
            assert((c as int + 1) * (s as int) == c as int * (s as int) + s as int)
                by (nonlinear_arith);
        }
        c = c + 1;
    }
    proof {
        assert(ks as int * (s as int) == (s as int) * (ks as int)) by (nonlinear_arith);
        assert(elems@.len() == config::symbol_elems(n, b.len()) * config::source_secondary(n));
        assert(elems@ =~= primary_sliver_elems(b, n, j as int));
    }
    let out = elems_to_bytes(&elems);
    Sliver { axis: Axis::Primary, index: j, data: out }
}

pub(crate) fn build_secondary_sliver(cfg: &EncodingConfig, data: &Vec<u8>, s: u64, j: u16) -> (sl: Sliver)
    requires
        cfg.wf(),
        data@.len() <= config::max_blob_len(cfg.n_shards),
        s == config::symbol_elems(cfg.n_shards, data@.len()),
        j < cfg.n_shards,
    ensures
        sl.axis == Axis::Secondary,
        sl.index == j,
        sl.data@ == secondary_sliver_data(data@, cfg.n_shards, j as int),
{
    let ghost b = data@;
    let n = cfg.n_shards;
    let kp = cfg.source_primary();
    let ks = cfg.source_secondary();
    proof {
        config::lemma_symbol_elems_bounds(n, b.len());
    }
    let mut coeffs: Vec<u16> = Vec::new();
    if j >= ks {
        coeffs = parity_coeffs(ks, j);
    }
    let ghost spec_coeffs = Seq::new(
        config::source_secondary(n) as nat,
        |i: int| lag_coeff(sys_points(config::source_secondary(n)), i, j),
    );
    let mut elems: Vec<u16> = Vec::new();
    let mut r_: u16 = 0;
    while r_ < kp
        invariant
            cfg.wf(),
            b == data@,
            n == cfg.n_shards,
            kp == config::source_primary(n),
            ks == config::source_secondary(n),
            s == config::symbol_elems(n, b.len()),
            1 <= s <= 65536,
            j < n,
            j >= ks ==> coeffs@ == spec_coeffs,
            spec_coeffs == Seq::new(
                config::source_secondary(n) as nat,
                |i: int| lag_coeff(sys_points(config::source_secondary(n)), i, j),
            ),
            r_ <= kp,
            elems@.len() == r_ * s,
            forall|y: int|
                0 <= y < elems@.len() ==> #[trigger] elems@[y] == secondary_elem(
                    b,
                    n,
                    j as int,
                    y / (s as int),
                    y % (s as int),
                ),
        decreases kp - r_,
    {
        let mut t: u64 = 0;
        while t < s
            invariant
                cfg.wf(),
                b == data@,
                n == cfg.n_shards,
                kp == config::source_primary(n),
                ks == config::source_secondary(n),
                s == config::symbol_elems(n, b.len()),
                1 <= s <= 65536,
                j < n,
                r_ < kp,
                j >= ks ==> coeffs@ == spec_coeffs,
                spec_coeffs == Seq::new(
                    config::source_secondary(n) as nat,
                    |i: int| lag_coeff(sys_points(config::source_secondary(n)), i, j),
                ),
                t <= s,
                elems@.len() == r_ * s + t,
                forall|y: int|
                    0 <= y < elems@.len() ==> #[trigger] elems@[y] == secondary_elem(
                        b,
                        n,
                        j as int,
                        y / (s as int),
                        y % (s as int),
                    ),
            decreases s - t,
        {
            let e: u16;
            if j < ks {
                e = get_src_elem(cfg, data, s, r_ as u64, j as u64, t);
            } else {
                let mut vals: Vec<u16> = Vec::new();
                let mut c: u16 = 0;
                while c < ks
                    invariant
                        cfg.wf(),
                        b == data@,
                        n == cfg.n_shards,
                        ks == config::source_secondary(n),
                        s == config::symbol_elems(n, b.len()),
                        1 <= s <= 65536,
                        r_ <= 65535,
                        t < s,
                        c <= ks,
                        vals@.len() == c,
                        forall|m: int|
                            0 <= m < c ==> #[trigger] vals@[m] == src_elem(
                                b,
                                n,
                                r_ as int,
                                m,
                                t as int,
                            ),
                    decreases ks - c,
                {
                    let v = get_src_elem(cfg, data, s, r_ as u64, c as u64, t);
                    vals.push(v);
                    c = c + 1;
                }
                proof {
                    assert(vals@ =~= row_vals(b, n, r_ as int, t as int));
                }
                e = combine(&coeffs, &vals);
            }
            proof {
                assert(e == secondary_elem(b, n, j as int, r_ as int, t as int));
                lemma_fundamental_div_mod_converse(
                    r_ as int * (s as int) + t as int,
                    s as int,
                    r_ as int,
                    t as int,
                );
            }
            elems.push(e);
            t = t + 1;
        }
        proof {
            assert((r_ as int + 1) * (s as int) == r_ as int * (s as int) + s as int)
                by (nonlinear_arith);
        }
        r_ = r_ + 1;
    }
    proof {
        assert(kp as int * (s as int) == (s as int) * (kp as int)) by (nonlinear_arith);
        assert(elems@.len() == config::symbol_elems(n, b.len()) * config::source_primary(n));
        assert(elems@ =~= secondary_sliver_elems(b, n, j as int));
    }
    let out = elems_to_bytes(&elems);
    Sliver { axis: Axis::Secondary, index: j, data: out }
}

/// Encode a blob into its `n` sliver pairs. The result is a function of the
/// blob bytes and the configuration alone; sliver pair `j` carries primary
/// and secondary slivers of index `j`. Fails exactly when the blob exceeds
/// the configured maximum length.
pub fn encode_pairs(cfg: &EncodingConfig, data: &Vec<u8>) -> (r: Result<Vec<SliverPair>, CodecError>)
    requires
        cfg.wf(),
    ensures
        r is Err <==> data@.len() > config::max_blob_len(cfg.n_shards),
        r is Err ==> r == Result::<Vec<SliverPair>, CodecError>::Err(CodecError::BlobTooLarge),
        r matches Ok(pairs) ==> pairs@.len() == cfg.n_shards && (forall|j: int|
            0 <= j < pairs@.len() ==> (#[trigger] pairs@[j]).wf() && pairs@[j].primary.index == j
                && pairs@[j].secondary.index == j && pairs@[j].primary.data@
                == primary_sliver_data(data@, cfg.n_shards, j) && pairs@[j].secondary.data@
                == secondary_sliver_data(data@, cfg.n_shards, j)),
{
    if data.len() as u64 > cfg.max_blob_len() {
        return Err(CodecError::BlobTooLarge);
    }
    let s = cfg.symbol_elems(data.len() as u64) as u64;
    let n = cfg.n_shards;
    let mut pairs: Vec<SliverPair> = Vec::new();
    let mut j: u16 = 0;
    while j < n
        invariant
            cfg.wf(),
            n == cfg.n_shards,
            data@.len() <= config::max_blob_len(n),
            s == config::symbol_elems(n, data@.len()),
            j <= n,
            pairs@.len() == j,
            forall|m: int|
                0 <= m < j ==> (#[trigger] pairs@[m]).wf() && pairs@[m].primary.index == m
                    && pairs@[m].secondary.index == m && pairs@[m].primary.data@
                    == primary_sliver_data(data@, n, m) && pairs@[m].secondary.data@
                    == secondary_sliver_data(data@, n, m),
        decreases n - j,
    {
        let p = build_primary_sliver(cfg, data, s, j);
        let q = build_secondary_sliver(cfg, data, s, j);
        pairs.push(SliverPair { primary: p, secondary: q });
        j = j + 1;
    }
    Ok(pairs)
}

/// A decode input sliver must lie on the primary axis with an index below
/// the shard count.
pub open spec fn sliver_shape_ok(sl: Sliver, n: u16) -> bool {
    sl.axis == Axis::Primary && sl.index < n
}

/// A decode input sliver must carry exactly one symbol per column.
pub open spec fn sliver_len_ok(sl: Sliver, n: u16, len: nat) -> bool {
    sl.data@.len() == 2 * (config::symbol_elems(n, len) * config::source_secondary(n))
}

/// Two supplied slivers claim the same shard index with different payloads.
pub open spec fn has_conflict(sl: Seq<Sliver>) -> bool {
    exists|i: int, j: int|
        0 <= i < j < sl.len() && sl[i].index == sl[j].index && sl[i].data@ != sl[j].data@
}

/// Position `p` holds the first sliver with its shard index.
pub open spec fn is_first(sl: Seq<Sliver>, p: int) -> bool {
    forall|q: int| 0 <= q < p ==> sl[q].index != sl[p].index
}

/// Positions of the first occurrence of each shard index among the first
/// `m` slivers, in input order.
pub open spec fn firsts_upto(sl: Seq<Sliver>, m: int) -> Seq<int>
    decreases m
{
    if m <= 0 {
        Seq::empty()
    } else if is_first(sl, m - 1) {
        firsts_upto(sl, m - 1).push(m - 1)
    } else {
        firsts_upto(sl, m - 1)
    }
}

/// Positions of the first occurrence of each shard index, in input order.
pub open spec fn firsts(sl: Seq<Sliver>) -> Seq<int> {
    firsts_upto(sl, sl.len() as int)
}

/// The first-occurrence positions are increasing, in range, and carry
/// pairwise distinct shard indices.
pub proof fn lemma_firsts_props(sl: Seq<Sliver>, m: int)
    requires
        0 <= m <= sl.len(),
    ensures
        forall|i: int|
            0 <= i < firsts_upto(sl, m).len() ==> 0 <= #[trigger] firsts_upto(sl, m)[i] < m
                && is_first(sl, firsts_upto(sl, m)[i]),
        forall|i: int, j: int|
            0 <= i < j < firsts_upto(sl, m).len() ==> firsts_upto(sl, m)[i] < firsts_upto(
                sl,
                m,
            )[j] && sl[firsts_upto(sl, m)[i]].index != sl[firsts_upto(sl, m)[j]].index,
    decreases m,
{
    if m > 0 {
        lemma_firsts_props(sl, m - 1);
    }
}

/// The reconstructed source element in row `r`, column `c`, position `t`,
/// from the first `k_p` distinct supplied slivers: taken directly from a
/// supplied systematic sliver when one has index `r`, otherwise by Lagrange
/// interpolation of the supplied shares at point `r`.
pub open spec fn row_source(sl: Seq<Sliver>, n: u16, len: nat, r: int, c: int, t: int) -> u16 {
    let kp = config::source_primary(n);
    let s = config::symbol_elems(n, len);
    let ch = firsts(sl).take(kp);
    let xs = Seq::new(kp as nat, |i: int| sl[ch[i]].index);
    if exists|i: int| 0 <= i < kp && xs[i] as int == r {
        let i = choose|i: int| 0 <= i < kp && xs[i] as int == r;
        elems_of_bytes(sl[ch[i]].data@)[c * s + t]
    } else {
        combine_upto(
            Seq::new(kp as nat, |i: int| lag_coeff(xs, i, r as u16)),
            Seq::new(kp as nat, |i: int| elems_of_bytes(sl[ch[i]].data@)[c * s + t]),
            kp,
        )
    }
}

/// Byte `x` of the reconstructed (padded) blob.
pub open spec fn decoded_byte(sl: Seq<Sliver>, n: u16, len: nat, x: int) -> u8 {
    let s = config::symbol_elems(n, len);
    let ks = config::source_secondary(n);
    let ie = x / 2;
    let q = ie / s;
    let e = row_source(sl, n, len, q / ks, q % ks, ie % s);
    if x % 2 == 0 {
        lo_byte(e)
    } else {
        hi_byte(e)
    }
}

/// The error, if any, that decoding must report, in order of precedence:
/// an oversized declared length, a malformed sliver (wrong axis or
/// out-of-range index), a sliver of the wrong size, two conflicting slivers
/// under one index, and finally too few distinct indices.
pub open spec fn decode_check(n: u16, blob_size: u64, sl: Seq<Sliver>) -> Option<CodecError> {
    if blob_size > config::max_blob_len(n) || blob_size > usize::MAX {
        Some(CodecError::BlobTooLarge)
    } else if exists|i: int| 0 <= i < sl.len() && !(#[trigger] sliver_shape_ok(sl[i], n)) {
        Some(CodecError::MalformedEncoding)
    } else if exists|i: int|
        0 <= i < sl.len() && !(#[trigger] sliver_len_ok(sl[i], n, blob_size as nat)) {
        Some(CodecError::SizeMismatch)
    } else if has_conflict(sl) {
        Some(CodecError::DuplicateShare)
    } else if firsts(sl).len() < config::source_primary(n) {
        Some(CodecError::InsufficientShares)
    } else {
        None
    }
}

/// With pairwise distinct shard indices, every position is a first
/// occurrence.
pub proof fn lemma_firsts_distinct(sl: Seq<Sliver>, m: int)
    requires
        0 <= m <= sl.len(),
        forall|i: int, j: int| 0 <= i < j < sl.len() ==> sl[i].index != sl[j].index,
    ensures
        firsts_upto(sl, m) =~= Seq::new(m as nat, |p: int| p),
    decreases m,
{
    if m > 0 {
        lemma_firsts_distinct(sl, m - 1);
        assert(is_first(sl, m - 1));
    }
}

/// Round-trip on the systematic shares: decoding accepts the `k_p`
/// systematic primary slivers of the encoding of a blob, supplied in any
/// order, and reproduces the blob byte for byte. (The decoder accepts any
/// `k_p` distinct slivers; this law covers the subsets whose indices are
/// the systematic ones, `0..k_p`.)
pub proof fn lemma_round_trip_systematic(n: u16, b: Seq<u8>, sl: Seq<Sliver>)
    requires
        n >= 1,
        b.len() <= config::max_blob_len(n),
        b.len() <= usize::MAX,
        sl.len() == config::source_primary(n),
        forall|i: int|
            0 <= i < sl.len() ==> (#[trigger] sl[i]).axis == Axis::Primary && (sl[i].index as int)
                < config::source_primary(n) && sl[i].data@ == primary_sliver_data(
                b,
                n,
                sl[i].index as int,
            ),
        forall|i: int, j: int| 0 <= i < j < sl.len() ==> sl[i].index != sl[j].index,
    ensures
        decode_check(n, b.len() as u64, sl) is None,
        forall|x: int| 0 <= x < b.len() ==> decoded_byte(sl, n, b.len(), x) == b[x],
{
    let kp = config::source_primary(n);
    let ks = config::source_secondary(n);
    let s = config::symbol_elems(n, b.len());
    let lnat = b.len();
    config::lemma_params(n);
    config::lemma_symbol_elems_bounds(n, lnat);
    config::lemma_symbol_capacity(n, lnat);
    assert(b.len() as u64 as nat == lnat);
    // every input sliver is well-formed
    assert forall|i: int| 0 <= i < sl.len() implies sliver_shape_ok(sl[i], n) by {
        assert((sl[i].index as int) < kp <= n);
    }
    assert forall|i: int| 0 <= i < sl.len() implies sliver_len_ok(sl[i], n, lnat) by {
        assert(sl[i].data@ == bytes_of_elems(primary_sliver_elems(b, n, sl[i].index as int)));
    }
    // distinct indices: no conflict, and every position is a first
    lemma_firsts_distinct(sl, sl.len() as int);
    assert(firsts(sl).len() == kp);
    assert(decode_check(n, b.len() as u64, sl) is None);
    let ch = firsts(sl).take(kp);
    assert(ch =~= Seq::new(kp as nat, |p: int| p));
    let xs = Seq::new(kp as nat, |i: int| sl[ch[i]].index);
    assert forall|i: int| 0 <= i < kp implies xs[i] == sl[i].index by {
        assert(ch[i] == i);
    }
    // pigeonhole: kp distinct indices below kp cover every row
    let ixs = Seq::new(kp as nat, |i: int| sl[i].index as int);
    assert(ixs.no_duplicates());
    ixs.unique_seq_to_set();
    vstd::seq_lib::seq_to_set_is_finite(ixs);
    vstd::set_lib::lemma_int_range(0, kp);
    assert(ixs.to_set().subset_of(vstd::set_lib::set_int_range(0, kp))) by {
        assert forall|v: int| ixs.to_set().contains(v) implies vstd::set_lib::set_int_range(
            0,
            kp,
        ).contains(v) by {
            let i = choose|i: int| 0 <= i < ixs.len() && ixs[i] == v;
            assert(0 <= ixs[i] < kp);
        }
    }
    vstd::set_lib::lemma_subset_equality(ixs.to_set(), vstd::set_lib::set_int_range(0, kp));
    let cells = config::cells(n);
    assert forall|x: int| 0 <= x < b.len() implies decoded_byte(sl, n, lnat, x) == b[x] by {
        let ie = x / 2;
        let q = ie / s;
        let r = q / ks;
        let c = q % ks;
        let t = ie % s;
        // bounds: the element index lies inside the source matrix
        assert(x <= 2 * (cells * s) - 1);
        vstd::arithmetic::div_mod::lemma_div_is_ordered(x, 2 * (cells * s) - 1, 2);
        assert((2 * (cells * s) - 1) / 2 == cells * s - 1) by {
            vstd::arithmetic::div_mod::lemma_fundamental_div_mod_converse(
                2 * (cells * s) - 1,
                2,
                cells * s - 1,
                1,
            );
        }
        vstd::arithmetic::div_mod::lemma_div_pos_is_pos(x, 2);
        assert(0 <= ie <= cells * s - 1);
        vstd::arithmetic::div_mod::lemma_div_is_ordered(ie, cells * s - 1, s);
        assert((cells * s - 1) / s == cells - 1) by {
            assert(cells * s - 1 == (cells - 1) * s + (s - 1)) by (nonlinear_arith)
                requires
                    s >= 1,
            ;
            vstd::arithmetic::div_mod::lemma_fundamental_div_mod_converse(
                cells * s - 1,
                s,
                cells - 1,
                s - 1,
            );
        }
        vstd::arithmetic::div_mod::lemma_div_pos_is_pos(ie, s);
        assert(0 <= q <= cells - 1);
        assert(cells == kp * ks);
        vstd::arithmetic::div_mod::lemma_div_is_ordered(q, kp * ks - 1, ks);
        assert((kp * ks - 1) / ks == kp - 1) by {
            assert(kp * ks - 1 == (kp - 1) * ks + (ks - 1)) by (nonlinear_arith)
                requires
                    ks >= 1,
            ;
            vstd::arithmetic::div_mod::lemma_fundamental_div_mod_converse(
                kp * ks - 1,
                ks,
                kp - 1,
                ks - 1,
            );
        }
        vstd::arithmetic::div_mod::lemma_div_pos_is_pos(q, ks);
        assert(0 <= r <= kp - 1);
        vstd::arithmetic::div_mod::lemma_fundamental_div_mod(q, ks);
        vstd::arithmetic::div_mod::lemma_fundamental_div_mod(ie, s);
        vstd::arithmetic::div_mod::lemma_fundamental_div_mod(x, 2);
        assert(0 <= c < ks && 0 <= t < s);
        // some supplied systematic sliver carries row r directly
        assert(vstd::set_lib::set_int_range(0, kp).contains(r));
        assert(ixs.to_set().contains(r));
        assert(ixs.contains(r));
        let iw = choose|i: int| 0 <= i < ixs.len() && ixs[i] == r;
        assert(xs[iw] as int == r);
        assert(exists|i: int| 0 <= i < kp && xs[i] as int == r);
        let istar = choose|i: int| 0 <= i < kp && xs[i] as int == r;
        let e = row_source(sl, n, lnat, r, c, t);
        assert(sl[ch[istar]].data@ == primary_sliver_data(b, n, r)) by {
            assert(sl[istar].index as int == r);
        }
        crate::sliver::lemma_elems_bytes_roundtrip(primary_sliver_elems(b, n, r));
        assert(c * s + t < s * ks && c * s + t >= 0) by (nonlinear_arith)
            requires
                0 <= c < ks,
                0 <= t < s,
        ;
        assert(e == primary_sliver_elems(b, n, r)[c * s + t]);
        vstd::arithmetic::div_mod::lemma_fundamental_div_mod_converse(c * s + t, s, c, t);
        assert(e == primary_elem(b, n, r, c, t));
        assert(e == src_elem(b, n, r, c, t));
        // the source element is the blob element at position ie
        assert((r * ks + c) * s + t == q * s + t) by {
            assert(q == r * ks + c);
        }
        assert(q * s + t == ie);
        assert(e == elem_at(b, ie));
        let a = byte_at(b, 2 * ie);
        let h = byte_at(b, 2 * ie + 1);
        assert(e == (a + 256 * h) as u16);
        assert(((a + 256 * h) as u16) % 256 == a && ((a + 256 * h) as u16) / 256 == h) by {
            vstd::arithmetic::div_mod::lemma_fundamental_div_mod_converse(
                a + 256 * h,
                256,
                h as int,
                a as int,
            );
        }
        if x % 2 == 0 {
            assert(2 * ie == x);
            assert(decoded_byte(sl, n, lnat, x) == lo_byte(e));
        } else {
            assert(2 * ie + 1 == x);
            assert(decoded_byte(sl, n, lnat, x) == hi_byte(e));
        }
    }
}

fn bytes_eq(a: &Vec<u8>, b: &Vec<u8>) -> (r: bool)
    ensures
        r <==> a@ == b@,
{
    if a.len() != b.len() {
        proof {
            assert(a@ != b@);
        }
        return false;
    }
    let mut i: usize = 0;
    while i < a.len()
        invariant
            a@.len() == b@.len(),
            i <= a@.len(),
            forall|m: int| 0 <= m < i ==> a@[m] == b@[m],
        decreases a@.len() - i,
    {
        if a[i] != b[i] {
            proof {
                assert(a@[i as int] != b@[i as int]);
            }
            return false;
        }
        i = i + 1;
    }
    proof {
        assert(a@ =~= b@);
    }
    true
}

/// Reconstruct a blob of `blob_size` bytes from primary slivers.
///
/// Succeeds exactly when the declared size is within bounds, every sliver
/// is well-formed for it, no two slivers conflict, and at least `k_p`
/// distinct shard indices are present; the reported error follows the
/// precedence of `decode_check`. The result is pinned, byte for byte, to
/// the interpolation of the first `k_p` distinct supplied slivers.
///
/// Decoding does not verify the slivers against any published root hash;
/// a caller holding trusted metadata must hash and compare each supplied
/// sliver first, since sufficient but corrupted shares decode to wrong
/// bytes without any signal here.
#[verifier::loop_isolation(false)]
pub fn decode_primary(cfg: &EncodingConfig, blob_size: u64, slivers: &Vec<Sliver>) -> (r: Result<
    Vec<u8>,
    CodecError,
>)
    requires
        cfg.wf(),
    ensures
        r is Err <==> decode_check(cfg.n_shards, blob_size, slivers@) is Some,
        r matches Err(e) ==> Some(e) == decode_check(cfg.n_shards, blob_size, slivers@),
        r matches Ok(v) ==> v@.len() == blob_size && (forall|x: int|
            0 <= x < v@.len() ==> v@[x] == decoded_byte(
                slivers@,
                cfg.n_shards,
                blob_size as nat,
                x,
            )),
{
    let ghost sl = slivers@;
    let n = cfg.n_shards;
    if blob_size > cfg.max_blob_len() || blob_size > usize::MAX as u64 {
        return Err(CodecError::BlobTooLarge);
    }
    let num = slivers.len();
    let mut i: usize = 0;
    while i < num
        invariant
            num == sl.len(),
            sl == slivers@,
            n == cfg.n_shards,
            i <= num,
            forall|m: int| 0 <= m < i ==> #[trigger] sliver_shape_ok(sl[m], n),
        decreases num - i,
    {
        let ok = match slivers[i].axis {
            Axis::Primary => slivers[i].index < n,
            Axis::Secondary => false,
        };
        if !ok {
            proof {
                assert(!sliver_shape_ok(sl[i as int], n));
                assert(exists|m: int|
                    0 <= m < sl.len() && !(#[trigger] sliver_shape_ok(sl[m], n)));
                assert(decode_check(n, blob_size, sl) == Some(CodecError::MalformedEncoding));
            }
            return Err(CodecError::MalformedEncoding);
        }
        i = i + 1;
    }
    let s = cfg.symbol_elems(blob_size) as u64;
    let ks = cfg.source_secondary();
    let kp = cfg.source_primary();
    proof {
        assert(s * (ks as u64) <= 65536 * 65535) by (nonlinear_arith)
            requires
                s <= 65536,
                ks <= 65535,
        ;
    }
    let expected: u64 = 2 * (s * ks as u64);
    let mut i: usize = 0;
    while i < num
        invariant
            num == sl.len(),
            sl == slivers@,
            n == cfg.n_shards,
            s == config::symbol_elems(n, blob_size as nat),
            ks == config::source_secondary(n),
            expected == 2 * (s * ks as u64),
            i <= num,
            forall|m: int| 0 <= m < i ==> #[trigger] sliver_len_ok(sl[m], n, blob_size as nat),
        decreases num - i,
    {
        if slivers[i].data.len() as u64 != expected {
            proof {
                assert(!sliver_len_ok(sl[i as int], n, blob_size as nat));
                assert(exists|m: int|
                    0 <= m < sl.len() && !(#[trigger] sliver_len_ok(sl[m], n, blob_size as nat)));
                assert(decode_check(n, blob_size, sl) == Some(CodecError::SizeMismatch));
            }
            return Err(CodecError::SizeMismatch);
        }
        i = i + 1;
    }
    let mut i: usize = 0;
    while i < num
        invariant
            num == sl.len(),
            sl == slivers@,
            i <= num,
            forall|a: int, b: int|
                0 <= a < b < sl.len() && a < i ==> !(sl[a].index == sl[b].index && sl[a].data@
                    != sl[b].data@),
        decreases num - i,
    {
        let mut j2: usize = i + 1;
        while j2 < num
            invariant
                num == sl.len(),
                sl == slivers@,
                i < num,
                i < j2 <= num,
                forall|b: int|
                    i < b < j2 ==> !(sl[i as int].index == sl[b].index && sl[i as int].data@
                        != sl[b].data@),
            decreases num - j2,
        {
            if slivers[i].index == slivers[j2].index && !bytes_eq(
                &slivers[i].data,
                &slivers[j2].data,
            ) {
                proof {
                    assert(sl[i as int].index == sl[j2 as int].index && sl[i as int].data@
                        != sl[j2 as int].data@);
                    assert(has_conflict(sl));
                    assert(decode_check(n, blob_size, sl) == Some(CodecError::DuplicateShare));
                }
                return Err(CodecError::DuplicateShare);
            }
            j2 = j2 + 1;
        }
        i = i + 1;
    }
    // positions of the first sliver under each index, in input order
    let mut sel_all: Vec<usize> = Vec::new();
    let mut p: usize = 0;
    while p < num
        invariant
            num == sl.len(),
            sl == slivers@,
            p <= num,
            sel_all@.map_values(|u: usize| u as int) == firsts_upto(sl, p as int),
            forall|m: int| 0 <= m < sel_all@.len() ==> #[trigger] sel_all@[m] < num,
        decreases num - p,
    {
        let mut q: usize = 0;
        let mut dup = false;
        while q < p
            invariant
                num == sl.len(),
                sl == slivers@,
                p < num,
                q <= p,
                dup <==> exists|m: int| 0 <= m < q && sl[m].index == sl[p as int].index,
            decreases p - q,
        {
            if slivers[q].index == slivers[p].index {
                dup = true;
            }
            q = q + 1;
        }
        if !dup {
            sel_all.push(p);
            proof {
                assert(is_first(sl, p as int));
                assert(sel_all@.map_values(|u: usize| u as int) =~= firsts_upto(sl, p as int + 1));
            }
        } else {
            proof {
                assert(!is_first(sl, p as int));
            }
        }
        p = p + 1;
    }
    if sel_all.len() < kp as usize {
        proof {
            assert(firsts(sl).len() < config::source_primary(n));
        }
        return Err(CodecError::InsufficientShares);
    }
    proof {
        assert(decode_check(n, blob_size, sl) is None);
        lemma_firsts_props(sl, sl.len() as int);
    }
    let ghost ch = firsts(sl).take(config::source_primary(n));
    // the chosen slivers' indices and field elements
    let mut xs: Vec<u16> = Vec::new();
    let mut sel_elems: Vec<Vec<u16>> = Vec::new();
    let mut i: usize = 0;
    while i < kp as usize
        invariant
            num == sl.len(),
            sl == slivers@,
            n == cfg.n_shards,
            cfg.wf(),
            s == config::symbol_elems(n, blob_size as nat),
            ks == config::source_secondary(n),
            kp == config::source_primary(n),
            kp as usize <= sel_all@.len(),
            sel_all@.map_values(|u: usize| u as int) == firsts(sl),
            forall|m: int| 0 <= m < sel_all@.len() ==> #[trigger] sel_all@[m] < num,
            ch == firsts(sl).take(kp as int),
            forall|m: int| 0 <= m < sl.len() ==> #[trigger] sliver_len_ok(sl[m], n, blob_size as nat),
            i <= kp as usize,
            xs@.len() == i,
            sel_elems@.len() == i,
            forall|m: int| 0 <= m < i ==> #[trigger] xs@[m] == sl[ch[m]].index,
            forall|m: int|
                0 <= m < i ==> #[trigger] sel_elems@[m]@ == elems_of_bytes(sl[ch[m]].data@),
        decreases kp as usize - i,
    {
        let pos = sel_all[i];
        proof {
            assert(ch[i as int] == firsts(sl)[i as int]);
            assert(sel_all@[i as int] as int == firsts(sl)[i as int]);
            assert(sliver_len_ok(sl[pos as int], n, blob_size as nat));
            assert(sl[pos as int].data@.len() % 2 == 0);
        }
        xs.push(slivers[pos].index);
        let es = bytes_to_elems(&slivers[pos].data);
        sel_elems.push(es);
        i = i + 1;
    }
    decode_rows(cfg, blob_size, slivers, s, &xs, &sel_elems)
}

#[verifier::rlimit(50)]
#[verifier::loop_isolation(false)]
fn decode_rows(
    cfg: &EncodingConfig,
    blob_size: u64,
    slivers: &Vec<Sliver>,
    s: u64,
    xs: &Vec<u16>,
    sel_elems: &Vec<Vec<u16>>,
) -> (r: Result<Vec<u8>, CodecError>)
    requires
        cfg.wf(),
        blob_size <= config::max_blob_len(cfg.n_shards),
        blob_size <= usize::MAX,
        s == config::symbol_elems(cfg.n_shards, blob_size as nat),
        decode_check(cfg.n_shards, blob_size, slivers@) is None,
        xs@.len() == config::source_primary(cfg.n_shards),
        sel_elems@.len() == config::source_primary(cfg.n_shards),
        forall|m: int|
            0 <= m < xs@.len() ==> #[trigger] xs@[m] == slivers@[firsts(slivers@).take(
                config::source_primary(cfg.n_shards),
            )[m]].index,
        forall|m: int|
            0 <= m < sel_elems@.len() ==> #[trigger] sel_elems@[m]@ == elems_of_bytes(
                slivers@[firsts(slivers@).take(config::source_primary(cfg.n_shards))[m]].data@,
            ),
    ensures
        r is Ok,
        r matches Ok(v) ==> v@.len() == blob_size && (forall|x: int|
            0 <= x < v@.len() ==> v@[x] == decoded_byte(
                slivers@,
                cfg.n_shards,
                blob_size as nat,
                x,
            )),
{
    let ghost sl = slivers@;
    let ghost lnat = blob_size as nat;
    let n = cfg.n_shards;
    let kp = cfg.source_primary();
    let ks = cfg.source_secondary();
    let ghost ch = firsts(sl).take(kp as int);
    let ghost xsspec = Seq::new(kp as nat, |i: int| sl[ch[i]].index);
    proof {
        config::lemma_symbol_elems_bounds(n, lnat);
        lemma_firsts_props(sl, sl.len() as int);
        assert(firsts(sl).len() >= kp);
        assert(xs@ =~= xsspec);
        // pairwise distinct chosen indices
        assert forall|i: int, j: int| 0 <= i < j < kp implies xsspec[i] != xsspec[j] by {
            assert(ch[i] == firsts(sl)[i]);
            assert(ch[j] == firsts(sl)[j]);
        }
        // every chosen sliver holds one symbol per column
        assert forall|m: int| 0 <= m < kp implies sel_elems@[m]@.len() == (s as int) * (
        ks as int) by {
            assert(ch[m] == firsts(sl)[m]);
            assert(0 <= ch[m] < sl.len());
            assert(sliver_len_ok(sl[ch[m]], n, lnat));
            assert(sel_elems@[m]@ == elems_of_bytes(sl[ch[m]].data@));
            lemma_fundamental_div_mod_converse(
                2 * ((s as int) * (ks as int)),
                2,
                (s as int) * (ks as int),
                0,
            );
        }
    }
    let mut all_elems: Vec<u16> = Vec::new();
    let mut r_: u16 = 0;
    proof {
        assert((0 * ks as int) * s as int == 0) by (nonlinear_arith);
    }
    while r_ < kp
        invariant
            cfg.wf(),
            sl == slivers@,
            lnat == blob_size as nat,
            n == cfg.n_shards,
            kp == config::source_primary(n),
            ks == config::source_secondary(n),
            s == config::symbol_elems(n, lnat),
            1 <= s <= 65536,
            ch == firsts(sl).take(kp as int),
            xsspec == Seq::new(kp as nat, |i: int| sl[ch[i]].index),
            xs@ == xsspec,
            xs@.len() == kp,
            sel_elems@.len() == kp,
            forall|i: int, j: int| 0 <= i < j < kp ==> xsspec[i] != xsspec[j],
            forall|m: int|
                0 <= m < kp ==> #[trigger] sel_elems@[m]@ == elems_of_bytes(sl[ch[m]].data@),
            forall|m: int|
                0 <= m < kp ==> #[trigger] sel_elems@[m]@.len() == (s as int) * (ks as int),
            r_ <= kp,
            all_elems@.len() == (r_ as int * ks as int) * s as int,
            forall|y: int|
                0 <= y < all_elems@.len() ==> #[trigger] all_elems@[y] == row_source(
                    sl,
                    n,
                    lnat,
                    (y / (s as int)) / (ks as int),
                    (y / (s as int)) % (ks as int),
                    y % (s as int),
                ),
        decreases kp - r_,
    {
        // locate a supplied systematic sliver for this row, if any
        let mut has_direct = false;
        let mut direct_i: usize = 0;
        let mut i: usize = 0;
        while i < kp as usize
            invariant
                xs@ == xsspec,
                xs@.len() == kp,
                i <= kp as usize,
                has_direct ==> direct_i < kp as usize && xsspec[direct_i as int] == r_,
                !has_direct ==> forall|m: int| 0 <= m < i ==> xsspec[m] != r_,
            decreases kp as usize - i,
        {
            if !has_direct && xs[i] == r_ {
                has_direct = true;
                direct_i = i;
            }
            i = i + 1;
        }
        let coeffs_r: Vec<u16> = if has_direct {
            Vec::new()
        } else {
            coeffs_for(&xs, r_)
        };
        let mut c: u16 = 0;
        while c < ks
            invariant
                cfg.wf(),
                sl == slivers@,
                lnat == blob_size as nat,
                n == cfg.n_shards,
                kp == config::source_primary(n),
                ks == config::source_secondary(n),
                s == config::symbol_elems(n, lnat),
                1 <= s <= 65536,
                ch == firsts(sl).take(kp as int),
                xsspec == Seq::new(kp as nat, |i: int| sl[ch[i]].index),
                xs@ == xsspec,
                xs@.len() == kp,
                sel_elems@.len() == kp,
                forall|i: int, j: int| 0 <= i < j < kp ==> xsspec[i] != xsspec[j],
                forall|m: int|
                    0 <= m < kp ==> #[trigger] sel_elems@[m]@ == elems_of_bytes(sl[ch[m]].data@),
                forall|m: int|
                    0 <= m < kp ==> #[trigger] sel_elems@[m]@.len() == (s as int) * (ks as int),
                r_ < kp,
                has_direct ==> direct_i < kp as usize && xsspec[direct_i as int] == r_,
                !has_direct ==> forall|m: int| 0 <= m < kp ==> xsspec[m] != r_,
                !has_direct ==> coeffs_r@ == Seq::new(kp as nat, |i: int| lag_coeff(xsspec, i, r_)),
                c <= ks,
                all_elems@.len() == (r_ as int * ks as int) * s as int + c as int * s as int,
                forall|y: int|
                    0 <= y < all_elems@.len() ==> #[trigger] all_elems@[y] == row_source(
                        sl,
                        n,
                        lnat,
                        (y / (s as int)) / (ks as int),
                        (y / (s as int)) % (ks as int),
                        y % (s as int),
                    ),
            decreases ks - c,
        {
            let mut t: u64 = 0;
            while t < s
                invariant
                    cfg.wf(),
                    sl == slivers@,
                    lnat == blob_size as nat,
                    n == cfg.n_shards,
                    kp == config::source_primary(n),
                    ks == config::source_secondary(n),
                    s == config::symbol_elems(n, lnat),
                    1 <= s <= 65536,
                    ch == firsts(sl).take(kp as int),
                    xsspec == Seq::new(kp as nat, |i: int| sl[ch[i]].index),
                    xs@ == xsspec,
                    xs@.len() == kp,
                    sel_elems@.len() == kp,
                    forall|i: int, j: int| 0 <= i < j < kp ==> xsspec[i] != xsspec[j],
                    forall|m: int|
                        0 <= m < kp ==> #[trigger] sel_elems@[m]@ == elems_of_bytes(
                            sl[ch[m]].data@,
                        ),
                    forall|m: int|
                        0 <= m < kp ==> #[trigger] sel_elems@[m]@.len() == (s as int) * (
                        ks as int),
                    r_ < kp,
                    c < ks,
                    has_direct ==> direct_i < kp as usize && xsspec[direct_i as int] == r_,
                    !has_direct ==> forall|m: int| 0 <= m < kp ==> xsspec[m] != r_,
                    !has_direct ==> coeffs_r@ == Seq::new(
                        kp as nat,
                        |i: int| lag_coeff(xsspec, i, r_),
                    ),
                    t <= s,
                    all_elems@.len() == (r_ as int * ks as int) * s as int + c as int * s as int
                        + t,
                    forall|y: int|
                        0 <= y < all_elems@.len() ==> #[trigger] all_elems@[y] == row_source(
                            sl,
                            n,
                            lnat,
                            (y / (s as int)) / (ks as int),
                            (y / (s as int)) % (ks as int),
                            y % (s as int),
                        ),
                decreases s - t,
            {
                proof {
                    assert(c as int * (s as int) + t < (s as int) * (ks as int)
                        && c as int * (s as int) + t < 0x2_0000_0000) by (nonlinear_arith)
                        requires
                            c < ks,
                            ks <= 65535,
                            t < s,
                            s <= 65536,
                    ;
                }
                let pos: u64 = c as u64 * s + t;
                let e: u16;
                if has_direct {
                    let row = &sel_elems[direct_i];
                    let rl = row.len();
                    proof {
                        assert(rl == (s as int) * (ks as int));
                    }
                    e = row[pos as usize];
                    proof {
                        let ii = choose|i: int|
                            0 <= i < kp as int && xsspec[i] as int == r_ as int;
                        assert(xsspec[direct_i as int] as int == r_ as int);
                        assert(ii == direct_i as int);
                        assert(e == row_source(sl, n, lnat, r_ as int, c as int, t as int));
                    }
                } else {
                    let mut vals: Vec<u16> = Vec::new();
                    let mut i: usize = 0;
                    while i < kp as usize
                        invariant
                            sl == slivers@,
                            sel_elems@.len() == kp,
                            forall|m: int|
                                0 <= m < kp ==> #[trigger] sel_elems@[m]@ == elems_of_bytes(
                                    sl[ch[m]].data@,
                                ),
                            forall|m: int|
                                0 <= m < kp ==> #[trigger] sel_elems@[m]@.len() == (s as int) * (
                                ks as int),
                            pos == c as int * (s as int) + t,
                            pos < (s as int) * (ks as int),
                            i <= kp as usize,
                            vals@.len() == i,
                            forall|m: int|
                                0 <= m < i ==> #[trigger] vals@[m] == elems_of_bytes(
                                    sl[ch[m]].data@,
                                )[c as int * (s as int) + t],
                        decreases kp as usize - i,
                    {
                        let row = &sel_elems[i];
                        let rl = row.len();
                        proof {
                            assert(rl == (s as int) * (ks as int));
                        }
                        vals.push(row[pos as usize]);
                        i = i + 1;
                    }
                    proof {
                        assert(vals@ =~= Seq::new(
                            kp as nat,
                            |i: int|
                                elems_of_bytes(sl[ch[i]].data@)[c as int * (s as int)
                                    + t as int],
                        ));
                    }
                    e = combine(&coeffs_r, &vals);
                    proof {
                        assert(e == row_source(sl, n, lnat, r_ as int, c as int, t as int));
                    }
                }
                proof {
                    assert((r_ as int * ks as int) * s as int + c as int * s as int + t as int
                        == (r_ as int * ks as int + c as int) * s as int + t as int)
                        by (nonlinear_arith);
                    let y0 = (r_ as int * ks as int) * s as int + c as int * s as int + t;
                    lemma_fundamental_div_mod_converse(
                        y0,
                        s as int,
                        r_ as int * ks as int + c as int,
                        t as int,
                    );
                    lemma_fundamental_div_mod_converse(
                        r_ as int * ks as int + c as int,
                        ks as int,
                        r_ as int,
                        c as int,
                    );
                }
                all_elems.push(e);
                t = t + 1;
            }
            proof {
                assert((r_ as int * ks as int) * s as int + (c as int + 1) * s as int == (r_
                    as int * ks as int) * s as int + c as int * s as int + s as int)
                    by (nonlinear_arith);
            }
            c = c + 1;
        }
        proof {
            assert(((r_ as int + 1) * ks as int) * s as int == (r_ as int * ks as int) * s as int
                + ks as int * s as int) by (nonlinear_arith);
        }
        r_ = r_ + 1;
    }
    let all_bytes = elems_to_bytes(&all_elems);
    proof {
        config::lemma_symbol_capacity(n, lnat);
        assert((kp as int * ks as int) * s as int == config::cells(n) * config::symbol_elems(
            n,
            lnat,
        )) by (nonlinear_arith)
            requires
                kp == config::source_primary(n),
                ks == config::source_secondary(n),
                s == config::symbol_elems(n, lnat),
                config::cells(n) == config::source_primary(n) * config::source_secondary(n),
        ;
        assert(blob_size <= all_bytes@.len());
    }
    let mut v: Vec<u8> = Vec::new();
    let count: usize = blob_size as usize;
    let mut x: usize = 0;
    while x < count
        invariant
            count == blob_size,
            count <= all_bytes@.len(),
            x <= count,
            v@.len() == x,
            forall|m: int| 0 <= m < x ==> v@[m] == all_bytes@[m],
        decreases count - x,
    {
        v.push(all_bytes[x]);
        x = x + 1;
    }
    proof {
        assert forall|m: int| 0 <= m < v@.len() implies v@[m] == decoded_byte(sl, n, lnat, m) by {
            assert(all_bytes@[m] == bytes_of_elems(all_elems@)[m]);
            assert(0 <= m / 2 < all_elems@.len());
            assert(all_elems@[m / 2] == row_source(
                sl,
                n,
                lnat,
                ((m / 2) / (s as int)) / (ks as int),
                ((m / 2) / (s as int)) % (ks as int),
                (m / 2) % (s as int),
            ));
        }
    }
    Ok(v)
}

} // verus!
