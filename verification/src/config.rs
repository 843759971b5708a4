//! Encoding configuration: shard count, derived per-axis code parameters,
//! symbol sizing, and the maximum supported blob length.
//!
//! For `n` shards the code tolerates `f = (n - 1) / 3` unavailable or
//! byzantine shards (so `3f < n`). The source matrix has
//! `k_p = n - 2f` rows and `k_s = n - f` columns of symbols; each column is
//! extended to `n` symbols to form the primary slivers and each row is
//! extended to `n` symbols to form the secondary slivers. Reconstruction
//! needs any `k_p` primary slivers, or any `k_s` secondary ones.

use vstd::prelude::*;
use vstd::arithmetic::div_mod::lemma_fundamental_div_mod;
use vstd::arithmetic::div_mod::lemma_div_is_ordered;
use crate::CodecError;

verus! {

/// Number of faulty shards tolerated by the code for `n` shards.
pub open spec fn max_faults(n: u16) -> int {
    if n == 0 {
        0
    } else {
        (n - 1) / 3
    }
}

/// Number of source symbols along the primary axis (rows of the matrix).
pub open spec fn source_primary(n: u16) -> int {
    n - 2 * max_faults(n)
}

/// Number of source symbols along the secondary axis (columns of the matrix).
pub open spec fn source_secondary(n: u16) -> int {
    n - max_faults(n)
}

/// Number of source matrix cells.
pub open spec fn cells(n: u16) -> int {
    source_primary(n) * source_secondary(n)
}

/// Number of field elements needed to hold `len` bytes (two bytes each,
/// the last element padded).
pub open spec fn elems_needed(len: nat) -> int {
    (len as int + 1) / 2
}

/// Cap on the number of field elements per symbol.
pub open spec fn symbol_elems_cap() -> int {
    65536
}

/// Largest blob length a configuration with `n` shards accepts.
pub open spec fn max_blob_len(n: u16) -> int {
    2 * cells(n) * symbol_elems_cap()
}

/// Field elements per symbol for a blob of `len` bytes: the smallest count
/// that lets the source matrix hold the whole blob, and at least one.
pub open spec fn symbol_elems(n: u16, len: nat) -> int {
    let q = (elems_needed(len) + cells(n) - 1) / cells(n);
    if q == 0 {
        1
    } else {
        q
    }
}

/// Basic bounds on the derived parameters: for a positive shard count,
/// `1 <= k_p <= k_s <= n` and `0 <= f`.
pub proof fn lemma_params(n: u16)
    requires
        n >= 1,
    ensures
        0 <= max_faults(n),
        1 <= source_primary(n),
        source_primary(n) <= source_secondary(n),
        source_secondary(n) <= n,
        1 <= cells(n),
        cells(n) <= n * n,
{
    lemma_fundamental_div_mod(n - 1, 3);
    assert(cells(n) <= n * n) by (nonlinear_arith)
        requires
            1 <= source_primary(n),
            source_primary(n) <= n,
            1 <= source_secondary(n),
            source_secondary(n) <= n,
            cells(n) == source_primary(n) * source_secondary(n),
    ;
    assert(1 <= cells(n)) by (nonlinear_arith)
        requires
            1 <= source_primary(n),
            1 <= source_secondary(n),
            cells(n) == source_primary(n) * source_secondary(n),
    ;
}

/// For a blob within the configured maximum, the symbol size is between
/// 1 and the cap.
pub proof fn lemma_symbol_elems_bounds(n: u16, len: nat)
    requires
        n >= 1,
        len <= max_blob_len(n),
    ensures
        1 <= symbol_elems(n, len),
        symbol_elems(n, len) <= symbol_elems_cap(),
{
    lemma_params(n);
    let c = cells(n);
    let need = elems_needed(len);
    assert(need <= c * symbol_elems_cap()) by {
        lemma_fundamental_div_mod(len as int + 1, 2);
        assert(2 * c * symbol_elems_cap() + 1 == 2 * (c * symbol_elems_cap()) + 1)
            by (nonlinear_arith);
        lemma_div_is_ordered(len as int + 1, 2 * (c * symbol_elems_cap()) + 1, 2);
        lemma_fundamental_div_mod(2 * (c * symbol_elems_cap()) + 1, 2);
    }
    let q = (need + c - 1) / c;
    assert(need + c - 1 <= c * symbol_elems_cap() + c - 1);
    lemma_div_is_ordered(need + c - 1, c * symbol_elems_cap() + c - 1, c);
    assert((c * symbol_elems_cap() + c - 1) / c == symbol_elems_cap()) by {
        vstd::arithmetic::div_mod::lemma_fundamental_div_mod_converse(
            c * symbol_elems_cap() + c - 1,
            c,
            symbol_elems_cap(),
            c - 1,
        );
        assert(c * symbol_elems_cap() + c - 1 == symbol_elems_cap() * c + (c - 1))
            by (nonlinear_arith);
    }
    assert(q >= 0) by {
        vstd::arithmetic::div_mod::lemma_div_pos_is_pos(need + c - 1, c);
    }
}

/// The padded source matrix always holds the whole blob: `len` bytes fit
/// in the `cells(n)` symbols of `symbol_elems(n, len)` elements each.
pub proof fn lemma_symbol_capacity(n: u16, len: nat)
    requires
        n >= 1,
        len <= max_blob_len(n),
    ensures
        len <= 2 * (cells(n) * symbol_elems(n, len)),
{
    lemma_params(n);
    lemma_symbol_elems_bounds(n, len);
    let c = cells(n);
    let need = elems_needed(len);
    let q = (need + c - 1) / c;
    assert(2 * need >= len) by {
        lemma_fundamental_div_mod(len as int + 1, 2);
    }
    assert(need >= 0) by {
        vstd::arithmetic::div_mod::lemma_div_pos_is_pos(len as int + 1, 2);
    }
    if q == 0 {
        assert(need + c - 1 == c * 0 + (need + c - 1)) by (nonlinear_arith);
        vstd::arithmetic::div_mod::lemma_fundamental_div_mod(need + c - 1, c);
        assert(need == 0);
        assert(len <= 2 * (c * 1)) by (nonlinear_arith)
            requires
                c >= 1,
                len <= 2 * need,
                need == 0,
        ;
    } else {
        assert(c * q >= need) by {
            lemma_fundamental_div_mod(need + c - 1, c);
        }
        assert(len <= 2 * (c * q));
    }
}

/// The code variant. A single systematic variant over GF(2^16) is defined;
/// further variants would be added as new values of this enumeration.
#[derive(Clone, Copy, Debug, PartialEq, Eq, Structural)]
pub enum EncodingType {
    RS2,
}

impl EncodingType {
    /// Canonical one-byte tag for this variant.
    pub open spec fn spec_code(self) -> u8 {
        1
    }

    /// Canonical one-byte tag for this variant.
    pub fn code(&self) -> (r: u8)
        ensures
            r == self.spec_code(),
    {
        match self {
            EncodingType::RS2 => 1,
        }
    }

    /// Look a variant up by its canonical tag; unknown tags are rejected.
    pub fn from_code(c: u8) -> (r: Result<EncodingType, CodecError>)
        ensures
            c == 1 ==> r == Result::<EncodingType, CodecError>::Ok(EncodingType::RS2),
            c != 1 ==> r == Result::<EncodingType, CodecError>::Err(
                CodecError::UnsupportedEncodingType,
            ),
    {
        if c == 1 {
            Ok(EncodingType::RS2)
        } else {
            Err(CodecError::UnsupportedEncodingType)
        }
    }
}

/// Immutable encoding configuration for a fixed shard count.
#[derive(Debug)]
pub struct EncodingConfig {
    pub n_shards: u16,
}

impl EncodingConfig {
    /// A usable configuration has a positive shard count.
    pub open spec fn wf(self) -> bool {
        self.n_shards >= 1
    }

    /// Build a configuration. Fails with `InvalidConfiguration` exactly when
    /// the shard count is zero.
    pub fn new(n_shards: u16) -> (r: Result<EncodingConfig, CodecError>)
        ensures
            n_shards == 0 <==> r is Err,
            r is Err ==> r == Result::<EncodingConfig, CodecError>::Err(
                CodecError::InvalidConfiguration,
            ),
            r matches Ok(c) ==> c.n_shards == n_shards && c.wf(),
    {
        if n_shards == 0 {
            Err(CodecError::InvalidConfiguration)
        } else {
            Ok(EncodingConfig { n_shards })
        }
    }

    /// Number of tolerated faulty shards.
    pub fn max_faults(&self) -> (r: u16)
        requires
            self.wf(),
        ensures
            r == max_faults(self.n_shards),
    {
        (self.n_shards - 1) / 3
    }

    /// Primary-axis source symbol count (reconstruction threshold for
    /// primary slivers).
    pub fn source_primary(&self) -> (r: u16)
        requires
            self.wf(),
        ensures
            r == source_primary(self.n_shards),
            1 <= r <= self.n_shards,
    {
        proof {
            lemma_params(self.n_shards);
        }
        self.n_shards - 2 * ((self.n_shards - 1) / 3)
    }

    /// Secondary-axis source symbol count (reconstruction threshold for
    /// secondary slivers).
    pub fn source_secondary(&self) -> (r: u16)
        requires
            self.wf(),
        ensures
            r == source_secondary(self.n_shards),
            1 <= r <= self.n_shards,
    {
        proof {
            lemma_params(self.n_shards);
        }
        self.n_shards - (self.n_shards - 1) / 3
    }

    /// Largest accepted blob length.
    pub fn max_blob_len(&self) -> (r: u64)
        requires
            self.wf(),
        ensures
            r == max_blob_len(self.n_shards),
    {
        proof {
            lemma_params(self.n_shards);
        }
        let kp = self.source_primary() as u64;
        let ks = self.source_secondary() as u64;
        proof {
            assert(kp * ks <= 65535 * 65535) by (nonlinear_arith)
                requires
                    kp <= 65535,
                    ks <= 65535,
            ;
        }
        2 * (kp * ks) * 65536
    }

    /// Field elements per symbol for a blob of `len` bytes.
    pub fn symbol_elems(&self, len: u64) -> (r: u32)
        requires
            self.wf(),
            len <= max_blob_len(self.n_shards),
        ensures
            r == symbol_elems(self.n_shards, len as nat),
            1 <= r <= 65536,
    {
        proof {
            lemma_params(self.n_shards);
            lemma_symbol_elems_bounds(self.n_shards, len as nat);
            assert(source_primary(self.n_shards) * source_secondary(self.n_shards)
                <= 65535 * 65535) by (nonlinear_arith)
                requires
                    1 <= source_primary(self.n_shards) <= 65535,
                    1 <= source_secondary(self.n_shards) <= 65535,
            ;
        }
        let c = self.source_primary() as u64 * self.source_secondary() as u64;
        let need = (len + 1) / 2;
        let q = (need + c - 1) / c;
        if q == 0 {
            1
        } else {
            q as u32
        }
    }
}

} // verus!
