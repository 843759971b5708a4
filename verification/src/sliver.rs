//! Slivers: one shard's encoded share of a blob along one axis, and the
//! pairing of a shard's primary and secondary shares.
//!
//! Sliver payloads are byte strings; the code itself works on 16-bit field
//! elements, stored little-endian, two bytes per element.

use vstd::prelude::*;
use vstd::arithmetic::div_mod::lemma_fundamental_div_mod;
use vstd::arithmetic::div_mod::lemma_fundamental_div_mod_converse;

verus! {

/// The two orthogonal directions of the two-dimensional code.
#[derive(Clone, Copy, Debug, PartialEq, Eq, Structural)]
pub enum Axis {
    Primary,
    Secondary,
}

/// One shard's share of a blob along one axis.
#[derive(Debug)]
pub struct Sliver {
    pub axis: Axis,
    pub index: u16,
    pub data: Vec<u8>,
}

/// A shard's primary and secondary slivers together.
#[derive(Debug)]
pub struct SliverPair {
    pub primary: Sliver,
    pub secondary: Sliver,
}

impl SliverPair {
    /// A well-formed pair holds one sliver of each axis, under one index.
    pub open spec fn wf(self) -> bool {
        self.primary.axis == Axis::Primary && self.secondary.axis == Axis::Secondary
            && self.primary.index == self.secondary.index
    }
}

/// Low byte of a field element.
pub open spec fn lo_byte(e: u16) -> u8 {
    (e % 256) as u8
}

/// High byte of a field element.
pub open spec fn hi_byte(e: u16) -> u8 {
    (e / 256) as u8
}

/// Little-endian byte string of a sequence of field elements.
pub open spec fn bytes_of_elems(es: Seq<u16>) -> Seq<u8> {
    Seq::new(
        2 * es.len(),
        |x: int| if x % 2 == 0 { lo_byte(es[x / 2]) } else { hi_byte(es[x / 2]) },
    )
}

/// Field elements read little-endian from a byte string of even length.
pub open spec fn elems_of_bytes(bs: Seq<u8>) -> Seq<u16> {
    Seq::new(bs.len() / 2, |i: int| (bs[2 * i] + 256 * bs[2 * i + 1]) as u16)
}

/// Reading elements back from their byte string returns the elements.
pub proof fn lemma_elems_bytes_roundtrip(es: Seq<u16>)
    ensures
        elems_of_bytes(bytes_of_elems(es)) =~= es,
{
    let bs = bytes_of_elems(es);
    assert(bs.len() == 2 * es.len());
    assert forall|i: int| 0 <= i < es.len() implies elems_of_bytes(bs)[i] == es[i] by {
        lemma_fundamental_div_mod_converse(2 * i, 2, i, 0);
        lemma_fundamental_div_mod_converse(2 * i + 1, 2, i, 1);
        assert(bs[2 * i] == lo_byte(es[i]));
        assert(bs[2 * i + 1] == hi_byte(es[i]));
        lemma_fundamental_div_mod(es[i] as int, 256);
    }
}

/// Serialize field elements little-endian.
pub fn elems_to_bytes(es: &Vec<u16>) -> (r: Vec<u8>)
    ensures
        r@ == bytes_of_elems(es@),
{
    let mut r: Vec<u8> = Vec::new();
    let mut i: usize = 0;
    while i < es.len()
        invariant
            i <= es@.len(),
            r@.len() == 2 * i,
            forall|x: int| 0 <= x < 2 * i ==> r@[x] == #[trigger] bytes_of_elems(es@)[x],
        decreases es@.len() - i,
    {
        let e = es[i];
        r.push((e % 256) as u8);
        r.push((e / 256) as u8);
        proof {
            lemma_fundamental_div_mod_converse(2 * i, 2, i as int, 0);
            lemma_fundamental_div_mod_converse(2 * i + 1, 2, i as int, 1);
        }
        i = i + 1;
    }
    proof {
        assert(r@ =~= bytes_of_elems(es@));
    }
    r
}

/// Read field elements little-endian from a byte string of even length.
pub fn bytes_to_elems(bs: &Vec<u8>) -> (r: Vec<u16>)
    requires
        bs@.len() % 2 == 0,
    ensures
        r@ == elems_of_bytes(bs@),
{
    let mut r: Vec<u16> = Vec::new();
    let mut i: usize = 0;
    proof {
        lemma_fundamental_div_mod(bs@.len() as int, 2);
    }
    let count = bs.len() / 2;
    while i < count
        invariant
            count == bs@.len() / 2,
            2 * count == bs@.len(),
            bs@.len() <= usize::MAX,
            i <= count,
            r@.len() == i,
            forall|x: int| 0 <= x < i ==> r@[x] == #[trigger] elems_of_bytes(bs@)[x],
        decreases count - i,
    {
        proof {
            assert(2 * (i as int) + 1 < bs@.len());
        }
        let e: u16 = bs[2 * i] as u16 + 256 * (bs[2 * i + 1] as u16);
        r.push(e);
        i = i + 1;
    }
    proof {
        assert(r@ =~= elems_of_bytes(bs@));
    }
    r
}

} // verus!
