//! Sixteen-lane byte comparisons, computed by the `wide` crate.
use vstd::prelude::*;
use wide::u8x16;

use crate::model::{is_blank, SPACE, TAB};

verus! {

/// The number of bytes compared at once.
pub const LANES: usize = 16;

/// The mask lane for a byte that is a space or a tab: all bits set.
pub const HIT: u8 = 0xFF;

/// Relies on `wide::u8x16::cmp_eq`, with `b` splatted over every lane: lane
/// `i` of the result is all ones where `chunk[i] == b`, zero elsewhere.
#[verifier::external_body]
fn lanes_eq(chunk: [u8; 16], b: u8) -> (r: [u8; 16])
    ensures
        forall|i: int| 0 <= i < 16 ==> r[i] == (if chunk[i] == b { 0xFFu8 } else { 0u8 }),
{
    u8x16::from(chunk).cmp_eq(u8x16::splat(b)).to_array()
}

/// Relies on `wide::u8x16`'s `BitOr`: lane `i` of the result is `a[i] | b[i]`.
#[verifier::external_body]
fn lanes_or(a: [u8; 16], b: [u8; 16]) -> (r: [u8; 16])
    ensures
        forall|i: int| 0 <= i < 16 ==> r[i] == a[i] | b[i],
{
    (u8x16::from(a) | u8x16::from(b)).to_array()
}

/// Marks, lane by lane, which bytes of `chunk` are a space or a tab.
pub fn blank_mask(chunk: [u8; 16]) -> (mask: [u8; 16])
    ensures
        forall|i: int|
            0 <= i < 16 ==> mask[i] == (if is_blank(chunk[i]) { HIT } else { 0u8 }),
{
    let spaces = lanes_eq(chunk, SPACE);
    let tabs = lanes_eq(chunk, TAB);
    let mask = lanes_or(spaces, tabs);
    assert forall|i: int| 0 <= i < 16 implies mask[i] == (if is_blank(chunk[i]) {
        HIT
    } else {
        0u8
    }) by {
        let s = spaces[i];
        let t = tabs[i];
        assert(0xFFu8 | 0u8 == 0xFFu8 && 0u8 | 0xFFu8 == 0xFFu8 && 0u8 | 0u8 == 0u8)
            by (bit_vector);
        assert(SPACE != TAB);
    }
    mask
}

} // verus!
