//! The integer codes that the insole vision reports to the PLC.
//!
//! The measurements themselves (areas, solidity, offsets, angles) are
//! floating point and are taken by the image pipeline; what is decided here
//! is how the outcome of its threshold tests is encoded.
use vstd::prelude::*;

verus! {

/// Stack state: a single insole, nothing stacked.
pub const STACK_SINGLE: u16 = 0;

/// Stack state: the top insole lies on the bottom one, aligned.
pub const STACK_ALIGNED: u16 = 1;

/// Stack state: the top insole is shifted but not rotated.
pub const STACK_OFFSET: u16 = 2;

/// Stack state: the top insole is rotated but not shifted.
pub const STACK_ROTATED: u16 = 3;

/// Stack state: the top insole is both shifted and rotated.
pub const STACK_COMPLEX: u16 = 4;

/// Damage flag: the area ratio to the reference is outside its range.
pub const DAMAGE_AREA: u8 = 0b001;

/// Damage flag: the solidity is below its minimum.
pub const DAMAGE_SOLIDITY: u8 = 0b010;

/// The stack state of two stacked insoles, given whether the top one's
/// offset and its rotation exceed their confirmation thresholds.
pub fn stack_state(offset_exceeds: bool, rotation_exceeds: bool) -> (s: u16)
    ensures
        s == (if offset_exceeds {
            if rotation_exceeds { STACK_COMPLEX } else { STACK_OFFSET }
        } else {
            if rotation_exceeds { STACK_ROTATED } else { STACK_ALIGNED }
        }),
{
    match (offset_exceeds, rotation_exceeds) {
        (false, false) => STACK_ALIGNED,
        (true, false) => STACK_OFFSET,
        (false, true) => STACK_ROTATED,
        (true, true) => STACK_COMPLEX,
    }
}

/// The damage flags of an insole, given whether its area ratio lies in range
/// and whether its solidity reaches the minimum.
pub fn damage_flags(area_ok: bool, solidity_ok: bool) -> (f: u8)
    ensures
        f == (if area_ok { 0u8 } else { DAMAGE_AREA }) | (if solidity_ok { 0u8 } else {
            DAMAGE_SOLIDITY
        }),
        (f == 0) == (area_ok && solidity_ok),
{
    let mut f: u8 = 0;
    if !area_ok {
        f = f | DAMAGE_AREA;
    }
    if !solidity_ok {
        f = f | DAMAGE_SOLIDITY;
    }
    assert((0u8 | 0b001u8) == 0b001u8 && (0u8 | 0b010u8) == 0b010u8 && (0b001u8 | 0b010u8)
        == 0b011u8 && (0u8 | 0u8) == 0u8 && (0b001u8 | 0u8) == 0b001u8 && (0u8 | 0b010u8) == 0b010u8) by (bit_vector);
    f
}

} // verus!
