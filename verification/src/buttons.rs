//! Which synthetic mouse buttons the program holds down, one bit per button,
//! so that they can all be let go of when the program stops.

use vstd::prelude::*;

verus! {

/// Whether bit `index` of `mask` is set.
pub open spec fn bit_is_set(mask: u8, index: u8) -> bool {
    (mask >> index) & 1u8 == 1u8
}

/// Whether button `index` is recorded as down in `mask`.
pub fn button_is_down(mask: u8, index: u8) -> (r: bool)
    requires
        index < 8,
    ensures
        r == bit_is_set(mask, index),
{
    let r = mask & (1u8 << index) != 0;
    assert(r == bit_is_set(mask, index)) by (bit_vector)
        requires
            index < 8,
            r == (mask & (1u8 << index) != 0),
    ;
    r
}

/// `mask` with button `index` recorded as down or up; the other buttons
/// stay as they were.
pub fn with_button(mask: u8, index: u8, down: bool) -> (r: u8)
    requires
        index < 8,
    ensures
        bit_is_set(r, index) == down,
        forall|j: u8| j < 8 && j != index ==> bit_is_set(r, j) == bit_is_set(mask, j),
{
    let r = if down {
        mask | (1u8 << index)
    } else {
        mask & !(1u8 << index)
    };
    assert(bit_is_set(r, index) == down) by (bit_vector)
        requires
            index < 8,
            r == if down {
                mask | (1u8 << index)
            } else {
                mask & !(1u8 << index)
            },
    ;
    assert forall|j: u8| j < 8 && j != index implies bit_is_set(r, j) == bit_is_set(mask, j) by {
        assert(bit_is_set(r, j) == bit_is_set(mask, j)) by (bit_vector)
            requires
                index < 8,
                j < 8,
                j != index,
                r == if down {
                    mask | (1u8 << index)
                } else {
                    mask & !(1u8 << index)
                },
        ;
    }
    r
}

} // verus!
