use vstd::arithmetic::div_mod::{lemma_mod_bound, lemma_small_mod};
use vstd::prelude::*;

verus! {

/// The row reached from row `idx` by `rot` steps of `rot_scale` rows each,
/// wrapping around a domain of `size` rows.
pub open spec fn rot_idx(idx: int, rot: int, rot_scale: int, size: int) -> int {
    (idx + rot * rot_scale) % size
}

/// A signed number of rows of the evaluation subgroup.
#[derive(Clone, Copy, Debug, PartialEq, Eq, Structural)]
pub struct Rotation(pub i32);

impl Rotation {
    /// The current row.
    pub fn cur() -> (r: Rotation)
        ensures
            r.0 == 0,
    {
        Rotation(0)
    }

    /// The row before the current one.
    pub fn prev() -> (r: Rotation)
        ensures
            r.0 == -1,
    {
        Rotation(-1)
    }

    /// The row after the current one.
    pub fn next() -> (r: Rotation)
        ensures
            r.0 == 1,
    {
        Rotation(1)
    }
}

/// A row of a domain of `size` rows in which one step of the evaluation
/// subgroup is `rot_scale` rows long.
pub struct Position {
    pub idx: int,
    pub rot_scale: int,
    pub size: int,
}

impl Position {
    /// The row reached from this one by `rot` steps.
    pub open spec fn rotated(self, rot: int) -> int {
        rot_idx(self.idx, rot, self.rot_scale, self.size)
    }
}

/// A rotated row lies within the domain.
pub proof fn lemma_rot_idx_range(idx: int, rot: int, rot_scale: int, size: int)
    requires
        size > 0,
    ensures
        0 <= rot_idx(idx, rot, rot_scale, size) < size,
{
    lemma_mod_bound(idx + rot * rot_scale, size);
}

/// Rotating by no steps leaves a row of the domain where it is.
pub proof fn lemma_rotation_zero_is_identity(idx: int, rot_scale: int, size: int)
    requires
        0 <= idx < size,
    ensures
        rot_idx(idx, 0, rot_scale, size) == idx,
{
    assert(0 * rot_scale == 0) by (nonlinear_arith);
    lemma_small_mod(idx as nat, size as nat);
}

/// Rotating a row of the domain by `rot` steps and then by `-rot` steps
/// leads back to it.
pub proof fn lemma_rotation_round_trip(idx: int, rot: int, rot_scale: int, size: int)
    requires
        0 <= idx < size,
    ensures
        rot_idx(rot_idx(idx, rot, rot_scale, size), -rot, rot_scale, size) == idx,
{
    let step = rot * rot_scale;
    assert((-rot) * rot_scale == -step) by (nonlinear_arith)
        requires
            step == rot * rot_scale,
    ;
    vstd::arithmetic::div_mod::lemma_add_mod_noop(idx + step, -step, size);
    vstd::arithmetic::div_mod::lemma_add_mod_noop((idx + step) % size, -step, size);
    vstd::arithmetic::div_mod::lemma_mod_twice(idx + step, size);
    lemma_small_mod(idx as nat, size as nat);
}

/// Return the index in the polynomial of size `isize` after rotation `rot`.
pub fn get_rotation_idx(idx: usize, rot: i32, rot_scale: i32, isize: i32) -> (r: usize)
    requires
        isize > 0,
    ensures
        r == rot_idx(idx as int, rot as int, rot_scale as int, isize as int),
        r < isize,
{
    assert(-0x4000_0000_0000_0000 <= rot * rot_scale <= 0x4000_0000_0000_0000) by (nonlinear_arith)
        requires
            -0x8000_0000 <= rot <= 0x7fff_ffff,
            -0x8000_0000 <= rot_scale <= 0x7fff_ffff,
    ;
    let step: i128 = (rot as i128) * (rot_scale as i128);
    let shifted: i128 = (idx as i128) + step;
    let m: i128 = isize as i128;
    match shifted.checked_rem_euclid(m) {
        Some(rem) => rem as usize,
        None => 0,
    }
}

} // verus!
