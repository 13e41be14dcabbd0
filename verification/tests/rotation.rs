use plonk_evaluation::rotation::{get_rotation_idx, Rotation};

#[test]
fn rotation_index_is_a_nonnegative_remainder() {
    assert_eq!(get_rotation_idx(0, -1, 4, 16), 12);
    assert_eq!(get_rotation_idx(15, 1, 4, 16), 3);
    assert_eq!(get_rotation_idx(3, 2, 2, 8), 7);
    assert_eq!(get_rotation_idx(1, -3, 2, 8), 3);
    assert_eq!(get_rotation_idx(5, 1, 1, 8), 6);
}

#[test]
fn rotation_by_zero_is_the_identity_on_the_domain() {
    for idx in 0..16usize {
        assert_eq!(get_rotation_idx(idx, 0, 4, 16), idx);
    }
}

#[test]
fn rotation_by_zero_reduces_rows_beyond_the_domain() {
    assert_eq!(get_rotation_idx(16, 0, 4, 16), 0);
    assert_eq!(get_rotation_idx(21, 0, 4, 16), 5);
}

#[test]
fn rotating_back_returns_to_the_row() {
    for idx in 0..16usize {
        for rot in -5..6i32 {
            let there = get_rotation_idx(idx, rot, 4, 16);
            assert!(there < 16);
            assert_eq!(get_rotation_idx(there, -rot, 4, 16), idx);
        }
    }
}

#[test]
fn rotation_handles_the_extremes_of_its_arguments() {
    assert_eq!(get_rotation_idx(0, i32::MIN, i32::MAX, 7), {
        let step = (i32::MIN as i128) * (i32::MAX as i128);
        step.rem_euclid(7) as usize
    });
    assert_eq!(get_rotation_idx(usize::MAX, i32::MAX, i32::MAX, 1), 0);
    assert_eq!(
        get_rotation_idx(usize::MAX, 0, 1, i32::MAX),
        (usize::MAX as u128 % i32::MAX as u128) as usize
    );
}

#[test]
fn the_last_rotation_is_negative_and_lands_in_the_domain() {
    // With three blinding factors the last row is four steps back.
    let last_rotation = -4;
    assert_eq!(get_rotation_idx(0, last_rotation, 2, 16), 8);
    assert_eq!(get_rotation_idx(7, last_rotation, 2, 16), 15);
}

#[test]
fn named_rotations() {
    assert_eq!(Rotation::cur(), Rotation(0));
    assert_eq!(Rotation::prev(), Rotation(-1));
    assert_eq!(Rotation::next(), Rotation(1));
}
