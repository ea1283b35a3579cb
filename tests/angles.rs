use dxx::angles::{DEGREE_TURN, TENTHS_TURN};
use dxx::{calc_angles, calc_angles_tenths, sweep_angles};

#[test]
fn calc_angles_0_c() {
    let angles = calc_angles(&10, &0, true);
    assert_eq!(angles, vec![355, 356, 357, 358, 359, 0, 1, 2, 3, 4])
}

#[test]
fn calc_angles_0_cc() {
    let angles = calc_angles(&10, &0, false);
    assert_eq!(angles, vec![4, 3, 2, 1, 0, 359, 358, 357, 356, 355])
}

#[test]
fn calc_angles_5_c() {
    let angles = calc_angles(&20, &5, true);
    assert_eq!(
        angles,
        vec![355, 356, 357, 358, 359, 0, 1, 2, 3, 4, 5, 6, 7, 8, 9, 10, 11, 12, 13, 14]
    )
}

// The counterclockwise sweep starts at centre + width / 2 - 1 = 14 and steps down.
#[test]
fn calc_angles_5_cc() {
    let angles = calc_angles(&20, &5, false);
    assert_eq!(
        angles,
        vec![14, 13, 12, 11, 10, 9, 8, 7, 6, 5, 4, 3, 2, 1, 0, 359, 358, 357, 356, 355]
    )
}

#[test]
fn tenths_wrap_at_full_circle() {
    let angles = calc_angles_tenths(&10, &0, true);
    assert_eq!(angles, vec![3595, 3596, 3597, 3598, 3599, 0, 1, 2, 3, 4]);
    let angles = calc_angles_tenths(&10, &0, false);
    assert_eq!(angles, vec![4, 3, 2, 1, 0, 3599, 3598, 3597, 3596, 3595]);
}

#[test]
fn tenths_middle_of_circle() {
    let angles = calc_angles_tenths(&4, &450, true);
    assert_eq!(angles, vec![448, 449, 450, 451]);
    let angles = calc_angles_tenths(&4, &450, false);
    assert_eq!(angles, vec![451, 450, 449, 448]);
}

#[test]
fn empty_sweep_has_no_angles() {
    assert!(calc_angles(&0, &90, true).is_empty());
    assert!(calc_angles(&0, &90, false).is_empty());
}

#[test]
fn every_angle_within_circle() {
    for &width in &[1u32, 7, 360, 1000] {
        for &center in &[0u32, 1, 359, 3599, 100_000] {
            for &clockwise in &[true, false] {
                let degrees = calc_angles(&width, &center, clockwise);
                assert_eq!(degrees.len(), width as usize);
                assert!(degrees.iter().all(|&a| (0..360).contains(&a)));
                let tenths = calc_angles_tenths(&width, &center, clockwise);
                assert_eq!(tenths.len(), width as usize);
                assert!(tenths.iter().all(|&a| (0..3600).contains(&a)));
            }
        }
    }
}

#[test]
fn wide_sweep_wraps_more_than_once() {
    let angles = sweep_angles(800, 0, true, DEGREE_TURN);
    assert_eq!(angles[0], 320);
    assert_eq!(angles[40], 0);
    assert_eq!(angles[400], 0);
    assert_eq!(angles[799], 39);
    let angles = sweep_angles(800, 0, false, DEGREE_TURN);
    assert_eq!(angles[0], 39);
    assert_eq!(angles[799], 320);
}

#[test]
fn even_width_counterclockwise_is_reverse() {
    let mut cw = sweep_angles(12, 3590, true, TENTHS_TURN);
    let ccw = sweep_angles(12, 3590, false, TENTHS_TURN);
    cw.reverse();
    assert_eq!(ccw, cw);
}

#[test]
fn odd_width_sweeps() {
    assert_eq!(calc_angles(&3, &10, true), vec![9, 10, 11]);
    assert_eq!(calc_angles(&3, &10, false), vec![10, 9, 8]);
}
