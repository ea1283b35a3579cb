//! The triangular sweep of angles, one per convolution segment.
//!
//! Angles are integers wrapped into `[0, turn)`, where `turn` is the number
//! of angle units in a full circle: 360 for whole degrees, 3600 for tenths.

use vstd::arithmetic::div_mod::{
    lemma_add_mod_noop,
    lemma_fundamental_div_mod,
    lemma_fundamental_div_mod_converse,
};
use vstd::prelude::*;

verus! {

/// A full circle in whole degrees.
pub const DEGREE_TURN: u32 = 360;

/// A full circle in tenths of a degree.
pub const TENTHS_TURN: u32 = 3600;

/// The angle at which a sweep of `width` steps around `center` starts,
/// before it is wrapped.
pub open spec fn raw_start(width: int, center: int, clockwise: bool) -> int {
    if clockwise {
        center - width / 2
    } else {
        center + width / 2 - 1
    }
}

/// The triangular fold of step `i` in a sweep of `width` steps.
pub open spec fn fold(i: int, width: int) -> int {
    let d = i % (2 * width);
    if d > width {
        2 * width - d
    } else {
        d
    }
}

/// Angle `i` of the sweep: the wrapped start moved by the folded step,
/// forwards when clockwise and backwards otherwise, wrapped into `[0, turn)`.
pub open spec fn sweep_angle(width: int, center: int, clockwise: bool, turn: int, i: int) -> int {
    let start = raw_start(width, center, clockwise) % turn;
    let d = fold(i, width);
    (start + if clockwise {
        d
    } else {
        -d
    }) % turn
}

/// The whole sweep: one angle per step.
pub open spec fn schedule(width: nat, center: int, clockwise: bool, turn: int) -> Seq<int> {
    Seq::new(width, |i: int| sweep_angle(width as int, center, clockwise, turn, i))
}

/// Within one sweep the fold never reflects: step `i` moves by `i`.
pub proof fn lemma_fold_within_sweep(i: int, width: int)
    requires
        0 <= i < width,
    ensures
        fold(i, width) == i,
{
    lemma_fundamental_div_mod_converse(i, 2 * width, 0, i);
}

/// Every sweep has one angle per step, and each lies in `[0, turn)`.
pub proof fn lemma_schedule_in_turn(width: nat, center: int, clockwise: bool, turn: int)
    requires
        turn > 0,
    ensures
        schedule(width, center, clockwise, turn).len() == width,
        forall|i: int|
            0 <= i < width ==> 0 <= #[trigger] schedule(width, center, clockwise, turn)[i] < turn,
{
}

/// For an even width the counterclockwise sweep visits the clockwise one's
/// angles in reverse order.
pub proof fn lemma_counterclockwise_reverses(width: nat, center: int, turn: int)
    requires
        turn > 0,
        width % 2 == 0,
    ensures
        schedule(width, center, false, turn) == schedule(width, center, true, turn).reverse(),
{
    let cw = schedule(width, center, true, turn);
    let ccw = schedule(width, center, false, turn);
    let w = width as int;
    assert forall|i: int| 0 <= i < w implies ccw[i] == cw.reverse()[i] by {
        let j = w - 1 - i;
        lemma_fold_within_sweep(i, w);
        lemma_fold_within_sweep(j, w);
        lemma_fundamental_div_mod(w, 2);
        assert(raw_start(w, center, false) - i == raw_start(w, center, true) + j);
        assert((raw_start(w, center, false) % turn + (-i)) % turn == (raw_start(w, center, false)
            + -i) % turn) by {
            lemma_add_mod_noop(raw_start(w, center, false), -i, turn);
            lemma_add_mod_noop(raw_start(w, center, false) % turn, -i, turn);
            lemma_mod_twice(raw_start(w, center, false), turn);
        }
        assert((raw_start(w, center, true) % turn + j) % turn == (raw_start(w, center, true) + j)
            % turn) by {
            lemma_add_mod_noop(raw_start(w, center, true), j, turn);
            lemma_add_mod_noop(raw_start(w, center, true) % turn, j, turn);
            lemma_mod_twice(raw_start(w, center, true), turn);
        }
    }
    assert(ccw =~= cw.reverse());
}

proof fn lemma_mod_twice(x: int, m: int)
    requires
        m > 0,
    ensures
        (x % m) % m == x % m,
{
    lemma_fundamental_div_mod(x, m);
    lemma_fundamental_div_mod_converse(x % m, m, 0, x % m);
}

/// `pos - neg`, wrapped into `[0, turn)`.
fn wrap_diff(pos: u64, neg: u64, turn: u64) -> (r: u64)
    requires
        turn > 0,
    ensures
        r as int == (pos as int - neg as int) % (turn as int),
{
    if pos >= neg {
        (pos - neg) % turn
    } else {
        let deficit = neg - pos;
        let rem = deficit % turn;
        proof {
            let x = pos as int - neg as int;
            let t = turn as int;
            let q = deficit as int / t;
            lemma_fundamental_div_mod(deficit as int, t);
            if rem == 0 {
                assert(x == (-q) * t + 0) by (nonlinear_arith)
                    requires
                        deficit as int == t * q + rem as int,
                        x == -(deficit as int),
                        rem == 0,
                ;
                lemma_fundamental_div_mod_converse(x, t, -q, 0);
            } else {
                assert(x == (-q - 1) * t + (t - rem as int)) by (nonlinear_arith)
                    requires
                        deficit as int == t * q + rem as int,
                        x == -(deficit as int),
                ;
                lemma_fundamental_div_mod_converse(x, t, -q - 1, t - rem as int);
            }
        }
        if rem == 0 {
            0
        } else {
            turn - rem
        }
    }
}

/// The angles of a sweep of `move_width` steps centred on `angle`, in a
/// circle of `turn` units: starting half a width before the centre and
/// stepping up when clockwise, or half a width after it and stepping down
/// otherwise, each wrapped into `[0, turn)`.
pub fn sweep_angles(move_width: u32, angle: u32, clockwise: bool, turn: u32) -> (r: Vec<i32>)
    requires
        0 < turn <= i32::MAX,
    ensures
        r@.len() == move_width,
        forall|i: int|
            0 <= i < r@.len() ==> #[trigger] r@[i] as int == schedule(
                move_width as nat,
                angle as int,
                clockwise,
                turn as int,
            )[i],
{
    let w = move_width as u64;
    let t = turn as u64;
    let half = w / 2;
    let start = if clockwise {
        wrap_diff(angle as u64, half, t)
    } else {
        wrap_diff(angle as u64 + half, 1, t)
    };
    let mut angles: Vec<i32> = Vec::new();
    let mut i: u64 = 0;
    while i < w
        invariant
            i <= w,
            w == move_width,
            t == turn,
            0 < turn <= i32::MAX,
            start as int == raw_start(w as int, angle as int, clockwise) % (t as int),
            angles@.len() == i,
            forall|k: int|
                0 <= k < i ==> #[trigger] angles@[k] as int == sweep_angle(
                    w as int,
                    angle as int,
                    clockwise,
                    t as int,
                    k,
                ),
        decreases w - i,
    {
        let mut d = i % (2 * w);
        if d > w {
            d = 2 * w - d;
        }
        let a = if clockwise {
            wrap_diff(start + d, 0, t)
        } else {
            wrap_diff(start, d, t)
        };
        angles.push(a as i32);
        i = i + 1;
    }
    angles
}

/// The sweep in whole degrees, wrapped into `[0, 360)`.
pub fn calc_angles(move_width: &u32, angle: &u32, clockwise: bool) -> (r: Vec<i32>)
    ensures
        r@.len() == *move_width,
        forall|i: int|
            0 <= i < r@.len() ==> #[trigger] r@[i] as int == schedule(
                *move_width as nat,
                *angle as int,
                clockwise,
                DEGREE_TURN as int,
            )[i],
{
    sweep_angles(*move_width, *angle, clockwise, DEGREE_TURN)
}

/// The sweep in tenths of a degree, wrapped into `[0, 3600)`.
pub fn calc_angles_tenths(move_width: &u32, angle: &u32, clockwise: bool) -> (r: Vec<i32>)
    ensures
        r@.len() == *move_width,
        forall|i: int|
            0 <= i < r@.len() ==> #[trigger] r@[i] as int == schedule(
                *move_width as nat,
                *angle as int,
                clockwise,
                TENTHS_TURN as int,
            )[i],
{
    sweep_angles(*move_width, *angle, clockwise, TENTHS_TURN)
}

} // verus!
