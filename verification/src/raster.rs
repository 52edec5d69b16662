//! Integer line rasterization: the ordered sequence of intermediate grid
//! cells a particle's movement vector crosses in one tick.  The axis with
//! the larger absolute delta drives, stepping by one each element; the
//! other axis interpolates by rounding `short * i / long` half-up.

use vstd::prelude::*;
use crate::coords::Coordinate;

verus! {

/// Absolute difference of two axis positions.
pub open spec fn delta(a: u32, b: u32) -> int {
    vstd::math::abs(a as int - b as int) as int
}

/// The unit direction that moves `from` toward `to` on one axis (`-1`
/// when they are equal, as in the walker's modifier choice).
pub open spec fn step_toward(from: int, to: int) -> int {
    if from < to {
        1
    } else {
        -1
    }
}

/// `num / den` rounded half away from zero, for `num >= 0`, `den > 0`.
pub open spec fn round_ratio(num: int, den: int) -> int
    recommends
        0 <= num,
        0 < den,
{
    (2 * num + den) / (2 * den)
}

/// Number of cells on the path from `a` (exclusive) to `b` (inclusive).
pub open spec fn path_len_spec(a: Coordinate, b: Coordinate) -> int {
    if a == b {
        0
    } else {
        vstd::math::max(delta(a.x, b.x), delta(a.y, b.y))
    }
}

/// The `i`-th cell of the path from `a` to `b`, for `1 <= i <=
/// path_len_spec(a, b)`, as a pair of mathematical axis positions.
pub open spec fn path_point_spec(a: Coordinate, b: Coordinate, i: int) -> (int, int) {
    let adx = delta(a.x, b.x);
    let ady = delta(a.y, b.y);
    let long = vstd::math::max(adx, ady);
    let short = vstd::math::min(adx, ady);
    let xm = step_toward(a.x as int, b.x as int);
    let ym = step_toward(a.y as int, b.y as int);
    if adx > ady {
        (a.x + i * xm, a.y + round_ratio(short * i, long) * ym)
    } else {
        (a.x + round_ratio(short * i, long) * xm, a.y + i * ym)
    }
}

/// A coordinate as a pair of mathematical axis positions.
pub open spec fn point_of(c: Coordinate) -> (int, int) {
    (c.x as int, c.y as int)
}

/// The whole path as a sequence of coordinates.
pub open spec fn path_seq(a: Coordinate, b: Coordinate) -> Seq<Coordinate> {
    Seq::new(
        path_len_spec(a, b) as nat,
        |i: int|
            Coordinate {
                x: path_point_spec(a, b, i + 1).0 as u32,
                y: path_point_spec(a, b, i + 1).1 as u32,
            },
    )
}

/// The interpolated minor-axis offset never leaves `[0, short]`.
proof fn lemma_round_ratio_bounds(s: int, i: int, l: int)
    requires
        0 <= s <= l,
        1 <= i <= l,
    ensures
        0 <= round_ratio(s * i, l) <= s,
{
    assert(0 <= 2 * (s * i) + l) by (nonlinear_arith)
        requires
            0 <= s,
            1 <= i,
            1 <= l,
    ;
    vstd::arithmetic::div_mod::lemma_div_pos_is_pos(2 * (s * i) + l, 2 * l);
    assert(2 * (s * i) + l <= 2 * (s * l) + l) by (nonlinear_arith)
        requires
            0 <= s,
            i <= l,
    ;
    vstd::arithmetic::div_mod::lemma_div_is_ordered(2 * (s * i) + l, 2 * (s * l) + l, 2 * l);
    lemma_round_ratio_at_end(s, l);
}

/// At the last step the interpolation lands exactly on `short`.
proof fn lemma_round_ratio_at_end(s: int, l: int)
    requires
        0 <= s,
        1 <= l,
    ensures
        round_ratio(s * l, l) == s,
{
    assert(2 * (s * l) + l == s * (2 * l) + l) by (nonlinear_arith);
    vstd::arithmetic::div_mod::lemma_fundamental_div_mod_converse_div(
        2 * (s * l) + l,
        2 * l,
        s,
        l,
    );
}

/// Multiplying by a unit factor negates or keeps the value.
proof fn lemma_mul_unit(v: int, m: int)
    requires
        m == 1 || m == -1,
    ensures
        m == 1 ==> v * m == v,
        m == -1 ==> v * m == -v,
{
    assert(v * 1 == v) by (nonlinear_arith);
    assert(v * (-1) == -v) by (nonlinear_arith);
}

/// Rasterized path from `start` (exclusive) to `end` (inclusive).  Empty
/// when the endpoints coincide; otherwise exactly `max(|dx|, |dy|)` cells
/// long, ending at `end`.
#[verifier::loop_isolation(false)]
#[verifier::rlimit(60)]
pub fn path(start: &Coordinate, end: &Coordinate) -> (p: Vec<Coordinate>)
    ensures
        p@.len() == path_len_spec(*start, *end),
        forall|j: int|
            0 <= j < p@.len() ==> point_of(#[trigger] p@[j]) == path_point_spec(
                *start,
                *end,
                j + 1,
            ),
        *start != *end ==> p@.len() >= 1 && p@[p@.len() - 1] == *end,
        p@ == path_seq(*start, *end),
{
    let mut p: Vec<Coordinate> = Vec::new();
    if start.x == end.x && start.y == end.y {
        return p;
    }
    let adx: u64 = if start.x >= end.x {
        (start.x - end.x) as u64
    } else {
        (end.x - start.x) as u64
    };
    let ady: u64 = if start.y >= end.y {
        (start.y - end.y) as u64
    } else {
        (end.y - start.y) as u64
    };
    let x_is_long = adx > ady;
    let long: u64 = if adx > ady {
        adx
    } else {
        ady
    };
    let short: u64 = if adx > ady {
        ady
    } else {
        adx
    };
    let xm: i64 = if start.x < end.x {
        1
    } else {
        -1
    };
    let ym: i64 = if start.y < end.y {
        1
    } else {
        -1
    };
    proof {
        assert(long as int == vstd::math::max(delta(start.x, end.x), delta(start.y, end.y)));
        assert(short as int == vstd::math::min(delta(start.x, end.x), delta(start.y, end.y)));
    }
    let mut i: u64 = 1;
    while i <= long
        invariant
            1 <= i <= long + 1,
            p@.len() == i - 1,
            forall|j: int|
                0 <= j < p@.len() ==> point_of(#[trigger] p@[j]) == path_point_spec(
                    *start,
                    *end,
                    j + 1,
                ),
        decreases long + 1 - i,
    {
        let ghost si: int = (short as int) * (i as int);
        proof {
            lemma_round_ratio_bounds(short as int, i as int, long as int);
            assert((2 * (short as int)) * (i as int) == 2 * si) by (nonlinear_arith)
                requires
                    si == (short as int) * (i as int),
            ;
            assert(2 * si + (long as int) < u128::MAX as int) by (nonlinear_arith)
                requires
                    short <= 0xffff_ffff_u64,
                    i <= 0xffff_ffff_u64,
                    long <= 0xffff_ffff_u64,
                    si == (short as int) * (i as int),
            ;
        }
        let inc: u64 = ((2 * (short as u128) * (i as u128) + long as u128) / (2 * (long as u128)))
            as u64;
        proof {
            assert(inc as int == round_ratio(si, long as int));
        }
        let x_inc: i64 = if x_is_long {
            i as i64
        } else {
            inc as i64
        };
        let y_inc: i64 = if x_is_long {
            inc as i64
        } else {
            i as i64
        };
        proof {
            lemma_mul_unit(x_inc as int, xm as int);
            lemma_mul_unit(y_inc as int, ym as int);
        }
        let cx: i64 = start.x as i64 + x_inc * xm;
        let cy: i64 = start.y as i64 + y_inc * ym;
        proof {
            assert((cx as int, cy as int) == path_point_spec(*start, *end, i as int));
            assert(0 <= cx < 0x1_0000_0000_i64);
            assert(0 <= cy < 0x1_0000_0000_i64);
        }
        p.push(Coordinate { x: cx as u32, y: cy as u32 });
        i = i + 1;
    }
    proof {
        let l = path_len_spec(*start, *end);
        lemma_round_ratio_at_end(short as int, long as int);
        lemma_mul_unit(short as int, xm as int);
        lemma_mul_unit(short as int, ym as int);
        lemma_mul_unit(long as int, xm as int);
        lemma_mul_unit(long as int, ym as int);
        assert(point_of(p@[p@.len() - 1]) == path_point_spec(*start, *end, l));
        assert(path_point_spec(*start, *end, l) == (end.x as int, end.y as int));
        assert(p@[p@.len() - 1] == *end);
        assert(p@ =~= path_seq(*start, *end));
    }
    p
}

/// Law: between distinct endpoints with equal absolute deltas the path is
/// the exact diagonal; its `i`-th cell (1-based) steps both axes by `i`
/// toward the end point.
pub proof fn lemma_path_diagonal(a: Coordinate, b: Coordinate, i: int)
    requires
        a != b,
        delta(a.x, b.x) == delta(a.y, b.y),
        1 <= i <= path_len_spec(a, b),
    ensures
        path_point_spec(a, b, i) == (
            a.x + i * step_toward(a.x as int, b.x as int),
            a.y + i * step_toward(a.y as int, b.y as int),
        ),
{
    let l = delta(a.x, b.x);
    assert(2 * (l * i) + l == i * (2 * l) + l) by (nonlinear_arith);
    vstd::arithmetic::div_mod::lemma_fundamental_div_mod_converse_div(
        2 * (l * i) + l,
        2 * l,
        i,
        l,
    );
    assert(round_ratio(l * i, l) == i);
}

/// Law: a vertical path (equal x positions) keeps x fixed and steps y by
/// `i` toward the end point.
pub proof fn lemma_path_vertical(a: Coordinate, b: Coordinate, i: int)
    requires
        a != b,
        a.x == b.x,
        1 <= i <= path_len_spec(a, b),
    ensures
        path_point_spec(a, b, i) == (
            a.x as int,
            a.y + i * step_toward(a.y as int, b.y as int),
        ),
{
    let l = path_len_spec(a, b);
    let s = vstd::math::min(delta(a.x, b.x), delta(a.y, b.y));
    assert(s * i == 0) by (nonlinear_arith)
        requires
            s == 0,
    ;
    vstd::arithmetic::div_mod::lemma_basic_div(l, 2 * l);
    let r = round_ratio(s * i, l);
    assert(r == 0);
    lemma_mul_unit(r, step_toward(a.x as int, b.x as int));
}

/// Law: a horizontal path (equal y positions) keeps y fixed and steps x by
/// `i` toward the end point.
pub proof fn lemma_path_horizontal(a: Coordinate, b: Coordinate, i: int)
    requires
        a != b,
        a.y == b.y,
        1 <= i <= path_len_spec(a, b),
    ensures
        path_point_spec(a, b, i) == (
            a.x + i * step_toward(a.x as int, b.x as int),
            a.y as int,
        ),
{
    let l = path_len_spec(a, b);
    let s = vstd::math::min(delta(a.x, b.x), delta(a.y, b.y));
    assert(s * i == 0) by (nonlinear_arith)
        requires
            s == 0,
    ;
    vstd::arithmetic::div_mod::lemma_basic_div(l, 2 * l);
    let r = round_ratio(s * i, l);
    assert(r == 0);
    lemma_mul_unit(r, step_toward(a.y as int, b.y as int));
}

} // verus!
