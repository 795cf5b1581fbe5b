//! The straight wire the Magnetic Lasso lays when there is nothing to snap to.

use vstd::prelude::*;

verus! {

/// The way a coordinate has to move to get from `a` to `b`: 1, -1, or 0 when
/// it is already there.
pub open spec fn toward(a: int, b: int) -> int {
    if a < b {
        1
    } else if a > b {
        -1
    } else {
        0
    }
}

/// Whether `q` is one step on from `p` on the way to `to`: it moves, by at
/// most one pixel along each axis, and only in the direction of `to`.
pub open spec fn steps_toward(p: (i32, i32), q: (i32, i32), to: (i32, i32)) -> bool {
    let ddx = q.0 - p.0;
    let ddy = q.1 - p.1;
    &&& ddx == 0 || ddx == toward(p.0 as int, to.0 as int)
    &&& ddy == 0 || ddy == toward(p.1 as int, to.1 as int)
    &&& ddx != 0 || ddy != 0
}

proof fn lemma_product_bound(n: int, limit: int, k: int)
    requires
        0 <= n <= limit,
        k >= 0,
    ensures
        0 <= n * k <= limit * k,
{
    assert(0 <= n * k <= limit * k) by (nonlinear_arith)
        requires
            0 <= n <= limit,
            k >= 0,
    ;
}

/// The pixels Bresenham's walk visits from `p` on, towards `to`: `err` is the
/// running error, `dx` the width to cover and `dy` minus the height, `sx` and
/// `sy` the directions, and `fuel` the steps left (one per axis moved). Each
/// step moves along x when twice the error is at least `dy`, and along y when
/// it is at most `dx`, both judged on the error before the step.
pub open spec fn line_from(
    p: (int, int),
    err: int,
    to: (int, int),
    dx: int,
    dy: int,
    sx: int,
    sy: int,
    fuel: int,
) -> Seq<(int, int)>
    decreases fuel,
{
    if p == to || fuel <= 0 || dy > dx {
        seq![p]
    } else {
        let e2 = 2 * err;
        let mx: int = if e2 >= dy {
            1
        } else {
            0
        };
        let my: int = if e2 <= dx {
            1
        } else {
            0
        };
        if fuel - mx - my < 0 {
            seq![p]
        } else {
            seq![p] + line_from(
                (p.0 + mx * sx, p.1 + my * sy),
                err + mx * dy + my * dx,
                to,
                dx,
                dy,
                sx,
                sy,
                fuel - mx - my,
            )
        }
    }
}

/// The Bresenham line from `from` to `to`, both ends included.
pub open spec fn bresenham(from: (int, int), to: (int, int)) -> Seq<(int, int)> {
    let dx = if to.0 >= from.0 {
        to.0 - from.0
    } else {
        from.0 - to.0
    };
    let tall = if to.1 >= from.1 {
        to.1 - from.1
    } else {
        from.1 - to.1
    };
    let sx: int = if from.0 < to.0 {
        1
    } else {
        -1
    };
    let sy: int = if from.1 < to.1 {
        1
    } else {
        -1
    };
    line_from(from, dx - tall, to, dx, -tall, sx, sy, dx + tall)
}

/// How many steps an eight-way walk from `from` to `to` takes at least: the
/// larger of the two distances along the axes.
pub open spec fn chebyshev(from: (int, int), to: (int, int)) -> int {
    let wide = if to.0 >= from.0 {
        to.0 - from.0
    } else {
        from.0 - to.0
    };
    let tall = if to.1 >= from.1 {
        to.1 - from.1
    } else {
        from.1 - to.1
    };
    if wide >= tall {
        wide
    } else {
        tall
    }
}

/// Points as pairs of mathematical integers.
pub open spec fn as_ints(points: Seq<(i32, i32)>) -> Seq<(int, int)> {
    points.map_values(|p: (i32, i32)| (p.0 as int, p.1 as int))
}

/// Bresenham between two points, used whenever the wire has nothing to snap
/// to: a chain of pixels from `from` to `to`, each an eight-way neighbour of
/// the last and a step closer.
pub fn straight_line(from: (i32, i32), to: (i32, i32)) -> (points: Vec<(i32, i32)>)
    requires
        -1073741823 <= to.0 - from.0 <= 1073741823,
        -1073741823 <= to.1 - from.1 <= 1073741823,
    ensures
        as_ints(points@) == bresenham((from.0 as int, from.1 as int), (to.0 as int, to.1 as int)),
        points@.len() == chebyshev((from.0 as int, from.1 as int), (to.0 as int, to.1 as int)) + 1,
        points@[0] == from,
        points@.last() == to,
        forall|i: int| 0 <= i < points@.len() - 1 ==> #[trigger] steps_toward(points@[i], points@[i + 1], to),
{
    let (mut x, mut y) = from;
    let dx: i64 = if to.0 >= x {
        (to.0 - x) as i64
    } else {
        (x - to.0) as i64
    };
    let dy: i64 = if to.1 >= y {
        -((to.1 - y) as i64)
    } else {
        -((y - to.1) as i64)
    };
    let sx: i32 = if x < to.0 {
        1
    } else {
        -1
    };
    let sy: i32 = if y < to.1 {
        1
    } else {
        -1
    };
    let mut err: i64 = dx + dy;
    let ghost tall: int = -dy;
    let ghost mut nx: int = 0;
    let ghost mut ny: int = 0;
    let ghost mut along: int = 0;
    let ghost mut across: int = 0;
    let ghost whole = bresenham((from.0 as int, from.1 as int), (to.0 as int, to.1 as int));
    let ghost tt = (to.0 as int, to.1 as int);

    let mut points: Vec<(i32, i32)> = Vec::new();
    points.push((x, y));
    proof {
        assert(as_ints(points@) =~= seq![(x as int, y as int)]);
        assert(as_ints(points@) + line_from((x as int, y as int), err as int, tt, dx as int, dy as int, sx as int, sy as int, dx + tall).drop_first() =~= whole);
    }
    while !(x == to.0 && y == to.1)
        invariant
            dx >= 0,
            tall >= 0,
            dx <= 1073741823,
            tall <= 1073741823,
            dy == -tall,
            tt == (to.0 as int, to.1 as int),
            whole == bresenham((from.0 as int, from.1 as int), tt),
            sx == (if from.0 < to.0 {
                1int
            } else {
                -1int
            }),
            sy == (if from.1 < to.1 {
                1int
            } else {
                -1int
            }),
            dx == (if to.0 >= from.0 {
                to.0 - from.0
            } else {
                from.0 - to.0
            }),
            tall == (if to.1 >= from.1 {
                to.1 - from.1
            } else {
                from.1 - to.1
            }),
            0 <= nx <= dx,
            0 <= ny <= tall,
            from.0 < to.0 ==> x == from.0 + nx,
            from.0 >= to.0 ==> x == from.0 - nx,
            from.1 < to.1 ==> y == from.1 + ny,
            from.1 >= to.1 ==> y == from.1 - ny,
            along == nx * tall,
            across == ny * dx,
            err == dx - tall - along + across,
            points@.len() >= 1,
            dx >= tall ==> 2 * err >= dy && points@.len() == nx + 1,
            dx < tall ==> 2 * err <= dx && points@.len() == ny + 1,
            points@[0] == from,
            points@.last() == (x, y),
            as_ints(points@) + line_from(
                (x as int, y as int),
                err as int,
                tt,
                dx as int,
                dy as int,
                sx as int,
                sy as int,
                (dx - nx) + (tall - ny),
            ).drop_first() == whole,
            forall|i: int|
                0 <= i < points@.len() - 1 ==> #[trigger] steps_toward(points@[i], points@[i + 1], to),
        decreases (dx - nx) + (tall - ny),
    {
        proof {
            lemma_product_bound(nx, dx as int, tall);
            lemma_product_bound(ny, tall, dx as int);
            lemma_product_bound(dx as int, 1073741823, tall);
            lemma_product_bound(tall, 1073741823, 1073741823);
            assert(dx * tall == tall * dx) by (nonlinear_arith);
            // Once a coordinate has arrived, the error keeps it from moving on.
            if nx == dx && ny < tall {
                lemma_product_bound(ny, tall - 1, dx as int);
                assert((tall - 1) * dx == tall * dx - dx) by (nonlinear_arith);
                assert(dx * tall == tall * dx) by (nonlinear_arith);
                assert(2 * err < dy);
            }
            if ny == tall && nx < dx {
                lemma_product_bound(nx, dx - 1, tall);
                assert((dx - 1) * tall == dx * tall - tall) by (nonlinear_arith);
                assert(tall * dx == dx * tall) by (nonlinear_arith);
                assert(2 * err > dx);
            }
        }
        let ghost before = (x, y);
        let ghost before_err = err as int;
        let ghost fuel = (dx - nx) + (tall - ny);
        let ghost prev = points@;
        let e2 = 2 * err;
        if e2 >= dy {
            err = err + dy;
            x = x + sx;
            proof {
                nx = nx + 1;
                along = along + tall;
                assert(along == nx * tall) by (nonlinear_arith)
                    requires
                        along == (nx - 1) * tall + tall,
                ;
            }
        }
        if e2 <= dx {
            err = err + dx;
            y = y + sy;
            proof {
                ny = ny + 1;
                across = across + dx;
                assert(across == ny * dx) by (nonlinear_arith)
                    requires
                        across == (ny - 1) * dx + dx,
                ;
            }
        }
        points.push((x, y));
        proof {
            assert(steps_toward(before, (x, y), to));
            let here = (before.0 as int, before.1 as int);
            assert(here != tt);
            let rest = line_from((x as int, y as int), err as int, tt, dx as int, dy as int, sx as int, sy as int, (dx - nx) + (tall - ny));
            assert(line_from(here, before_err, tt, dx as int, dy as int, sx as int, sy as int, fuel) == seq![here] + rest);
            assert(rest[0] == (x as int, y as int));
            assert(as_ints(points@) =~= as_ints(prev).push((x as int, y as int)));
            assert(as_ints(points@) + rest.drop_first() =~= as_ints(prev) + (seq![here] + rest).drop_first());
        }
    }
    proof {
        let last = line_from((x as int, y as int), err as int, tt, dx as int, dy as int, sx as int, sy as int, (dx - nx) + (tall - ny));
        assert(last == seq![(x as int, y as int)]);
        assert(last.drop_first() =~= Seq::<(int, int)>::empty());
        assert(as_ints(points@) =~= whole);
    }
    points
}

} // verus!
