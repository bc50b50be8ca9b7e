use vstd::prelude::*;

use vstd::arithmetic::div_mod::lemma_fundamental_div_mod_converse;

verus! {

/// Largest sample radius accepted: keeps the grid's size within machine words.
pub const MAX_RADIUS: i32 = 10000;

/// How the resynchronized copy of one event of a path is obtained.
#[derive(Clone, Copy, Debug, PartialEq, Eq, Structural)]
pub enum ResyncStep {
    /// A first or last event: offset in the rest frame of the given stage.
    Boundary(usize),
    /// An interior event: the transition from the first stage's rest frame to
    /// the second's.
    Transition(usize, usize),
}

/// The step for event `i` of a path of `n_events` events.
pub open spec fn resync_step_of(n_events: nat, i: nat) -> ResyncStep {
    if i == 0 {
        ResyncStep::Boundary(0)
    } else if i + 1 == n_events {
        ResyncStep::Boundary((n_events - 2) as usize)
    } else {
        ResyncStep::Transition((i - 1) as usize, i as usize)
    }
}

/// One step for each event of a path: its first event belongs to the first
/// stage, its last to the last stage, and each interior event is the
/// transition between the stage it ends and the stage it starts.
pub fn resync_plan(n_events: usize) -> (r: Vec<ResyncStep>)
    requires
        2 <= n_events,
    ensures
        r@.len() == n_events,
        forall|i: int| 0 <= i < n_events ==> r@[i] == resync_step_of(n_events as nat, i as nat),
{
    let mut plan: Vec<ResyncStep> = Vec::new();
    plan.push(ResyncStep::Boundary(0));
    let mut i: usize = 1;
    while i + 1 < n_events
        invariant
            2 <= n_events,
            1 <= i < n_events,
            plan@.len() == i,
            forall|j: int| 0 <= j < i ==> plan@[j] == resync_step_of(n_events as nat, j as nat),
        decreases n_events - i,
    {
        plan.push(ResyncStep::Transition(i - 1, i));
        i = i + 1;
    }
    plan.push(ResyncStep::Boundary(n_events - 2));
    plan
}

/// Offset number `k` of the square sample grid of radius `radius`: rows of
/// increasing `y`, each of increasing `x`.
pub open spec fn grid_offset(radius: int, k: int) -> (int, int) {
    let w = 2 * radius + 1;
    (k % w - radius, k / w - radius)
}

/// Offset number `k` of the square of radius `radius` walked column by column:
/// columns of increasing `x`, each of increasing `y`.
pub open spec fn column_offset(radius: int, k: int) -> (int, int) {
    let w = 2 * radius + 1;
    (k / w - radius, k % w - radius)
}

/// Whether an offset lies within the disk of radius `radius`.
pub open spec fn in_disk(radius: int, p: (int, int)) -> bool {
    p.0 * p.0 + p.1 * p.1 <= radius * radius
}

/// The points of the disk of radius `radius`, column by column.
pub open spec fn disk_offsets(radius: int) -> Seq<(int, int)> {
    let w = 2 * radius + 1;
    Seq::new((w * w) as nat, |k: int| column_offset(radius, k)).filter(
        |p: (int, int)| in_disk(radius, p),
    )
}

/// The view of an offset pair as integers.
pub open spec fn offset_view(p: (i32, i32)) -> (int, int) {
    (p.0 as int, p.1 as int)
}

proof fn lemma_square_position(radius: int, a: int, b: int)
    requires
        0 <= radius,
        0 <= a < 2 * radius + 1,
        0 <= b < 2 * radius + 1,
    ensures
        (b * (2 * radius + 1) + a) / (2 * radius + 1) == b,
        (b * (2 * radius + 1) + a) % (2 * radius + 1) == a,
        b * (2 * radius + 1) + a < (2 * radius + 1) * (2 * radius + 1),
{
    lemma_fundamental_div_mod_converse(b * (2 * radius + 1) + a, 2 * radius + 1, b, a);
    assert(b * (2 * radius + 1) + a < (2 * radius + 1) * (2 * radius + 1)) by (nonlinear_arith)
        requires
            0 <= a < 2 * radius + 1,
            0 <= b < 2 * radius + 1,
    ;
}

proof fn lemma_square_bound(a: int)
    requires
        -MAX_RADIUS <= a <= MAX_RADIUS,
    ensures
        0 <= a * a <= MAX_RADIUS * MAX_RADIUS,
{
    assert(0 <= a * a <= MAX_RADIUS * MAX_RADIUS) by (nonlinear_arith)
        requires
            -MAX_RADIUS <= a <= MAX_RADIUS,
    ;
}

/// Every offset of the square sample grid of radius `radius`, in rows of
/// increasing `y`, each of increasing `x`.
pub fn sample_offsets(radius: i32) -> (r: Vec<(i32, i32)>)
    requires
        0 <= radius <= MAX_RADIUS,
    ensures
        r@.len() == (2 * radius + 1) * (2 * radius + 1),
        forall|k: int| 0 <= k < r@.len() ==> offset_view(#[trigger] r@[k]) == grid_offset(radius as int, k),
{
    let ghost w = 2 * radius + 1;
    let mut out: Vec<(i32, i32)> = Vec::new();
    let mut y: i32 = -radius;
    proof {
        assert((y + radius) * w == 0) by (nonlinear_arith)
            requires
                y + radius == 0,
        ;
    }
    while y <= radius
        invariant
            0 <= radius <= MAX_RADIUS,
            w == 2 * radius + 1,
            -radius <= y <= radius + 1,
            out@.len() == (y + radius) * w,
            forall|k: int| 0 <= k < out@.len() ==> offset_view(#[trigger] out@[k]) == grid_offset(radius as int, k),
        decreases radius + 1 - y,
    {
        let mut x: i32 = -radius;
        while x <= radius
            invariant
                0 <= radius <= MAX_RADIUS,
                w == 2 * radius + 1,
                -radius <= y <= radius,
                -radius <= x <= radius + 1,
                out@.len() == (y + radius) * w + (x + radius),
                forall|k: int| 0 <= k < out@.len() ==> offset_view(#[trigger] out@[k]) == grid_offset(radius as int, k),
            decreases radius + 1 - x,
        {
            proof {
                lemma_square_position(radius as int, x + radius, y + radius);
            }
            out.push((x, y));
            x = x + 1;
        }
        proof {
            assert((y + radius) * w + w == (y + 1 + radius) * w) by (nonlinear_arith);
        }
        y = y + 1;
    }
    out
}

/// The offsets of the square of radius `radius` that lie within its disk,
/// column by column.
pub fn clock_disk(radius: i32) -> (r: Vec<(i32, i32)>)
    requires
        0 <= radius <= MAX_RADIUS,
    ensures
        r@.map_values(|p: (i32, i32)| offset_view(p)) == disk_offsets(radius as int),
{
    let ghost w = 2 * radius + 1;
    let ghost square = Seq::new((w * w) as nat, |k: int| column_offset(radius as int, k));
    let ghost pred = |p: (int, int)| in_disk(radius as int, p);
    let mut out: Vec<(i32, i32)> = Vec::new();
    let mut x: i32 = -radius;
    proof {
        assert((x + radius) * w == 0) by (nonlinear_arith)
            requires
                x + radius == 0,
        ;
        reveal(Seq::filter);
        assert(square.take(0).filter(pred) =~= Seq::<(int, int)>::empty());
        assert(out@.map_values(|p: (i32, i32)| offset_view(p)) =~= Seq::<(int, int)>::empty());
    }
    while x <= radius
        invariant
            0 <= radius <= MAX_RADIUS,
            w == 2 * radius + 1,
            square == Seq::new((w * w) as nat, |k: int| column_offset(radius as int, k)),
            pred == (|p: (int, int)| in_disk(radius as int, p)),
            -radius <= x <= radius + 1,
            out@.map_values(|p: (i32, i32)| offset_view(p)) == square.take((x + radius) * w).filter(pred),
        decreases radius + 1 - x,
    {
        let mut y: i32 = -radius;
        while y <= radius
            invariant
                0 <= radius <= MAX_RADIUS,
                w == 2 * radius + 1,
                square == Seq::new((w * w) as nat, |k: int| column_offset(radius as int, k)),
                pred == (|p: (int, int)| in_disk(radius as int, p)),
                -radius <= x <= radius,
                -radius <= y <= radius + 1,
                out@.map_values(|p: (i32, i32)| offset_view(p)) == square.take(
                    (x + radius) * w + (y + radius),
                ).filter(pred),
            decreases radius + 1 - y,
        {
            let ghost k = (x + radius) * w + (y + radius);
            proof {
                lemma_square_position(radius as int, y + radius, x + radius);
                assert(square.take(k + 1) =~= square.take(k).push(square[k]));
                assert(square.take(k + 1).drop_last() =~= square.take(k));
                assert(square[k] == (x as int, y as int));
                reveal(Seq::filter);
                assert(square.take(k + 1).filter(pred) == if pred(square[k]) {
                    square.take(k).filter(pred).push(square[k])
                } else {
                    square.take(k).filter(pred)
                });
            }
            proof {
                lemma_square_bound(x as int);
                lemma_square_bound(y as int);
                lemma_square_bound(radius as int);
            }
            let inside = (x as i64) * (x as i64) + (y as i64) * (y as i64) <= (radius as i64) * (
            radius as i64);
            if inside {
                out.push((x, y));
                proof {
                    assert(out@.map_values(|p: (i32, i32)| offset_view(p)) =~= square.take(
                        k,
                    ).filter(pred).push((x as int, y as int)));
                }
            }
            y = y + 1;
        }
        proof {
            assert((x + radius) * w + w == (x + 1 + radius) * w) by (nonlinear_arith);
        }
        x = x + 1;
    }
    proof {
        assert(square.take(w * w) =~= square);
    }
    out
}

} // verus!
