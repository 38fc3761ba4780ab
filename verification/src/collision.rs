//! Collision of a moving actor with blocked cells, resolved one axis at a time.

use vstd::prelude::*;
use itertools::Itertools;
use crate::grid::{cell_at, cell_at_point, cell_of, GridCell, ToGrid, WorldPos};

verus! {

/// Displacement of an actor over one tick, in world units.
#[derive(Clone, Copy, Debug, Default, PartialEq, Eq, Structural)]
pub struct Velocity {
    pub x: i64,
    pub y: i64,
}

/// Collision bounds of an actor as offsets from its position, each of the form
/// (min, max).
#[derive(Clone, Copy, Debug, PartialEq, Eq)]
pub struct CollisionBounds {
    pub x: (i64, i64),
    pub y: (i64, i64),
}

/// The offsets of the edge that leads when moving by `v` along an axis with bounds
/// `bound`: the low edge when moving down the axis, the high edge when moving up, and none
/// when standing still.
pub open spec fn leading_edge(v: i64, bound: (i64, i64)) -> Seq<i64> {
    if v < 0 {
        seq![bound.0]
    } else if v > 0 {
        seq![bound.1]
    } else {
        Seq::empty()
    }
}

/// All pairs of an entry of `a` with an entry of `b`: the pairs of the first entry of `a`
/// in the order of `b`, then those of the second, and so on.
pub open spec fn pairs_of(a: Seq<i64>, b: Seq<i64>) -> Seq<(i64, i64)> {
    Seq::new(a.len() * b.len(), |k: int| (a[k / (b.len() as int)], b[k % (b.len() as int)]))
}

/// Whether a corner that would come to lie in cell `at` stops an actor standing in cell
/// `here`: the cell is blocked and is not the one the actor stands in.
pub open spec fn corner_stopped(here: GridCell, at: GridCell, blocked: Seq<GridCell>) -> bool {
    at != here && blocked.contains(at)
}

/// Whether movement along the x axis is stopped: the actor moves along it, and one of the
/// two corners of its leading edge, moved by the x component alone, would enter a blocked
/// cell other than the actor's own.
pub open spec fn x_stopped(
    v: Velocity,
    p: WorldPos,
    bounds: CollisionBounds,
    blocked: Seq<GridCell>,
) -> bool {
    let edge = if v.x < 0 {
        bounds.x.0
    } else {
        bounds.x.1
    };
    let x = p.x + v.x + edge;
    v.x != 0 && (corner_stopped(cell_of(p), cell_at(x, p.y + bounds.y.0), blocked)
        || corner_stopped(cell_of(p), cell_at(x, p.y + bounds.y.1), blocked))
}

/// Whether movement along the y axis is stopped; as `x_stopped`, with the axes exchanged.
pub open spec fn y_stopped(
    v: Velocity,
    p: WorldPos,
    bounds: CollisionBounds,
    blocked: Seq<GridCell>,
) -> bool {
    let edge = if v.y < 0 {
        bounds.y.0
    } else {
        bounds.y.1
    };
    let y = p.y + v.y + edge;
    v.y != 0 && (corner_stopped(cell_of(p), cell_at(p.x + bounds.x.0, y), blocked)
        || corner_stopped(cell_of(p), cell_at(p.x + bounds.x.1, y), blocked))
}

/// The velocity that collision leaves of `v`: each component that is stopped becomes
/// zero, and the other is kept.
pub open spec fn resolved_velocity(
    v: Velocity,
    p: WorldPos,
    bounds: CollisionBounds,
    blocked: Seq<GridCell>,
) -> Velocity {
    Velocity {
        x: if x_stopped(v, p, bounds, blocked) {
            0
        } else {
            v.x
        },
        y: if y_stopped(v, p, bounds, blocked) {
            0
        } else {
            v.y
        },
    }
}

/// All pairs of an entry of `a` with an entry of `b`, by `Itertools::cartesian_product` on
/// the two slices. The contract states the order in which that adaptor yields the pairs:
/// it walks `a` once and, for each of its entries, all of `b`; it yields nothing when
/// either is empty.
#[verifier::external_body]
fn cartesian_pairs(a: &Vec<i64>, b: &Vec<i64>) -> (pairs: Vec<(i64, i64)>)
    requires
        a.len() * b.len() <= usize::MAX,
    ensures
        pairs@ == pairs_of(a@, b@),
{
    a.iter().copied().cartesian_product(b.iter().copied()).collect()
}

/// The offsets of the edge that leads when moving by `v`.
fn leading_offsets(v: i64, bound: (i64, i64)) -> (edge: Vec<i64>)
    ensures
        edge@ == leading_edge(v, bound),
{
    let mut edge: Vec<i64> = Vec::new();
    if v < 0 {
        edge.push(bound.0);
    } else if v > 0 {
        edge.push(bound.1);
    }
    assert(edge@ =~= leading_edge(v, bound));
    edge
}

/// The two offsets of an axis, low then high.
fn both_offsets(bound: (i64, i64)) -> (across: Vec<i64>)
    ensures
        across@ == seq![bound.0, bound.1],
{
    let mut across: Vec<i64> = Vec::new();
    across.push(bound.0);
    across.push(bound.1);
    assert(across@ =~= seq![bound.0, bound.1]);
    across
}

/// The corners of the leading edge, as `pairs_of` lists them: none when standing still,
/// else the edge's offset paired with the low and with the high offset across.
proof fn lemma_leading_corners(v: i64, bound: (i64, i64), across: (i64, i64))
    ensures
        v == 0 ==> pairs_of(leading_edge(v, bound), seq![across.0, across.1]).len() == 0,
        v != 0 ==> pairs_of(leading_edge(v, bound), seq![across.0, across.1]) == seq![
            (leading_edge(v, bound)[0], across.0),
            (leading_edge(v, bound)[0], across.1),
        ],
        leading_edge(v, bound).len() * seq![across.0, across.1].len() <= 2,
{
    let a = leading_edge(v, bound);
    let b = seq![across.0, across.1];
    assert(b.len() == 2);
    if v != 0 {
        assert(a.len() == 1);
        assert(a.len() * b.len() == 2);
        assert(pairs_of(a, b) =~= seq![(a[0], across.0), (a[0], across.1)]);
    } else {
        assert(a.len() == 0);
        assert(a.len() * b.len() == 0);
    }
}

/// Whether `cell` is among `cells`.
pub fn contains_cell(cells: &Vec<GridCell>, cell: GridCell) -> (found: bool)
    ensures
        found == cells@.contains(cell),
{
    let mut i: usize = 0;
    while i < cells.len()
        invariant
            i <= cells.len(),
            forall|k: int| 0 <= k < i ==> cells@[k] != cell,
        decreases cells.len() - i,
    {
        if cells[i] == cell {
            return true;
        }
        i = i + 1;
    }
    false
}

/// Whether movement along the x axis is stopped.
pub fn stopped_on_x(
    v: Velocity,
    p: WorldPos,
    bounds: CollisionBounds,
    blocked: &Vec<GridCell>,
) -> (stopped: bool)
    ensures
        stopped == x_stopped(v, p, bounds, blocked@),
{
    let here = p.to_grid();
    let edge = leading_offsets(v.x, bounds.x);
    let across = both_offsets(bounds.y);
    proof {
        lemma_leading_corners(v.x, bounds.x, bounds.y);
    }
    let corners = cartesian_pairs(&edge, &across);
    let mut stopped = false;
    let mut i: usize = 0;
    while i < corners.len()
        invariant
            i <= corners.len(),
            here == cell_of(p),
            stopped == exists|k: int|
                0 <= k < i && corner_stopped(
                    here,
                    #[trigger] cell_at(p.x + v.x + corners@[k].0, p.y + corners@[k].1),
                    blocked@,
                ),
        decreases corners.len() - i,
    {
        let corner = corners[i];
        let at = cell_at_point(
            p.x as i128 + v.x as i128 + corner.0 as i128,
            p.y as i128 + corner.1 as i128,
        );
        if at != here && contains_cell(blocked, at) {
            stopped = true;
        }
        i = i + 1;
    }
    proof {
        if v.x != 0 {
            assert(corners@[0] == (edge@[0], bounds.y.0));
            assert(corners@[1] == (edge@[0], bounds.y.1));
            let x = p.x + v.x + edge@[0];
            assert(cell_at(p.x + v.x + corners@[0].0, p.y + corners@[0].1) == cell_at(
                x,
                p.y + bounds.y.0,
            ));
            assert(cell_at(p.x + v.x + corners@[1].0, p.y + corners@[1].1) == cell_at(
                x,
                p.y + bounds.y.1,
            ));
        }
    }
    stopped
}

/// Whether movement along the y axis is stopped.
pub fn stopped_on_y(
    v: Velocity,
    p: WorldPos,
    bounds: CollisionBounds,
    blocked: &Vec<GridCell>,
) -> (stopped: bool)
    ensures
        stopped == y_stopped(v, p, bounds, blocked@),
{
    let here = p.to_grid();
    let edge = leading_offsets(v.y, bounds.y);
    let across = both_offsets(bounds.x);
    proof {
        lemma_leading_corners(v.y, bounds.y, bounds.x);
    }
    let corners = cartesian_pairs(&edge, &across);
    let mut stopped = false;
    let mut i: usize = 0;
    while i < corners.len()
        invariant
            i <= corners.len(),
            here == cell_of(p),
            stopped == exists|k: int|
                0 <= k < i && corner_stopped(
                    here,
                    #[trigger] cell_at(p.x + corners@[k].1, p.y + v.y + corners@[k].0),
                    blocked@,
                ),
        decreases corners.len() - i,
    {
        let corner = corners[i];
        let at = cell_at_point(
            p.x as i128 + corner.1 as i128,
            p.y as i128 + v.y as i128 + corner.0 as i128,
        );
        if at != here && contains_cell(blocked, at) {
            stopped = true;
        }
        i = i + 1;
    }
    proof {
        if v.y != 0 {
            assert(corners@[0] == (edge@[0], bounds.x.0));
            assert(corners@[1] == (edge@[0], bounds.x.1));
            let y = p.y + v.y + edge@[0];
            assert(cell_at(p.x + corners@[0].1, p.y + v.y + corners@[0].0) == cell_at(
                p.x + bounds.x.0,
                y,
            ));
            assert(cell_at(p.x + corners@[1].1, p.y + v.y + corners@[1].0) == cell_at(
                p.x + bounds.x.1,
                y,
            ));
        }
    }
    stopped
}

/// Restrict `v` so that an actor at `p` with the given bounds does not move into a
/// blocked cell. Each axis is tested on its own, against the actor's position before the
/// tick, so that an actor stopped on one axis still slides along the other.
pub fn resolve_velocity(
    v: Velocity,
    p: WorldPos,
    bounds: CollisionBounds,
    blocked: &Vec<GridCell>,
) -> (out: Velocity)
    ensures
        out == resolved_velocity(v, p, bounds, blocked@),
{
    let x_hit = stopped_on_x(v, p, bounds, blocked);
    let y_hit = stopped_on_y(v, p, bounds, blocked);
    Velocity {
        x: if x_hit {
            0
        } else {
            v.x
        },
        y: if y_hit {
            0
        } else {
            v.y
        },
    }
}

/// The axes are independent: whether one axis is stopped does not depend on the
/// velocity along the other, and an actor stopped on the x axis only keeps all of its
/// movement along the y axis (and the other way round).
pub proof fn lemma_axes_independent(
    v: Velocity,
    other: Velocity,
    p: WorldPos,
    bounds: CollisionBounds,
    blocked: Seq<GridCell>,
)
    ensures
        v.x == other.x ==> x_stopped(v, p, bounds, blocked) == x_stopped(other, p, bounds, blocked),
        v.y == other.y ==> y_stopped(v, p, bounds, blocked) == y_stopped(other, p, bounds, blocked),
        x_stopped(v, p, bounds, blocked) && !y_stopped(v, p, bounds, blocked)
            ==> resolved_velocity(v, p, bounds, blocked) == (Velocity { x: 0, y: v.y }),
        !x_stopped(v, p, bounds, blocked) && y_stopped(v, p, bounds, blocked)
            ==> resolved_velocity(v, p, bounds, blocked) == (Velocity { x: v.x, y: 0 }),
{
}

/// Collision only ever stops: each component of the resolved velocity is the one given
/// or zero, and with nothing blocked the velocity is kept.
pub proof fn lemma_resolution_only_stops(
    v: Velocity,
    p: WorldPos,
    bounds: CollisionBounds,
    blocked: Seq<GridCell>,
)
    ensures
        resolved_velocity(v, p, bounds, blocked).x == v.x || resolved_velocity(
            v,
            p,
            bounds,
            blocked,
        ).x == 0,
        resolved_velocity(v, p, bounds, blocked).y == v.y || resolved_velocity(
            v,
            p,
            bounds,
            blocked,
        ).y == 0,
        blocked.len() == 0 ==> resolved_velocity(v, p, bounds, blocked) == v,
{
}

} // verus!
