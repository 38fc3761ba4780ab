//! Bombs, the count of them that each actor has out, and what a blast leaves behind.

use vstd::prelude::*;
use crate::grid::{cell_of, snapped, GridCell, WorldPos};
use crate::timer::Timer;

verus! {

/// The most bombs that one actor may have out at a time.
pub const MAX_BOMBS_PER_PLAYER: u8 = 2;

/// Time from placing a bomb to its blast, in nanoseconds.
pub const BOMB_TIMER_NANOS: u64 = 1_500_000_000;

/// Time for which the mark of a blast stays, in nanoseconds.
pub const EXPLOSION_TIMER_NANOS: u64 = 600_000_000;

/// The amount of trauma to send to the camera on an explosion, in thousandths.
pub const BOMB_TRAUMA: u32 = 300;

/// The current number of active bombs that a player has placed.
#[derive(Clone, Copy, Debug, Default, PartialEq, Eq, Structural)]
pub struct CountBombs(pub u8);

impl CountBombs {
    /// Count one more bomb. The count is below the limit before.
    pub fn increment(&mut self)
        requires
            old(self).0 < MAX_BOMBS_PER_PLAYER,
        ensures
            final(self).0 == old(self).0 + 1,
    {
        self.0 = self.0 + 1;
    }

    /// Count one bomb less. At least one bomb is counted before.
    pub fn decrement(&mut self)
        requires
            old(self).0 > 0,
        ensures
            final(self).0 == old(self).0 - 1,
    {
        self.0 = self.0 - 1;
    }

    /// Whether the limit is reached, so that no further bomb may be placed.
    pub fn is_full(&self) -> (full: bool)
        ensures
            full == (self.0 >= MAX_BOMBS_PER_PLAYER),
    {
        self.0 >= MAX_BOMBS_PER_PLAYER
    }
}

/// A placed bomb that has not exploded yet.
#[derive(Clone, Copy, Debug, PartialEq, Eq, Structural)]
pub struct Bomb {
    /// Id of the actor that placed the bomb. The actor may be gone by now.
    pub spawner: u64,
    /// Where the bomb lies: the centre of a cell.
    pub position: WorldPos,
    /// The fuse.
    pub timer: Timer,
}

impl Bomb {
    /// The bomb that `spawner` places when standing at `position`: at the centre of the
    /// cell, with a fresh fuse.
    pub open spec fn placed_at(spawner: u64, position: WorldPos) -> Bomb {
        Bomb { spawner, position: snapped(position), timer: Timer::fresh(BOMB_TIMER_NANOS) }
    }

    /// The bomb after `delta` more nanoseconds.
    pub open spec fn ticked(self, delta: u64) -> Bomb {
        Bomb { timer: self.timer.ticked(delta), ..self }
    }

    /// Whether the bomb explodes now: its fuse ran out on the latest tick.
    pub open spec fn due(self) -> bool {
        self.timer.just_finished
    }
}

/// The mark that a blast leaves where it destroyed a tile. It fades on its own.
#[derive(Clone, Copy, Debug, PartialEq, Eq, Structural)]
pub struct Explosion {
    /// Centre of the cell that the blast cleared.
    pub position: WorldPos,
    /// Time for which the mark stays.
    pub timer: Timer,
}

impl Explosion {
    /// The mark of a blast at `position`, with all of its time to go.
    pub open spec fn at(position: WorldPos) -> Explosion {
        Explosion { position, timer: Timer::fresh(EXPLOSION_TIMER_NANOS) }
    }

    /// The mark after `delta` more nanoseconds.
    pub open spec fn ticked(self, delta: u64) -> Explosion {
        Explosion { timer: self.timer.ticked(delta), ..self }
    }
}

/// Event for SFX.
#[derive(Clone, Copy, Debug, PartialEq, Eq, Structural)]
pub enum PlaySfx {
    PlayerDeath,
    BombExplosion,
    BombFuse,
}

/// Event to add trauma to the camera, in thousandths: a value between 0 and 1000.
#[derive(Clone, Copy, Debug, PartialEq, Eq, Structural)]
pub struct CameraTrauma(pub u32);

/// Why a bomb was not placed.
#[derive(Clone, Copy, Debug, PartialEq, Eq, Structural)]
pub enum Rejected {
    /// No actor has the id given.
    UnknownActor,
    /// The actor has as many bombs out as it may.
    CapacityReached,
    /// A bomb lies in the cell already.
    CellOccupied,
}

/// The number of bombs among `bombs` that `actor` placed.
pub open spec fn owned_by(bombs: Seq<Bomb>, actor: u64) -> nat
    decreases bombs.len(),
{
    if bombs.len() == 0 {
        0
    } else {
        owned_by(bombs.drop_last(), actor) + if bombs.last().spawner == actor {
            1nat
        } else {
            0nat
        }
    }
}

/// Whether a bomb lies in `cell`.
pub open spec fn has_bomb_at(bombs: Seq<Bomb>, cell: GridCell) -> bool {
    exists|i: int| 0 <= i < bombs.len() && cell_of(#[trigger] bombs[i].position) == cell
}

/// A bomb more is one more for its spawner and none for anyone else.
pub proof fn lemma_owned_push(bombs: Seq<Bomb>, bomb: Bomb, actor: u64)
    ensures
        owned_by(bombs.push(bomb), actor) == owned_by(bombs, actor) + if bomb.spawner == actor {
            1nat
        } else {
            0nat
        },
{
    assert(bombs.push(bomb).drop_last() =~= bombs);
}

/// A bomb less is one less for its spawner and none for anyone else.
pub proof fn lemma_owned_remove(bombs: Seq<Bomb>, i: int, actor: u64)
    requires
        0 <= i < bombs.len(),
    ensures
        owned_by(bombs, actor) == owned_by(bombs.remove(i), actor) + if bombs[i].spawner == actor {
            1nat
        } else {
            0nat
        },
    decreases bombs.len(),
{
    if i == bombs.len() - 1 {
        assert(bombs.remove(i) =~= bombs.drop_last());
    } else {
        lemma_owned_remove(bombs.drop_last(), i, actor);
        assert(bombs.remove(i).drop_last() =~= bombs.drop_last().remove(i));
        assert(bombs.remove(i).last() == bombs.last());
    }
}

/// Bombs with the same spawners, one by one, count the same for every actor.
pub proof fn lemma_owned_same_spawners(a: Seq<Bomb>, b: Seq<Bomb>, actor: u64)
    requires
        a.len() == b.len(),
        forall|i: int| 0 <= i < a.len() ==> a[i].spawner == b[i].spawner,
    ensures
        owned_by(a, actor) == owned_by(b, actor),
    decreases a.len(),
{
    if a.len() > 0 {
        lemma_owned_same_spawners(a.drop_last(), b.drop_last(), actor);
    }
}

} // verus!
