//! The actors of the game.

use vstd::prelude::*;
use crate::bomb::CountBombs;
use crate::collision::{CollisionBounds, Velocity};
use crate::grid::{cell_of, GridCell, WorldPos};

verus! {

/// A participant of the round.
#[derive(Clone, Copy, Debug, PartialEq, Eq)]
pub struct Player {
    /// Id of the actor. No two actors of a world share one.
    pub id: u64,
    /// Where the actor stands.
    pub position: WorldPos,
    /// Linear velocity: the displacement over the current tick.
    pub velocity: Velocity,
    /// Collision bounds, as offsets from `position`.
    pub bounds: CollisionBounds,
    /// The number of bombs that the actor has out.
    pub bombs: CountBombs,
}

impl Player {
    /// The cell in which the actor stands.
    pub open spec fn cell(self) -> GridCell {
        cell_of(self.position)
    }

    /// The actor with `count` bombs out.
    pub open spec fn with_count(self, count: u8) -> Player {
        Player { bombs: CountBombs(count), ..self }
    }

    /// The actor with velocity `velocity`.
    pub open spec fn with_velocity(self, velocity: Velocity) -> Player {
        Player { velocity, ..self }
    }

    /// The actor at `position`.
    pub open spec fn with_position(self, position: WorldPos) -> Player {
        Player { position, ..self }
    }

    /// The actor as it enters a round: at rest, with no bomb out.
    pub open spec fn entering(id: u64, position: WorldPos, bounds: CollisionBounds) -> Player {
        Player { id, position, velocity: Velocity { x: 0, y: 0 }, bounds, bombs: CountBombs(0) }
    }
}

/// Whether an actor with id `id` is among `players`.
pub open spec fn has_player(players: Seq<Player>, id: u64) -> bool {
    exists|i: int| 0 <= i < players.len() && (#[trigger] players[i]).id == id
}

/// The place among `players` of an actor with id `id`, where there is one.
pub open spec fn index_of_player(players: Seq<Player>, id: u64) -> int {
    choose|i: int| 0 <= i < players.len() && (#[trigger] players[i]).id == id
}

/// No two of `players` share an id.
pub open spec fn distinct_ids(players: Seq<Player>) -> bool {
    forall|i: int, j: int|
        0 <= i < j < players.len() ==> (#[trigger] players[i]).id != (#[trigger] players[j]).id
}

/// Among actors with distinct ids, an id names one place.
pub proof fn lemma_index_of_player(players: Seq<Player>, i: int)
    requires
        distinct_ids(players),
        0 <= i < players.len(),
    ensures
        has_player(players, players[i].id),
        index_of_player(players, players[i].id) == i,
{
    let j = index_of_player(players, players[i].id);
    assert(0 <= j < players.len() && players[j].id == players[i].id);
    if j < i {
        assert(players[j].id != players[i].id);
    } else if i < j {
        assert(players[i].id != players[j].id);
    }
}

} // verus!
