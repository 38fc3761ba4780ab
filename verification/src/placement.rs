//! Placing bombs: at most a fixed number per actor, and never two in one cell.

use vstd::prelude::*;
use crate::bomb::{
    has_bomb_at, lemma_owned_push, owned_by, Bomb, PlaySfx, Rejected, BOMB_TIMER_NANOS,
    MAX_BOMBS_PER_PLAYER,
};
use crate::grid::{cell_of, lemma_snap_idempotent, GridCell, GridNormalise, ToGrid, WorldPos};
use crate::player::{has_player, index_of_player};
use crate::timer::Timer;
use crate::world::{counts_bombs, distinct_cells, sound_bomb, World, WorldState};

verus! {

impl WorldState {
    /// What becomes of the attempt of `actor` to place a bomb at `position`: the cell
    /// that the bomb goes to, or why it is not placed. An actor at its limit is turned
    /// down before the cell is looked at.
    pub open spec fn placement(self, actor: u64, position: WorldPos) -> Result<GridCell, Rejected> {
        if !has_player(self.players, actor) {
            Err(Rejected::UnknownActor)
        } else if self.players[index_of_player(self.players, actor)].bombs.0
            >= MAX_BOMBS_PER_PLAYER {
            Err(Rejected::CapacityReached)
        } else if has_bomb_at(self.bombs, cell_of(position)) {
            Err(Rejected::CellOccupied)
        } else {
            Ok(cell_of(position))
        }
    }

    /// The world after the attempt of `actor` to place a bomb at `position`. Where the
    /// attempt succeeds, a bomb with a fresh fuse lies at the centre of the cell, the
    /// actor counts one bomb more, and the fuse is heard; where it fails, nothing changes.
    pub open spec fn placed(self, actor: u64, position: WorldPos) -> WorldState {
        if self.placement(actor, position) is Ok {
            let i = index_of_player(self.players, actor);
            let player = self.players[i];
            WorldState {
                players: self.players.update(i, player.with_count((player.bombs.0 + 1) as u8)),
                bombs: self.bombs.push(Bomb::placed_at(actor, position)),
                sfx: self.sfx.push(PlaySfx::BombFuse),
                ..self
            }
        } else {
            self
        }
    }

    /// The world after the attempt of `actor` to place a bomb where it stands; as it is
    /// where there is no such actor.
    pub open spec fn dropped(self, actor: u64) -> WorldState {
        if has_player(self.players, actor) {
            self.placed(actor, self.players[index_of_player(self.players, actor)].position)
        } else {
            self
        }
    }

    /// The world after each actor of `actors`, in order, tried to place a bomb where it
    /// stands.
    pub open spec fn dropped_all(self, actors: Seq<u64>) -> WorldState
        decreases actors.len(),
    {
        if actors.len() == 0 {
            self
        } else {
            self.dropped_all(actors.drop_last()).dropped(actors.last())
        }
    }

    /// The world after a run of attempts, each by an actor at a position, in order.
    pub open spec fn placed_all(self, attempts: Seq<(u64, WorldPos)>) -> WorldState
        decreases attempts.len(),
    {
        if attempts.len() == 0 {
            self
        } else {
            self.placed_all(attempts.drop_last()).placed(attempts.last().0, attempts.last().1)
        }
    }

    /// The number of bombs that lie in `cell`.
    pub open spec fn bombs_in(self, cell: GridCell) -> nat {
        self.bombs.filter(|b: Bomb| cell_of(b.position) == cell).len()
    }
}

/// An attempt to place a bomb keeps the books in order, whatever becomes of it.
pub proof fn lemma_placed_wf(w: WorldState, actor: u64, position: WorldPos)
    requires
        w.wf(),
    ensures
        w.placed(actor, position).wf(),
{
    if w.placement(actor, position) is Ok {
        let after = w.placed(actor, position);
        let i = index_of_player(w.players, actor);
        let bomb = Bomb::placed_at(actor, position);
        lemma_snap_idempotent(position);
        assert(sound_bomb(bomb));
        assert forall|a: int, b: int| 0 <= a < b < after.players.len() implies (
        #[trigger] after.players[a]).id != (#[trigger] after.players[b]).id by {
            assert(w.players[a].id != w.players[b].id);
        }
        assert forall|a: int| 0 <= a < after.players.len() implies counts_bombs(
            #[trigger] after.players[a],
            after.bombs,
        ) by {
            lemma_owned_push(w.bombs, bomb, w.players[a].id);
            assert(counts_bombs(w.players[a], w.bombs));
            if a < i {
                assert(w.players[a].id != w.players[i].id);
            } else if i < a {
                assert(w.players[i].id != w.players[a].id);
            }
        }
        assert forall|a: int, b: int| 0 <= a < b < after.bombs.len() implies cell_of(
            (#[trigger] after.bombs[a]).position,
        ) != cell_of((#[trigger] after.bombs[b]).position) by {
            if b == w.bombs.len() {
                assert(cell_of(w.bombs[a].position) != cell_of(position));
            } else {
                assert(cell_of(w.bombs[a].position) != cell_of(w.bombs[b].position));
            }
        }
        assert forall|a: int| 0 <= a < after.bombs.len() implies sound_bomb(
            #[trigger] after.bombs[a],
        ) && !after.bombs[a].timer.finished by {
            if a < w.bombs.len() {
                assert(sound_bomb(w.bombs[a]));
                assert(!w.bombs[a].timer.finished);
            }
        }
    }
}

/// Any run of attempts keeps the books in order. So no actor ever has more bombs out
/// than the limit, and no cell ever holds two bombs.
pub proof fn lemma_dropped_all_wf(w: WorldState, actors: Seq<u64>)
    requires
        w.wf(),
    ensures
        w.dropped_all(actors).wf(),
    decreases actors.len(),
{
    if actors.len() > 0 {
        lemma_dropped_all_wf(w, actors.drop_last());
        let before = w.dropped_all(actors.drop_last());
        if has_player(before.players, actors.last()) {
            lemma_placed_wf(
                before,
                actors.last(),
                before.players[index_of_player(before.players, actors.last())].position,
            );
        }
    }
}

/// Capacity holds throughout: after any run of attempts, by any actors at any positions,
/// the world is well formed, so every actor in it has at most the limit of live bombs and
/// counts exactly those.
pub proof fn lemma_capacity_throughout(w: WorldState, attempts: Seq<(u64, WorldPos)>, i: int)
    requires
        w.wf(),
        0 <= i < w.placed_all(attempts).players.len(),
    ensures
        w.placed_all(attempts).wf(),
        owned_by(w.placed_all(attempts).bombs, w.placed_all(attempts).players[i].id)
            <= MAX_BOMBS_PER_PLAYER,
        w.placed_all(attempts).players[i].bombs.0 == owned_by(
            w.placed_all(attempts).bombs,
            w.placed_all(attempts).players[i].id,
        ),
    decreases attempts.len(),
{
    lemma_placed_all_wf(w, attempts);
    let after = w.placed_all(attempts);
    assert(counts_bombs(after.players[i], after.bombs));
}

/// Any run of attempts keeps the books in order.
pub proof fn lemma_placed_all_wf(w: WorldState, attempts: Seq<(u64, WorldPos)>)
    requires
        w.wf(),
    ensures
        w.placed_all(attempts).wf(),
    decreases attempts.len(),
{
    if attempts.len() > 0 {
        lemma_placed_all_wf(w, attempts.drop_last());
        lemma_placed_wf(w.placed_all(attempts.drop_last()), attempts.last().0, attempts.last().1);
    }
}

/// Capacity: in a world whose books are in order, every actor has at most the limit of
/// live bombs, and an attempt by an actor that has that many is turned down and changes
/// nothing.
pub proof fn lemma_capacity(w: WorldState, actor: u64, position: WorldPos)
    requires
        w.wf(),
        has_player(w.players, actor),
    ensures
        owned_by(w.bombs, actor) <= MAX_BOMBS_PER_PLAYER,
        owned_by(w.placed(actor, position).bombs, actor) <= MAX_BOMBS_PER_PLAYER,
        owned_by(w.bombs, actor) == MAX_BOMBS_PER_PLAYER ==> {
            &&& w.placement(actor, position) == Err::<GridCell, Rejected>(Rejected::CapacityReached)
            &&& w.placed(actor, position) == w
        },
{
    let i = index_of_player(w.players, actor);
    assert(counts_bombs(w.players[i], w.bombs));
    lemma_placed_wf(w, actor, position);
    let after = w.placed(actor, position);
    assert(after.players.len() == w.players.len());
    assert(after.players[i].id == actor);
    assert(counts_bombs(after.players[i], after.bombs));
}

/// In a world whose books are in order, a cell holds at most one bomb.
pub proof fn lemma_one_bomb_per_cell(w: WorldState, cell: GridCell)
    requires
        w.coherent(),
    ensures
        w.bombs_in(cell) <= 1,
        w.bombs_in(cell) == 1 <==> has_bomb_at(w.bombs, cell),
{
    lemma_bombs_in(w.bombs, cell);
}

/// Among bombs in distinct cells, the bombs in one cell number one if a bomb lies there
/// and none if not.
proof fn lemma_bombs_in(bombs: Seq<Bomb>, cell: GridCell)
    requires
        distinct_cells(bombs),
    ensures
        bombs.filter(|b: Bomb| cell_of(b.position) == cell).len() == if has_bomb_at(bombs, cell) {
            1nat
        } else {
            0nat
        },
    decreases bombs.len(),
{
    let here = |b: Bomb| cell_of(b.position) == cell;
    reveal(Seq::filter);
    if bombs.len() > 0 {
        let rest = bombs.drop_last();
        assert forall|i: int, j: int| 0 <= i < j < rest.len() implies cell_of(
            (#[trigger] rest[i]).position,
        ) != cell_of((#[trigger] rest[j]).position) by {
            assert(cell_of(bombs[i].position) != cell_of(bombs[j].position));
        }
        lemma_bombs_in(rest, cell);
        if has_bomb_at(rest, cell) {
            let i = choose|i: int| 0 <= i < rest.len() && cell_of(#[trigger] rest[i].position) == cell;
            assert(cell_of(bombs[i].position) == cell);
            assert(cell_of(bombs[i].position) != cell_of(bombs[bombs.len() - 1].position));
        } else if has_bomb_at(bombs, cell) {
            let i = choose|i: int|
                0 <= i < bombs.len() && cell_of(#[trigger] bombs[i].position) == cell;
            if i < rest.len() {
                assert(cell_of(rest[i].position) == cell);
            }
        } else {
            assert(cell_of(bombs[bombs.len() - 1].position) != cell);
        }
        if here(bombs.last()) {
            assert(cell_of(bombs[bombs.len() - 1].position) == cell);
        }
    }
}

/// No stacking: of two attempts in a row that aim at one cell, at most one places a
/// bomb. If the first places one, the second is turned down, and either way the cell
/// holds at most one bomb after both, and exactly one if either attempt placed one.
pub proof fn lemma_no_stacking(
    w: WorldState,
    first: u64,
    second: u64,
    at: WorldPos,
    again: WorldPos,
)
    requires
        w.wf(),
        cell_of(at) == cell_of(again),
    ensures
        w.placement(first, at) is Ok ==> w.placed(first, at).placement(second, again) is Err,
        w.placed(first, at).placed(second, again).bombs_in(cell_of(at)) <= 1,
        (w.placement(first, at) is Ok || w.placed(first, at).placement(second, again) is Ok)
            ==> w.placed(first, at).placed(second, again).bombs_in(cell_of(at)) == 1,
{
    let cell = cell_of(at);
    let mid = w.placed(first, at);
    let end = mid.placed(second, again);
    lemma_placed_wf(w, first, at);
    lemma_placed_wf(mid, second, again);
    lemma_one_bomb_per_cell(end, cell);
    lemma_snap_idempotent(at);
    lemma_snap_idempotent(again);
    if w.placement(first, at) is Ok {
        assert(cell_of(mid.bombs[mid.bombs.len() - 1].position) == cell);
        assert(has_bomb_at(mid.bombs, cell));
        assert(end == mid);
    } else if mid.placement(second, again) is Ok {
        assert(cell_of(end.bombs[end.bombs.len() - 1].position) == cell);
        assert(has_bomb_at(end.bombs, cell));
    }
}

impl World {
    /// The actor `actor` tries to place a bomb at `position`.
    ///
    /// The attempt is turned down if there is no such actor, if the actor has as many
    /// bombs out as it may, or if a bomb lies in the cell of `position` already; nothing
    /// changes then. Otherwise a bomb with a fresh fuse is placed at the centre of the
    /// cell, the actor counts one bomb more, and the fuse is heard. The result names the
    /// cell of the new bomb.
    pub fn place_bomb(&mut self, actor: u64, position: WorldPos) -> (placed: Result<
        GridCell,
        Rejected,
    >)
        requires
            old(self)@.wf(),
        ensures
            placed == old(self)@.placement(actor, position),
            final(self)@ == old(self)@.placed(actor, position),
            final(self)@.wf(),
    {
        proof {
            lemma_placed_wf(self@, actor, position);
        }
        let i = match self.find_player(actor) {
            None => {
                return Err(Rejected::UnknownActor);
            },
            Some(i) => i,
        };
        let mut player = self.players[i];
        if player.bombs.is_full() {
            return Err(Rejected::CapacityReached);
        }
        let cell = position.to_grid();
        if self.bomb_at(cell) {
            return Err(Rejected::CellOccupied);
        }
        let bomb = Bomb {
            spawner: actor,
            position: position.grid_normalised(),
            timer: Timer::new(BOMB_TIMER_NANOS),
        };
        self.bombs.push(bomb);
        player.bombs.increment();
        self.players.set(i, player);
        self.sfx.push(PlaySfx::BombFuse);
        proof {
            let before = old(self)@;
            assert(player == before.players[i as int].with_count(
                (before.players[i as int].bombs.0 + 1) as u8,
            ));
            assert(self@.players == before.placed(actor, position).players);
            assert(self@ == before.placed(actor, position));
        }
        Ok(cell)
    }

    /// Each actor of `actors`, in order, tries to place a bomb where it stands: the
    /// actors whose input asks for a bomb on this tick. An attempt that is turned down is
    /// passed over in silence.
    pub fn spawn_bombs(&mut self, actors: &Vec<u64>)
        requires
            old(self)@.wf(),
        ensures
            final(self)@ == old(self)@.dropped_all(actors@),
            final(self)@.wf(),
    {
        let mut k: usize = 0;
        while k < actors.len()
            invariant
                k <= actors.len(),
                self@.wf(),
                self@ == old(self)@.dropped_all(actors@.take(k as int)),
            decreases actors.len() - k,
        {
            let actor = actors[k];
            proof {
                assert(actors@.take(k + 1).drop_last() == actors@.take(k as int));
                assert(actors@.take(k + 1).last() == actor);
            }
            match self.find_player(actor) {
                None => {},
                Some(i) => {
                    let position = self.players[i].position;
                    let _ = self.place_bomb(actor, position);
                },
            }
            k = k + 1;
        }
        assert(actors@.take(actors.len() as int) == actors@);
    }
}

} // verus!
