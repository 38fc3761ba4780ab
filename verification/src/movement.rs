//! Movement of the actors: what blocks them, how collision restricts their velocity, and
//! how they move.

use vstd::prelude::*;
use crate::bomb::{has_bomb_at, Bomb};
use crate::collision::{resolve_velocity, resolved_velocity, Velocity};
use crate::grid::{cell_of, GridCell, ToGrid, WorldPos};
use crate::player::Player;
use crate::seq_facts::{lemma_filter_keeps, lemma_filter_source};
use crate::tiles::{category_at, Tile, TileCategory};
use crate::world::{counts_bombs, World, WorldState};

verus! {

/// The test whether a tile is a wall.
pub open spec fn is_wall() -> spec_fn(Tile) -> bool {
    |t: Tile| t.category != TileCategory::Empty
}

/// The cells closed to movement among `tiles` and `bombs`: the cells of the walls, then
/// the cells of the bombs.
pub open spec fn blocked_cells(tiles: Seq<Tile>, bombs: Seq<Bomb>) -> Seq<GridCell> {
    tiles.filter(is_wall()).map_values(|t: Tile| t.cell) + bombs.map_values(
        |b: Bomb| cell_of(b.position),
    )
}

/// `a + b`, held to the range of the world coordinates.
pub open spec fn clamped_sum(a: i64, b: i64) -> i64 {
    if a + b > i64::MAX {
        i64::MAX
    } else if a + b < i64::MIN {
        i64::MIN
    } else {
        (a + b) as i64
    }
}

/// The position reached from `p` by the displacement `v`.
pub open spec fn displaced(p: WorldPos, v: Velocity) -> WorldPos {
    WorldPos { x: clamped_sum(p.x, v.x), y: clamped_sum(p.y, v.y) }
}

impl WorldState {
    /// The world after collision restricted the velocity of every actor: each against
    /// the cells that are blocked before any actor moves.
    pub open spec fn collided(self) -> WorldState {
        let blocked = blocked_cells(self.tiles, self.bombs);
        WorldState {
            players: self.players.map_values(
                |p: Player|
                    p.with_velocity(resolved_velocity(p.velocity, p.position, p.bounds, blocked)),
            ),
            ..self
        }
    }

    /// The world after every actor moved by its velocity.
    pub open spec fn moved(self) -> WorldState {
        WorldState {
            players: self.players.map_values(
                |p: Player| p.with_position(displaced(p.position, p.velocity)),
            ),
            ..self
        }
    }
}

/// A cell is among the blocked cells exactly if a wall stands in it or a bomb lies in it.
pub proof fn lemma_blocked_cells(w: WorldState, cell: GridCell)
    ensures
        blocked_cells(w.tiles, w.bombs).contains(cell) <==> w.blocked(cell),
{
    let walls = w.tiles.filter(is_wall());
    let wall_cells = walls.map_values(|t: Tile| t.cell);
    let bomb_cells = w.bombs.map_values(|b: Bomb| cell_of(b.position));
    let all = blocked_cells(w.tiles, w.bombs);
    assert(all == wall_cells + bomb_cells);
    if all.contains(cell) {
        let k = choose|k: int| 0 <= k < all.len() && all[k] == cell;
        if k < wall_cells.len() {
            let j = lemma_filter_source(w.tiles, is_wall(), k);
            assert(w.tiles[j].cell == cell);
            assert(w.tiles.contains(w.tiles[j]));
            assert(w.tiles[j] == Tile { cell, category: w.tiles[j].category });
        } else {
            let j = k - wall_cells.len();
            assert(cell_of(w.bombs[j].position) == cell);
        }
    }
    if category_at(w.tiles, cell) != TileCategory::Empty {
        let tile = Tile { cell, category: category_at(w.tiles, cell) };
        assert(w.tiles.contains(tile));
        let j = choose|j: int| 0 <= j < w.tiles.len() && w.tiles[j] == tile;
        let a = lemma_filter_keeps(w.tiles, is_wall(), j);
        assert(wall_cells[a] == cell);
        assert(all[a] == cell);
    }
    if has_bomb_at(w.bombs, cell) {
        let j = choose|j: int| 0 <= j < w.bombs.len() && cell_of(#[trigger] w.bombs[j].position) == cell;
        assert(bomb_cells[j] == cell);
        assert(all[wall_cells.len() + j] == cell);
    }
}

/// Actors that keep their ids and their counts keep the books in order.
pub proof fn lemma_same_books(w: WorldState, players: Seq<Player>)
    requires
        w.wf(),
        players.len() == w.players.len(),
        forall|i: int|
            0 <= i < players.len() ==> (#[trigger] players[i]).id == w.players[i].id
                && players[i].bombs == w.players[i].bombs,
    ensures
        (WorldState { players, ..w }).wf(),
{
    let after = WorldState { players, ..w };
    assert forall|i: int, j: int| 0 <= i < j < players.len() implies (#[trigger] players[i]).id != (
    #[trigger] players[j]).id by {
        assert(w.players[i].id != w.players[j].id);
    }
    assert forall|i: int| 0 <= i < players.len() implies counts_bombs(
        #[trigger] players[i],
        after.bombs,
    ) by {
        assert(counts_bombs(w.players[i], w.bombs));
    }
}

/// `a + b`, held to the range of the world coordinates.
fn add_clamped(a: i64, b: i64) -> (sum: i64)
    ensures
        sum == clamped_sum(a, b),
{
    let wide: i128 = a as i128 + b as i128;
    if wide > i64::MAX as i128 {
        i64::MAX
    } else if wide < i64::MIN as i128 {
        i64::MIN
    } else {
        wide as i64
    }
}

impl World {
    /// The cells closed to movement: a snapshot to test the movement of this tick
    /// against.
    pub fn blocked_cells(&self) -> (cells: Vec<GridCell>)
        ensures
            cells@ == blocked_cells(self@.tiles, self@.bombs),
            forall|cell: GridCell| cells@.contains(cell) <==> self@.blocked(cell),
    {
        let mut cells: Vec<GridCell> = Vec::new();
        let mut k: usize = 0;
        reveal_with_fuel(Seq::filter, 1);
        assert(self.tiles@.take(0).filter(is_wall()).map_values(|t: Tile| t.cell) =~= Seq::empty());
        while k < self.tiles.len()
            invariant
                k <= self.tiles.len(),
                cells@ == self.tiles@.take(k as int).filter(is_wall()).map_values(|t: Tile| t.cell),
            decreases self.tiles.len() - k,
        {
            let tile = self.tiles[k];
            proof {
                let seen = self.tiles@.take(k as int);
                assert(self.tiles@.take(k + 1) == seen.push(tile));
                seen.lemma_filter_push(tile, is_wall());
                assert(seen.filter(is_wall()).push(tile).map_values(|t: Tile| t.cell)
                    =~= seen.filter(is_wall()).map_values(|t: Tile| t.cell).push(tile.cell));
            }
            match tile.category {
                TileCategory::Empty => {},
                _ => {
                    cells.push(tile.cell);
                },
            }
            k = k + 1;
        }
        assert(self.tiles@.take(self.tiles.len() as int) == self.tiles@);
        let ghost walls = cells@;
        let mut k: usize = 0;
        assert(walls + self.bombs@.take(0).map_values(|b: Bomb| cell_of(b.position)) =~= walls);
        while k < self.bombs.len()
            invariant
                k <= self.bombs.len(),
                cells@ == walls + self.bombs@.take(k as int).map_values(
                    |b: Bomb| cell_of(b.position),
                ),
            decreases self.bombs.len() - k,
        {
            cells.push(self.bombs[k].position.to_grid());
            k = k + 1;
            assert(cells@ =~= walls + self.bombs@.take(k as int).map_values(
                |b: Bomb| cell_of(b.position),
            ));
        }
        assert(self.bombs@.take(self.bombs.len() as int) == self.bombs@);
        proof {
            assert forall|cell: GridCell| cells@.contains(cell) <==> self@.blocked(cell) by {
                lemma_blocked_cells(self@, cell);
            }
        }
        cells
    }

    /// Detect player collisions with walls and bombs to restrict movement: each actor's
    /// velocity loses the components that would carry it into a blocked cell.
    pub fn player_collisions(&mut self)
        requires
            old(self)@.wf(),
        ensures
            final(self)@ == old(self)@.collided(),
            final(self)@.wf(),
    {
        let blocked = self.blocked_cells();
        let mut resolved: Vec<Player> = Vec::new();
        let mut k: usize = 0;
        while k < self.players.len()
            invariant
                k <= self.players.len(),
                self@ == old(self)@,
                blocked@ == blocked_cells(self@.tiles, self@.bombs),
                resolved@ == self.players@.take(k as int).map_values(
                    |p: Player|
                        p.with_velocity(
                            resolved_velocity(p.velocity, p.position, p.bounds, blocked@),
                        ),
                ),
            decreases self.players.len() - k,
        {
            let mut player = self.players[k];
            player.velocity = resolve_velocity(
                player.velocity,
                player.position,
                player.bounds,
                &blocked,
            );
            resolved.push(player);
            k = k + 1;
            assert(resolved@ =~= self.players@.take(k as int).map_values(
                |p: Player|
                    p.with_velocity(resolved_velocity(p.velocity, p.position, p.bounds, blocked@)),
            ));
        }
        assert(self.players@.take(self.players.len() as int) == self.players@);
        proof {
            assert(resolved@ == old(self)@.collided().players);
            lemma_same_books(self@, resolved@);
        }
        self.players = resolved;
    }

    /// Update the positions based on the velocities.
    pub fn update_position(&mut self)
        requires
            old(self)@.wf(),
        ensures
            final(self)@ == old(self)@.moved(),
            final(self)@.wf(),
    {
        let mut moved: Vec<Player> = Vec::new();
        let mut k: usize = 0;
        while k < self.players.len()
            invariant
                k <= self.players.len(),
                self@ == old(self)@,
                moved@ == self.players@.take(k as int).map_values(
                    |p: Player| p.with_position(displaced(p.position, p.velocity)),
                ),
            decreases self.players.len() - k,
        {
            let mut player = self.players[k];
            player.position = WorldPos {
                x: add_clamped(player.position.x, player.velocity.x),
                y: add_clamped(player.position.y, player.velocity.y),
            };
            moved.push(player);
            k = k + 1;
            assert(moved@ =~= self.players@.take(k as int).map_values(
                |p: Player| p.with_position(displaced(p.position, p.velocity)),
            ));
        }
        assert(self.players@.take(self.players.len() as int) == self.players@);
        proof {
            lemma_same_books(self@, moved@);
        }
        self.players = moved;
    }
}

} // verus!
