//! The state of a round: actors, bombs, tiles, the marks of blasts, and the events that
//! wait to be heard.

use vstd::prelude::*;
use crate::bomb::{
    has_bomb_at, lemma_owned_push, owned_by, Bomb, CameraTrauma, CountBombs, Explosion,
    PlaySfx, MAX_BOMBS_PER_PLAYER,
};
use crate::collision::{CollisionBounds, Velocity};
use crate::grid::{cell_of, snapped, GridCell, ToGrid, WorldPos};
use crate::player::{distinct_ids, has_player, index_of_player, lemma_index_of_player, Player};
use crate::tiles::{category_at, classify, destroy_tile, without_tile, Tile, TileCategory};

verus! {

/// The state of a round.
///
/// Actors, bombs and tiles are changed only by the functions of this type, which keep
/// them consistent: see `WorldState::wf`.
pub struct World {
    pub(crate) players: Vec<Player>,
    pub(crate) bombs: Vec<Bomb>,
    pub(crate) tiles: Vec<Tile>,
    pub(crate) explosions: Vec<Explosion>,
    pub(crate) sfx: Vec<PlaySfx>,
    pub(crate) trauma: Vec<CameraTrauma>,
}

/// What a `World` holds, as sequences.
pub struct WorldState {
    /// The actors still in the round, in the order in which they entered.
    pub players: Seq<Player>,
    /// The bombs that have not exploded, in the order in which they were placed.
    pub bombs: Seq<Bomb>,
    /// The tiles of the level that still stand.
    pub tiles: Seq<Tile>,
    /// The marks of blasts that have not faded.
    pub explosions: Seq<Explosion>,
    /// Sound cues that were emitted and not yet taken.
    pub sfx: Seq<PlaySfx>,
    /// Camera trauma that was emitted and not yet taken.
    pub trauma: Seq<CameraTrauma>,
}

impl View for World {
    type V = WorldState;

    open(crate) spec fn view(&self) -> WorldState {
        WorldState {
            players: self.players@,
            bombs: self.bombs@,
            tiles: self.tiles@,
            explosions: self.explosions@,
            sfx: self.sfx@,
            trauma: self.trauma@,
        }
    }
}

/// The count of `player` is the number of its bombs among `bombs`, and within the limit.
pub open spec fn counts_bombs(player: Player, bombs: Seq<Bomb>) -> bool {
    player.bombs.0 == owned_by(bombs, player.id) && player.bombs.0 <= MAX_BOMBS_PER_PLAYER
}

/// `bomb` lies at the centre of a cell, and its fuse is one that was started and ticked;
/// if the fuse has run out, it did so on the latest tick.
pub open spec fn sound_bomb(bomb: Bomb) -> bool {
    &&& bomb.position == snapped(bomb.position)
    &&& bomb.timer.wf()
    &&& bomb.timer.finished ==> bomb.timer.just_finished
}

/// No two of `bombs` lie in one cell.
pub open spec fn distinct_cells(bombs: Seq<Bomb>) -> bool {
    forall|i: int, j: int|
        0 <= i < j < bombs.len() ==> cell_of((#[trigger] bombs[i]).position) != cell_of(
            (#[trigger] bombs[j]).position,
        )
}

impl WorldState {
    /// A world with nothing in it.
    pub open spec fn empty() -> WorldState {
        WorldState {
            players: Seq::empty(),
            bombs: Seq::empty(),
            tiles: Seq::empty(),
            explosions: Seq::empty(),
            sfx: Seq::empty(),
            trauma: Seq::empty(),
        }
    }

    /// The books are in order: ids name one actor each, every actor's count is the number
    /// of its live bombs and within the limit, no cell holds two bombs, and every bomb is
    /// sound.
    pub open spec fn coherent(self) -> bool {
        &&& distinct_ids(self.players)
        &&& forall|i: int|
            0 <= i < self.players.len() ==> counts_bombs(#[trigger] self.players[i], self.bombs)
        &&& distinct_cells(self.bombs)
        &&& forall|i: int| 0 <= i < self.bombs.len() ==> sound_bomb(#[trigger] self.bombs[i])
        &&& forall|i: int|
            0 <= i < self.explosions.len() ==> (#[trigger] self.explosions[i]).timer.wf()
    }

    /// What holds between any two calls: the books are in order, every live bomb still
    /// burns, and every mark still shows.
    pub open spec fn wf(self) -> bool {
        &&& self.coherent()
        &&& forall|i: int| 0 <= i < self.bombs.len() ==> !(#[trigger] self.bombs[i]).timer.finished
        &&& forall|i: int|
            0 <= i < self.explosions.len() ==> !(#[trigger] self.explosions[i]).timer.finished
    }

    /// Whether `cell` is closed to movement: a wall stands in it or a bomb lies in it.
    pub open spec fn blocked(self, cell: GridCell) -> bool {
        category_at(self.tiles, cell) != TileCategory::Empty || has_bomb_at(self.bombs, cell)
    }

    /// Whether an id is free for an actor to enter with: no actor has it, and no live bomb
    /// was placed under it.
    pub open spec fn id_free(self, id: u64) -> bool {
        !has_player(self.players, id) && owned_by(self.bombs, id) == 0
    }

    /// The world after an actor entered at `position`, where the id is free; else the
    /// world as it is.
    pub open spec fn entered(self, id: u64, position: WorldPos, bounds: CollisionBounds) -> WorldState {
        if self.id_free(id) {
            WorldState { players: self.players.push(Player::entering(id, position, bounds)), ..self }
        } else {
            self
        }
    }

    /// The world after the actor `id` was given the velocity `velocity`; as it is where
    /// there is no such actor.
    pub open spec fn steered(self, id: u64, velocity: Velocity) -> WorldState {
        if has_player(self.players, id) {
            let i = index_of_player(self.players, id);
            WorldState {
                players: self.players.update(i, self.players[i].with_velocity(velocity)),
                ..self
            }
        } else {
            self
        }
    }
}

/// The number of bombs among `bombs` that `actor` placed.
pub fn count_owned(bombs: &Vec<Bomb>, actor: u64) -> (n: usize)
    ensures
        n == owned_by(bombs@, actor),
{
    let mut n: usize = 0;
    let mut i: usize = 0;
    while i < bombs.len()
        invariant
            i <= bombs.len(),
            n <= i,
            n == owned_by(bombs@.take(i as int), actor),
        decreases bombs.len() - i,
    {
        proof {
            assert(bombs@.take(i + 1) == bombs@.take(i as int).push(bombs@[i as int]));
            lemma_owned_push(bombs@.take(i as int), bombs@[i as int], actor);
        }
        if bombs[i].spawner == actor {
            n = n + 1;
        }
        i = i + 1;
    }
    assert(bombs@.take(bombs.len() as int) == bombs@);
    n
}

impl World {
    /// A world with nothing in it.
    pub fn new() -> (world: World)
        ensures
            world@ == WorldState::empty(),
            world@.wf(),
    {
        World {
            players: Vec::new(),
            bombs: Vec::new(),
            tiles: Vec::new(),
            explosions: Vec::new(),
            sfx: Vec::new(),
            trauma: Vec::new(),
        }
    }

    /// The place of the actor `id` among the actors, if there is one.
    pub fn find_player(&self, id: u64) -> (found: Option<usize>)
        ensures
            match found {
                Some(i) => i < self@.players.len() && self@.players[i as int].id == id,
                None => !has_player(self@.players, id),
            },
            self@.coherent() ==> (found matches Some(i) ==> i == index_of_player(
                self@.players,
                id,
            )),
    {
        let mut i: usize = 0;
        while i < self.players.len()
            invariant
                i <= self.players.len(),
                forall|k: int| 0 <= k < i ==> self.players@[k].id != id,
            decreases self.players.len() - i,
        {
            if self.players[i].id == id {
                proof {
                    if self@.coherent() {
                        lemma_index_of_player(self@.players, i as int);
                    }
                }
                return Some(i);
            }
            i = i + 1;
        }
        None
    }

    /// Whether a bomb lies in `cell`.
    pub fn bomb_at(&self, cell: GridCell) -> (found: bool)
        ensures
            found == has_bomb_at(self@.bombs, cell),
    {
        let mut i: usize = 0;
        while i < self.bombs.len()
            invariant
                i <= self.bombs.len(),
                forall|k: int| 0 <= k < i ==> cell_of(self.bombs@[k].position) != cell,
            decreases self.bombs.len() - i,
        {
            if self.bombs[i].position.to_grid() == cell {
                return true;
            }
            i = i + 1;
        }
        false
    }

    /// What `cell` counts as: empty, a destructible wall or a permanent wall.
    pub fn classify(&self, cell: GridCell) -> (category: TileCategory)
        ensures
            category == category_at(self@.tiles, cell),
    {
        classify(&self.tiles, cell)
    }

    /// Whether `cell` is closed to movement.
    pub fn is_blocked(&self, cell: GridCell) -> (blocked: bool)
        ensures
            blocked == self@.blocked(cell),
    {
        match self.classify(cell) {
            TileCategory::Empty => self.bomb_at(cell),
            _ => true,
        }
    }

    /// An actor enters the round at `position`, at rest and with no bomb out. The id must
    /// be free: the result tells whether it was, and so whether the actor entered.
    pub fn spawn_player(&mut self, id: u64, position: WorldPos, bounds: CollisionBounds) -> (entered:
        bool)
        requires
            old(self)@.wf(),
        ensures
            entered == old(self)@.id_free(id),
            final(self)@ == old(self)@.entered(id, position, bounds),
            final(self)@.wf(),
    {
        if self.find_player(id).is_some() {
            return false;
        }
        if count_owned(&self.bombs, id) != 0 {
            return false;
        }
        let player = Player {
            id,
            position,
            velocity: Velocity { x: 0, y: 0 },
            bounds,
            bombs: CountBombs(0),
        };
        self.players.push(player);
        proof {
            let before = old(self)@.players;
            let after = self@.players;
            assert forall|i: int, j: int| 0 <= i < j < after.len() implies (#[trigger] after[i]).id
                != (#[trigger] after[j]).id by {
                if j == before.len() {
                    assert(before[i].id != id);
                } else {
                    assert(before[i].id != before[j].id);
                }
            }
            assert forall|i: int| 0 <= i < after.len() implies counts_bombs(
                #[trigger] after[i],
                self@.bombs,
            ) by {
                if i < before.len() {
                    assert(counts_bombs(before[i], self@.bombs));
                }
            }
        }
        true
    }

    /// A tile is added to the level.
    pub fn insert_tile(&mut self, tile: Tile)
        ensures
            final(self)@ == (WorldState { tiles: old(self)@.tiles.push(tile), ..old(self)@ }),
    {
        self.tiles.push(tile);
    }

    /// Destroy the tile at `cell`: a destructible tile there is removed for the rest of
    /// the round. Where none stands, nothing changes.
    pub fn destroy_tile(&mut self, cell: GridCell)
        ensures
            final(self)@ == (WorldState {
                tiles: without_tile(old(self)@.tiles, cell),
                ..old(self)@
            }),
    {
        destroy_tile(&mut self.tiles, cell);
    }

    /// The actor `id` is given the velocity that its input asks for over this tick. The
    /// result tells whether there is such an actor.
    pub fn set_velocity(&mut self, id: u64, velocity: Velocity) -> (found: bool)
        requires
            old(self)@.wf(),
        ensures
            found == has_player(old(self)@.players, id),
            final(self)@ == old(self)@.steered(id, velocity),
            final(self)@.wf(),
    {
        match self.find_player(id) {
            None => false,
            Some(i) => {
                let mut player = self.players[i];
                player.velocity = velocity;
                self.players.set(i, player);
                proof {
                    let before = old(self)@.players;
                    let after = self@.players;
                    assert(after == before.update(i as int, before[i as int].with_velocity(velocity)));
                    assert forall|a: int, b: int| 0 <= a < b < after.len() implies (
                    #[trigger] after[a]).id != (#[trigger] after[b]).id by {
                        assert(before[a].id != before[b].id);
                    }
                    assert forall|a: int| 0 <= a < after.len() implies counts_bombs(
                        #[trigger] after[a],
                        self@.bombs,
                    ) by {
                        assert(counts_bombs(before[a], self@.bombs));
                    }
                }
                true
            },
        }
    }

    /// The actors still in the round.
    pub fn players(&self) -> (players: &Vec<Player>)
        ensures
            players@ == self@.players,
    {
        &self.players
    }

    /// The bombs that have not exploded.
    pub fn bombs(&self) -> (bombs: &Vec<Bomb>)
        ensures
            bombs@ == self@.bombs,
    {
        &self.bombs
    }

    /// The tiles of the level that still stand.
    pub fn tiles(&self) -> (tiles: &Vec<Tile>)
        ensures
            tiles@ == self@.tiles,
    {
        &self.tiles
    }

    /// The marks of blasts that have not faded.
    pub fn explosions(&self) -> (explosions: &Vec<Explosion>)
        ensures
            explosions@ == self@.explosions,
    {
        &self.explosions
    }

    /// Take the sound cues emitted since they were last taken, oldest first.
    pub fn drain_sfx(&mut self) -> (cues: Vec<PlaySfx>)
        ensures
            cues@ == old(self)@.sfx,
            final(self)@ == (WorldState { sfx: Seq::empty(), ..old(self)@ }),
    {
        let mut cues: Vec<PlaySfx> = Vec::new();
        std::mem::swap(&mut cues, &mut self.sfx);
        cues
    }

    /// Take the camera trauma emitted since it was last taken, oldest first.
    pub fn drain_trauma(&mut self) -> (trauma: Vec<CameraTrauma>)
        ensures
            trauma@ == old(self)@.trauma,
            final(self)@ == (WorldState { trauma: Seq::empty(), ..old(self)@ }),
    {
        let mut trauma: Vec<CameraTrauma> = Vec::new();
        std::mem::swap(&mut trauma, &mut self.trauma);
        trauma
    }
}

} // verus!
