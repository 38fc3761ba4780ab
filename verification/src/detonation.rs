//! What a blast does: the bomb goes, its owner gets the bomb back, destructible walls in
//! reach fall, actors in reach are out, and the blast is heard and felt.

use vstd::prelude::*;
use crate::blast::{affected_cells, blast_cells, in_blast, reaches};
use crate::bomb::{
    lemma_owned_remove, owned_by, Bomb, CameraTrauma, Explosion, PlaySfx, BOMB_TRAUMA,
    EXPLOSION_TIMER_NANOS,
};
use crate::grid::{cell_of, centre_of, GridCell, ToGrid, ToWorld};
use crate::player::{has_player, index_of_player, lemma_index_of_player, Player};
use crate::seq_facts::{lemma_filter_keeps, lemma_filter_order, lemma_filter_source};
use crate::tiles::{category_at, classify, Tile, TileCategory};
use crate::timer::Timer;
use crate::world::{counts_bombs, sound_bomb, World, WorldState};

verus! {

/// `player` after a bomb of `owner` went off: the owner counts one bomb less.
pub open spec fn released(player: Player, owner: u64) -> Player {
    if player.id == owner {
        player.with_count((player.bombs.0 - 1) as u8)
    } else {
        player
    }
}

/// The test whether an actor stands clear of a blast in `centre`.
pub open spec fn spared(centre: GridCell) -> spec_fn(Player) -> bool {
    |p: Player| !in_blast(centre, p.cell())
}

/// The test whether an actor stands in reach of a blast in `centre`.
pub open spec fn caught(centre: GridCell) -> spec_fn(Player) -> bool {
    |p: Player| in_blast(centre, p.cell())
}

/// The actors that a blast in `centre` leaves in the round, the owner of the bomb with
/// one bomb less to its count.
pub open spec fn survivors(players: Seq<Player>, owner: u64, centre: GridCell) -> Seq<Player> {
    players.map_values(|p: Player| released(p, owner)).filter(spared(centre))
}

/// The number of actors that a blast in `centre` takes out of the round.
pub open spec fn casualties(players: Seq<Player>, centre: GridCell) -> nat {
    players.filter(caught(centre)).len()
}

/// Whether a blast in `centre` destroys `tile` among `tiles`: the tile is destructible,
/// lies in reach, and its cell holds no permanent wall.
pub open spec fn falls(tiles: Seq<Tile>, centre: GridCell, tile: Tile) -> bool {
    &&& tile.category == TileCategory::Destructible
    &&& in_blast(centre, tile.cell)
    &&& category_at(tiles, tile.cell) == TileCategory::Destructible
}

/// The test whether `tile` stands after a blast in `centre`.
pub open spec fn stands(tiles: Seq<Tile>, centre: GridCell) -> spec_fn(Tile) -> bool {
    |t: Tile| !falls(tiles, centre, t)
}

/// The test whether a cell counts as destructible among `tiles`.
pub open spec fn destructible_in(tiles: Seq<Tile>) -> spec_fn(GridCell) -> bool {
    |c: GridCell| category_at(tiles, c) == TileCategory::Destructible
}

/// The cells that a blast in `centre` clears: those in reach that count as destructible,
/// in the order in which the blast visits them.
pub open spec fn cleared_cells(tiles: Seq<Tile>, centre: GridCell) -> Seq<GridCell> {
    blast_cells(centre).filter(destructible_in(tiles))
}

/// The marks that a blast in `centre` leaves: one at the centre of each cell it clears.
pub open spec fn marks(tiles: Seq<Tile>, centre: GridCell) -> Seq<Explosion> {
    cleared_cells(tiles, centre).map_values(|c: GridCell| Explosion::at(centre_of(c)))
}

/// The cues of a blast that takes `deaths` actors out: one death for each, then the
/// explosion, once.
pub open spec fn blast_cues(deaths: nat) -> Seq<PlaySfx> {
    Seq::new(deaths, |k: int| PlaySfx::PlayerDeath).push(PlaySfx::BombExplosion)
}

impl WorldState {
    /// The world after bomb `i` went off.
    ///
    /// The bomb is gone. Its owner, if still in the round, counts one bomb less. Every
    /// destructible tile in reach falls, unless a permanent wall stands in its cell, and
    /// leaves a mark. Every actor in reach is out, and is heard to die. The explosion is
    /// heard once and shakes the camera once, whatever it hit.
    pub open spec fn detonated(self, i: int) -> WorldState {
        let bomb = self.bombs[i];
        let centre = cell_of(bomb.position);
        WorldState {
            players: survivors(self.players, bomb.spawner, centre),
            bombs: self.bombs.remove(i),
            tiles: self.tiles.filter(stands(self.tiles, centre)),
            explosions: self.explosions + marks(self.tiles, centre),
            sfx: self.sfx + blast_cues(casualties(self.players, centre)),
            trauma: self.trauma.push(CameraTrauma(BOMB_TRAUMA)),
        }
    }

    /// No mark of a blast has faded.
    pub open spec fn marks_show(self) -> bool {
        forall|i: int|
            0 <= i < self.explosions.len() ==> !(#[trigger] self.explosions[i]).timer.finished
    }
}

/// A blast keeps the books in order: ids stay distinct, every actor left counts its live
/// bombs, the bombs left lie in distinct cells as before, and the marks added are fresh.
pub proof fn lemma_detonated_coherent(w: WorldState, i: int)
    requires
        w.coherent(),
        0 <= i < w.bombs.len(),
    ensures
        w.detonated(i).coherent(),
        w.detonated(i).bombs.len() == w.bombs.len() - 1,
        forall|k: int| 0 <= k < i ==> w.detonated(i).bombs[k] == w.bombs[k],
        forall|k: int| i <= k < w.bombs.len() - 1 ==> w.detonated(i).bombs[k] == w.bombs[k + 1],
        w.marks_show() ==> w.detonated(i).marks_show(),
{
    let after = w.detonated(i);
    let bomb = w.bombs[i];
    let owner = bomb.spawner;
    let centre = cell_of(bomb.position);
    let eased = w.players.map_values(|p: Player| released(p, owner));
    assert(after.players == eased.filter(spared(centre)));
    assert forall|a: int, b: int| 0 <= a < b < after.players.len() implies (
    #[trigger] after.players[a]).id != (#[trigger] after.players[b]).id by {
        let ij = lemma_filter_order(eased, spared(centre), a, b);
        assert(w.players[ij.0].id != w.players[ij.1].id);
    }
    assert forall|a: int| 0 <= a < after.players.len() implies counts_bombs(
        #[trigger] after.players[a],
        after.bombs,
    ) by {
        let j = lemma_filter_source(eased, spared(centre), a);
        assert(counts_bombs(w.players[j], w.bombs));
        lemma_owned_remove(w.bombs, i, w.players[j].id);
    }
    assert forall|a: int, b: int| 0 <= a < b < after.bombs.len() implies cell_of(
        (#[trigger] after.bombs[a]).position,
    ) != cell_of((#[trigger] after.bombs[b]).position) by {
        let a0 = if a < i { a } else { a + 1 };
        let b0 = if b < i { b } else { b + 1 };
        assert(after.bombs[a] == w.bombs[a0]);
        assert(after.bombs[b] == w.bombs[b0]);
        assert(cell_of(w.bombs[a0].position) != cell_of(w.bombs[b0].position));
    }
    assert forall|a: int| 0 <= a < after.bombs.len() implies sound_bomb(
        #[trigger] after.bombs[a],
    ) by {
        let a0 = if a < i { a } else { a + 1 };
        assert(after.bombs[a] == w.bombs[a0]);
        assert(sound_bomb(w.bombs[a0]));
    }
    assert forall|a: int| 0 <= a < after.explosions.len() implies (
    #[trigger] after.explosions[a]).timer.wf() && (w.marks_show()
        ==> !after.explosions[a].timer.finished) by {
        if a < w.explosions.len() {
            assert(after.explosions[a] == w.explosions[a]);
            assert(w.explosions[a].timer.wf());
        }
    }
}

/// Bookkeeping: when a bomb goes off, its owner counts exactly one bomb less, if the
/// blast leaves the owner in the round; every other actor left counts what it counted
/// before; and the actors that stood in reach are out.
pub proof fn lemma_detonation_releases(w: WorldState, i: int, j: int)
    requires
        w.coherent(),
        0 <= i < w.bombs.len(),
        0 <= j < w.players.len(),
    ensures
        in_blast(cell_of(w.bombs[i].position), w.players[j].cell()) ==> !has_player(
            w.detonated(i).players,
            w.players[j].id,
        ),
        !in_blast(cell_of(w.bombs[i].position), w.players[j].cell()) ==> {
            let after = w.detonated(i).players;
            let left = after[index_of_player(after, w.players[j].id)];
            &&& has_player(after, w.players[j].id)
            &&& left == released(w.players[j], w.bombs[i].spawner)
            &&& w.players[j].id == w.bombs[i].spawner ==> left.bombs.0 == w.players[j].bombs.0 - 1
            &&& w.players[j].id != w.bombs[i].spawner ==> left == w.players[j]
        },
{
    let after = w.detonated(i).players;
    let owner = w.bombs[i].spawner;
    let centre = cell_of(w.bombs[i].position);
    let eased = w.players.map_values(|p: Player| released(p, owner));
    let id = w.players[j].id;
    lemma_detonated_coherent(w, i);
    assert(after == eased.filter(spared(centre)));
    if in_blast(centre, w.players[j].cell()) {
        if has_player(after, id) {
            let a = index_of_player(after, id);
            let k = lemma_filter_source(eased, spared(centre), a);
            assert(w.players[k].id == id);
            if k < j {
                assert(w.players[k].id != w.players[j].id);
            } else if j < k {
                assert(w.players[j].id != w.players[k].id);
            }
        }
    } else {
        assert(spared(centre)(eased[j]));
        let a = lemma_filter_keeps(eased, spared(centre), j);
        assert(after[a].id == id);
        lemma_index_of_player(after, a);
        assert(counts_bombs(w.players[j], w.bombs));
        lemma_owned_remove(w.bombs, i, id);
    }
}

/// Selectivity: a blast fells the destructible tiles in reach whose cell holds no
/// permanent wall, and no other tile. What stands after is what stood before, less
/// those, in the same order.
pub proof fn lemma_blast_is_selective(w: WorldState, i: int, tile: Tile)
    requires
        0 <= i < w.bombs.len(),
    ensures
        w.detonated(i).tiles.contains(tile) <==> (w.tiles.contains(tile) && !falls(
            w.tiles,
            cell_of(w.bombs[i].position),
            tile,
        )),
        tile.category != TileCategory::Destructible && w.tiles.contains(tile)
            ==> w.detonated(i).tiles.contains(tile),
        !in_blast(cell_of(w.bombs[i].position), tile.cell) && w.tiles.contains(tile)
            ==> w.detonated(i).tiles.contains(tile),
{
    let centre = cell_of(w.bombs[i].position);
    let keep = stands(w.tiles, centre);
    let left = w.tiles.filter(keep);
    if left.contains(tile) {
        let a = choose|a: int| 0 <= a < left.len() && left[a] == tile;
        let k = lemma_filter_source(w.tiles, keep, a);
    }
    if w.tiles.contains(tile) && !falls(w.tiles, centre, tile) {
        let k = choose|k: int| 0 <= k < w.tiles.len() && w.tiles[k] == tile;
        assert(keep(w.tiles[k]));
        let a = lemma_filter_keeps(w.tiles, keep, k);
    }
}

/// The actors that a blast in `centre` leaves in the round, and the number it takes out.
fn clear_players(players: &Vec<Player>, owner: u64, centre: GridCell, Ghost(bombs): Ghost<
    Seq<Bomb>,
>) -> (r: (Vec<Player>, usize))
    requires
        forall|j: int| 0 <= j < players.len() ==> counts_bombs(#[trigger] players@[j], bombs),
        owned_by(bombs, owner) >= 1,
    ensures
        r.0@ == survivors(players@, owner, centre),
        r.1 == casualties(players@, centre),
{
    let mut left: Vec<Player> = Vec::new();
    let mut deaths: usize = 0;
    let mut k: usize = 0;
    assert(players@.take(0).map_values(|p: Player| released(p, owner)) =~= Seq::empty());
    reveal_with_fuel(Seq::filter, 1);
    while k < players.len()
        invariant
            k <= players.len(),
            deaths <= k,
            forall|j: int| 0 <= j < players.len() ==> counts_bombs(#[trigger] players@[j], bombs),
            owned_by(bombs, owner) >= 1,
            left@ == survivors(players@.take(k as int), owner, centre),
            deaths == casualties(players@.take(k as int), centre),
        decreases players.len() - k,
    {
        let mut player = players[k];
        proof {
            let seen = players@.take(k as int);
            let eased = seen.map_values(|p: Player| released(p, owner));
            assert(counts_bombs(players@[k as int], bombs));
            assert(players@.take(k + 1) == seen.push(player));
            assert(seen.push(player).map_values(|p: Player| released(p, owner)) =~= eased.push(
                released(player, owner),
            ));
            eased.lemma_filter_push(released(player, owner), spared(centre));
            seen.lemma_filter_push(player, caught(centre));
        }
        if player.id == owner {
            player.bombs.decrement();
        }
        if reaches(centre, player.position.to_grid()) {
            deaths = deaths + 1;
        } else {
            left.push(player);
        }
        k = k + 1;
    }
    assert(players@.take(players.len() as int) == players@);
    (left, deaths)
}

/// The tiles that stand after a blast in `centre`.
fn clear_tiles(tiles: &Vec<Tile>, centre: GridCell) -> (left: Vec<Tile>)
    ensures
        left@ == tiles@.filter(stands(tiles@, centre)),
{
    let mut left: Vec<Tile> = Vec::new();
    let mut k: usize = 0;
    reveal_with_fuel(Seq::filter, 1);
    while k < tiles.len()
        invariant
            k <= tiles.len(),
            left@ == tiles@.take(k as int).filter(stands(tiles@, centre)),
        decreases tiles.len() - k,
    {
        let tile = tiles[k];
        proof {
            assert(tiles@.take(k + 1) == tiles@.take(k as int).push(tile));
            tiles@.take(k as int).lemma_filter_push(tile, stands(tiles@, centre));
        }
        let falls = match tile.category {
            TileCategory::Destructible => reaches(centre, tile.cell) && match classify(
                tiles,
                tile.cell,
            ) {
                TileCategory::Destructible => true,
                _ => false,
            },
            _ => false,
        };
        if !falls {
            left.push(tile);
        }
        k = k + 1;
    }
    assert(tiles@.take(tiles.len() as int) == tiles@);
    left
}

/// The marks of a blast in `centre`, added to `explosions`.
fn leave_marks(explosions: &mut Vec<Explosion>, tiles: &Vec<Tile>, centre: GridCell)
    ensures
        final(explosions)@ == old(explosions)@ + marks(tiles@, centre),
{
    let cells = affected_cells(centre);
    let mut k: usize = 0;
    reveal_with_fuel(Seq::filter, 1);
    assert(cells@.take(0).filter(destructible_in(tiles@)).map_values(
        |c: GridCell| Explosion::at(centre_of(c)),
    ) =~= Seq::empty());
    assert(explosions@ + Seq::<Explosion>::empty() =~= explosions@);
    while k < cells.len()
        invariant
            k <= cells.len(),
            cells@ == blast_cells(centre),
            explosions@ == old(explosions)@ + cells@.take(k as int).filter(
                destructible_in(tiles@),
            ).map_values(|c: GridCell| Explosion::at(centre_of(c))),
        decreases cells.len() - k,
    {
        let cell = cells[k];
        proof {
            let seen = cells@.take(k as int);
            let cleared = seen.filter(destructible_in(tiles@));
            assert(cells@.take(k + 1) == seen.push(cell));
            seen.lemma_filter_push(cell, destructible_in(tiles@));
            assert(cleared.push(cell).map_values(|c: GridCell| Explosion::at(centre_of(c)))
                =~= cleared.map_values(|c: GridCell| Explosion::at(centre_of(c))).push(
                Explosion::at(centre_of(cell)),
            ));
        }
        match classify(tiles, cell) {
            TileCategory::Destructible => {
                explosions.push(
                    Explosion { position: cell.to_world(), timer: Timer::new(EXPLOSION_TIMER_NANOS) },
                );
            },
            _ => {},
        }
        k = k + 1;
    }
    assert(cells@.take(cells.len() as int) == cells@);
}

/// The cues of a blast that takes `deaths` actors out, added to `sfx`.
fn sound_blast(sfx: &mut Vec<PlaySfx>, deaths: usize)
    ensures
        final(sfx)@ == old(sfx)@ + blast_cues(deaths as nat),
{
    let mut k: usize = 0;
    assert(sfx@ + Seq::new(0nat, |k: int| PlaySfx::PlayerDeath) =~= sfx@);
    while k < deaths
        invariant
            k <= deaths,
            sfx@ == old(sfx)@ + Seq::new(k as nat, |k: int| PlaySfx::PlayerDeath),
        decreases deaths - k,
    {
        sfx.push(PlaySfx::PlayerDeath);
        k = k + 1;
        assert(sfx@ =~= old(sfx)@ + Seq::new(k as nat, |k: int| PlaySfx::PlayerDeath));
    }
    sfx.push(PlaySfx::BombExplosion);
    assert(sfx@ =~= old(sfx)@ + blast_cues(deaths as nat));
}

/// A bomb that lies among the bombs is counted for its spawner.
proof fn lemma_owned_at_least_one(bombs: Seq<Bomb>, i: int)
    requires
        0 <= i < bombs.len(),
    ensures
        owned_by(bombs, bombs[i].spawner) >= 1,
{
    lemma_owned_remove(bombs, i, bombs[i].spawner);
}

impl World {
    /// Bomb `index` goes off: see `WorldState::detonated`.
    pub fn detonate(&mut self, index: usize)
        requires
            old(self)@.coherent(),
            index < old(self)@.bombs.len(),
        ensures
            final(self)@ == old(self)@.detonated(index as int),
            final(self)@.coherent(),
            old(self)@.marks_show() ==> final(self)@.marks_show(),
    {
        proof {
            lemma_detonated_coherent(self@, index as int);
            lemma_owned_at_least_one(self@.bombs, index as int);
        }
        let bomb = self.bombs[index];
        let centre = bomb.position.to_grid();
        let (left, deaths) = clear_players(&self.players, bomb.spawner, centre, Ghost(self.bombs@));
        let standing = clear_tiles(&self.tiles, centre);
        leave_marks(&mut self.explosions, &self.tiles, centre);
        sound_blast(&mut self.sfx, deaths);
        let _ = self.bombs.remove(index);
        self.players = left;
        self.tiles = standing;
        self.trauma.push(CameraTrauma(BOMB_TRAUMA));
    }
}

} // verus!
