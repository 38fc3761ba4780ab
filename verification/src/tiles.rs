//! The tiles of a level, and what each cell of the grid counts as.

use vstd::prelude::*;
use crate::grid::GridCell;
use crate::seq_facts::{lemma_filter_idempotent, lemma_filter_keeps, lemma_filter_source};

verus! {

/// What a cell of the level counts as.
#[derive(Clone, Copy, Debug, PartialEq, Eq, Structural)]
pub enum TileCategory {
    /// Nothing stands in the cell.
    Empty,
    /// A wall that a blast removes.
    Destructible,
    /// A wall that nothing removes.
    Permanent,
}

/// One tile of the level.
#[derive(Clone, Copy, Debug, PartialEq, Eq, Structural)]
pub struct Tile {
    pub cell: GridCell,
    pub category: TileCategory,
}

/// The category of the tiles of the layer called `identifier`: the maze layer holds the
/// permanent walls, the bombable layer the destructible ones, and tiles of any other layer
/// stand for nothing.
pub open spec fn layer_category(identifier: Seq<char>) -> TileCategory {
    if identifier == "Maze"@ {
        TileCategory::Permanent
    } else if identifier == "Bombable"@ {
        TileCategory::Destructible
    } else {
        TileCategory::Empty
    }
}

/// The category of a tile whose layer may be unknown. A tile without a layer counts as
/// empty, so that a level with a misplaced tile stays playable.
pub open spec fn tile_category(layer: Option<Seq<char>>) -> TileCategory {
    match layer {
        Some(identifier) => layer_category(identifier),
        None => TileCategory::Empty,
    }
}

/// What `cell` counts as among `tiles`: permanent where a permanent tile stands, else
/// destructible where a destructible tile stands, else empty.
pub open spec fn category_at(tiles: Seq<Tile>, cell: GridCell) -> TileCategory {
    if tiles.contains(Tile { cell, category: TileCategory::Permanent }) {
        TileCategory::Permanent
    } else if tiles.contains(Tile { cell, category: TileCategory::Destructible }) {
        TileCategory::Destructible
    } else {
        TileCategory::Empty
    }
}

/// The test whether a tile is left when the tile at `cell` is destroyed: every tile is,
/// but the destructible tiles in that cell.
pub open spec fn left_at(cell: GridCell) -> spec_fn(Tile) -> bool {
    |t: Tile| !(t.cell == cell && t.category == TileCategory::Destructible)
}

/// `tiles` without the destructible tiles at `cell`.
pub open spec fn without_tile(tiles: Seq<Tile>, cell: GridCell) -> Seq<Tile> {
    tiles.filter(left_at(cell))
}

/// The category of the tiles of a layer, by the layer's identifier; `None` for a tile that
/// belongs to no layer. The second part of the result tells that the tile could not be
/// classified, which is worth a warning.
pub fn classify_layer(layer: Option<&str>) -> (r: (TileCategory, bool))
    ensures
        r.0 == tile_category(
            match layer {
                Some(identifier) => Some(identifier@),
                None => None,
            },
        ),
        r.1 == (layer is None),
{
    match layer {
        None => (TileCategory::Empty, true),
        Some(identifier) => {
            let name = identifier.to_owned();
            let maze = "Maze".to_owned();
            let bombable = "Bombable".to_owned();
            if name == maze {
                (TileCategory::Permanent, false)
            } else if name == bombable {
                (TileCategory::Destructible, false)
            } else {
                (TileCategory::Empty, false)
            }
        },
    }
}

/// What `cell` counts as among `tiles`.
pub fn classify(tiles: &Vec<Tile>, cell: GridCell) -> (category: TileCategory)
    ensures
        category == category_at(tiles@, cell),
{
    let mut destructible = false;
    let mut i: usize = 0;
    while i < tiles.len()
        invariant
            i <= tiles.len(),
            !tiles@.take(i as int).contains(Tile { cell, category: TileCategory::Permanent }),
            destructible == tiles@.take(i as int).contains(
                Tile { cell, category: TileCategory::Destructible },
            ),
        decreases tiles.len() - i,
    {
        let tile = tiles[i];
        proof {
            let before = tiles@.take(i as int);
            let after = tiles@.take(i + 1);
            assert(after == before.push(tile));
            assert(after[i as int] == tile);
            assert forall|t: Tile| after.contains(t) <==> (before.contains(t) || t == tile) by {
                if before.contains(t) {
                    let k = choose|k: int| 0 <= k < before.len() && before[k] == t;
                    assert(after[k] == t);
                }
            }
        }
        if tile.cell == cell {
            match tile.category {
                TileCategory::Permanent => {
                    proof {
                        assert(tiles@[i as int] == Tile { cell, category: TileCategory::Permanent });
                    }
                    return TileCategory::Permanent;
                },
                TileCategory::Destructible => {
                    destructible = true;
                },
                TileCategory::Empty => {},
            }
        }
        i = i + 1;
    }
    assert(tiles@.take(tiles.len() as int) == tiles@);
    if destructible {
        TileCategory::Destructible
    } else {
        TileCategory::Empty
    }
}

/// Destroy the tile at `cell`: the destructible tiles in that cell are removed, and all
/// other tiles stay as they are. Where no such tile stands, nothing changes.
pub fn destroy_tile(tiles: &mut Vec<Tile>, cell: GridCell)
    ensures
        final(tiles)@ == without_tile(old(tiles)@, cell),
{
    let mut left: Vec<Tile> = Vec::new();
    let mut k: usize = 0;
    reveal_with_fuel(Seq::filter, 1);
    while k < tiles.len()
        invariant
            k <= tiles.len(),
            *tiles == *old(tiles),
            left@ == tiles@.take(k as int).filter(left_at(cell)),
        decreases tiles.len() - k,
    {
        let tile = tiles[k];
        proof {
            assert(tiles@.take(k + 1) == tiles@.take(k as int).push(tile));
            tiles@.take(k as int).lemma_filter_push(tile, left_at(cell));
        }
        let gone = tile.cell == cell && match tile.category {
            TileCategory::Destructible => true,
            _ => false,
        };
        if !gone {
            left.push(tile);
        }
        k = k + 1;
    }
    assert(tiles@.take(tiles.len() as int) == tiles@);
    *tiles = left;
}

/// Destroying a tile is idempotent, and it changes what its own cell counts as only: a
/// destructible cell becomes empty, and every other cell counts as before.
pub proof fn lemma_destroy_tile(tiles: Seq<Tile>, cell: GridCell, other: GridCell)
    ensures
        without_tile(without_tile(tiles, cell), cell) == without_tile(tiles, cell),
        category_at(tiles, cell) != TileCategory::Destructible ==> category_at(
            without_tile(tiles, cell),
            cell,
        ) == category_at(tiles, cell),
        category_at(tiles, cell) == TileCategory::Destructible ==> category_at(
            without_tile(tiles, cell),
            cell,
        ) == TileCategory::Empty,
        other != cell ==> category_at(without_tile(tiles, cell), other) == category_at(
            tiles,
            other,
        ),
{
    lemma_filter_idempotent(tiles, left_at(cell));
    let left = without_tile(tiles, cell);
    assert forall|tile: Tile| left.contains(tile) <==> (tiles.contains(tile) && left_at(cell)(
        tile,
    )) by {
        if left.contains(tile) {
            let a = choose|a: int| 0 <= a < left.len() && left[a] == tile;
            let k = lemma_filter_source(tiles, left_at(cell), a);
        }
        if tiles.contains(tile) && left_at(cell)(tile) {
            let k = choose|k: int| 0 <= k < tiles.len() && tiles[k] == tile;
            let a = lemma_filter_keeps(tiles, left_at(cell), k);
        }
    }
    assert(left_at(cell)(Tile { cell, category: TileCategory::Permanent }));
    assert(!left_at(cell)(Tile { cell, category: TileCategory::Destructible }));
    assert(left_at(cell)(Tile { cell: other, category: TileCategory::Permanent }));
    assert(other != cell ==> left_at(cell)(Tile { cell: other, category: TileCategory::Destructible }));
}

} // verus!
