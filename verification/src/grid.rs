//! Conversion between world positions and cells of the tile grid.

use vstd::prelude::*;

verus! {

/// Edge length of one tile, in world units.
pub const TILE_SIZE_PX: i64 = 32;

/// A cell of the tile grid.
#[derive(Clone, Copy, Debug, PartialEq, Eq, Structural)]
pub struct GridCell {
    pub x: i32,
    pub y: i32,
}

/// A position in the world, in whole world units.
#[derive(Clone, Copy, Debug, PartialEq, Eq, Structural)]
pub struct WorldPos {
    pub x: i64,
    pub y: i64,
}

/// The cell coordinate that holds world coordinate `p`: `p` divided by the tile size and
/// rounded down, held to the range of the cell coordinates.
pub open spec fn cell_coord(p: int) -> int {
    let q = p / (TILE_SIZE_PX as int);
    if q < i32::MIN {
        i32::MIN as int
    } else if q > i32::MAX {
        i32::MAX as int
    } else {
        q
    }
}

/// The world coordinate of the centre of cell coordinate `c`.
pub open spec fn centre_coord(c: int) -> int {
    c * TILE_SIZE_PX + TILE_SIZE_PX / 2
}

/// The cell that holds the point `(x, y)`.
pub open spec fn cell_at(x: int, y: int) -> GridCell {
    GridCell { x: cell_coord(x) as i32, y: cell_coord(y) as i32 }
}

/// The cell that holds `p`.
pub open spec fn cell_of(p: WorldPos) -> GridCell {
    cell_at(p.x as int, p.y as int)
}

/// The centre of cell `c`.
pub open spec fn centre_of(c: GridCell) -> WorldPos {
    WorldPos { x: centre_coord(c.x as int) as i64, y: centre_coord(c.y as int) as i64 }
}

/// `p` moved to the centre of its cell.
pub open spec fn snapped(p: WorldPos) -> WorldPos {
    centre_of(cell_of(p))
}

/// Cell coordinate of a world coordinate given with room to spare, so that sums of
/// positions, displacements and offsets can be converted without overflow.
pub fn grid_coord(p: i128) -> (c: i32)
    ensures
        c == cell_coord(p as int),
{
    let tile = TILE_SIZE_PX as i128;
    // Division rounds toward zero, so a coordinate below zero is mirrored first.
    let q: i128 = if p >= 0 {
        p / tile
    } else {
        -((-(p + 1)) / tile) - 1
    };
    if q < i32::MIN as i128 {
        i32::MIN
    } else if q > i32::MAX as i128 {
        i32::MAX
    } else {
        q as i32
    }
}

/// Conversion of a grid cell into the world position of its centre.
pub trait ToWorld {
    /// The world position that `to_world` returns.
    spec fn world_pos(&self) -> WorldPos;

    /// Convert grid coordinates into world coordinates.
    fn to_world(&self) -> (w: WorldPos)
        ensures
            w == self.world_pos(),
    ;
}

impl ToWorld for GridCell {
    open spec fn world_pos(&self) -> WorldPos {
        centre_of(*self)
    }

    fn to_world(&self) -> (w: WorldPos) {
        WorldPos {
            x: self.x as i64 * TILE_SIZE_PX + TILE_SIZE_PX / 2,
            y: self.y as i64 * TILE_SIZE_PX + TILE_SIZE_PX / 2,
        }
    }
}

/// Conversion of a world position into the grid cell that holds it.
pub trait ToGrid {
    /// The cell that `to_grid` returns.
    spec fn grid_cell(&self) -> GridCell;

    /// Convert world coordinates into grid coordinates.
    fn to_grid(&self) -> (c: GridCell)
        ensures
            c == self.grid_cell(),
    ;
}

impl ToGrid for WorldPos {
    open spec fn grid_cell(&self) -> GridCell {
        cell_of(*self)
    }

    fn to_grid(&self) -> (c: GridCell) {
        GridCell { x: grid_coord(self.x as i128), y: grid_coord(self.y as i128) }
    }
}

/// Snapping to the grid: the world position at the centre of the cell that holds a value.
pub trait GridNormalise {
    /// The world position that `grid_normalised` returns.
    spec fn normalised(&self) -> WorldPos;

    /// The equivalent world coordinate centred on its grid cell.
    fn grid_normalised(&self) -> (w: WorldPos)
        ensures
            w == self.normalised(),
    ;
}

impl<T: ToGrid> GridNormalise for T {
    open spec fn normalised(&self) -> WorldPos {
        centre_of(self.grid_cell())
    }

    fn grid_normalised(&self) -> (w: WorldPos) {
        self.to_grid().to_world()
    }
}

/// The cell that holds the point `(x, y)`, each coordinate given with room to spare.
pub fn cell_at_point(x: i128, y: i128) -> (c: GridCell)
    ensures
        c == cell_at(x as int, y as int),
{
    GridCell { x: grid_coord(x), y: grid_coord(y) }
}

/// A cell's centre lies in that cell: converting a cell to the world and back gives the
/// cell again.
pub proof fn lemma_grid_round_trip(c: GridCell)
    ensures
        cell_of(centre_of(c)) == c,
        centre_of(c).grid_cell() == c,
{
}

/// Snapping is idempotent: a snapped position snaps to itself.
pub proof fn lemma_snap_idempotent(p: WorldPos)
    ensures
        snapped(snapped(p)) == snapped(p),
        cell_of(snapped(p)) == cell_of(p),
        p.normalised().normalised() == p.normalised(),
{
    lemma_grid_round_trip(cell_of(p));
}

/// Within the range of the cell coordinates, a position lies in its cell: at most one
/// tile away from the cell's low edge.
pub proof fn lemma_cell_holds_position(p: int)
    requires
        i32::MIN * TILE_SIZE_PX <= p < (i32::MAX + 1) * TILE_SIZE_PX,
    ensures
        cell_coord(p) * TILE_SIZE_PX <= p < (cell_coord(p) + 1) * TILE_SIZE_PX,
{
}

} // verus!
