//! The shape of a blast: the cell of the bomb and its four orthogonal neighbours.

use vstd::prelude::*;
use crate::grid::GridCell;

verus! {

/// Whether a bomb in `centre` reaches `cell`: the squared distance between the two is at
/// most one.
pub open spec fn in_blast(centre: GridCell, cell: GridCell) -> bool {
    let dx = cell.x - centre.x;
    let dy = cell.y - centre.y;
    dx * dx + dy * dy <= 1
}

/// The cell `(x, y)` if both coordinates are cell coordinates, else nothing.
pub open spec fn cell_if_on_grid(x: int, y: int) -> Seq<GridCell> {
    if i32::MIN <= x <= i32::MAX && i32::MIN <= y <= i32::MAX {
        seq![GridCell { x: x as i32, y: y as i32 }]
    } else {
        Seq::empty()
    }
}

/// The cells that a bomb in `centre` reaches, in the order in which a blast visits them:
/// the centre, then the neighbours to the left, right, below and above, as far as the grid
/// has them.
pub open spec fn blast_cells(centre: GridCell) -> Seq<GridCell> {
    seq![centre] + cell_if_on_grid(centre.x - 1, centre.y as int) + cell_if_on_grid(
        centre.x + 1,
        centre.y as int,
    ) + cell_if_on_grid(centre.x as int, centre.y - 1) + cell_if_on_grid(
        centre.x as int,
        centre.y + 1,
    )
}

/// A blast has the shape of a plus: it reaches the bomb's own cell and the cells one step
/// away along one axis, and no other; diagonal neighbours are out of reach.
pub proof fn lemma_blast_is_a_plus(centre: GridCell, cell: GridCell)
    ensures
        in_blast(centre, cell) <==> {
            ||| cell == centre
            ||| (cell.y == centre.y && (cell.x == centre.x - 1 || cell.x == centre.x + 1))
            ||| (cell.x == centre.x && (cell.y == centre.y - 1 || cell.y == centre.y + 1))
        },
{
    let dx = cell.x - centre.x;
    let dy = cell.y - centre.y;
    assert(dx * dx >= 0 && (dx * dx == 0 <==> dx == 0) && (dx * dx == 1 <==> (dx == 1 || dx
        == -1))) by (nonlinear_arith);
    assert(dy * dy >= 0 && (dy * dy == 0 <==> dy == 0) && (dy * dy == 1 <==> (dy == 1 || dy
        == -1))) by (nonlinear_arith);
}

/// `blast_cells` lists exactly the cells in reach, each once, and at most five.
pub proof fn lemma_blast_cells(centre: GridCell)
    ensures
        forall|cell: GridCell| blast_cells(centre).contains(cell) <==> in_blast(centre, cell),
        blast_cells(centre).no_duplicates(),
        1 <= blast_cells(centre).len() <= 5,
        blast_cells(centre)[0] == centre,
{
    let cells = blast_cells(centre);
    assert forall|cell: GridCell| cells.contains(cell) <==> in_blast(centre, cell) by {
        lemma_blast_is_a_plus(centre, cell);
        if in_blast(centre, cell) {
            lemma_in_blast_listed(centre, cell);
        }
        if cells.contains(cell) {
            let k = choose|k: int| 0 <= k < cells.len() && cells[k] == cell;
            lemma_listed_in_blast(centre, k);
        }
    }
    assert forall|i: int, j: int| 0 <= i < cells.len() && 0 <= j < cells.len() && i != j implies cells[i]
        != cells[j] by {
        lemma_listed_cell(centre, i);
        lemma_listed_cell(centre, j);
    }
}

/// The offset from the centre of each kind of entry of `blast_cells`.
spec fn offset_of(kind: int) -> (int, int) {
    if kind == 0 {
        (0, 0)
    } else if kind == 1 {
        (-1, 0)
    } else if kind == 2 {
        (1, 0)
    } else if kind == 3 {
        (0, -1)
    } else {
        (0, 1)
    }
}

/// Each entry of `blast_cells` lies at one of the five offsets, and later entries at
/// later offsets.
proof fn lemma_listed_cell(centre: GridCell, i: int) -> (kind: int)
    requires
        0 <= i < blast_cells(centre).len(),
    ensures
        0 <= kind <= 4,
        i <= kind,
        blast_cells(centre)[i].x == centre.x + offset_of(kind).0,
        blast_cells(centre)[i].y == centre.y + offset_of(kind).1,
        forall|j: int, other: int|
            i < j < blast_cells(centre).len() && 0 <= other <= 4 && blast_cells(centre)[j].x
                == centre.x + offset_of(other).0 && blast_cells(centre)[j].y == centre.y
                + offset_of(other).1 ==> kind < other,
{
    let a = seq![centre];
    let b = cell_if_on_grid(centre.x - 1, centre.y as int);
    let c = cell_if_on_grid(centre.x + 1, centre.y as int);
    let d = cell_if_on_grid(centre.x as int, centre.y - 1);
    let e = cell_if_on_grid(centre.x as int, centre.y + 1);
    assert(blast_cells(centre) == a + b + c + d + e);
    if i < 1 {
        0
    } else if i < 1 + b.len() {
        1
    } else if i < 1 + b.len() + c.len() {
        2
    } else if i < 1 + b.len() + c.len() + d.len() {
        3
    } else {
        4
    }
}

proof fn lemma_listed_in_blast(centre: GridCell, i: int)
    requires
        0 <= i < blast_cells(centre).len(),
    ensures
        in_blast(centre, blast_cells(centre)[i]),
{
    let kind = lemma_listed_cell(centre, i);
    lemma_blast_is_a_plus(centre, blast_cells(centre)[i]);
}

proof fn lemma_in_blast_listed(centre: GridCell, cell: GridCell)
    requires
        in_blast(centre, cell),
    ensures
        blast_cells(centre).contains(cell),
{
    lemma_blast_is_a_plus(centre, cell);
    let a = seq![centre];
    let b = cell_if_on_grid(centre.x - 1, centre.y as int);
    let c = cell_if_on_grid(centre.x + 1, centre.y as int);
    let d = cell_if_on_grid(centre.x as int, centre.y - 1);
    let e = cell_if_on_grid(centre.x as int, centre.y + 1);
    let cells = blast_cells(centre);
    assert(cells == a + b + c + d + e);
    if cell == centre {
        assert(cells[0] == cell);
    } else if cell.y == centre.y && cell.x == centre.x - 1 {
        assert(b[0] == cell);
        assert(cells[1] == cell);
    } else if cell.y == centre.y && cell.x == centre.x + 1 {
        assert(c[0] == cell);
        assert(cells[1 + b.len() as int] == cell);
    } else if cell.x == centre.x && cell.y == centre.y - 1 {
        assert(d[0] == cell);
        assert(cells[1 + b.len() as int + c.len() as int] == cell);
    } else {
        assert(e[0] == cell);
        assert(cells[1 + b.len() as int + c.len() as int + d.len() as int] == cell);
    }
}

/// Whether a bomb in `centre` reaches `cell`.
pub fn reaches(centre: GridCell, cell: GridCell) -> (hit: bool)
    ensures
        hit == in_blast(centre, cell),
{
    proof {
        lemma_blast_is_a_plus(centre, cell);
    }
    let dx: i64 = cell.x as i64 - centre.x as i64;
    let dy: i64 = cell.y as i64 - centre.y as i64;
    (dx == 0 && -1 <= dy && dy <= 1) || (dy == 0 && -1 <= dx && dx <= 1)
}

/// The cells that a bomb in `centre` reaches.
pub fn affected_cells(centre: GridCell) -> (cells: Vec<GridCell>)
    ensures
        cells@ == blast_cells(centre),
        forall|cell: GridCell| cells@.contains(cell) <==> in_blast(centre, cell),
        cells@.no_duplicates(),
{
    let mut cells: Vec<GridCell> = Vec::new();
    cells.push(centre);
    if centre.x > i32::MIN {
        cells.push(GridCell { x: centre.x - 1, y: centre.y });
    }
    if centre.x < i32::MAX {
        cells.push(GridCell { x: centre.x + 1, y: centre.y });
    }
    if centre.y > i32::MIN {
        cells.push(GridCell { x: centre.x, y: centre.y - 1 });
    }
    if centre.y < i32::MAX {
        cells.push(GridCell { x: centre.x, y: centre.y + 1 });
    }
    proof {
        assert(cells@ =~= blast_cells(centre));
        lemma_blast_cells(centre);
    }
    cells
}

} // verus!
