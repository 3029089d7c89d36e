//! What the launcher draws: the row of pinned applications and the rows of the grid.

use vstd::prelude::*;

use crate::launcher::pins::MAX_PINNED;
use crate::launcher::state::{Launcher, LauncherView, Selection, COLUMNS};
use crate::theme::Role;

verus! {

/// A slot of the pinned row.
#[derive(Clone, Copy, Debug, PartialEq, Eq, Structural)]
pub struct PinnedCell {
    /// The number that is drawn, counted from one.
    pub number: usize,
    /// The application in the slot.
    pub app: Option<usize>,
    /// Whether the slot is drawn as selected.
    pub selected: bool,
}

/// A cell of the grid.
#[derive(Clone, Copy, Debug, PartialEq, Eq, Structural)]
pub struct GridCell {
    /// The place in the grid, counted along the rows.
    pub place: usize,
    /// The application.
    pub app: usize,
    /// Whether the cell is drawn as selected.
    pub selected: bool,
}

/// A row of the grid: cells, and how many empty ones fill it up.
#[derive(Debug, PartialEq)]
pub struct GridRow {
    pub cells: Vec<GridCell>,
    pub padding: usize,
}

/// How a slot is drawn. An empty slot is never drawn as selected.
pub open spec fn pinned_cell(v: LauncherView, slot: int) -> PinnedCell {
    PinnedCell {
        number: (slot + 1) as usize,
        app: v.pinned[slot],
        selected: v.pinned[slot] is Some && v.selected == Selection::Pinned(slot as usize),
    }
}

/// How a place of the grid is drawn.
pub open spec fn grid_cell(v: LauncherView, place: int) -> GridCell {
    GridCell {
        place: place as usize,
        app: v.filtered[place],
        selected: v.selected == Selection::Grid(place as usize),
    }
}

/// The colours of a cell: that of its text, and that behind it where it has one.
pub open spec fn colors_of(selected: bool) -> (Role, Option<Role>) {
    if selected {
        (Role::Background, Some(Role::Accent))
    } else {
        (Role::Foreground, None)
    }
}

/// The colours of a cell: that of its text, and that behind it where it has one.
pub fn cell_colors(selected: bool) -> (r: (Role, Option<Role>))
    ensures
        r == colors_of(selected),
{
    if selected {
        (Role::Background, Some(Role::Accent))
    } else {
        (Role::Foreground, None)
    }
}

/// The number of rows of the grid.
pub open spec fn row_count(n: int) -> int {
    (n + COLUMNS - 1) / COLUMNS as int
}

/// Whether `row` is the row `k` of the grid.
pub open spec fn is_grid_row(v: LauncherView, k: int, row: GridRow) -> bool {
    let n = v.filtered.len();
    let start = k * COLUMNS;
    let count = if n - start < COLUMNS {
        n - start
    } else {
        COLUMNS as int
    };
    &&& row.cells@.len() == count
    &&& row.padding == COLUMNS - count
    &&& forall|i: int| 0 <= i < count ==> #[trigger] row.cells@[i] == grid_cell(v, start + i)
}

impl Launcher {
    /// The row of pinned applications.
    pub fn pinned_cells(&self) -> (r: Vec<PinnedCell>)
        ensures
            r@ == Seq::new(MAX_PINNED as nat, |slot: int| pinned_cell(self@, slot)),
            r@.len() == 8,
            forall|slot: int|
                0 <= slot < 8 ==> (#[trigger] r@[slot]).number == slot + 1 && r@[slot].app
                    == self@.pinned[slot] && (r@[slot].selected <==> self@.selected
                    == Selection::Pinned(slot as usize) && self@.pinned[slot] is Some),
    {
        let mut r: Vec<PinnedCell> = Vec::new();
        let mut slot: usize = 0;
        while slot < MAX_PINNED
            invariant
                slot <= MAX_PINNED,
                r@.len() == slot,
                forall|i: int| 0 <= i < slot ==> #[trigger] r@[i] == pinned_cell(self@, i),
            decreases MAX_PINNED - slot,
        {
            let app = self.pinned()[slot];
            let selected = app.is_some() && self.selected() == Selection::Pinned(slot);
            r.push(PinnedCell { number: slot + 1, app, selected });
            slot += 1;
        }
        proof {
            assert(r@ =~= Seq::new(MAX_PINNED as nat, |slot: int| pinned_cell(self@, slot)));
        }
        r
    }

    /// What is drawn in place of a grid that shows no application.
    pub fn empty_message(&self) -> (r: Option<&'static str>)
        ensures
            match r {
                Some(text) => self@.filtered.len() == 0 && text@ == "No applications found"@,
                None => self@.filtered.len() > 0,
            },
    {
        if self.filtered().len() == 0 {
            Some("No applications found")
        } else {
            None
        }
    }

    /// The rows of the grid.
    pub fn grid_rows(&self) -> (r: Vec<GridRow>)
        ensures
            r@.len() == row_count(self@.filtered.len() as int),
            forall|k: int| 0 <= k < r@.len() ==> is_grid_row(self@, k, #[trigger] r@[k]),
    {
        let n: usize = self.filtered().len();
        let mut r: Vec<GridRow> = Vec::new();
        let mut start: usize = 0;
        while start < n
            invariant
                n == self@.filtered.len(),
                start <= n,
                start == n || start == r@.len() * COLUMNS,
                start == n ==> r@.len() == row_count(n as int),
                forall|k: int| 0 <= k < r@.len() ==> is_grid_row(self@, k, #[trigger] r@[k]),
            decreases n - start,
        {
            let count: usize = if n - start < COLUMNS {
                n - start
            } else {
                COLUMNS
            };
            let mut cells: Vec<GridCell> = Vec::new();
            let mut i: usize = 0;
            while i < count
                invariant
                    i <= count,
                    start + count <= n,
                    n == self@.filtered.len(),
                    cells@.len() == i,
                    forall|j: int| 0 <= j < i ==> #[trigger] cells@[j] == grid_cell(self@, start + j),
                decreases count - i,
            {
                let place: usize = start + i;
                cells.push(
                    GridCell {
                        place,
                        app: self.filtered()[place],
                        selected: self.selected() == Selection::Grid(place),
                    },
                );
                i += 1;
            }
            let ghost rows = r@.len();
            r.push(GridRow { cells, padding: COLUMNS - count });
            proof {
                assert(is_grid_row(self@, rows as int, r@[rows as int]));
                assert((rows + 1) * COLUMNS == start + COLUMNS);
            }
            start = start + count;
        }
        r
    }
}

/// The grid draws every application that is shown, once and in order: the cell of place `p` stands
/// in the row and column that `p` gives, and each row fills all columns with its cells and its
/// padding.
pub proof fn law_grid_draws_every_place(v: LauncherView, rows: Seq<GridRow>, p: int)
    requires
        rows.len() == row_count(v.filtered.len() as int),
        forall|k: int| 0 <= k < rows.len() ==> is_grid_row(v, k, #[trigger] rows[k]),
        0 <= p < v.filtered.len(),
    ensures
        0 <= p / COLUMNS as int,
        p / (COLUMNS as int) < rows.len(),
        p % (COLUMNS as int) < rows[p / COLUMNS as int].cells@.len(),
        rows[p / COLUMNS as int].cells@[p % COLUMNS as int] == grid_cell(v, p),
        forall|k: int|
            0 <= k < rows.len() ==> (#[trigger] rows[k]).cells@.len() + rows[k].padding == COLUMNS,
{
    let k = p / COLUMNS as int;
    let i = p % COLUMNS as int;
    assert(p == k * COLUMNS + i);
    assert(is_grid_row(v, k, rows[k]));
    assert(rows[k].cells@[i] == grid_cell(v, k * COLUMNS + i));
    assert forall|k: int| 0 <= k < rows.len() implies (#[trigger] rows[k]).cells@.len()
        + rows[k].padding == COLUMNS by {
        assert(is_grid_row(v, k, rows[k]));
    }
}

/// A place of the grid shows the application that stands there, and is drawn as selected exactly if it
/// is.
pub proof fn law_places_show_their_application(v: LauncherView, place: int)
    ensures
        grid_cell(v, place).app == v.filtered[place],
        grid_cell(v, place).place == place as usize,
        grid_cell(v, place).selected <==> v.selected == Selection::Grid(place as usize),
{
}

/// The grid has eight columns: row `k` has the places from `8 * k` on, at most eight of them, and is
/// filled up to eight.
pub proof fn law_rows_of_the_grid(v: LauncherView, k: int, row: GridRow)
    requires
        is_grid_row(v, k, row),
        0 <= 8 * k < v.filtered.len(),
    ensures
        row.cells@.len() + row.padding == 8,
        row.cells@.len() == 8 || 8 * k + row.cells@.len() == v.filtered.len(),
        forall|i: int|
            0 <= i < row.cells@.len() ==> (#[trigger] row.cells@[i]).app == v.filtered[8 * k + i]
                && row.cells@[i].place == (8 * k + i) as usize && (row.cells@[i].selected <==> v.selected
                == Selection::Grid((8 * k + i) as usize)),
        row_count(v.filtered.len() as int) * 8 >= v.filtered.len() > (row_count(
            v.filtered.len() as int,
        ) - 1) * 8,
{
}

/// A cell that is selected stands out: its text has the colour of the background, on the colour that
/// stands out.
pub proof fn law_colours_of_cells()
    ensures
        colors_of(true) == (Role::Background, Some(Role::Accent)),
        colors_of(false) == (Role::Foreground, None::<Role>),
{
}

} // verus!
