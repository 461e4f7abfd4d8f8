//! Display/Place action handler (a=p) for Kitty graphics protocol.
//!
//! Computes the 2D grid of Unicode placeholder cells that represent
//! an image placement. The actual writing into the terminal grid
//! happens in the grid integration layer.

use vstd::prelude::*;

use crate::command::{CommandView, KittyCommand};
use crate::encoding::{decimal_text, push_decimal_text};
use crate::placeholder::{
    build_placeholder_cell, color_id, diacritic, diacritic_value, fg_color, lemma_color_roundtrip,
    lemma_diacritic_roundtrip, KITTY_PLACEHOLDER_CHAR,
};
use crate::store::{contains_id, KittyImageStore, StoreView};

verus! {

/// A single cell in the placeholder grid.
#[derive(Debug, PartialEq)]
pub struct PlaceholderCell {
    /// The placeholder char + combining diacritics encoding row/col
    pub text: String,
    /// Foreground color encoding image_id (24-bit in RGB)
    pub fg_rgb: (u8, u8, u8),
}

/// Mathematical value of a placeholder cell.
pub struct CellView {
    pub text: Seq<char>,
    pub fg_rgb: (u8, u8, u8),
}

impl View for PlaceholderCell {
    type V = CellView;

    open spec fn view(&self) -> CellView {
        CellView { text: self.text@, fg_rgb: self.fg_rgb }
    }
}

impl Clone for PlaceholderCell {
    fn clone(&self) -> (r: Self)
        ensures
            r@ == self@,
    {
        PlaceholderCell { text: self.text.clone(), fg_rgb: self.fg_rgb }
    }
}

/// Output of a successful place operation: the 2D grid of placeholder cells
/// plus metadata needed by the grid integration.
#[derive(Debug, PartialEq)]
pub struct PlacementOutput {
    pub image_id: u32,
    pub placement_id: u32,
    pub columns: u32,
    pub rows: u32,
    /// \[row\]\[col\] — rows × cols grid of placeholder cells
    pub cells: Vec<Vec<PlaceholderCell>>,
    pub virtual_placement: bool,
    pub z_index: i32,
}

/// Mathematical value of a placement output.
pub struct PlacementView {
    pub image_id: u32,
    pub placement_id: u32,
    pub columns: u32,
    pub rows: u32,
    pub cells: Seq<Seq<CellView>>,
    pub virtual_placement: bool,
    pub z_index: i32,
}

/// The view of one row of cells.
pub open spec fn row_view(row: Vec<PlaceholderCell>) -> Seq<CellView> {
    row_view_of(row@)
}

/// The views of a run of cells.
pub open spec fn row_view_of(row: Seq<PlaceholderCell>) -> Seq<CellView> {
    row.map_values(|c: PlaceholderCell| c@)
}

impl View for PlacementOutput {
    type V = PlacementView;

    open spec fn view(&self) -> PlacementView {
        PlacementView {
            image_id: self.image_id,
            placement_id: self.placement_id,
            columns: self.columns,
            rows: self.rows,
            cells: self.cells@.map_values(|row: Vec<PlaceholderCell>| row_view(row)),
            virtual_placement: self.virtual_placement,
            z_index: self.z_index,
        }
    }
}

impl Clone for PlacementOutput {
    fn clone(&self) -> (r: Self)
        ensures
            r@ == self@,
    {
        let mut cells: Vec<Vec<PlaceholderCell>> = Vec::new();
        let mut i: usize = 0;
        while i < self.cells.len()
            invariant
                i <= self.cells.len(),
                cells@.map_values(|row: Vec<PlaceholderCell>| row_view(row)) == self.cells@.map_values(
                    |row: Vec<PlaceholderCell>| row_view(row),
                ).take(i as int),
            decreases self.cells.len() - i,
        {
            let row = &self.cells[i];
            let mut copy: Vec<PlaceholderCell> = Vec::new();
            let mut j: usize = 0;
            while j < row.len()
                invariant
                    j <= row.len(),
                    row_view_of(copy@) == row_view_of(row@).take(j as int),
                decreases row.len() - j,
            {
                let cell = row[j].clone();
                assert(cell@ == row@[j as int]@);
                let ghost prev = copy@;
                copy.push(cell);
                assert(copy@ == prev.push(cell));
                assert(row_view_of(copy@) =~= row_view_of(prev).push(cell@));
                j = j + 1;
                assert(row_view_of(copy@) =~= row_view_of(row@).take(j as int));
            }
            assert(row_view_of(row@).take(j as int) =~= row_view_of(row@));
            let ghost prev = cells@;
            let ghost rv = row_view(copy);
            cells.push(copy);
            assert(cells@.map_values(|r: Vec<PlaceholderCell>| row_view(r)) =~= prev.map_values(
                |r: Vec<PlaceholderCell>| row_view(r),
            ).push(rv));
            i = i + 1;
            assert(cells@.map_values(|r: Vec<PlaceholderCell>| row_view(r)) =~= self.cells@.map_values(
                |r: Vec<PlaceholderCell>| row_view(r),
            ).take(i as int));
        }
        assert(self.cells@.map_values(|r: Vec<PlaceholderCell>| row_view(r)).take(i as int)
            =~= self.cells@.map_values(|r: Vec<PlaceholderCell>| row_view(r)));
        let r = PlacementOutput {
            image_id: self.image_id,
            placement_id: self.placement_id,
            columns: self.columns,
            rows: self.rows,
            cells,
            virtual_placement: self.virtual_placement,
            z_index: self.z_index,
        };
        assert(r@.cells =~= self@.cells);
        r
    }
}

/// Errors from the place handler.
#[derive(Debug, Clone, Copy, PartialEq, Eq, Structural)]
pub enum PlaceError {
    ImageNotFound(u32),
    InvalidDimensions,
}

impl PlaceError {
    /// The error's text.
    pub open spec fn text(self) -> Seq<char> {
        match self {
            PlaceError::ImageNotFound(id) => "image not found: "@ + decimal_text(id as nat),
            PlaceError::InvalidDimensions => "invalid placement dimensions"@,
        }
    }

    /// The error's text.
    pub fn message(&self) -> (r: String)
        ensures
            r@ == self.text(),
    {
        match self {
            PlaceError::ImageNotFound(id) => {
                let mut s = String::from_str("image not found: ");
                push_decimal_text(&mut s, *id as u64);
                s
            },
            PlaceError::InvalidDimensions => String::from_str("invalid placement dimensions"),
        }
    }
}

/// Largest number of rows, and of columns, a placement may span.
pub const MAX_DIMENSION: u32 = 10000;

/// Largest number of cells a placement may span.
pub const MAX_TOTAL_CELLS: u64 = 100000000;

/// The cell at (`row`, `col`) of a placement of `image_id`.
pub open spec fn cell_at(image_id: u32, row: u32, col: u32) -> CellView {
    CellView {
        text: seq![KITTY_PLACEHOLDER_CHAR, diacritic(row), diacritic(col)],
        fg_rgb: fg_color(image_id),
    }
}

/// The `rows` × `columns` grid of cells of a placement of `image_id`.
pub open spec fn cell_grid(image_id: u32, rows: u32, columns: u32) -> Seq<Seq<CellView>> {
    Seq::new(rows as nat, |r: int| Seq::new(columns as nat, |c: int| cell_at(image_id, r as u32, c as u32)))
}

/// What a place command gives: the placement grid of an image the store
/// holds, sized by `c=`/`r=` (1 by default), or why there is none.
pub open spec fn place_result(s: StoreView, cmd: CommandView) -> Result<PlacementView, PlaceError> {
    match cmd.image_id {
        None => Err(PlaceError::InvalidDimensions),
        Some(id) => if !contains_id(s.images, id) {
            Err(PlaceError::ImageNotFound(id))
        } else {
            let columns: u32 = match cmd.columns {
                Some(c) => c,
                None => 1,
            };
            let rows: u32 = match cmd.rows {
                Some(r) => r,
                None => 1,
            };
            if columns == 0 || rows == 0 || columns > MAX_DIMENSION || rows > MAX_DIMENSION
                || columns * rows > MAX_TOTAL_CELLS {
                Err(PlaceError::InvalidDimensions)
            } else {
                Ok(
                    PlacementView {
                        image_id: id,
                        placement_id: match cmd.placement_id {
                            Some(p) => p,
                            None => 0,
                        },
                        columns,
                        rows,
                        cells: cell_grid(id, rows, columns),
                        virtual_placement: cmd.unicode_placeholder,
                        z_index: match cmd.z_index {
                            Some(z) => z,
                            None => 0,
                        },
                    },
                )
            }
        },
    }
}

/// Mathematical value of a place outcome.
pub open spec fn place_view(r: Result<PlacementOutput, PlaceError>) -> Result<PlacementView, PlaceError> {
    match r {
        Ok(p) => Ok(p@),
        Err(e) => Err(e),
    }
}

/// One row of a placement grid.
fn build_row(image_id: u32, row: u32, columns: u32) -> (r: Vec<PlaceholderCell>)
    ensures
        row_view(r) == Seq::new(columns as nat, |c: int| cell_at(image_id, row, c as u32)),
{
    let mut row_cells: Vec<PlaceholderCell> = Vec::new();
    let mut col: u32 = 0;
    while col < columns
        invariant
            col <= columns,
            row_view(row_cells) == Seq::new(col as nat, |c: int| cell_at(image_id, row, c as u32)),
        decreases columns - col,
    {
        let (text, fg_rgb) = build_placeholder_cell(image_id, row, col);
        let cell = PlaceholderCell { text, fg_rgb };
        assert(cell@ == cell_at(image_id, row, col));
        let ghost prev = row_cells@;
        row_cells.push(cell);
        assert(row_cells@ == prev.push(cell));
        assert(row_view(row_cells) =~= row_view_of(prev).push(cell@));
        col = col + 1;
        assert(row_view(row_cells) =~= Seq::new(
            col as nat,
            |c: int| cell_at(image_id, row, c as u32),
        ));
    }
    row_cells
}

/// Handle a Kitty graphics Place action (a=p).
///
/// Builds the 2D grid of Unicode placeholder cells for the given image.
/// Does NOT mutate the store — the caller (grid integration) is responsible
/// for persisting the placement.
pub fn handle_place(cmd: &KittyCommand, store: &KittyImageStore) -> (r: Result<PlacementOutput, PlaceError>)
    requires
        store.wf(),
    ensures
        place_view(r) == place_result(store@, cmd@),
{
    let image_id = match cmd.image_id {
        Some(id) => id,
        None => {
            return Err(PlaceError::InvalidDimensions);
        },
    };
    if store.get(image_id).is_none() {
        return Err(PlaceError::ImageNotFound(image_id));
    }
    let columns = match cmd.columns {
        Some(c) => c,
        None => 1,
    };
    let rows = match cmd.rows {
        Some(r) => r,
        None => 1,
    };
    if columns == 0 || rows == 0 {
        return Err(PlaceError::InvalidDimensions);
    }
    if columns > MAX_DIMENSION || rows > MAX_DIMENSION {
        return Err(PlaceError::InvalidDimensions);
    }
    let total_cells = match (columns as u64).checked_mul(rows as u64) {
        Some(t) => t,
        None => {
            return Err(PlaceError::InvalidDimensions);
        },
    };
    if total_cells > MAX_TOTAL_CELLS {
        return Err(PlaceError::InvalidDimensions);
    }
    let mut cells: Vec<Vec<PlaceholderCell>> = Vec::new();
    let mut row: u32 = 0;
    while row < rows
        invariant
            row <= rows,
            cells@.map_values(|r: Vec<PlaceholderCell>| row_view(r)) =~= cell_grid(
                image_id,
                rows,
                columns,
            ).take(row as int),
        decreases rows - row,
    {
        let row_cells = build_row(image_id, row, columns);
        let ghost prev = cells@;
        let ghost rv = row_view(row_cells);
        cells.push(row_cells);
        assert(cells@.map_values(|r: Vec<PlaceholderCell>| row_view(r)) =~= prev.map_values(
            |r: Vec<PlaceholderCell>| row_view(r),
        ).push(rv));
        assert(rv =~= cell_grid(image_id, rows, columns)[row as int]);
        row = row + 1;
        assert(cells@.map_values(|r: Vec<PlaceholderCell>| row_view(r)) =~= cell_grid(
            image_id,
            rows,
            columns,
        ).take(row as int));
    }
    let placement_id = match cmd.placement_id {
        Some(p) => p,
        None => 0,
    };
    let z_index = match cmd.z_index {
        Some(z) => z,
        None => 0,
    };
    let output = PlacementOutput {
        image_id,
        placement_id,
        columns,
        rows,
        cells,
        virtual_placement: cmd.unicode_placeholder,
        z_index,
    };
    assert(output@.cells =~= cell_grid(image_id, rows, columns));
    Ok(output)
}

/// A placement grid is what the placeholder protocol reads back. It has
/// `r=` rows (1 when not given) of `c=` cells (1 when not given); the cell
/// at row `i`, column `j` is the placeholder character followed by the
/// diacritics that decode to `i` and `j` (modulo 32), in the colour that
/// decodes to the image id (modulo 2^24). Without an image id the command
/// is refused as invalid, and for an image the store does not hold as not
/// found.
pub proof fn lemma_place_grid(s: StoreView, cmd: CommandView)
    ensures
        cmd.image_id is None ==> place_result(s, cmd) == Err::<PlacementView, PlaceError>(
            PlaceError::InvalidDimensions,
        ),
        cmd.image_id matches Some(id) ==> (!contains_id(s.images, id) ==> place_result(s, cmd)
            == Err::<PlacementView, PlaceError>(PlaceError::ImageNotFound(id))),
        place_result(s, cmd) matches Ok(p) ==> {
            &&& cmd.image_id == Some(p.image_id)
            &&& contains_id(s.images, p.image_id)
            &&& p.rows == match cmd.rows {
                Some(r) => r,
                None => 1u32,
            }
            &&& p.columns == match cmd.columns {
                Some(c) => c,
                None => 1u32,
            }
            &&& p.cells.len() == p.rows
            &&& forall|i: int| 0 <= i < p.rows ==> (#[trigger] p.cells[i]).len() == p.columns
            &&& forall|i: int, j: int|
                0 <= i < p.rows && 0 <= j < p.columns ==> {
                    let cell = #[trigger] p.cells[i][j];
                    &&& cell.text.len() == 3
                    &&& cell.text[0] == KITTY_PLACEHOLDER_CHAR
                    &&& diacritic_value(cell.text[1]) == Some((i % 32) as u32)
                    &&& diacritic_value(cell.text[2]) == Some((j % 32) as u32)
                    &&& color_id(cell.fg_rgb.0, cell.fg_rgb.1, cell.fg_rgb.2) == p.image_id % 0x1000000
                }
        },
{
    if let Ok(p) = place_result(s, cmd) {
        assert forall|i: int, j: int| 0 <= i < p.rows && 0 <= j < p.columns implies {
            let cell = #[trigger] p.cells[i][j];
            &&& cell.text.len() == 3
            &&& cell.text[0] == KITTY_PLACEHOLDER_CHAR
            &&& diacritic_value(cell.text[1]) == Some((i % 32) as u32)
            &&& diacritic_value(cell.text[2]) == Some((j % 32) as u32)
            &&& color_id(cell.fg_rgb.0, cell.fg_rgb.1, cell.fg_rgb.2) == p.image_id % 0x1000000
        } by {
            lemma_diacritic_roundtrip(i as u32);
            lemma_diacritic_roundtrip(j as u32);
            lemma_color_roundtrip(p.image_id);
        }
    }
}

} // verus!
