//! The cells of a diagram: where each square of a position is drawn, in
//! which colour, and what stands on it.
//!
//! A diagram is a square image of eight by eight cells. When the second
//! side is to move the board is turned by half a turn, so that the side to
//! move is always nearest to the viewer.

use crate::board::{board_rows, decode_layout, grid_rows};
use crate::pieces::{piece_from_symbol, piece_of, Piece};
use crate::study::{PositionRecord, RecordView};
use crate::text::{chars_of, find_first};
use vstd::prelude::*;
use vstd::slice::slice_subrange;

verus! {

/// Side of a diagram, in pixels.
pub const BOARD_PIXELS: u32 = 600;

/// Side of one cell, in pixels.
pub const CELL_PIXELS: u32 = 75;

/// A colour: red, green and blue.
#[derive(Clone, Copy, Debug, PartialEq, Eq, Structural)]
pub struct Rgb {
    pub red: u8,
    pub green: u8,
    pub blue: u8,
}

/// One cell of a diagram.
#[derive(Clone, Copy, Debug, PartialEq, Eq, Structural)]
pub struct Cell {
    /// Left edge, in pixels from the left edge of the image.
    pub x: u32,
    /// Upper edge, in pixels from the upper edge of the image.
    pub y: u32,
    /// Whether the cell has the light colour.
    pub light: bool,
    /// What stands on the cell; a blank for nothing.
    pub symbol: char,
}

/// The colour of light cells and of dark cells.
pub open spec fn shade(light: bool) -> Rgb {
    if light {
        Rgb { red: 255, green: 255, blue: 255 }
    } else {
        Rgb { red: 221, green: 221, blue: 221 }
    }
}

/// The board layout of a position: its text up to the first space.
pub open spec fn board_field(position: Seq<char>) -> Seq<char> {
    match position.index_of_first(' ') {
        Some(k) => position.take(k),
        None => position,
    }
}

/// The rank or file of the board that is shown at place `k` of the image.
pub open spec fn shown(turned: bool, k: int) -> int {
    if turned {
        7 - k
    } else {
        k
    }
}

/// The cell in row `r` and column `c` of the diagram of a position whose
/// decoded rows are `rows`.
pub open spec fn cell_of(rows: Seq<Seq<char>>, turned: bool, r: int, c: int) -> Cell {
    let rank = shown(turned, r);
    let file = shown(turned, c);
    Cell {
        x: (c * CELL_PIXELS) as u32,
        y: (r * CELL_PIXELS) as u32,
        light: (rank + file) % 2 == 0,
        symbol: rows[rank][file],
    }
}

/// The cell in row `r` and column `c` of the diagram of `record`.
pub open spec fn cell_at(record: RecordView, r: int, c: int) -> Cell {
    cell_of(
        board_rows(board_field(record.board_string)),
        record.side_to_move_is_second,
        r,
        c,
    )
}

/// The 64 cells of the diagram of `record`, row by row from the top, each
/// row from the left.
pub open spec fn cells_of(record: RecordView) -> Seq<Cell> {
    Seq::new(64, |k: int| cell_at(record, k / 8, k % 8))
}

/// Turning the board reflects the diagram through its centre: the cell in
/// row `r` and column `c` of the turned diagram has the colour and the
/// occupant of the cell in row `7 - r` and column `7 - c` of the diagram
/// that is not turned.
pub proof fn lemma_turned_is_reflected(turned: RecordView, straight: RecordView, r: int, c: int)
    requires
        turned.side_to_move_is_second,
        !straight.side_to_move_is_second,
        turned.board_string == straight.board_string,
        0 <= r < 8,
        0 <= c < 8,
    ensures
        cell_at(turned, r, c).light == cell_at(straight, 7 - r, 7 - c).light,
        cell_at(turned, r, c).symbol == cell_at(straight, 7 - r, 7 - c).symbol,
        cell_at(turned, r, c).x == c * CELL_PIXELS,
        cell_at(turned, r, c).y == r * CELL_PIXELS,
{
}

/// The colour of a cell is that of a chessboard whose upper left cell is
/// light, whether the board is turned or not.
pub proof fn lemma_checkerboard(record: RecordView, r: int, c: int)
    requires
        0 <= r < 8,
        0 <= c < 8,
    ensures
        cell_at(record, r, c).light == ((r + c) % 2 == 0),
{
}

impl Cell {
    /// The colour of the cell's background.
    pub fn color(&self) -> (rgb: Rgb)
        ensures
            rgb == shade(self.light),
    {
        if self.light {
            Rgb { red: 255, green: 255, blue: 255 }
        } else {
            Rgb { red: 221, green: 221, blue: 221 }
        }
    }

    /// The piece to draw on the cell: none on a blank cell, and none for a
    /// symbol that names no piece.
    pub fn glyph(&self) -> (piece: Option<Piece>)
        ensures
            piece == piece_of(self.symbol),
    {
        piece_from_symbol(self.symbol)
    }
}

/// The board layout of `position`: its characters up to the first space.
pub fn board_field_of(position: &[char]) -> (field: &[char])
    ensures
        field@ == board_field(position@),
{
    match find_first(position, ' ') {
        Some(k) => {
            proof {
                position@.index_of_first_ensures(' ');
            }
            slice_subrange(position, 0, k)
        },
        None => position,
    }
}

/// The cells of the diagram of `record`.
pub fn diagram_cells(record: &PositionRecord) -> (cells: Vec<Cell>)
    ensures
        cells@ == cells_of(record@),
{
    let position = chars_of(record.board_string.as_str());
    let board = decode_layout(board_field_of(position.as_slice()));
    let turned = record.side_to_move_is_second;
    let ghost rows = board_rows(board_field(record@.board_string));
    let mut cells: Vec<Cell> = Vec::new();
    let mut r: usize = 0;
    while r < 8
        invariant
            r <= 8,
            grid_rows(board) == rows,
            rows == board_rows(board_field(record@.board_string)),
            turned == record@.side_to_move_is_second,
            cells@.len() == r * 8,
            forall|k: int| 0 <= k < cells@.len() ==> cells@[k] == cell_at(record@, k / 8, k % 8),
        decreases 8 - r,
    {
        let mut c: usize = 0;
        while c < 8
            invariant
                r < 8,
                c <= 8,
                grid_rows(board) == rows,
                rows == board_rows(board_field(record@.board_string)),
                turned == record@.side_to_move_is_second,
                cells@.len() == r * 8 + c,
                forall|k: int|
                    0 <= k < cells@.len() ==> cells@[k] == cell_at(record@, k / 8, k % 8),
            decreases 8 - c,
        {
            let rank: usize = if turned {
                7 - r
            } else {
                r
            };
            let file: usize = if turned {
                7 - c
            } else {
                c
            };
            let cell = Cell {
                x: c as u32 * CELL_PIXELS,
                y: r as u32 * CELL_PIXELS,
                light: (rank + file) % 2 == 0,
                symbol: board[rank][file],
            };
            proof {
                assert(grid_rows(board)[rank as int] == board@[rank as int]@);
                let k = cells@.len() as int;
                assert(k / 8 == r && k % 8 == c);
                assert(cell == cell_at(record@, r as int, c as int));
            }
            cells.push(cell);
            c += 1;
        }
        r += 1;
    }
    assert(cells@ =~= cells_of(record@));
    cells
}

/// The colours of an image without their opacity: from four bytes for each
/// pixel, the first three. Bytes after the last whole pixel are dropped.
pub fn rgb_from_rgba(rgba: &[u8]) -> (rgb: Vec<u8>)
    ensures
        rgb@.len() == (rgba@.len() / 4) * 3,
        forall|k: int| 0 <= k < rgb@.len() ==> rgb@[k] == rgba@[(k / 3) * 4 + k % 3],
{
    let n: usize = rgba.len();
    let pixels: usize = n / 4;
    let mut rgb: Vec<u8> = Vec::new();
    let mut p: usize = 0;
    while p < pixels
        invariant
            p <= pixels,
            n == rgba@.len(),
            pixels == n / 4,
            rgb@.len() == p * 3,
            forall|k: int| 0 <= k < rgb@.len() ==> rgb@[k] == rgba@[(k / 3) * 4 + k % 3],
        decreases pixels - p,
    {
        let at: usize = p * 4;
        rgb.push(rgba[at]);
        rgb.push(rgba[at + 1]);
        rgb.push(rgba[at + 2]);
        p += 1;
    }
    rgb
}

} // verus!
