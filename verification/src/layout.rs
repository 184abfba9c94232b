//! Laying the diagrams of a study out on pages.
//!
//! A page holds a title, a page number and up to nine diagrams in a grid of
//! three rows and three columns. Every length is in micrometres; a position
//! is measured from the lower left corner of the page, to the right and
//! upward. Rows of the grid are counted from the top of the page, columns
//! from the left. Where a length is a quotient, it is rounded down.

use crate::diagram::{cells_of, diagram_cells, Cell};
use crate::study::{DocumentView, PositionRecord, RecordView, StudyDocument};
use crate::text::{
    append_chars, chars_of, decimal, decimal_digits, find_first, string_of, trim, trimmed,
};
use vstd::arithmetic::div_mod::{
    lemma_fundamental_div_mod, lemma_fundamental_div_mod_converse, lemma_mod_bound,
};
use vstd::prelude::*;
use vstd::slice::slice_subrange;

verus! {

/// Columns of the grid.
pub const GRID_COLUMNS: usize = 3;

/// Rows of the grid.
pub const GRID_ROWS: usize = 3;

/// Diagrams on a full page.
pub const DIAGRAMS_PER_PAGE: usize = 9;

/// Distance of the title's base line from the upper edge of the page.
pub const TITLE_DROP: i64 = 25_000;

/// Width that one character of the title is taken to have.
pub const TITLE_CHAR_WIDTH: i64 = 1_800;

/// Size of the title, in points.
pub const TITLE_FONT_SIZE: u32 = 18;

/// Distance of the page number's base line from the lower edge of the page.
pub const PAGE_NUMBER_RISE: i64 = 10_000;

/// Width that one character of the page number is taken to have.
pub const PAGE_NUMBER_CHAR_WIDTH: i64 = 1_200;

/// Size of the page number, in points.
pub const PAGE_NUMBER_FONT_SIZE: u32 = 14;

/// Size of a caption, in points.
pub const CAPTION_FONT_SIZE: u32 = 11;

/// Distance between the base lines of the two lines of a caption.
pub const CAPTION_LINE_STEP: i64 = 5_000;

/// Size of a coordinate label, in points.
pub const LABEL_FONT_SIZE: u32 = 6;

/// Distance of the file labels' base line below the diagram.
pub const FILE_LABEL_DROP: i64 = 2_500;

/// How far a file label is moved to the left of the middle of its square.
pub const FILE_LABEL_SHIFT: i64 = 1_000;

/// Distance of the rank labels' left edge from the diagram.
pub const RANK_LABEL_SHIFT: i64 = 2_500;

/// Distance of the first rank label's square below the upper edge of the
/// area that is kept free for the diagram.
pub const RANK_LABEL_DROP: i64 = 26_000;

/// The lengths that fix where things go on a page.
#[derive(Clone, Copy, Debug, PartialEq, Eq, Structural)]
pub struct Geometry {
    pub page_width: u32,
    pub page_height: u32,
    pub margin_left: u32,
    pub margin_right: u32,
    pub margin_top: u32,
    pub margin_bottom: u32,
    /// Space below the upper margin that is kept free for the title.
    pub title_clearance: u32,
    /// Height of the grid's lower edge above the lower edge of the page.
    pub grid_base: u32,
    /// Side of the area that is kept free for a diagram.
    pub board_size: u32,
    /// Height of the space for the caption below a diagram.
    pub caption_height: u32,
    /// Distance between a diagram and its caption.
    pub caption_gap: u32,
}

/// The geometry of an upright A4 page.
pub open spec fn a4() -> Geometry {
    Geometry {
        page_width: 210_000,
        page_height: 297_000,
        margin_left: 30_000,
        margin_right: 12_000,
        margin_top: 35_000,
        margin_bottom: 10_000,
        title_clearance: 30_000,
        grid_base: 40_000,
        board_size: 75_000,
        caption_height: 12_000,
        caption_gap: 10_000,
    }
}

/// A text and the place of the left end of its base line.
#[derive(Debug, PartialEq, Eq)]
pub struct TextBlock {
    pub text: String,
    pub x: i64,
    pub y: i64,
    /// Size of the type, in points.
    pub font_size: u32,
}

/// What a `TextBlock` stands for.
pub struct TextBlockView {
    pub text: Seq<char>,
    pub x: int,
    pub y: int,
    pub font_size: nat,
}

impl View for TextBlock {
    type V = TextBlockView;

    open spec fn view(&self) -> TextBlockView {
        TextBlockView {
            text: self.text@,
            x: self.x as int,
            y: self.y as int,
            font_size: self.font_size as nat,
        }
    }
}

/// A coordinate label: one character and the place of the left end of its
/// base line.
#[derive(Clone, Copy, Debug, PartialEq, Eq, Structural)]
pub struct Label {
    pub symbol: char,
    pub x: i64,
    pub y: i64,
}

/// A diagram on its page.
#[derive(Debug, PartialEq, Eq)]
pub struct PlacedDiagram {
    /// Number of the position that the diagram shows.
    pub sequence_number: u64,
    /// Row of the grid, from 0 at the top.
    pub row: usize,
    /// Column of the grid, from 0 at the left.
    pub col: usize,
    /// Left edge of the diagram.
    pub x: i64,
    /// Lower edge of the diagram.
    pub y: i64,
    /// The 64 cells of the diagram.
    pub cells: Vec<Cell>,
    /// The lines of the caption: one, or two where the second is not empty.
    pub caption: Vec<TextBlock>,
    /// The labels of the files, from left to right.
    pub file_labels: Vec<Label>,
    /// The labels of the ranks, from top to bottom.
    pub rank_labels: Vec<Label>,
}

/// What a `PlacedDiagram` stands for.
pub struct PlacedDiagramView {
    pub sequence_number: nat,
    pub row: int,
    pub col: int,
    pub x: int,
    pub y: int,
    pub cells: Seq<Cell>,
    pub caption: Seq<TextBlockView>,
    pub file_labels: Seq<Label>,
    pub rank_labels: Seq<Label>,
}

/// The views of a sequence of text blocks.
pub open spec fn text_views(blocks: Seq<TextBlock>) -> Seq<TextBlockView> {
    blocks.map_values(|b: TextBlock| b@)
}

impl View for PlacedDiagram {
    type V = PlacedDiagramView;

    open spec fn view(&self) -> PlacedDiagramView {
        PlacedDiagramView {
            sequence_number: self.sequence_number as nat,
            row: self.row as int,
            col: self.col as int,
            x: self.x as int,
            y: self.y as int,
            cells: self.cells@,
            caption: text_views(self.caption@),
            file_labels: self.file_labels@,
            rank_labels: self.rank_labels@,
        }
    }
}

/// One page of the document.
#[derive(Debug, PartialEq, Eq)]
pub struct Page {
    pub title: TextBlock,
    pub page_number: TextBlock,
    pub diagrams: Vec<PlacedDiagram>,
}

/// What a `Page` stands for.
pub struct PageView {
    pub title: TextBlockView,
    pub page_number: TextBlockView,
    pub diagrams: Seq<PlacedDiagramView>,
}

/// The views of a sequence of placed diagrams.
pub open spec fn diagram_views(diagrams: Seq<PlacedDiagram>) -> Seq<PlacedDiagramView> {
    diagrams.map_values(|d: PlacedDiagram| d@)
}

impl View for Page {
    type V = PageView;

    open spec fn view(&self) -> PageView {
        PageView {
            title: self.title@,
            page_number: self.page_number@,
            diagrams: diagram_views(self.diagrams@),
        }
    }
}

/// The views of a sequence of pages.
pub open spec fn page_views(pages: Seq<Page>) -> Seq<PageView> {
    pages.map_values(|p: Page| p@)
}

/// The number of pages that `n` positions take: nine to a page.
pub open spec fn page_count(n: nat) -> nat {
    (n + 8) / 9
}

/// The number of diagrams on page `k` of a study of `n` positions.
pub open spec fn diagrams_on_page(n: nat, k: int) -> nat {
    if n - 9 * k >= 9 {
        9
    } else if n - 9 * k <= 0 {
        0
    } else {
        (n - 9 * k) as nat
    }
}

/// The row of the grid in which the diagram at place `i` of a page stands:
/// the first three stand in the bottom row, the next three above them.
pub open spec fn grid_row(i: int) -> int {
    2 - i / 3
}

/// The column of the grid in which the diagram at place `i` of a page
/// stands.
pub open spec fn grid_col(i: int) -> int {
    i % 3
}

/// The width of a column of the grid: a third of what the margins leave.
pub open spec fn column_width(g: Geometry) -> int {
    (g.page_width - g.margin_left - g.margin_right) / 3
}

/// The height of a row of the grid: a third of what the margins and the
/// clearance for the title leave.
pub open spec fn row_height(g: Geometry) -> int {
    (g.page_height - g.margin_top - g.title_clearance - g.margin_bottom) / 3
}

/// The left edge of a diagram in column `col`: the diagram's area is
/// centred in its column.
pub open spec fn diagram_x(g: Geometry, col: int) -> int {
    g.margin_left + col * column_width(g) + (column_width(g) - g.board_size) / 2
}

/// The lower edge of a diagram in row `row`: above the lower edge of the
/// row by half of what the caption and its gap leave of the row's height.
pub open spec fn diagram_y(g: Geometry, row: int) -> int {
    g.grid_base + (2 - row) * row_height(g) + (row_height(g) - g.caption_height
        - g.caption_gap) / 2
}

/// A length cut off at the least value of `i64`.
pub open spec fn clip(v: int) -> int {
    if v < i64::MIN {
        i64::MIN as int
    } else {
        v
    }
}

/// The left end of a text of `chars` characters that is centred on the
/// page, each character taken to be `char_width` wide.
pub open spec fn centered_x(page_width: int, char_width: int, chars: nat) -> int {
    clip((page_width - chars * char_width) / 2)
}

/// The title block of a page.
pub open spec fn title_block(g: Geometry, title: Seq<char>) -> TextBlockView {
    TextBlockView {
        text: title,
        x: centered_x(g.page_width as int, TITLE_CHAR_WIDTH as int, title.len()),
        y: g.page_height - TITLE_DROP,
        font_size: TITLE_FONT_SIZE as nat,
    }
}

/// The text of the page number of page `k` of `count`, the first page being
/// page 0: its number from 1, an oblique stroke, and the count.
pub open spec fn page_number_text(k: nat, count: nat) -> Seq<char> {
    decimal(k + 1) + seq!['/'] + decimal(count)
}

/// The page number block of page `k` of `count`.
pub open spec fn page_number_block(g: Geometry, k: nat, count: nat) -> TextBlockView {
    TextBlockView {
        text: page_number_text(k, count),
        x: centered_x(
            g.page_width as int,
            PAGE_NUMBER_CHAR_WIDTH as int,
            page_number_text(k, count).len(),
        ),
        y: PAGE_NUMBER_RISE as int,
        font_size: PAGE_NUMBER_FONT_SIZE as nat,
    }
}

/// The first line of a caption: the number, a full stop and a space, then
/// the caption up to and with its first colon, or all of it where it has
/// none.
pub open spec fn caption_first(number: nat, caption: Seq<char>) -> Seq<char> {
    decimal(number) + seq!['.', ' '] + match caption.index_of_first(':') {
        Some(k) => caption.take(k + 1),
        None => caption,
    }
}

/// The second line of a caption: what follows its first colon, trimmed;
/// empty where it has none.
pub open spec fn caption_second(caption: Seq<char>) -> Seq<char> {
    match caption.index_of_first(':') {
        Some(k) => trim(caption.skip(k + 1)),
        None => Seq::<char>::empty(),
    }
}

/// The caption blocks of a diagram whose lower left corner is at `(x, y)`.
pub open spec fn caption_blocks(g: Geometry, record: RecordView, x: int, y: int) -> Seq<
    TextBlockView,
> {
    let first = TextBlockView {
        text: caption_first(record.sequence_number, record.caption),
        x,
        y: y - g.caption_gap,
        font_size: CAPTION_FONT_SIZE as nat,
    };
    let second = TextBlockView {
        text: caption_second(record.caption),
        x,
        y: y - g.caption_gap - CAPTION_LINE_STEP,
        font_size: CAPTION_FONT_SIZE as nat,
    };
    if second.text.len() == 0 {
        seq![first]
    } else {
        seq![first, second]
    }
}

/// The letter of the file shown in column `i` of a diagram: `a` to `h` from
/// the left, or `h` to `a` where the board is turned.
pub open spec fn file_letter(turned: bool, i: int) -> char {
    if turned {
        ('h' as int - i) as char
    } else {
        ('a' as int + i) as char
    }
}

/// The digit of the rank shown in row `i` of a diagram: `8` to `1` from the
/// top, or `1` to `8` where the board is turned.
pub open spec fn rank_digit(turned: bool, i: int) -> char {
    if turned {
        ('1' as int + i) as char
    } else {
        ('8' as int - i) as char
    }
}

/// The label of the file in column `i` of a diagram whose lower left corner
/// is at `(x, y)`. The labels are spaced at two 23rds of the board size.
pub open spec fn file_label(g: Geometry, turned: bool, x: int, y: int, i: int) -> Label {
    Label {
        symbol: file_letter(turned, i),
        x: (x + (g.board_size * (2 * i + 1)) / 23 - FILE_LABEL_SHIFT) as i64,
        y: (y - FILE_LABEL_DROP) as i64,
    }
}

/// The label of the rank in row `i` of a diagram whose lower left corner is
/// at `(x, y)`.
pub open spec fn rank_label(g: Geometry, turned: bool, x: int, y: int, i: int) -> Label {
    Label {
        symbol: rank_digit(turned, i),
        x: (x - RANK_LABEL_SHIFT) as i64,
        y: (y + g.board_size - RANK_LABEL_DROP - (g.board_size * (4 * i + 1)) / 46) as i64,
    }
}

/// The diagram of `record` at place `i` of its page.
pub open spec fn placed(g: Geometry, record: RecordView, i: int) -> PlacedDiagramView {
    let x = diagram_x(g, grid_col(i));
    let y = diagram_y(g, grid_row(i));
    let turned = record.side_to_move_is_second;
    PlacedDiagramView {
        sequence_number: record.sequence_number,
        row: grid_row(i),
        col: grid_col(i),
        x,
        y,
        cells: cells_of(record),
        caption: caption_blocks(g, record, x, y),
        file_labels: Seq::new(8, |j: int| file_label(g, turned, x, y, j)),
        rank_labels: Seq::new(8, |j: int| rank_label(g, turned, x, y, j)),
    }
}

/// Page `k` of the document.
pub open spec fn page_of(g: Geometry, doc: DocumentView, k: int) -> PageView {
    PageView {
        title: title_block(g, doc.title),
        page_number: page_number_block(g, k as nat, page_count(doc.records.len())),
        diagrams: Seq::new(
            diagrams_on_page(doc.records.len(), k),
            |i: int| placed(g, doc.records[9 * k + i], i),
        ),
    }
}

/// The pages of the document: the positions in their order, nine to a
/// page.
pub open spec fn pages_of(g: Geometry, doc: DocumentView) -> Seq<PageView> {
    Seq::new(page_count(doc.records.len()), |k: int| page_of(g, doc, k))
}

/// Rounding down the quotient of a negative number, by way of the quotient
/// of a number that is not negative.
proof fn lemma_floor_of_negative(a: int, d: int)
    requires
        a < 0,
        d > 0,
    ensures
        a / d == -((-a - 1) / d) - 1,
{
    let q = (-a - 1) / d;
    let r = (-a - 1) % d;
    lemma_fundamental_div_mod(-a - 1, d);
    lemma_mod_bound(-a - 1, d);
    assert(-a - 1 == d * q + r);
    assert(a == (-q - 1) * d + (d - 1 - r)) by (nonlinear_arith)
        requires
            -a - 1 == d * q + r,
    ;
    lemma_fundamental_div_mod_converse(a, d, -q - 1, d - 1 - r);
}

/// The quotient of `a` by `d`, rounded down.
fn floor_div(a: i64, d: i64) -> (q: i64)
    requires
        d > 0,
        a > i64::MIN,
    ensures
        q == a / d,
{
    if a >= 0 {
        a / d
    } else {
        let below: i64 = (-a - 1) / d;
        proof {
            lemma_floor_of_negative(a as int, d as int);
        }
        -below - 1
    }
}

impl Geometry {
    /// The geometry of an upright A4 page.
    pub fn a4() -> (g: Geometry)
        ensures
            g == a4(),
    {
        Geometry {
            page_width: 210_000,
            page_height: 297_000,
            margin_left: 30_000,
            margin_right: 12_000,
            margin_top: 35_000,
            margin_bottom: 10_000,
            title_clearance: 30_000,
            grid_base: 40_000,
            board_size: 75_000,
            caption_height: 12_000,
            caption_gap: 10_000,
        }
    }

    /// The width of a column of the grid.
    pub fn column_width(&self) -> (w: i64)
        ensures
            w == column_width(*self),
            -0x1_0000_0000 < w < 0x1_0000_0000,
    {
        floor_div(self.page_width as i64 - self.margin_left as i64 - self.margin_right as i64, 3)
    }

    /// The height of a row of the grid.
    pub fn row_height(&self) -> (h: i64)
        ensures
            h == row_height(*self),
            -0x1_0000_0000 < h < 0x1_0000_0000,
    {
        floor_div(
            self.page_height as i64 - self.margin_top as i64 - self.title_clearance as i64
                - self.margin_bottom as i64,
            3,
        )
    }

    /// The left edge of a diagram in column `col`.
    pub fn diagram_x(&self, col: usize) -> (x: i64)
        requires
            col < GRID_COLUMNS,
        ensures
            x == diagram_x(*self, col as int),
            -0x10_0000_0000 < x < 0x10_0000_0000,
    {
        let w: i64 = self.column_width();
        assert(-0x2_0000_0000 < col * w < 0x2_0000_0000) by (nonlinear_arith)
            requires
                0 <= col < 3,
                -0x1_0000_0000 < w < 0x1_0000_0000,
        ;
        self.margin_left as i64 + col as i64 * w + floor_div(w - self.board_size as i64, 2)
    }

    /// The lower edge of a diagram in row `row`.
    pub fn diagram_y(&self, row: usize) -> (y: i64)
        requires
            row < GRID_ROWS,
        ensures
            y == diagram_y(*self, row as int),
            -0x10_0000_0000 < y < 0x10_0000_0000,
    {
        let h: i64 = self.row_height();
        assert(-0x2_0000_0000 < (2 - row) * h < 0x2_0000_0000) by (nonlinear_arith)
            requires
                0 <= row < 3,
                -0x1_0000_0000 < h < 0x1_0000_0000,
        ;
        self.grid_base as i64 + (2 - row as i64) * h + floor_div(
            h - self.caption_height as i64 - self.caption_gap as i64,
            2,
        )
    }
}

/// The number of pages that `n` positions take.
pub fn count_pages(n: usize) -> (count: usize)
    ensures
        count == page_count(n as nat),
{
    if n % DIAGRAMS_PER_PAGE == 0 {
        n / DIAGRAMS_PER_PAGE
    } else {
        n / DIAGRAMS_PER_PAGE + 1
    }
}

/// The row and the column of the grid in which the diagram at place `i` of
/// a page stands.
pub fn grid_position(i: usize) -> (at: (usize, usize))
    requires
        i < DIAGRAMS_PER_PAGE,
    ensures
        at.0 == grid_row(i as int),
        at.1 == grid_col(i as int),
        at.0 < GRID_ROWS,
        at.1 < GRID_COLUMNS,
{
    (2 - i / 3, i % 3)
}

/// The left end of a centred text of `chars` characters.
fn centered(page_width: u32, char_width: i64, chars: usize) -> (x: i64)
    requires
        0 < char_width <= 10_000,
    ensures
        x == centered_x(page_width as int, char_width as int, chars as nat),
{
    assert(0 <= chars * char_width <= usize::MAX * 10_000) by (nonlinear_arith)
        requires
            0 <= chars <= usize::MAX,
            0 < char_width <= 10_000,
    ;
    let free: i128 = page_width as i128 - (chars as i128) * (char_width as i128);
    let half: i128 = if free >= 0 {
        free / 2
    } else {
        -((-free - 1) / 2) - 1
    };
    assert(half == free / 2);
    if half < i64::MIN as i128 {
        i64::MIN
    } else {
        half as i64
    }
}

/// The two lines of the caption of a position: the number and the caption
/// up to its first colon, and what follows the colon.
pub fn caption_lines(sequence_number: u64, caption: &str) -> (lines: (String, String))
    ensures
        lines.0@ == caption_first(sequence_number as nat, caption@),
        lines.1@ == caption_second(caption@),
{
    let chars = chars_of(caption);
    let s = chars.as_slice();
    let n: usize = s.len();
    let mut first: Vec<char> = decimal_digits(sequence_number);
    first.push('.');
    first.push(' ');
    assert(first@ =~= decimal(sequence_number as nat) + seq!['.', ' ']);
    match find_first(s, ':') {
        Some(k) => {
            proof {
                s@.index_of_first_ensures(':');
            }
            append_chars(&mut first, slice_subrange(s, 0, k + 1));
            let rest = trimmed(slice_subrange(s, k + 1, n));
            assert(s@.skip(k + 1) =~= s@.subrange(k + 1, s@.len() as int));
            assert(s@.take(k + 1) =~= s@.subrange(0, k + 1));
            (string_of(first.as_slice()), string_of(rest))
        },
        None => {
            append_chars(&mut first, s);
            (string_of(first.as_slice()), String::new())
        },
    }
}

/// The text of the page number of page `k` of `count`.
pub fn page_number(k: usize, count: usize) -> (text: String)
    requires
        k < count,
    ensures
        text@ == page_number_text(k as nat, count as nat),
{
    let mut chars: Vec<char> = decimal_digits(k as u64 + 1);
    chars.push('/');
    let total = decimal_digits(count as u64);
    append_chars(&mut chars, total.as_slice());
    assert(chars@ =~= page_number_text(k as nat, count as nat));
    string_of(chars.as_slice())
}

/// The labels of the files and of the ranks of a diagram whose lower left
/// corner is at `(x, y)`.
fn coordinate_labels(g: &Geometry, turned: bool, x: i64, y: i64) -> (labels: (
    Vec<Label>,
    Vec<Label>,
))
    requires
        -0x10_0000_0000 < x < 0x10_0000_0000,
        -0x10_0000_0000 < y < 0x10_0000_0000,
    ensures
        labels.0@ == Seq::new(8, |j: int| file_label(*g, turned, x as int, y as int, j)),
        labels.1@ == Seq::new(8, |j: int| rank_label(*g, turned, x as int, y as int, j)),
{
    let board: i64 = g.board_size as i64;
    let mut files: Vec<Label> = Vec::new();
    let mut ranks: Vec<Label> = Vec::new();
    let mut i: u8 = 0;
    while i < 8
        invariant
            i <= 8,
            board == g.board_size,
            -0x10_0000_0000 < x < 0x10_0000_0000,
            -0x10_0000_0000 < y < 0x10_0000_0000,
            files@.len() == i,
            ranks@.len() == i,
            forall|j: int|
                0 <= j < i ==> files@[j] == file_label(*g, turned, x as int, y as int, j),
            forall|j: int|
                0 <= j < i ==> ranks@[j] == rank_label(*g, turned, x as int, y as int, j),
        decreases 8 - i,
    {
        let letter: char = if turned {
            (104u8 - i) as char
        } else {
            (97u8 + i) as char
        };
        let digit: char = if turned {
            (49u8 + i) as char
        } else {
            (56u8 - i) as char
        };
        let step: i64 = i as i64;
        assert(0 <= board * (2 * step + 1) <= 15 * 0xffff_ffff) by (nonlinear_arith)
            requires
                0 <= board <= 0xffff_ffff,
                0 <= step < 8,
        ;
        assert(0 <= board * (4 * step + 1) <= 29 * 0xffff_ffff) by (nonlinear_arith)
            requires
                0 <= board <= 0xffff_ffff,
                0 <= step < 8,
        ;
        files.push(
            Label {
                symbol: letter,
                x: x + board * (2 * step + 1) / 23 - FILE_LABEL_SHIFT,
                y: y - FILE_LABEL_DROP,
            },
        );
        ranks.push(
            Label {
                symbol: digit,
                x: x - RANK_LABEL_SHIFT,
                y: y + board - RANK_LABEL_DROP - board * (4 * step + 1) / 46,
            },
        );
        i += 1;
    }
    assert(files@ =~= Seq::new(8, |j: int| file_label(*g, turned, x as int, y as int, j)));
    assert(ranks@ =~= Seq::new(8, |j: int| rank_label(*g, turned, x as int, y as int, j)));
    (files, ranks)
}

/// Places the diagram of `record` at place `i` of a page.
pub fn place_diagram(g: &Geometry, record: &PositionRecord, i: usize) -> (diagram: PlacedDiagram)
    requires
        i < DIAGRAMS_PER_PAGE,
    ensures
        diagram@ == placed(*g, record@, i as int),
{
    let (row, col) = grid_position(i);
    let x: i64 = g.diagram_x(col);
    let y: i64 = g.diagram_y(row);
    let (first, second) = caption_lines(record.sequence_number, record.caption.as_str());
    let mut caption: Vec<TextBlock> = Vec::new();
    caption.push(
        TextBlock { text: first, x, y: y - g.caption_gap as i64, font_size: CAPTION_FONT_SIZE },
    );
    if !second.as_str().is_empty() {
        caption.push(
            TextBlock {
                text: second,
                x,
                y: y - g.caption_gap as i64 - CAPTION_LINE_STEP,
                font_size: CAPTION_FONT_SIZE,
            },
        );
    }
    assert(text_views(caption@) =~= caption_blocks(*g, record@, x as int, y as int));
    let (file_labels, rank_labels) = coordinate_labels(g, record.side_to_move_is_second, x, y);
    PlacedDiagram {
        sequence_number: record.sequence_number,
        row,
        col,
        x,
        y,
        cells: diagram_cells(record),
        caption,
        file_labels,
        rank_labels,
    }
}

/// Lays the positions of `doc` out on pages, in their order, nine to a
/// page.
pub fn layout(doc: &StudyDocument, g: &Geometry) -> (pages: Vec<Page>)
    ensures
        page_views(pages@) == pages_of(*g, doc@),
{
    let n: usize = doc.records.len();
    let count: usize = count_pages(n);
    let title_chars: usize = doc.title.as_str().unicode_len();
    let mut pages: Vec<Page> = Vec::new();
    let mut k: usize = 0;
    while k < count
        invariant
            k <= count,
            n == doc.records@.len(),
            count == page_count(n as nat),
            title_chars == doc.title@.len(),
            pages@.len() == k,
            forall|j: int| 0 <= j < k ==> (#[trigger] pages@[j])@ == page_of(*g, doc@, j),
        decreases count - k,
    {
        let first: usize = k * DIAGRAMS_PER_PAGE;
        let on_page: usize = if n - first >= DIAGRAMS_PER_PAGE {
            DIAGRAMS_PER_PAGE
        } else {
            n - first
        };
        let mut diagrams: Vec<PlacedDiagram> = Vec::new();
        let mut i: usize = 0;
        while i < on_page
            invariant
                i <= on_page <= DIAGRAMS_PER_PAGE,
                first + on_page <= n,
                first == 9 * k,
                n == doc.records@.len(),
                diagrams@.len() == i,
                forall|j: int|
                    0 <= j < i ==> (#[trigger] diagrams@[j])@ == placed(
                        *g,
                        doc@.records[9 * k + j],
                        j,
                    ),
            decreases on_page - i,
        {
            let d = place_diagram(g, &doc.records[first + i], i);
            assert(doc@.records[9 * k + i] == doc.records@[first + i]@);
            diagrams.push(d);
            i += 1;
        }
        let number = page_number(k, count);
        let number_chars: usize = number.as_str().unicode_len();
        let page = Page {
            title: TextBlock {
                text: doc.title.clone(),
                x: centered(g.page_width, TITLE_CHAR_WIDTH, title_chars),
                y: g.page_height as i64 - TITLE_DROP,
                font_size: TITLE_FONT_SIZE,
            },
            page_number: TextBlock {
                text: number,
                x: centered(g.page_width, PAGE_NUMBER_CHAR_WIDTH, number_chars),
                y: PAGE_NUMBER_RISE,
                font_size: PAGE_NUMBER_FONT_SIZE,
            },
            diagrams,
        };
        assert(page@.diagrams =~= page_of(*g, doc@, k as int).diagrams);
        pages.push(page);
        k += 1;
    }
    assert(page_views(pages@) =~= pages_of(*g, doc@));
    pages
}

/// Whether a character of the title is kept in the name of the file.
pub open spec fn kept_in_file_name(c: char) -> bool {
    c != ' ' && c != '.'
}

/// The name of the file that holds the document: the title without its
/// spaces and full stops, and the ending `.pdf`.
pub open spec fn file_name(title: Seq<char>) -> Seq<char> {
    title.filter(|c: char| kept_in_file_name(c)) + ".pdf"@
}

/// The name of the file that holds the document of a study called `title`.
pub fn document_file_name(title: &str) -> (name: String)
    ensures
        name@ == file_name(title@),
{
    let chars = chars_of(title);
    let n: usize = chars.len();
    let mut kept: Vec<char> = Vec::new();
    let ghost keep = |c: char| kept_in_file_name(c);
    let mut i: usize = 0;
    while i < n
        invariant
            i <= n,
            n == chars@.len(),
            chars@ == title@,
            keep == |c: char| kept_in_file_name(c),
            kept@ == chars@.take(i as int).filter(keep),
        decreases n - i,
    {
        let c: char = chars[i];
        proof {
            assert(chars@.take(i + 1) =~= chars@.take(i as int).push(c));
            chars@.take(i as int).lemma_filter_push(c, keep);
        }
        if c != ' ' && c != '.' {
            kept.push(c);
        }
        i += 1;
    }
    assert(chars@.take(n as int) =~= chars@);
    let ending = chars_of(".pdf");
    append_chars(&mut kept, ending.as_slice());
    string_of(kept.as_slice())
}

/// The pages hold every position once and in order: the position at place
/// `j` of the study is diagram `j % 9` of page `j / 9`.
pub proof fn lemma_every_position_is_placed(g: Geometry, doc: DocumentView, j: int)
    requires
        0 <= j < doc.records.len(),
    ensures
        j / 9 < pages_of(g, doc).len(),
        j % 9 < pages_of(g, doc)[j / 9].diagrams.len(),
        pages_of(g, doc)[j / 9].diagrams[j % 9] == placed(g, doc.records[j], j % 9),
{
}

/// No page is empty, every page but the last is full, and the pages
/// together hold as many diagrams as the study has positions.
pub proof fn lemma_pages_are_filled(n: nat, k: int)
    requires
        0 <= k < page_count(n),
    ensures
        1 <= diagrams_on_page(n, k) <= 9,
        k < page_count(n) - 1 ==> diagrams_on_page(n, k) == 9,
        k == page_count(n) - 1 ==> 9 * k + diagrams_on_page(n, k) == n,
{
}

/// The nine places of a page fill the grid: each place has its own cell,
/// the places run from left to right in a row, and the rows from the bottom
/// of the page to the top.
pub proof fn lemma_grid(i: int)
    requires
        0 <= i < 9,
    ensures
        0 <= grid_row(i) < 3,
        0 <= grid_col(i) < 3,
        i == (2 - grid_row(i)) * 3 + grid_col(i),
{
}

/// A diagram in a lower row of the grid stands lower on the page, and a
/// diagram in a column further to the right stands further to the right,
/// as long as the margins leave room for rows and columns.
pub proof fn lemma_grid_order(g: Geometry, a: int, b: int)
    requires
        0 <= a < b < 3,
        row_height(g) > 0,
        column_width(g) > 0,
    ensures
        diagram_y(g, b) < diagram_y(g, a),
        diagram_x(g, a) < diagram_x(g, b),
{
    assert((2 - b) * row_height(g) < (2 - a) * row_height(g)) by (nonlinear_arith)
        requires
            a < b,
            row_height(g) > 0,
    ;
    assert(a * column_width(g) < b * column_width(g)) by (nonlinear_arith)
        requires
            a < b,
            column_width(g) > 0,
    ;
}

/// Turning the board turns both runs of labels round: the label at place
/// `i` of a turned diagram is the one at place `7 - i` of a diagram that is
/// not turned.
pub proof fn lemma_labels_turn(i: int)
    requires
        0 <= i < 8,
    ensures
        file_letter(true, i) == file_letter(false, 7 - i),
        rank_digit(true, i) == rank_digit(false, 7 - i),
        'a' <= file_letter(false, i) <= 'h',
        '1' <= rank_digit(false, i) <= '8',
{
}

/// Breaking a caption loses nothing but white space: with a colon, the part
/// on the first line and the part after it make up the caption, and the
/// second line is that second part, trimmed; without a colon, the first
/// line holds the whole caption and the second line is empty.
pub proof fn lemma_caption_parts(number: nat, caption: Seq<char>)
    ensures
        caption.contains(':') ==> exists|head: Seq<char>, tail: Seq<char>|
            #![trigger head + tail]
            {
                &&& head + tail == caption
                &&& head.len() > 0
                &&& head.last() == ':'
                &&& !head.drop_last().contains(':')
                &&& caption_first(number, caption) == decimal(number) + seq!['.', ' '] + head
                &&& caption_second(caption) == trim(tail)
            },
        !caption.contains(':') ==> caption_first(number, caption) == decimal(number) + seq![
            '.',
            ' ',
        ] + caption && caption_second(caption).len() == 0,
{
    caption.index_of_first_ensures(':');
    if caption.contains(':') {
        let k = caption.index_of_first(':')->Some_0;
        let head = caption.take(k + 1);
        let tail = caption.skip(k + 1);
        assert(head + tail =~= caption);
        assert forall|j: int| 0 <= j < head.drop_last().len() implies head.drop_last()[j]
            != ':' by {
            assert(head.drop_last()[j] == caption[j]);
        }
    }
}

} // verus!
