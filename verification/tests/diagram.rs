use chess_study::diagram::{board_field_of, diagram_cells, rgb_from_rgba, Cell, Rgb, BOARD_PIXELS, CELL_PIXELS};
use chess_study::pieces::{Piece, PieceKind, Side};
use chess_study::study::PositionRecord;

fn record(board_string: &str, side_to_move_is_second: bool) -> PositionRecord {
    PositionRecord {
        sequence_number: 1,
        caption: String::from("c"),
        board_string: String::from(board_string),
        side_to_move_is_second,
    }
}

#[test]
fn diagram_has_sixty_four_cells_in_reading_order() {
    let cells = diagram_cells(&record("8/8/8/8/8/8/8/8 w - - 0 1", false));
    assert_eq!(cells.len(), 64);
    assert_eq!(BOARD_PIXELS, 8 * CELL_PIXELS);
    for (k, cell) in cells.iter().enumerate() {
        assert_eq!(cell.x, (k as u32 % 8) * 75);
        assert_eq!(cell.y, (k as u32 / 8) * 75);
        assert_eq!(cell.symbol, ' ');
    }
}

#[test]
fn cells_alternate_like_a_chessboard() {
    for turned in [false, true] {
        let cells = diagram_cells(&record("8/8/8/8/8/8/8/8 w - - 0 1", turned));
        for r in 0..8 {
            for c in 0..8 {
                assert_eq!(cells[r * 8 + c].light, (r + c) % 2 == 0);
            }
        }
    }
}

#[test]
fn cell_colours_are_white_and_light_grey() {
    let cells = diagram_cells(&record("8/8/8/8/8/8/8/8 w - - 0 1", false));
    assert_eq!(cells[0].color(), Rgb { red: 255, green: 255, blue: 255 });
    assert_eq!(cells[1].color(), Rgb { red: 221, green: 221, blue: 221 });
}

#[test]
fn occupants_stand_where_the_layout_puts_them() {
    let cells = diagram_cells(&record("r3k2r/8/8/8/8/8/8/R2QK2R w KQkq - 0 1", false));
    assert_eq!(cells[0].symbol, 'r');
    assert_eq!(cells[4].symbol, 'k');
    assert_eq!(cells[7].symbol, 'r');
    assert_eq!(cells[56].symbol, 'R');
    assert_eq!(cells[59].symbol, 'Q');
    assert_eq!(cells[60].symbol, 'K');
    assert_eq!(cells[8].symbol, ' ');
    assert_eq!(
        cells[59],
        Cell { x: 225, y: 525, light: (7 + 3) % 2 == 0, symbol: 'Q' }
    );
}

#[test]
fn turned_diagram_is_reflected_through_the_centre() {
    let position = "rnbqkbnr/pp1ppppp/8/2p5/4P3/5N2/PPPP1PPP/RNBQKB1R b KQkq - 1 2";
    let turned = diagram_cells(&record(position, true));
    let straight = diagram_cells(&record(position, false));
    for r in 0..8 {
        for c in 0..8 {
            let a = turned[r * 8 + c];
            let b = straight[(7 - r) * 8 + (7 - c)];
            assert_eq!(a.symbol, b.symbol);
            assert_eq!(a.light, b.light);
            assert_eq!(a.x, c as u32 * 75);
            assert_eq!(a.y, r as u32 * 75);
        }
    }
    assert_eq!(turned[0].symbol, 'R');
    assert_eq!(turned[63].symbol, 'r');
    assert_eq!(turned[1].symbol, ' ');
    assert_eq!(turned[6].symbol, 'N');
}

#[test]
fn only_the_first_field_is_the_layout() {
    let chars: Vec<char> = "8/8/8/8/8/8/8/K7 b - - 0 1".chars().collect();
    let field: String = board_field_of(&chars).iter().collect();
    assert_eq!(field, "8/8/8/8/8/8/8/K7");
    let chars: Vec<char> = "8/8".chars().collect();
    assert_eq!(board_field_of(&chars).len(), 3);
    let chars: Vec<char> = " 8/8".chars().collect();
    assert_eq!(board_field_of(&chars).len(), 0);
    let cells = diagram_cells(&record("k7/8/8/8/8/8/8/8 w KQkq - 0 1", false));
    assert_eq!(cells[0].symbol, 'k');
    for cell in &cells[1..] {
        assert_eq!(cell.symbol, ' ');
    }
}

#[test]
fn glyph_is_the_piece_of_the_symbol() {
    let cells = diagram_cells(&record("kx6/8/8/8/8/8/8/7P w", false));
    assert_eq!(cells[0].glyph(), Some(Piece { kind: PieceKind::King, side: Side::Second }));
    assert_eq!(cells[1].glyph(), None);
    assert_eq!(cells[2].glyph(), None);
    assert_eq!(cells[63].glyph(), Some(Piece { kind: PieceKind::Pawn, side: Side::First }));
}

#[test]
fn opacity_is_dropped_from_pixels() {
    assert_eq!(rgb_from_rgba(&[1, 2, 3, 255, 4, 5, 6, 0]), vec![1, 2, 3, 4, 5, 6]);
    assert_eq!(rgb_from_rgba(&[]), Vec::<u8>::new());
    assert_eq!(rgb_from_rgba(&[1, 2, 3]), Vec::<u8>::new());
    assert_eq!(rgb_from_rgba(&[9, 8, 7, 6, 5]), vec![9, 8, 7]);
    let image: Vec<u8> = (0..600u32 * 600 * 4).map(|k| (k % 251) as u8).collect();
    let rgb = rgb_from_rgba(&image);
    assert_eq!(rgb.len(), 600 * 600 * 3);
    assert_eq!(rgb[3 * 1000 + 2], image[4 * 1000 + 2]);
}
