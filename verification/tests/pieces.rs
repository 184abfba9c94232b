use chess_study::pieces::{
    get_piece_png_data, piece_from_symbol, Piece, PieceImages, PieceKind, Side,
};

fn all_pieces() -> Vec<(char, Piece)> {
    let kinds = [
        ('k', PieceKind::King),
        ('q', PieceKind::Queen),
        ('r', PieceKind::Rook),
        ('b', PieceKind::Bishop),
        ('n', PieceKind::Knight),
        ('p', PieceKind::Pawn),
    ];
    let mut all = Vec::new();
    for (letter, kind) in kinds {
        all.push((letter.to_ascii_uppercase(), Piece { kind, side: Side::First }));
        all.push((letter, Piece { kind, side: Side::Second }));
    }
    all
}

#[test]
fn twelve_symbols_name_pieces() {
    for (symbol, piece) in all_pieces() {
        assert_eq!(piece_from_symbol(symbol), Some(piece));
    }
    let mut named = 0;
    for code in 0..=0x10FFFFu32 {
        if let Some(c) = char::from_u32(code) {
            if piece_from_symbol(c).is_some() {
                named += 1;
            }
        }
    }
    assert_eq!(named, 12);
}

#[test]
fn other_symbols_name_no_piece() {
    for symbol in [' ', 'x', 'A', 'z', '1', '8', '/', '\u{2654}', 'K' as u8 as char] {
        if symbol == 'K' {
            continue;
        }
        assert_eq!(piece_from_symbol(symbol), None);
    }
}

#[test]
fn new_table_holds_empty_images() {
    let images = PieceImages::new();
    for (symbol, piece) in all_pieces() {
        assert!(images.get(piece).is_empty());
        assert_eq!(get_piece_png_data(&images, symbol), Some(&[][..]));
    }
}

#[test]
fn table_gives_back_what_was_set() {
    let mut images = PieceImages::new();
    for (i, (_, piece)) in all_pieces().into_iter().enumerate() {
        images.set(piece, vec![i as u8, 0x50, 0x4e, 0x47]);
    }
    for (i, (symbol, piece)) in all_pieces().into_iter().enumerate() {
        assert_eq!(images.get(piece), &[i as u8, 0x50, 0x4e, 0x47]);
        assert_eq!(get_piece_png_data(&images, symbol), Some(&[i as u8, 0x50, 0x4e, 0x47][..]));
    }
}

#[test]
fn setting_one_image_leaves_the_others() {
    let mut images = PieceImages::new();
    let rook = Piece { kind: PieceKind::Rook, side: Side::Second };
    images.set(rook, vec![1, 2, 3]);
    for (_, piece) in all_pieces() {
        if piece == rook {
            assert_eq!(images.get(piece), &[1, 2, 3]);
        } else {
            assert!(images.get(piece).is_empty());
        }
    }
    images.set(rook, vec![9]);
    assert_eq!(get_piece_png_data(&images, 'r'), Some(&[9u8][..]));
    assert_eq!(get_piece_png_data(&images, 'R'), Some(&[][..]));
}

#[test]
fn unknown_symbol_has_no_image() {
    let images = PieceImages::new();
    assert_eq!(get_piece_png_data(&images, ' '), None);
    assert_eq!(get_piece_png_data(&images, 'x'), None);
    assert_eq!(get_piece_png_data(&images, '1'), None);
}
