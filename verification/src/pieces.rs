//! The twelve pieces and the table of their images.
//!
//! A piece is written as one letter: upper case for the first side, lower
//! case for the second. The table maps each piece to the bytes of its
//! image; it is filled once and then only read.

use vstd::prelude::*;

verus! {

/// The six kinds of piece.
#[derive(Clone, Copy, Debug, PartialEq, Eq, Structural)]
pub enum PieceKind {
    King,
    Queen,
    Rook,
    Bishop,
    Knight,
    Pawn,
}

/// The two sides.
#[derive(Clone, Copy, Debug, PartialEq, Eq, Structural)]
pub enum Side {
    First,
    Second,
}

/// A piece: its kind and its side.
#[derive(Clone, Copy, Debug, PartialEq, Eq, Structural)]
pub struct Piece {
    pub kind: PieceKind,
    pub side: Side,
}

/// The kind that an upper-case letter names.
pub open spec fn kind_of(letter: char) -> Option<PieceKind> {
    if letter == 'K' {
        Some(PieceKind::King)
    } else if letter == 'Q' {
        Some(PieceKind::Queen)
    } else if letter == 'R' {
        Some(PieceKind::Rook)
    } else if letter == 'B' {
        Some(PieceKind::Bishop)
    } else if letter == 'N' {
        Some(PieceKind::Knight)
    } else if letter == 'P' {
        Some(PieceKind::Pawn)
    } else {
        None
    }
}

/// The upper-case letter of a lower-case ASCII letter.
pub open spec fn upper(letter: char) -> char
    recommends
        'a' <= letter <= 'z',
{
    (letter as int - 32) as char
}

/// The piece that a symbol names, if it names one.
pub open spec fn piece_of(symbol: char) -> Option<Piece> {
    if 'A' <= symbol <= 'Z' {
        match kind_of(symbol) {
            Some(kind) => Some(Piece { kind, side: Side::First }),
            None => None,
        }
    } else if 'a' <= symbol <= 'z' {
        match kind_of(upper(symbol)) {
            Some(kind) => Some(Piece { kind, side: Side::Second }),
            None => None,
        }
    } else {
        None
    }
}

/// The symbol that names a piece.
pub open spec fn symbol_of(piece: Piece) -> char {
    match (piece.side, piece.kind) {
        (Side::First, PieceKind::King) => 'K',
        (Side::First, PieceKind::Queen) => 'Q',
        (Side::First, PieceKind::Rook) => 'R',
        (Side::First, PieceKind::Bishop) => 'B',
        (Side::First, PieceKind::Knight) => 'N',
        (Side::First, PieceKind::Pawn) => 'P',
        (Side::Second, PieceKind::King) => 'k',
        (Side::Second, PieceKind::Queen) => 'q',
        (Side::Second, PieceKind::Rook) => 'r',
        (Side::Second, PieceKind::Bishop) => 'b',
        (Side::Second, PieceKind::Knight) => 'n',
        (Side::Second, PieceKind::Pawn) => 'p',
    }
}

/// The place of a piece in the table.
pub open spec fn slot(piece: Piece) -> int {
    let k: int = match piece.kind {
        PieceKind::King => 0,
        PieceKind::Queen => 1,
        PieceKind::Rook => 2,
        PieceKind::Bishop => 3,
        PieceKind::Knight => 4,
        PieceKind::Pawn => 5,
    };
    match piece.side {
        Side::First => k,
        Side::Second => k + 6,
    }
}

/// Symbols and pieces correspond one to one: a symbol names a piece exactly
/// when it is that piece's symbol, so exactly twelve symbols name one.
pub proof fn lemma_symbols(symbol: char, piece: Piece)
    ensures
        piece_of(symbol) == Some(piece) <==> symbol_of(piece) == symbol,
        piece_of(symbol_of(piece)) == Some(piece),
{
}

/// Different pieces have different places in the table, all below twelve.
pub proof fn lemma_slots(p: Piece, q: Piece)
    ensures
        0 <= slot(p) < 12,
        slot(p) == slot(q) ==> p == q,
{
}

/// The piece that `symbol` names.
pub fn piece_from_symbol(symbol: char) -> (r: Option<Piece>)
    ensures
        r == piece_of(symbol),
{
    match symbol {
        'K' => Some(Piece { kind: PieceKind::King, side: Side::First }),
        'Q' => Some(Piece { kind: PieceKind::Queen, side: Side::First }),
        'R' => Some(Piece { kind: PieceKind::Rook, side: Side::First }),
        'B' => Some(Piece { kind: PieceKind::Bishop, side: Side::First }),
        'N' => Some(Piece { kind: PieceKind::Knight, side: Side::First }),
        'P' => Some(Piece { kind: PieceKind::Pawn, side: Side::First }),
        'k' => Some(Piece { kind: PieceKind::King, side: Side::Second }),
        'q' => Some(Piece { kind: PieceKind::Queen, side: Side::Second }),
        'r' => Some(Piece { kind: PieceKind::Rook, side: Side::Second }),
        'b' => Some(Piece { kind: PieceKind::Bishop, side: Side::Second }),
        'n' => Some(Piece { kind: PieceKind::Knight, side: Side::Second }),
        'p' => Some(Piece { kind: PieceKind::Pawn, side: Side::Second }),
        _ => None,
    }
}

/// The place of `piece` in the table.
fn slot_of(piece: Piece) -> (i: usize)
    ensures
        i == slot(piece),
        i < 12,
{
    let k: usize = match piece.kind {
        PieceKind::King => 0,
        PieceKind::Queen => 1,
        PieceKind::Rook => 2,
        PieceKind::Bishop => 3,
        PieceKind::Knight => 4,
        PieceKind::Pawn => 5,
    };
    match piece.side {
        Side::First => k,
        Side::Second => k + 6,
    }
}

/// The images of the twelve pieces.
pub struct PieceImages {
    images: [Vec<u8>; 12],
}

impl PieceImages {
    /// The bytes of the image of `piece`.
    pub closed spec fn image(&self, piece: Piece) -> Seq<u8> {
        self.images@[slot(piece)]@
    }

    /// A table in which every image is empty.
    pub fn new() -> (t: PieceImages)
        ensures
            forall|p: Piece| (#[trigger] t.image(p)).len() == 0,
    {
        let t = PieceImages {
            images: [
                Vec::new(),
                Vec::new(),
                Vec::new(),
                Vec::new(),
                Vec::new(),
                Vec::new(),
                Vec::new(),
                Vec::new(),
                Vec::new(),
                Vec::new(),
                Vec::new(),
                Vec::new(),
            ],
        };
        assert forall|p: Piece| (#[trigger] t.image(p)).len() == 0 by {
            lemma_slots(p, p);
        }
        t
    }

    /// Sets the image of `piece`; the other images stay.
    pub fn set(&mut self, piece: Piece, data: Vec<u8>)
        ensures
            final(self).image(piece) == data@,
            forall|p: Piece| p != piece ==> final(self).image(p) == old(self).image(p),
    {
        let i: usize = slot_of(piece);
        self.images[i] = data;
        assert forall|p: Piece| p != piece implies self.image(p) == old(self).image(p) by {
            lemma_slots(p, piece);
        }
    }

    /// The image of `piece`.
    pub fn get(&self, piece: Piece) -> (data: &[u8])
        ensures
            data@ == self.image(piece),
    {
        self.images[slot_of(piece)].as_slice()
    }
}

/// The image of the piece that `piece` names, or `None` where the symbol
/// names no piece.
pub fn get_piece_png_data(images: &PieceImages, piece: char) -> (data: Option<&[u8]>)
    ensures
        match piece_of(piece) {
            Some(p) => data matches Some(bytes) && bytes@ == images.image(p),
            None => data is None,
        },
{
    match piece_from_symbol(piece) {
        Some(p) => Some(images.get(p)),
        None => None,
    }
}

} // verus!
