//! Decoding a board layout into a grid of eight ranks of eight squares.
//!
//! The layout gives the ranks from the far side to the near side, separated
//! by `/`. Within a rank a digit stands for that many blank squares, any
//! other character for one occupied square.

use crate::text::{chars_of, lemma_split_join, lemma_split_nonempty, split};
use vstd::prelude::*;

verus! {

/// The symbol of a blank square.
pub const BLANK: char = ' ';

/// Whether `c` is a decimal digit.
pub open spec fn is_digit(c: char) -> bool {
    '0' <= c <= '9'
}

/// The squares that one character of a rank stands for.
pub open spec fn squares_of(c: char) -> Seq<char> {
    if is_digit(c) {
        Seq::new((c as int - '0' as int) as nat, |i: int| BLANK)
    } else {
        seq![c]
    }
}

/// The squares that a rank stands for, however many they are.
pub open spec fn expand(rank: Seq<char>) -> Seq<char>
    decreases rank.len(),
{
    if rank.len() == 0 {
        Seq::<char>::empty()
    } else {
        expand(rank.drop_last()) + squares_of(rank.last())
    }
}

/// A row of blank squares.
pub open spec fn blank_row() -> Seq<char> {
    Seq::new(8, |i: int| BLANK)
}

/// The eight squares of a rank: what it stands for, cut off after the
/// eighth square or filled up with blank squares.
pub open spec fn rank_row(rank: Seq<char>) -> Seq<char> {
    (expand(rank) + blank_row()).take(8)
}

/// The eight rows of a board layout: the first eight ranks; ranks that are
/// missing are blank.
pub open spec fn board_rows(layout: Seq<char>) -> Seq<Seq<char>> {
    let ranks = split(layout, '/');
    Seq::new(
        8,
        |r: int|
            if r < ranks.len() {
                rank_row(ranks[r])
            } else {
                blank_row()
            },
    )
}

/// The rows of a grid.
pub open spec fn grid_rows(grid: [[char; 8]; 8]) -> Seq<Seq<char>> {
    Seq::new(8, |r: int| grid@[r]@)
}

/// One more character at the end of a rank changes its row only at the
/// cursor, and only if the row is not full.
proof fn lemma_rank_row_push(rank: Seq<char>, c: char)
    ensures
        expand(rank.push(c)) == expand(rank) + squares_of(c),
        expand(rank).len() >= 8 || is_digit(c) ==> rank_row(rank.push(c)) == rank_row(rank),
        expand(rank).len() < 8 && !is_digit(c) ==> rank_row(rank.push(c)) == rank_row(
            rank,
        ).update(expand(rank).len() as int, c),
{
    assert(rank.push(c).drop_last() =~= rank);
    assert(rank.push(c).last() == c);
    if expand(rank).len() >= 8 || is_digit(c) {
        assert(rank_row(rank.push(c)) =~= rank_row(rank));
    } else {
        assert(rank_row(rank.push(c)) =~= rank_row(rank).update(expand(rank).len() as int, c));
    }
}

/// Decodes a board layout given as characters.
///
/// Never fails: squares past the eighth of a rank and ranks past the eighth
/// are dropped, and what the layout leaves out is blank.
pub fn decode_layout(layout: &[char]) -> (board: [[char; 8]; 8])
    ensures
        grid_rows(board) == board_rows(layout@),
{
    let s = layout;
    let n: usize = s.len();
    let mut board: [[char; 8]; 8] = [[BLANK; 8]; 8];
    let mut rank: usize = 0;
    let mut file: usize = 0;
    let mut i: usize = 0;
    assert(rank_row(Seq::<char>::empty()) =~= blank_row());
    assert(s@.take(0) =~= Seq::<char>::empty());
    assert forall|r: int| 0 <= r < 8 implies (#[trigger] board@[r])@ == blank_row() by {
        assert(board@[r]@ =~= blank_row());
    }
    while i < n
        invariant
            i <= n,
            n == s@.len(),
            rank <= i,
            file <= 8,
            split(s@.take(i as int), '/').len() == rank + 1,
            forall|r: int|
                0 <= r <= rank && r < 8 ==> (#[trigger] board@[r])@ == rank_row(
                    split(s@.take(i as int), '/')[r],
                ),
            forall|r: int| rank < r < 8 ==> (#[trigger] board@[r])@ == blank_row(),
            rank < 8 ==> file == if expand(split(s@.take(i as int), '/').last()).len() < 8 {
                expand(split(s@.take(i as int), '/').last()).len()
            } else {
                8
            },
        decreases n - i,
    {
        let c: char = s[i];
        let ghost before = split(s@.take(i as int), '/');
        let ghost after = split(s@.take(i + 1), '/');
        proof {
            assert(s@.take(i + 1).drop_last() =~= s@.take(i as int));
            assert(s@.take(i + 1).last() == c);
            lemma_rank_row_push(before.last(), c);
            assert(rank_row(Seq::<char>::empty()) =~= blank_row());
        }
        if c == '/' {
            rank += 1;
            file = 0;
            assert(after == before.push(Seq::<char>::empty()));
        } else {
            assert(after == before.drop_last().push(before.last().push(c)));
            if rank < 8 {
                if '0' <= c && c <= '9' {
                    let d: usize = (c as u32 - '0' as u32) as usize;
                    file = if d > 8 - file {
                        8
                    } else {
                        file + d
                    };
                } else if file < 8 {
                    board[rank][file] = c;
                    file += 1;
                }
            }
        }
        i += 1;
    }
    proof {
        assert(s@.take(n as int) =~= s@);
        assert(grid_rows(board) =~= board_rows(layout@));
    }
    board
}

/// Decodes a board layout.
///
/// The result has eight rows of eight squares whatever the text holds: row
/// `r` is rank `r` of the layout, counted from 0 at its first rank.
pub fn parse_fen(fen_board: &str) -> (board: [[char; 8]; 8])
    ensures
        grid_rows(board) == board_rows(fen_board@),
{
    let chars = chars_of(fen_board);
    decode_layout(chars.as_slice())
}

/// Every character of a piece of a split text is a character of the text.
proof fn lemma_split_chars(s: Seq<char>, sep: char)
    ensures
        forall|i: int, j: int|
            0 <= i < split(s, sep).len() && 0 <= j < split(s, sep)[i].len() ==> s.contains(
                #[trigger] split(s, sep)[i][j],
            ),
    decreases s.len(),
{
    let pieces = split(s, sep);
    if s.len() > 0 {
        let before = split(s.drop_last(), sep);
        lemma_split_chars(s.drop_last(), sep);
        lemma_split_nonempty(s.drop_last(), sep);
        assert forall|i: int, j: int|
            0 <= i < pieces.len() && 0 <= j < pieces[i].len() implies s.contains(
            #[trigger] pieces[i][j],
        ) by {
            if s.last() != sep && i == pieces.len() - 1 && j == pieces[i].len() - 1 {
                assert(pieces[i][j] == s[s.len() - 1]);
            } else {
                assert(pieces[i][j] == before[i][j]);
                let k = choose|k: int| 0 <= k < s.drop_last().len() && s.drop_last()[k] == before[i][j];
                assert(s[k] == pieces[i][j]);
            }
        }
    }
}

/// A rank of digits stands for blank squares only.
proof fn lemma_expand_digits(rank: Seq<char>)
    requires
        forall|j: int| 0 <= j < rank.len() ==> is_digit(#[trigger] rank[j]),
    ensures
        forall|k: int| 0 <= k < expand(rank).len() ==> #[trigger] expand(rank)[k] == BLANK,
    decreases rank.len(),
{
    if rank.len() > 0 {
        assert forall|j: int| 0 <= j < rank.drop_last().len() implies is_digit(
            #[trigger] rank.drop_last()[j],
        ) by {
            assert(rank.drop_last()[j] == rank[j]);
        }
        lemma_expand_digits(rank.drop_last());
        assert(is_digit(rank[rank.len() - 1]));
        let front = expand(rank.drop_last());
        let back = squares_of(rank.last());
        assert forall|k: int| 0 <= k < expand(rank).len() implies #[trigger] expand(rank)[k]
            == BLANK by {
            if k < front.len() {
                assert(expand(rank)[k] == front[k]);
            } else {
                assert(expand(rank)[k] == back[k - front.len()]);
            }
        }
    }
}

/// A decoded board always has eight rows of eight squares.
pub proof fn lemma_board_shape(layout: Seq<char>)
    ensures
        board_rows(layout).len() == 8,
        forall|r: int| 0 <= r < 8 ==> (#[trigger] board_rows(layout)[r]).len() == 8,
{
}

/// A rank that stands for more than eight squares gives its first eight:
/// what is beyond them is dropped.
pub proof fn lemma_rank_overflow(rank: Seq<char>)
    requires
        expand(rank).len() >= 8,
    ensures
        rank_row(rank) == expand(rank).take(8),
{
    assert(rank_row(rank) =~= expand(rank).take(8));
}

/// A layout that holds nothing but digits and separators decodes to a board
/// of blank squares.
pub proof fn lemma_blank_layout(layout: Seq<char>)
    requires
        forall|k: int| 0 <= k < layout.len() ==> is_digit(#[trigger] layout[k]) || layout[k] == '/',
    ensures
        forall|r: int, f: int|
            0 <= r < 8 && 0 <= f < 8 ==> #[trigger] board_rows(layout)[r][f] == BLANK,
{
    let ranks = split(layout, '/');
    lemma_split_chars(layout, '/');
    lemma_split_join(layout, '/');
    assert forall|r: int, f: int| 0 <= r < 8 && 0 <= f < 8 implies #[trigger] board_rows(
        layout,
    )[r][f] == BLANK by {
        if r < ranks.len() {
            let rank = ranks[r];
            assert forall|j: int| 0 <= j < rank.len() implies is_digit(#[trigger] rank[j]) by {
                assert(layout.contains(ranks[r][j]));
                let k = choose|k: int| 0 <= k < layout.len() && layout[k] == rank[j];
                assert(is_digit(layout[k]) || layout[k] == '/');
                assert(!ranks[r].contains('/'));
            }
            lemma_expand_digits(rank);
            if f < expand(rank).len() {
                assert(rank_row(rank)[f] == expand(rank)[f]);
            }
        }
    }
}

} // verus!
