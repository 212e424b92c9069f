//! The text of a board for a colour terminal.
//!
//! Eight lines, the eighth rank first, each with the rank's number and eight
//! cells; then a line with the file letters. A cell is a three-character label
//! between a colour sequence and a reset sequence. The allies' pieces are
//! green, the enemies' red; the squares alternate between blue and black, with
//! blue in the upper left corner.

use crate::chess_board::ChessBoard;
use crate::color::{
    digit_char, digit_text, escape_code_text, get_color_escape_code, get_color_reset_code,
    reset_code_text, Color,
};
use crate::position::Position;
use crate::square::Square;
use vstd::prelude::*;
use vstd::string::StringExecFns;

verus! {

/// The background of the square at the given coordinates: blue where file
/// and rank differ by an odd number, black elsewhere.
pub open spec fn background_of(file: int, rank: int) -> Color {
    if (file + 7 - rank) % 2 == 0 {
        Color::Blue
    } else {
        Color::Black
    }
}

/// The line under the board that names the files.
pub open spec fn footer_text() -> Seq<char> {
    "   A  B  C  D  E  F  G  H\n"@
}

impl Position {
    /// The colour in which the piece on `sq` is written: green for an ally,
    /// red for an enemy, white for an empty square.
    pub open spec fn foreground_of(self, sq: Square) -> Color {
        if self.allies.contains(sq) {
            Color::Green
        } else if self.enemies.contains(sq) {
            Color::Red
        } else {
            Color::White
        }
    }

    /// The three characters that stand for what is on `sq`: the letter of the
    /// piece between two blanks, or three blanks. Where several kinds claim the
    /// square, the king comes first, then knight, rook, bishop, queen and pawn.
    pub open spec fn label_of(self, sq: Square) -> Seq<char> {
        if self.kings.contains(sq) {
            " K "@
        } else if self.knights.contains(sq) {
            " N "@
        } else if self.rooks.contains(sq) {
            " R "@
        } else if self.bishops.contains(sq) {
            " B "@
        } else if self.queens.contains(sq) {
            " Q "@
        } else if self.pawns.contains(sq) {
            " P "@
        } else {
            "   "@
        }
    }

    /// The text of one cell: colour sequence, label, reset sequence.
    pub open spec fn cell_text(self, file: int, rank: int) -> Seq<char> {
        let sq = Square::at(file, rank);
        escape_code_text(self.foreground_of(sq), background_of(file, rank)) + self.label_of(sq)
            + reset_code_text()
    }

    /// The cells of one rank, from the A file to the H file.
    pub open spec fn cells_text(self, rank: int) -> Seq<Seq<char>> {
        Seq::new(8, |file: int| self.cell_text(file, rank))
    }

    /// The line of one rank: its number, a blank, its eight cells, a line end.
    pub open spec fn row_text(self, rank: int) -> Seq<char> {
        seq![digit_char((rank + 1) as nat), ' '] + self.cells_text(rank).flatten() + seq!['\n']
    }

    /// The lines of the eight ranks, the eighth rank first.
    pub open spec fn rows_text(self) -> Seq<Seq<char>> {
        Seq::new(8, |row: int| self.row_text(7 - row))
    }

    /// The text of the whole board: the eight ranks and the line of file letters.
    pub open spec fn board_text(self) -> Seq<char> {
        self.rows_text().flatten() + footer_text()
    }
}

impl ChessBoard {
    fn label(&self, sq: Square) -> (label: &'static str)
        requires
            sq.wf(),
        ensures
            label@ == self@.label_of(sq),
    {
        if self.kings.contains(sq) {
            " K "
        } else if self.knights.contains(sq) {
            " N "
        } else if self.rooks.contains(sq) {
            " R "
        } else if self.bishops.contains(sq) {
            " B "
        } else if self.queens.contains(sq) {
            " Q "
        } else if self.pawns.contains(sq) {
            " P "
        } else {
            "   "
        }
    }

    fn append_cell(&self, text: &mut String, file: u8, rank: u8)
        requires
            file < 8,
            rank < 8,
        ensures
            final(text)@ == old(text)@ + self@.cell_text(file as int, rank as int),
    {
        let sq = Square { index: rank * 8 + file };
        let foreground = if self.allies.contains(sq) {
            Color::Green
        } else if self.enemies.contains(sq) {
            Color::Red
        } else {
            Color::White
        };
        let background = if (file + 7 - rank) % 2 == 0 {
            Color::Blue
        } else {
            Color::Black
        };
        text.append(get_color_escape_code(foreground, background).as_str());
        text.append(self.label(sq));
        text.append(get_color_reset_code().as_str());
        assert(text@ =~= old(text)@ + self@.cell_text(file as int, rank as int));
    }

    fn append_row(&self, text: &mut String, rank: u8)
        requires
            rank < 8,
        ensures
            final(text)@ == old(text)@ + self@.row_text(rank as int),
    {
        proof {
            reveal_strlit(" ");
            reveal_strlit("\n");
        }
        text.append(digit_text(rank as u32 + 1));
        text.append(" ");
        let ghost cells = self@.cells_text(rank as int);
        let ghost start = text@;
        let mut file: u8 = 0;
        assert(cells.take(0).flatten() =~= Seq::<char>::empty());
        while file < 8
            invariant
                file <= 8,
                rank < 8,
                cells == self@.cells_text(rank as int),
                text@ == start + cells.take(file as int).flatten(),
            decreases 8 - file,
        {
            self.append_cell(text, file, rank);
            proof {
                assert(cells.take(file + 1) =~= cells.take(file as int).push(cells[file as int]));
                cells.take(file as int).lemma_flatten_push(cells[file as int]);
            }
            file = file + 1;
        }
        assert(cells.take(8) =~= cells);
        text.append("\n");
        assert(text@ =~= old(text)@ + self@.row_text(rank as int));
    }

    /// The text that shows the board on a colour terminal: the eight ranks
    /// from the eighth down, each with its number, then the file letters.
    pub fn render(&self) -> (text: String)
        ensures
            text@ == self@.board_text(),
    {
        let mut text = String::new();
        let ghost rows = self@.rows_text();
        let mut row: u8 = 0;
        assert(rows.take(0).flatten() =~= Seq::<char>::empty());
        while row < 8
            invariant
                row <= 8,
                rows == self@.rows_text(),
                text@ == rows.take(row as int).flatten(),
            decreases 8 - row,
        {
            self.append_row(&mut text, 7 - row);
            proof {
                assert(rows.take(row + 1) =~= rows.take(row as int).push(rows[row as int]));
                rows.take(row as int).lemma_flatten_push(rows[row as int]);
            }
            row = row + 1;
        }
        assert(rows.take(8) =~= rows);
        text.append("   A  B  C  D  E  F  G  H\n");
        text
    }
}

} // verus!
