//! Moves and their four-character notation.

use crate::color::{digit_char, digit_text};
use crate::square::Square;
use vstd::prelude::*;
use vstd::string::{StrSliceExecFns, StringExecFns};

verus! {

/// A move: the piece on `from` goes to `to`.
#[derive(Clone, Copy, Debug, PartialEq, Eq, Hash, Structural)]
pub struct ChessMove {
    pub from: Square,
    pub to: Square,
}

impl ChessMove {
    /// Both squares lie on the board.
    pub open spec fn wf(self) -> bool {
        self.from.wf() && self.to.wf()
    }

    /// The move with both squares mirrored across the middle of the board.
    pub open spec fn flipped(self) -> ChessMove {
        ChessMove { from: self.from.flipped(), to: self.to.flipped() }
    }

    /// Mirrors both squares of the move across the middle of the board.
    pub fn flip_vertical(&mut self)
        requires
            old(self).wf(),
        ensures
            *final(self) == old(self).flipped(),
            final(self).wf(),
    {
        self.from = self.from.flip_vertical();
        self.to = self.to.flip_vertical();
    }
}

/// The capital letter that names a file: `A` for file 0 up to `H` for file 7.
pub open spec fn letter_of_file(file: u8) -> char
    recommends
        file < 8,
{
    (65 + file) as char
}

/// The name of a square: the letter of its file and the digit of its rank.
pub open spec fn text_of_square(sq: Square) -> Seq<char> {
    seq![letter_of_file(sq.file()), digit_char((sq.rank() + 1) as nat)]
}

/// The name of a move: the name of its source and then of its destination.
pub open spec fn text_of_move(mv: ChessMove) -> Seq<char> {
    text_of_square(mv.from) + text_of_square(mv.to)
}

/// The file that a letter names: `A` to `H` in either case give 0 to 7.
pub open spec fn file_of_letter(c: char) -> Option<u8> {
    if 'A' <= c <= 'H' {
        Some((c as u32 - 'A' as u32) as u8)
    } else if 'a' <= c <= 'h' {
        Some((c as u32 - 'a' as u32) as u8)
    } else {
        None
    }
}

/// The rank that a digit names: `1` to `8` give 0 to 7.
pub open spec fn rank_of_digit(c: char) -> Option<u8> {
    if '1' <= c <= '8' {
        Some((c as u32 - '1' as u32) as u8)
    } else {
        None
    }
}

/// The square that a file letter and a rank digit name.
pub open spec fn square_of_text(letter: char, digit: char) -> Option<Square> {
    match (file_of_letter(letter), rank_of_digit(digit)) {
        (Some(file), Some(rank)) => Some(Square::at(file as int, rank as int)),
        _ => None,
    }
}

/// The move that a text names: exactly four characters, the file letter and
/// rank digit of the source square and then those of the destination.
pub open spec fn move_of_text(text: Seq<char>) -> Option<ChessMove> {
    if text.len() != 4 {
        None
    } else {
        match (square_of_text(text[0], text[1]), square_of_text(text[2], text[3])) {
            (Some(from), Some(to)) => Some(ChessMove { from, to }),
            _ => None,
        }
    }
}

fn parse_file(c: char) -> (file: Option<u8>)
    ensures
        file == file_of_letter(c),
        file matches Some(f) ==> f < 8,
{
    if 'A' <= c && c <= 'H' {
        Some((c as u32 - 'A' as u32) as u8)
    } else if 'a' <= c && c <= 'h' {
        Some((c as u32 - 'a' as u32) as u8)
    } else {
        None
    }
}

fn parse_rank(c: char) -> (rank: Option<u8>)
    ensures
        rank == rank_of_digit(c),
        rank matches Some(r) ==> r < 8,
{
    if '1' <= c && c <= '8' {
        Some((c as u32 - '1' as u32) as u8)
    } else {
        None
    }
}

fn parse_square(letter: char, digit: char) -> (sq: Option<Square>)
    ensures
        sq == square_of_text(letter, digit),
        sq matches Some(s) ==> s.wf(),
{
    match (parse_file(letter), parse_rank(digit)) {
        (Some(file), Some(rank)) => Square::from_file_rank(file as usize, rank as usize),
        _ => None,
    }
}

fn file_text(file: u8) -> (text: &'static str)
    requires
        file < 8,
    ensures
        text@ == seq![letter_of_file(file)],
{
    proof {
        reveal_strlit("A");
        reveal_strlit("B");
        reveal_strlit("C");
        reveal_strlit("D");
        reveal_strlit("E");
        reveal_strlit("F");
        reveal_strlit("G");
        reveal_strlit("H");
    }
    let text = match file {
        0 => "A",
        1 => "B",
        2 => "C",
        3 => "D",
        4 => "E",
        5 => "F",
        6 => "G",
        _ => "H",
    };
    assert(text@ =~= seq![letter_of_file(file)]);
    text
}

fn append_square(text: &mut String, sq: Square)
    requires
        sq.wf(),
    ensures
        final(text)@ == old(text)@ + text_of_square(sq),
{
    text.append(file_text(sq.file()));
    text.append(digit_text(sq.rank() as u32 + 1));
    assert(text@ =~= old(text)@ + text_of_square(sq));
}

impl ChessMove {
    /// The move in four-character notation with capital letters, such as `A2A4`.
    pub fn notation(&self) -> (text: String)
        requires
            self.wf(),
        ensures
            text@ == text_of_move(*self),
    {
        let mut text = String::new();
        append_square(&mut text, self.from);
        append_square(&mut text, self.to);
        assert(text@ =~= text_of_move(*self));
        text
    }
}

/// The notation of a move reads back as that move.
pub proof fn notation_reads_back(mv: ChessMove)
    requires
        mv.wf(),
    ensures
        move_of_text(text_of_move(mv)) == Some(mv),
{
    let text = text_of_move(mv);
    assert(text.len() == 4);
    assert(text[0] == letter_of_file(mv.from.file()));
    assert(text[1] == digit_char((mv.from.rank() + 1) as nat));
    assert(text[2] == letter_of_file(mv.to.file()));
    assert(text[3] == digit_char((mv.to.rank() + 1) as nat));
}

/// The capital of a small Latin letter; any other character is left as it is.
pub open spec fn capital_of(c: char) -> char {
    if 'a' <= c <= 'z' {
        (c as u32 - 32) as char
    } else {
        c
    }
}

/// The case of the letters does not matter: a text names the same move as
/// the text with its letters in capitals.
pub proof fn letter_case_does_not_matter(text: Seq<char>)
    ensures
        move_of_text(text.map_values(|c: char| capital_of(c))) == move_of_text(text),
{
    let capitals = text.map_values(|c: char| capital_of(c));
    if text.len() == 4 {
        assert(capitals[0] == capital_of(text[0]));
        assert(capitals[1] == capital_of(text[1]));
        assert(capitals[2] == capital_of(text[2]));
        assert(capitals[3] == capital_of(text[3]));
        assert(file_of_letter(capitals[0]) == file_of_letter(text[0]));
        assert(rank_of_digit(capitals[1]) == rank_of_digit(text[1]));
        assert(file_of_letter(capitals[2]) == file_of_letter(text[2]));
        assert(rank_of_digit(capitals[3]) == rank_of_digit(text[3]));
    }
}

/// Reads a move in four-character notation, such as `A2A4` or `a2a4`.
///
/// Any other text is refused: a wrong length, a letter outside `A` to `H`, a
/// digit outside `1` to `8`, or anything after the fourth character.
pub fn parse_move(text: &str) -> (parsed: Result<ChessMove, ()>)
    ensures
        parsed matches Ok(mv) ==> move_of_text(text@) == Some(mv) && mv.wf(),
        parsed is Err ==> move_of_text(text@).is_none(),
{
    if text.unicode_len() != 4 {
        return Err(());
    }
    let from = parse_square(text.get_char(0), text.get_char(1));
    let to = parse_square(text.get_char(2), text.get_char(3));
    match (from, to) {
        (Some(from), Some(to)) => Ok(ChessMove { from, to }),
        _ => Err(()),
    }
}

} // verus!
