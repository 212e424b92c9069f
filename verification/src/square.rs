//! Squares of the 8×8 board.
//!
//! A square is identified by its index `rank * 8 + file`, where file 0 is the
//! A file and rank 0 is the first rank.

use vstd::prelude::*;

verus! {

/// One square of the board.
#[derive(Clone, Copy, Debug, PartialEq, Eq, Hash, Structural)]
pub struct Square {
    /// `rank * 8 + file`; below 64 for every square on the board.
    pub index: u8,
}

/// Whether the coordinates name a square of the board.
pub open spec fn on_board(file: int, rank: int) -> bool {
    0 <= file < 8 && 0 <= rank < 8
}

impl Square {
    /// The square lies on the board.
    pub open spec fn wf(self) -> bool {
        self.index < 64
    }

    /// The square at the given coordinates.
    pub open spec fn at(file: int, rank: int) -> Square
        recommends
            on_board(file, rank),
    {
        Square { index: (rank * 8 + file) as u8 }
    }

    /// The square's file, 0 for the A file up to 7 for the H file.
    pub open spec fn spec_file(self) -> u8 {
        self.index % 8
    }

    /// The square's rank, 0 for the first rank up to 7 for the eighth.
    pub open spec fn spec_rank(self) -> u8 {
        self.index / 8
    }

    /// The square on the same file, mirrored across the middle of the board.
    pub open spec fn flipped(self) -> Square {
        Square::at(self.spec_file() as int, 7 - self.spec_rank())
    }

    /// Whether the square `dx` files and `dy` ranks away is still on the board.
    pub open spec fn can_shift(self, dx: int, dy: int) -> bool {
        on_board(self.spec_file() + dx, self.spec_rank() + dy)
    }

    /// The square `dx` files and `dy` ranks away.
    pub open spec fn shifted(self, dx: int, dy: int) -> Square
        recommends
            self.can_shift(dx, dy),
    {
        Square::at(self.spec_file() + dx, self.spec_rank() + dy)
    }

    /// The square at the given file and rank, or `None` when either is off the board.
    pub fn from_file_rank(file: usize, rank: usize) -> (sq: Option<Square>)
        ensures
            on_board(file as int, rank as int) ==> sq == Some(Square::at(file as int, rank as int)),
            !on_board(file as int, rank as int) ==> sq.is_none(),
            sq matches Some(s) ==> s.wf(),
    {
        if file < 8 && rank < 8 {
            Some(Square { index: (rank * 8 + file) as u8 })
        } else {
            None
        }
    }

    #[verifier::when_used_as_spec(spec_file)]
    pub fn file(self) -> (f: u8)
        ensures
            f == self.spec_file(),
    {
        self.index % 8
    }

    #[verifier::when_used_as_spec(spec_rank)]
    pub fn rank(self) -> (r: u8)
        ensures
            r == self.spec_rank(),
    {
        self.index / 8
    }

    /// Mirrors the square across the middle of the board: rank `r` becomes `7 - r`.
    pub fn flip_vertical(self) -> (sq: Square)
        requires
            self.wf(),
        ensures
            sq == self.flipped(),
            sq.wf(),
    {
        Square { index: (7 - self.rank()) * 8 + self.file() }
    }

    /// The square `dx` files and `dy` ranks away, or `None` when that leaves the board.
    pub fn shift(self, dx: i8, dy: i8) -> (sq: Option<Square>)
        requires
            self.wf(),
        ensures
            self.can_shift(dx as int, dy as int) ==> sq == Some(
                self.shifted(dx as int, dy as int),
            ),
            !self.can_shift(dx as int, dy as int) ==> sq.is_none(),
            sq matches Some(s) ==> s.wf(),
    {
        let file: i16 = self.file() as i16 + dx as i16;
        let rank: i16 = self.rank() as i16 + dy as i16;
        if 0 <= file && file < 8 && 0 <= rank && rank < 8 {
            Some(Square { index: (rank * 8 + file) as u8 })
        } else {
            None
        }
    }
}

/// Any square of the board is reached from `from` by shifting it by the
/// difference of their coordinates, and a shift that stays on the board
/// changes the coordinates by just that much.
pub proof fn lemma_shift_between(from: Square, to: Square)
    requires
        from.wf(),
    ensures
        to.wf() ==> from.can_shift(to.file() - from.file(), to.rank() - from.rank()) && to
            == from.shifted(to.file() - from.file(), to.rank() - from.rank()),
        forall|dx: int, dy: int| #[trigger]
            from.can_shift(dx, dy) ==> from.shifted(dx, dy).wf() && from.shifted(dx, dy).file()
                == from.file() + dx && from.shifted(dx, dy).rank() == from.rank() + dy,
{
}

/// Mirroring twice gives the square back.
pub proof fn lemma_flipped_twice(sq: Square)
    requires
        sq.wf(),
    ensures
        sq.flipped().wf(),
        sq.flipped().file() == sq.file(),
        sq.flipped().rank() == 7 - sq.rank(),
        sq.flipped().flipped() == sq,
{
}

} // verus!
