//! The mathematical model of a chess position.
//!
//! A position is eight sets of squares: one per piece kind, holding the
//! squares of both sides' pieces of that kind, and one per side. The sides are
//! relative: the allies are the side to move, the enemies the other. All rules
//! are written for the allies, who play up the board; the enemies' moves are
//! the allies' moves of the mirrored position, mirrored back.

use crate::chess_move::ChessMove;
use crate::rays::{anti_diagonal_ray_of, diagonal_ray_of, horizontal_ray_of, vertical_ray_of};
use crate::square::{lemma_shift_between, Square};
use crate::square_set::{complement_of, flip_of, squares_of, within_board};
use vstd::prelude::*;

verus! {

/// The six kinds of chess pieces.
#[derive(Clone, Copy, Debug, PartialEq, Eq, Structural)]
pub enum PieceKind {
    Pawn,
    Knight,
    Bishop,
    Rook,
    Queen,
    King,
}

/// The static value of a position for the side to move.
#[derive(Clone, Copy, Debug, PartialEq, Eq, Structural)]
pub enum Score {
    /// The opponent has no king left.
    Win,
    /// The side to move has no king left.
    Lose,
    /// Both kings stand; the value is the balance of material.
    Heuristic(i32),
}

/// A chess position as sets of squares.
#[verifier::ext_equal]
pub struct Position {
    pub pawns: Set<Square>,
    pub knights: Set<Square>,
    pub rooks: Set<Square>,
    pub bishops: Set<Square>,
    pub queens: Set<Square>,
    pub kings: Set<Square>,
    pub enemies: Set<Square>,
    pub allies: Set<Square>,
}

/// What a move does to one set of squares: the destination leaves the set,
/// and if the source is in the set it is replaced by the destination.
pub open spec fn relocate_of(set: Set<Square>, mv: ChessMove) -> Set<Square> {
    let cleared = set.remove(mv.to);
    if cleared.contains(mv.from) {
        cleared.remove(mv.from).insert(mv.to)
    } else {
        cleared
    }
}

/// The jumps of a knight, each as a change of file and a change of rank.
pub const KNIGHT_STEPS: [(i8, i8); 8] = [
    (2, 1),
    (1, 2),
    (-1, 2),
    (-2, 1),
    (-2, -1),
    (-1, -2),
    (1, -2),
    (2, -1),
];

/// The steps of a king, each as a change of file and a change of rank.
pub const KING_STEPS: [(i8, i8); 8] = [
    (0, 1),
    (0, -1),
    (-1, 0),
    (1, 0),
    (1, 1),
    (-1, -1),
    (-1, 1),
    (1, -1),
];

/// The push of a pawn, as a change of file and a change of rank.
pub const PAWN_PUSHES: [(i8, i8); 1] = [(0, 1)];

/// The captures of a pawn, each as a change of file and a change of rank.
pub const PAWN_CAPTURES: [(i8, i8); 2] = [(-1, 1), (1, 1)];

/// Whether the table `steps` holds the step of `dx` files and `dy` ranks.
pub open spec fn is_step(steps: Seq<(i8, i8)>, dx: int, dy: int) -> bool {
    exists|i: int| 0 <= i < steps.len() && (#[trigger] steps[i]).0 == dx && steps[i].1 == dy
}

/// Step `i` of the table takes `from` to `to`, on the board and in `allowed`.
pub open spec fn step_lands(
    from: Square,
    steps: Seq<(i8, i8)>,
    i: int,
    allowed: Set<Square>,
    to: Square,
) -> bool {
    &&& 0 <= i < steps.len()
    &&& from.can_shift(steps[i].0 as int, steps[i].1 as int)
    &&& to == from.shifted(steps[i].0 as int, steps[i].1 as int)
    &&& allowed.contains(to)
}

/// Some step of the table takes `from` to `to`, on the board and in `allowed`.
pub open spec fn step_reaches(
    from: Square,
    steps: Seq<(i8, i8)>,
    allowed: Set<Square>,
    to: Square,
) -> bool {
    exists|i: int| step_lands(from, steps, i, allowed, to)
}

/// The squares that a step of the table reaches from `from`, on the board
/// and in `allowed`.
pub open spec fn step_targets_of(from: Square, steps: Seq<(i8, i8)>, allowed: Set<Square>) -> Set<
    Square,
> {
    Set::new(|to: Square| step_reaches(from, steps, allowed, to))
}

/// A step of the table reaches `to` exactly when `to` is on the board and in
/// `allowed` and the table holds the difference of the two squares.
pub proof fn lemma_step_targets(from: Square, steps: Seq<(i8, i8)>, allowed: Set<Square>, to: Square)
    requires
        from.wf(),
    ensures
        step_targets_of(from, steps, allowed).contains(to) <==> to.wf() && allowed.contains(to)
            && is_step(steps, to.file() - from.file(), to.rank() - from.rank()),
{
    lemma_shift_between(from, to);
    let dx = to.file() - from.file();
    let dy = to.rank() - from.rank();
    if step_reaches(from, steps, allowed, to) {
        let i = choose|i: int| step_lands(from, steps, i, allowed, to);
        assert(steps[i].0 == dx && steps[i].1 == dy);
    }
    if to.wf() && allowed.contains(to) && is_step(steps, dx, dy) {
        let i = choose|i: int| 0 <= i < steps.len() && (#[trigger] steps[i]).0 == dx && steps[i].1
            == dy;
        assert(step_lands(from, steps, i, allowed, to));
    }
}

/// The eight jumps of a knight are exactly the steps of its table.
pub proof fn lemma_knight_steps(dx: int, dy: int)
    ensures
        is_step(KNIGHT_STEPS@, dx, dy) <==> ((dx == 1 || dx == -1) && (dy == 2 || dy == -2)) || ((dx
            == 2 || dx == -2) && (dy == 1 || dy == -1)),
{
    let steps = KNIGHT_STEPS@;
    assert(steps.len() == 8);
    assert(steps[0] == (2i8, 1i8) && steps[1] == (1i8, 2i8) && steps[2] == (-1i8, 2i8) && steps[3]
        == (-2i8, 1i8));
    assert(steps[4] == (-2i8, -1i8) && steps[5] == (-1i8, -2i8) && steps[6] == (1i8, -2i8)
        && steps[7] == (2i8, -1i8));
    if is_step(steps, dx, dy) {
        let i = choose|i: int| 0 <= i < steps.len() && steps[i].0 == dx && steps[i].1 == dy;
        assert(0 <= i < 8);
    }
}

/// The eight steps of a king are exactly the steps of its table.
pub proof fn lemma_king_steps(dx: int, dy: int)
    ensures
        is_step(KING_STEPS@, dx, dy) <==> -1 <= dx <= 1 && -1 <= dy <= 1 && !(dx == 0 && dy == 0),
{
    let steps = KING_STEPS@;
    assert(steps.len() == 8);
    assert(steps[0] == (0i8, 1i8) && steps[1] == (0i8, -1i8) && steps[2] == (-1i8, 0i8) && steps[3]
        == (1i8, 0i8));
    assert(steps[4] == (1i8, 1i8) && steps[5] == (-1i8, -1i8) && steps[6] == (-1i8, 1i8)
        && steps[7] == (1i8, -1i8));
    if is_step(steps, dx, dy) {
        let i = choose|i: int| 0 <= i < steps.len() && steps[i].0 == dx && steps[i].1 == dy;
        assert(0 <= i < 8);
    }
}

/// A pawn's push is one rank straight up; its captures are one rank up and
/// one file to either side.
pub proof fn lemma_pawn_steps(dx: int, dy: int)
    ensures
        is_step(PAWN_PUSHES@, dx, dy) <==> dx == 0 && dy == 1,
        is_step(PAWN_CAPTURES@, dx, dy) <==> (dx == 1 || dx == -1) && dy == 1,
{
    let pushes = PAWN_PUSHES@;
    let captures = PAWN_CAPTURES@;
    assert(pushes.len() == 1 && pushes[0] == (0i8, 1i8));
    assert(captures.len() == 2 && captures[0] == (-1i8, 1i8) && captures[1] == (1i8, 1i8));
}

/// Whether `to` is a knight's jump away from `from`.
pub open spec fn knight_jump(from: Square, to: Square) -> bool {
    let df = to.file() - from.file();
    let dr = to.rank() - from.rank();
    ((df == 1 || df == -1) && (dr == 2 || dr == -2)) || ((df == 2 || df == -2) && (dr == 1 || dr
        == -1))
}

/// Whether `to` is one of the eight squares next to `from`.
pub open spec fn king_step(from: Square, to: Square) -> bool {
    let df = to.file() - from.file();
    let dr = to.rank() - from.rank();
    -1 <= df <= 1 && -1 <= dr <= 1 && !(df == 0 && dr == 0)
}

/// The moves from `from` to each square of `targets`, by ascending destination.
pub open spec fn moves_from(from: Square, targets: Set<Square>) -> Seq<ChessMove> {
    squares_of(targets).map_values(|to: Square| ChessMove { from, to })
}

impl Position {
    /// The squares that hold a piece of the given kind, of either side.
    pub open spec fn kind(self, kind: PieceKind) -> Set<Square> {
        match kind {
            PieceKind::Pawn => self.pawns,
            PieceKind::Knight => self.knights,
            PieceKind::Bishop => self.bishops,
            PieceKind::Rook => self.rooks,
            PieceKind::Queen => self.queens,
            PieceKind::King => self.kings,
        }
    }

    /// The squares that hold a piece of either side.
    pub open spec fn occupied(self) -> Set<Square> {
        self.allies.union(self.enemies)
    }

    /// The squares that hold a piece of some kind.
    pub open spec fn pieces(self) -> Set<Square> {
        Set::new(|sq: Square| exists|kind: PieceKind| #[trigger] self.kind(kind).contains(sq))
    }

    /// All eight sets hold squares of the board only.
    pub open spec fn on_board(self) -> bool {
        &&& within_board(self.pawns)
        &&& within_board(self.knights)
        &&& within_board(self.rooks)
        &&& within_board(self.bishops)
        &&& within_board(self.queens)
        &&& within_board(self.kings)
        &&& within_board(self.enemies)
        &&& within_board(self.allies)
    }

    /// No square belongs to both sides.
    pub open spec fn sides_disjoint(self) -> bool {
        self.allies.disjoint(self.enemies)
    }

    /// The position is consistent: no square belongs to both sides, every
    /// piece belongs to a side, every square of a side holds a piece, and no
    /// square holds pieces of two kinds.
    pub open spec fn wf(self) -> bool {
        &&& self.on_board()
        &&& self.sides_disjoint()
        &&& self.pieces() == self.occupied()
        &&& forall|a: PieceKind, b: PieceKind| a != b ==> #[trigger] self.kind(a).disjoint(#[trigger] self.kind(b))
    }

    /// The position at the start of a game, with the allies on the first two
    /// ranks and the enemies on the last two.
    pub open spec fn initial() -> Position {
        Position {
            pawns: Set::new(|sq: Square| sq.wf() && (sq.rank() == 1 || sq.rank() == 6)),
            knights: Set::new(
                |sq: Square|
                    sq.wf() && (sq.rank() == 0 || sq.rank() == 7) && (sq.file() == 1 || sq.file()
                        == 6),
            ),
            rooks: Set::new(
                |sq: Square|
                    sq.wf() && (sq.rank() == 0 || sq.rank() == 7) && (sq.file() == 0 || sq.file()
                        == 7),
            ),
            bishops: Set::new(
                |sq: Square|
                    sq.wf() && (sq.rank() == 0 || sq.rank() == 7) && (sq.file() == 2 || sq.file()
                        == 5),
            ),
            queens: Set::new(
                |sq: Square| sq.wf() && (sq.rank() == 0 || sq.rank() == 7) && sq.file() == 3,
            ),
            kings: Set::new(
                |sq: Square| sq.wf() && (sq.rank() == 0 || sq.rank() == 7) && sq.file() == 4,
            ),
            enemies: Set::new(|sq: Square| sq.wf() && sq.rank() >= 6),
            allies: Set::new(|sq: Square| sq.wf() && sq.rank() <= 1),
        }
    }

    /// The position seen from the other side: every set is mirrored across the
    /// middle of the board, and allies and enemies change roles.
    pub open spec fn mirror(self) -> Position {
        Position {
            pawns: flip_of(self.pawns),
            knights: flip_of(self.knights),
            rooks: flip_of(self.rooks),
            bishops: flip_of(self.bishops),
            queens: flip_of(self.queens),
            kings: flip_of(self.kings),
            enemies: flip_of(self.allies),
            allies: flip_of(self.enemies),
        }
    }

    /// The position after a move: whatever stood on the destination is gone
    /// from every set, and what stood on the source now stands on the
    /// destination, in its kind's set and in its side's set.
    pub open spec fn after_move(self, mv: ChessMove) -> Position {
        Position {
            pawns: relocate_of(self.pawns, mv),
            knights: relocate_of(self.knights, mv),
            rooks: relocate_of(self.rooks, mv),
            bishops: relocate_of(self.bishops, mv),
            queens: relocate_of(self.queens, mv),
            kings: relocate_of(self.kings, mv),
            enemies: relocate_of(self.enemies, mv),
            allies: relocate_of(self.allies, mv),
        }
    }

    /// The position after a sequence of moves, applied first to last.
    pub open spec fn after_moves(self, moves: Seq<ChessMove>) -> Position
        decreases moves.len(),
    {
        if moves.len() == 0 {
            self
        } else {
            self.after_moves(moves.drop_last()).after_move(moves.last())
        }
    }

    /// Where an allied pawn on `from` may go: one rank up, straight onto an
    /// empty square or diagonally onto an enemy.
    pub open spec fn pawn_targets(self, from: Square) -> Set<Square> {
        Set::new(
            |to: Square|
                to.wf() && to.rank() == from.rank() + 1 && ((to.file() == from.file()
                    && !self.occupied().contains(to)) || ((to.file() == from.file() + 1
                    || to.file() == from.file() - 1) && self.enemies.contains(to))),
        )
    }

    /// Where an allied knight on `from` may go: a knight's jump away, not
    /// onto an ally.
    pub open spec fn knight_targets(self, from: Square) -> Set<Square> {
        Set::new(|to: Square| to.wf() && knight_jump(from, to) && !self.allies.contains(to))
    }

    /// Where an allied king on `from` may go: a neighbouring square, not
    /// onto an ally.
    pub open spec fn king_targets(self, from: Square) -> Set<Square> {
        Set::new(|to: Square| to.wf() && king_step(from, to) && !self.allies.contains(to))
    }

    /// Where an allied rook on `from` may go: along its rank and file as far
    /// as the first piece, not onto an ally.
    pub open spec fn rook_targets(self, from: Square) -> Set<Square> {
        horizontal_ray_of(self.occupied(), from).union(
            vertical_ray_of(self.occupied(), from),
        ).intersect(complement_of(self.allies))
    }

    /// Where an allied bishop on `from` may go: along its diagonals as far as
    /// the first piece, not onto an ally.
    pub open spec fn bishop_targets(self, from: Square) -> Set<Square> {
        diagonal_ray_of(self.occupied(), from).union(
            anti_diagonal_ray_of(self.occupied(), from),
        ).intersect(complement_of(self.allies))
    }

    /// Where an allied queen on `from` may go: along rank, file and diagonals
    /// as far as the first piece, not onto an ally.
    pub open spec fn queen_targets(self, from: Square) -> Set<Square> {
        horizontal_ray_of(self.occupied(), from).union(
            vertical_ray_of(self.occupied(), from),
        ).union(diagonal_ray_of(self.occupied(), from)).union(
            anti_diagonal_ray_of(self.occupied(), from),
        ).intersect(complement_of(self.allies))
    }

    /// Where an allied piece of the given kind on `from` may go.
    pub open spec fn targets(self, kind: PieceKind, from: Square) -> Set<Square> {
        match kind {
            PieceKind::Pawn => self.pawn_targets(from),
            PieceKind::Knight => self.knight_targets(from),
            PieceKind::Bishop => self.bishop_targets(from),
            PieceKind::Rook => self.rook_targets(from),
            PieceKind::Queen => self.queen_targets(from),
            PieceKind::King => self.king_targets(from),
        }
    }

    /// The moves of one allied piece of the given kind, by ascending destination.
    pub open spec fn piece_moves(self, kind: PieceKind) -> spec_fn(Square) -> Seq<ChessMove> {
        |from: Square| moves_from(from, self.targets(kind, from))
    }

    /// The pseudo-legal moves of the allied pieces of the given kind, by
    /// ascending source square and then by ascending destination.
    pub open spec fn moves_of(self, kind: PieceKind) -> Seq<ChessMove> {
        squares_of(self.kind(kind).intersect(self.allies)).flat_map(self.piece_moves(kind))
    }

    /// The pseudo-legal moves of the allies: those of the pawns, then the
    /// kings, knights, bishops, queens and rooks.
    pub open spec fn ally_moves(self) -> Seq<ChessMove> {
        self.moves_of(PieceKind::Pawn) + self.moves_of(PieceKind::King) + self.moves_of(
            PieceKind::Knight,
        ) + self.moves_of(PieceKind::Bishop) + self.moves_of(PieceKind::Queen) + self.moves_of(
            PieceKind::Rook,
        )
    }

    /// The pseudo-legal moves of the enemies: the allies' moves of the
    /// mirrored position, each mirrored back.
    pub open spec fn enemy_moves(self) -> Seq<ChessMove> {
        self.mirror().ally_moves().map_values(|mv: ChessMove| mv.flipped())
    }

    /// How many more pieces of the given kind the allies have than the enemies.
    pub open spec fn balance(self, kind: PieceKind) -> int {
        self.kind(kind).intersect(self.allies).len() - self.kind(kind).intersect(
            self.enemies,
        ).len()
    }

    /// The balance of material: a pawn counts 1, a knight or bishop 3, a rook
    /// 5 and a queen 9. Kings do not count.
    pub open spec fn material(self) -> int {
        self.balance(PieceKind::Pawn) + 5 * self.balance(PieceKind::Rook) + 3 * self.balance(
            PieceKind::Knight,
        ) + 3 * self.balance(PieceKind::Bishop) + 9 * self.balance(PieceKind::Queen)
    }

    /// The allies have no king.
    pub open spec fn allies_lost(self) -> bool {
        self.kings.intersect(self.allies).is_empty()
    }

    /// The enemies have no king.
    pub open spec fn enemies_lost(self) -> bool {
        self.kings.intersect(self.enemies).is_empty()
    }

    /// The value of the position for the allies: lost without an allied
    /// king, else won without an enemy king, else the balance of material.
    pub open spec fn score(self) -> Score {
        if self.allies_lost() {
            Score::Lose
        } else if self.enemies_lost() {
            Score::Win
        } else {
            Score::Heuristic(self.material() as i32)
        }
    }

    /// The game is over: a king has been captured.
    pub open spec fn game_over(self) -> bool {
        self.allies_lost() || self.enemies_lost()
    }
}

} // verus!
