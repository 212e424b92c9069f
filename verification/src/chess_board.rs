//! The chess board: a position held as eight square sets, with move
//! generation, move application and scoring.

use crate::chess_move::{move_of_text, parse_move, ChessMove};
use crate::laws::{
    game_is_over_when_decided, initial_position_is_consistent, mirror_keeps_consistency,
    move_keeps_consistency, move_keeps_sides_disjoint,
};
use crate::position::{
    lemma_king_steps, lemma_knight_steps, lemma_pawn_steps, lemma_step_targets, moves_from,
    relocate_of, step_lands, step_reaches, step_targets_of, PieceKind, Position, Score,
    KING_STEPS, KNIGHT_STEPS, PAWN_CAPTURES, PAWN_PUSHES,
};
use crate::square::Square;
use crate::square_set::{complement_of, lemma_view_injective, squares_of, SquareSet};
use vstd::prelude::*;

verus! {

/// A chess position, seen from the side to move.
///
/// Each piece-kind set holds the squares of both sides' pieces of that kind;
/// `allies` holds the squares of the side to move and `enemies` those of
/// the other side.
#[derive(Clone, Copy, Debug, PartialEq, Eq, Hash, Structural)]
pub struct ChessBoard {
    pub pawns: SquareSet,
    pub knights: SquareSet,
    pub rooks: SquareSet,
    pub bishops: SquareSet,
    pub queens: SquareSet,
    pub kings: SquareSet,
    pub enemies: SquareSet,
    pub allies: SquareSet,
}

impl View for ChessBoard {
    type V = Position;

    open spec fn view(&self) -> Position {
        Position {
            pawns: self.pawns@,
            knights: self.knights@,
            rooks: self.rooks@,
            bishops: self.bishops@,
            queens: self.queens@,
            kings: self.kings@,
            enemies: self.enemies@,
            allies: self.allies@,
        }
    }
}

proof fn lemma_initial_pawns(i: u64)
    by (bit_vector)
    requires
        i < 64,
    ensures
        (0x00ff_0000_0000_ff00u64 >> i) & 1 == 1 <==> (i / 8 == 1 || i / 8 == 6),
{
}

proof fn lemma_initial_knights(i: u64)
    by (bit_vector)
    requires
        i < 64,
    ensures
        (0x4200_0000_0000_0042u64 >> i) & 1 == 1 <==> ((i / 8 == 0 || i / 8 == 7) && (i % 8 == 1
            || i % 8 == 6)),
{
}

proof fn lemma_initial_rooks(i: u64)
    by (bit_vector)
    requires
        i < 64,
    ensures
        (0x8100_0000_0000_0081u64 >> i) & 1 == 1 <==> ((i / 8 == 0 || i / 8 == 7) && (i % 8 == 0
            || i % 8 == 7)),
{
}

proof fn lemma_initial_bishops(i: u64)
    by (bit_vector)
    requires
        i < 64,
    ensures
        (0x2400_0000_0000_0024u64 >> i) & 1 == 1 <==> ((i / 8 == 0 || i / 8 == 7) && (i % 8 == 2
            || i % 8 == 5)),
{
}

proof fn lemma_initial_queens(i: u64)
    by (bit_vector)
    requires
        i < 64,
    ensures
        (0x0800_0000_0000_0008u64 >> i) & 1 == 1 <==> ((i / 8 == 0 || i / 8 == 7) && i % 8 == 3),
{
}

proof fn lemma_initial_kings(i: u64)
    by (bit_vector)
    requires
        i < 64,
    ensures
        (0x1000_0000_0000_0010u64 >> i) & 1 == 1 <==> ((i / 8 == 0 || i / 8 == 7) && i % 8 == 4),
{
}

proof fn lemma_initial_enemies(i: u64)
    by (bit_vector)
    requires
        i < 64,
    ensures
        (0xffff_0000_0000_0000u64 >> i) & 1 == 1 <==> i / 8 >= 6,
{
}

proof fn lemma_initial_allies(i: u64)
    by (bit_vector)
    requires
        i < 64,
    ensures
        (0x0000_0000_0000_ffffu64 >> i) & 1 == 1 <==> i / 8 <= 1,
{
}

/// A board is determined by its position: two boards with the same view
/// are the same board.
pub proof fn board_of_a_position_is_unique(a: ChessBoard, b: ChessBoard)
    requires
        a@ == b@,
    ensures
        a == b,
{
    lemma_view_injective(a.pawns, b.pawns);
    lemma_view_injective(a.knights, b.knights);
    lemma_view_injective(a.rooks, b.rooks);
    lemma_view_injective(a.bishops, b.bishops);
    lemma_view_injective(a.queens, b.queens);
    lemma_view_injective(a.kings, b.kings);
    lemma_view_injective(a.enemies, b.enemies);
    lemma_view_injective(a.allies, b.allies);
}

/// Applies a move to one set: the destination leaves the set, and if the
/// source is in the set it is replaced by the destination.
fn relocate(set: &mut SquareSet, mv: &ChessMove)
    requires
        mv.wf(),
    ensures
        final(set)@ == relocate_of(old(set)@, *mv),
{
    set.remove(mv.to);
    if set.contains(mv.from) {
        set.remove(mv.from);
        set.insert(mv.to);
    }
}

/// The squares reached from `from` by one of `steps` that are on the board
/// and in `allowed`. This is the one place where a step is held against the
/// edges of the board.
fn step_targets(from: Square, steps: &[(i8, i8)], allowed: SquareSet) -> (targets: SquareSet)
    requires
        from.wf(),
    ensures
        targets@ == step_targets_of(from, steps@, allowed@),
{
    let mut targets = SquareSet::empty();
    let mut next: usize = 0;
    assert(targets@ =~= step_targets_of(from, steps@.take(0), allowed@));
    while next < steps.len()
        invariant
            from.wf(),
            next <= steps.len(),
            targets@ == step_targets_of(from, steps@.take(next as int), allowed@),
        decreases steps.len() - next,
    {
        let (dx, dy) = steps[next];
        let ghost before = targets@;
        match from.shift(dx, dy) {
            Some(to) => {
                if allowed.contains(to) {
                    targets.insert(to);
                }
            },
            None => {},
        }
        proof {
            let shorter = steps@.take(next as int);
            let longer = steps@.take(next + 1);
            assert forall|to: Square|
                targets@.contains(to) == step_targets_of(from, longer, allowed@).contains(to) by {
                if step_reaches(from, longer, allowed@, to) {
                    let i = choose|i: int| step_lands(from, longer, i, allowed@, to);
                    if i < next {
                        assert(step_lands(from, shorter, i, allowed@, to));
                    }
                }
                if before.contains(to) {
                    let i = choose|i: int| step_lands(from, shorter, i, allowed@, to);
                    assert(step_lands(from, longer, i, allowed@, to));
                }
                if targets@.contains(to) && !before.contains(to) {
                    assert(step_lands(from, longer, next as int, allowed@, to));
                }
            }
            assert(targets@ =~= step_targets_of(from, longer, allowed@));
        }
        next = next + 1;
    }
    assert(steps@.take(steps.len() as int) =~= steps@);
    targets
}

/// Appends to `moves` the moves from `from` to each square of `targets`, by
/// ascending destination.
fn push_moves(moves: &mut Vec<ChessMove>, from: Square, targets: SquareSet)
    requires
        from.wf(),
        forall|i: int| 0 <= i < old(moves).len() ==> (#[trigger] old(moves)[i]).wf(),
    ensures
        final(moves)@ == old(moves)@ + moves_from(from, targets@),
        forall|i: int| 0 <= i < final(moves).len() ==> (#[trigger] final(moves)[i]).wf(),
{
    let squares = targets.pieces();
    let ghost added = moves_from(from, targets@);
    let mut next: usize = 0;
    assert(moves@ =~= old(moves)@ + added.take(0));
    while next < squares.len()
        invariant
            from.wf(),
            next <= squares.len(),
            squares@ == squares_of(targets@),
            added == moves_from(from, targets@),
            forall|i: int| 0 <= i < squares.len() ==> (#[trigger] squares[i]).wf(),
            moves@ == old(moves)@ + added.take(next as int),
            forall|i: int| 0 <= i < moves.len() ==> (#[trigger] moves[i]).wf(),
        decreases squares.len() - next,
    {
        let to = squares[next];
        moves.push(ChessMove { from, to });
        assert(added.take(next + 1) =~= added.take(next as int).push(added[next as int]));
        next = next + 1;
    }
    assert(added.take(squares.len() as int) =~= added);
}

impl ChessBoard {
    /// The position at the start of a game. The side to move stands on the
    /// first two ranks.
    pub fn new() -> (board: ChessBoard)
        ensures
            board@ == Position::initial(),
            board@.wf(),
    {
        let board = ChessBoard {
            pawns: SquareSet { bits: 0x00ff_0000_0000_ff00 },
            knights: SquareSet { bits: 0x4200_0000_0000_0042 },
            rooks: SquareSet { bits: 0x8100_0000_0000_0081 },
            bishops: SquareSet { bits: 0x2400_0000_0000_0024 },
            queens: SquareSet { bits: 0x0800_0000_0000_0008 },
            kings: SquareSet { bits: 0x1000_0000_0000_0010 },
            enemies: SquareSet { bits: 0xffff_0000_0000_0000 },
            allies: SquareSet { bits: 0x0000_0000_0000_ffff },
        };
        proof {
            let start = Position::initial();
            assert forall|sq: Square| sq.wf() implies {
                &&& board.pawns@.contains(sq) == start.pawns.contains(sq)
                &&& board.knights@.contains(sq) == start.knights.contains(sq)
                &&& board.rooks@.contains(sq) == start.rooks.contains(sq)
                &&& board.bishops@.contains(sq) == start.bishops.contains(sq)
                &&& board.queens@.contains(sq) == start.queens.contains(sq)
                &&& board.kings@.contains(sq) == start.kings.contains(sq)
                &&& board.enemies@.contains(sq) == start.enemies.contains(sq)
                &&& board.allies@.contains(sq) == start.allies.contains(sq)
            } by {
                let i = sq.index as u64;
                lemma_initial_pawns(i);
                lemma_initial_knights(i);
                lemma_initial_rooks(i);
                lemma_initial_bishops(i);
                lemma_initial_queens(i);
                lemma_initial_kings(i);
                lemma_initial_enemies(i);
                lemma_initial_allies(i);
            }
            assert(board@ =~= start);
            initial_position_is_consistent();
        }
        board
    }

    /// The position seen from the other side: every set is mirrored across
    /// the middle of the board, and allies and enemies change roles.
    pub fn as_other(self) -> (other: ChessBoard)
        ensures
            other@ == self@.mirror(),
            self@.wf() ==> other@.wf(),
    {
        proof {
            if self@.wf() {
                mirror_keeps_consistency(self@);
            }
        }
        ChessBoard {
            pawns: self.pawns.flip_vertical(),
            knights: self.knights.flip_vertical(),
            rooks: self.rooks.flip_vertical(),
            bishops: self.bishops.flip_vertical(),
            queens: self.queens.flip_vertical(),
            kings: self.kings.flip_vertical(),
            enemies: self.allies.flip_vertical(),
            allies: self.enemies.flip_vertical(),
        }
    }

    /// Reads a move in four-character notation: file letter and rank digit
    /// of the source square, then of the destination, such as `A2A4`.
    /// Letters may be in either case. Any other text is refused.
    pub fn move_from_str(&self, s: &str) -> (parsed: Result<ChessMove, ()>)
        ensures
            parsed matches Ok(mv) ==> move_of_text(s@) == Some(mv) && mv.wf(),
            parsed is Err ==> move_of_text(s@).is_none(),
    {
        parse_move(s)
    }

    /// Applies a move: whatever stood on the destination is captured, and
    /// the piece on the source, if there is one, goes to the destination.
    pub fn do_move(&mut self, mv: &ChessMove)
        requires
            mv.wf(),
        ensures
            final(self)@ == old(self)@.after_move(*mv),
            old(self)@.sides_disjoint() ==> final(self)@.sides_disjoint(),
            old(self)@.wf() ==> final(self)@.wf(),
    {
        proof {
            if self@.sides_disjoint() {
                move_keeps_sides_disjoint(self@, *mv);
            }
            if self@.wf() {
                move_keeps_consistency(self@, *mv);
            }
        }
        relocate(&mut self.pawns, mv);
        relocate(&mut self.rooks, mv);
        relocate(&mut self.knights, mv);
        relocate(&mut self.bishops, mv);
        relocate(&mut self.queens, mv);
        relocate(&mut self.kings, mv);
        relocate(&mut self.enemies, mv);
        relocate(&mut self.allies, mv);
    }

    /// The squares that hold a piece of the given kind, of either side.
    pub fn kind(&self, kind: PieceKind) -> (set: SquareSet)
        ensures
            set@ == self@.kind(kind),
    {
        match kind {
            PieceKind::Pawn => self.pawns,
            PieceKind::Knight => self.knights,
            PieceKind::Bishop => self.bishops,
            PieceKind::Rook => self.rooks,
            PieceKind::Queen => self.queens,
            PieceKind::King => self.kings,
        }
    }

    /// Where an allied pawn on `from` may go.
    pub fn pawn_targets(&self, from: Square) -> (targets: SquareSet)
        requires
            from.wf(),
        ensures
            targets@ == self@.pawn_targets(from),
    {
        let free = self.enemies.union(self.allies).complement();
        let pushes = step_targets(from, &PAWN_PUSHES, free);
        let captures = step_targets(from, &PAWN_CAPTURES, self.enemies);
        let targets = pushes.union(captures);
        proof {
            assert forall|to: Square|
                targets@.contains(to) == self@.pawn_targets(from).contains(to) by {
                lemma_step_targets(from, PAWN_PUSHES@, free@, to);
                lemma_step_targets(from, PAWN_CAPTURES@, self.enemies@, to);
                lemma_pawn_steps(to.file() - from.file(), to.rank() - from.rank());
            }
            assert(targets@ =~= self@.pawn_targets(from));
        }
        targets
    }

    /// Where an allied knight on `from` may go.
    pub fn knight_targets(&self, from: Square) -> (targets: SquareSet)
        requires
            from.wf(),
        ensures
            targets@ == self@.knight_targets(from),
    {
        let targets = step_targets(from, &KNIGHT_STEPS, self.allies.complement());
        proof {
            assert forall|to: Square|
                targets@.contains(to) == self@.knight_targets(from).contains(to) by {
                lemma_step_targets(from, KNIGHT_STEPS@, complement_of(self.allies@), to);
                lemma_knight_steps(to.file() - from.file(), to.rank() - from.rank());
            }
            assert(targets@ =~= self@.knight_targets(from));
        }
        targets
    }

    /// Where an allied king on `from` may go.
    pub fn king_targets(&self, from: Square) -> (targets: SquareSet)
        requires
            from.wf(),
        ensures
            targets@ == self@.king_targets(from),
    {
        let targets = step_targets(from, &KING_STEPS, self.allies.complement());
        proof {
            assert forall|to: Square|
                targets@.contains(to) == self@.king_targets(from).contains(to) by {
                lemma_step_targets(from, KING_STEPS@, complement_of(self.allies@), to);
                lemma_king_steps(to.file() - from.file(), to.rank() - from.rank());
            }
            assert(targets@ =~= self@.king_targets(from));
        }
        targets
    }

    /// Where an allied rook on `from` may go.
    pub fn rook_targets(&self, from: Square) -> (targets: SquareSet)
        requires
            from.wf(),
        ensures
            targets@ == self@.rook_targets(from),
    {
        let occupied = self.allies.union(self.enemies);
        occupied.horizontal_ray(from).union(occupied.vertical_ray(from)).intersect(
            self.allies.complement(),
        )
    }

    /// Where an allied bishop on `from` may go.
    pub fn bishop_targets(&self, from: Square) -> (targets: SquareSet)
        requires
            from.wf(),
        ensures
            targets@ == self@.bishop_targets(from),
    {
        let occupied = self.allies.union(self.enemies);
        occupied.diagonal_ray(from).union(occupied.anti_diagonal_ray(from)).intersect(
            self.allies.complement(),
        )
    }

    /// Where an allied queen on `from` may go.
    pub fn queen_targets(&self, from: Square) -> (targets: SquareSet)
        requires
            from.wf(),
        ensures
            targets@ == self@.queen_targets(from),
    {
        let occupied = self.allies.union(self.enemies);
        occupied.horizontal_ray(from).union(occupied.vertical_ray(from)).union(
            occupied.diagonal_ray(from),
        ).union(occupied.anti_diagonal_ray(from)).intersect(self.allies.complement())
    }

    /// Where an allied piece of the given kind on `from` may go.
    pub fn targets(&self, kind: PieceKind, from: Square) -> (targets: SquareSet)
        requires
            from.wf(),
        ensures
            targets@ == self@.targets(kind, from),
    {
        match kind {
            PieceKind::Pawn => self.pawn_targets(from),
            PieceKind::Knight => self.knight_targets(from),
            PieceKind::Bishop => self.bishop_targets(from),
            PieceKind::Rook => self.rook_targets(from),
            PieceKind::Queen => self.queen_targets(from),
            PieceKind::King => self.king_targets(from),
        }
    }

    /// The pseudo-legal moves of the allied pieces of the given kind, by
    /// ascending source square and then by ascending destination.
    pub fn gen_moves_of(&self, kind: PieceKind) -> (moves: Vec<ChessMove>)
        ensures
            moves@ == self@.moves_of(kind),
            forall|i: int| 0 <= i < moves.len() ==> (#[trigger] moves[i]).wf(),
    {
        let pieces = self.kind(kind).intersect(self.allies).pieces();
        let ghost per_piece = self@.piece_moves(kind);
        let mut moves: Vec<ChessMove> = Vec::new();
        let mut next: usize = 0;
        assert(pieces@.take(0).flat_map(per_piece) =~= Seq::<ChessMove>::empty());
        while next < pieces.len()
            invariant
                next <= pieces.len(),
                per_piece == self@.piece_moves(kind),
                forall|i: int| 0 <= i < pieces.len() ==> (#[trigger] pieces[i]).wf(),
                moves@ == pieces@.take(next as int).flat_map(per_piece),
                forall|i: int| 0 <= i < moves.len() ==> (#[trigger] moves[i]).wf(),
            decreases pieces.len() - next,
        {
            let from = pieces[next];
            let targets = self.targets(kind, from);
            push_moves(&mut moves, from, targets);
            proof {
                pieces@.lemma_flat_map_take_append(per_piece, next as int);
            }
            next = next + 1;
        }
        assert(pieces@.take(pieces.len() as int) =~= pieces@);
        moves
    }

    /// The pseudo-legal moves of the allied pawns.
    pub fn gen_pawn_moves(&self) -> (moves: Vec<ChessMove>)
        ensures
            moves@ == self@.moves_of(PieceKind::Pawn),
            forall|i: int| 0 <= i < moves.len() ==> (#[trigger] moves[i]).wf(),
    {
        self.gen_moves_of(PieceKind::Pawn)
    }

    /// The pseudo-legal moves of the allied rooks.
    pub fn gen_rook_moves(&self) -> (moves: Vec<ChessMove>)
        ensures
            moves@ == self@.moves_of(PieceKind::Rook),
            forall|i: int| 0 <= i < moves.len() ==> (#[trigger] moves[i]).wf(),
    {
        self.gen_moves_of(PieceKind::Rook)
    }

    /// The pseudo-legal moves of the allied bishops.
    pub fn gen_bishop_moves(&self) -> (moves: Vec<ChessMove>)
        ensures
            moves@ == self@.moves_of(PieceKind::Bishop),
            forall|i: int| 0 <= i < moves.len() ==> (#[trigger] moves[i]).wf(),
    {
        self.gen_moves_of(PieceKind::Bishop)
    }

    /// The pseudo-legal moves of the allied queens.
    pub fn gen_queen_moves(&self) -> (moves: Vec<ChessMove>)
        ensures
            moves@ == self@.moves_of(PieceKind::Queen),
            forall|i: int| 0 <= i < moves.len() ==> (#[trigger] moves[i]).wf(),
    {
        self.gen_moves_of(PieceKind::Queen)
    }

    /// The pseudo-legal moves of the allied knights.
    pub fn gen_knight_moves(&self) -> (moves: Vec<ChessMove>)
        ensures
            moves@ == self@.moves_of(PieceKind::Knight),
            forall|i: int| 0 <= i < moves.len() ==> (#[trigger] moves[i]).wf(),
    {
        self.gen_moves_of(PieceKind::Knight)
    }

    /// The pseudo-legal moves of the allied kings.
    pub fn gen_king_moves(&self) -> (moves: Vec<ChessMove>)
        ensures
            moves@ == self@.moves_of(PieceKind::King),
            forall|i: int| 0 <= i < moves.len() ==> (#[trigger] moves[i]).wf(),
    {
        self.gen_moves_of(PieceKind::King)
    }

    /// The pseudo-legal moves of the side to move: those of its pawns, then
    /// of its kings, knights, bishops, queens and rooks.
    pub fn gen_ally_moves(&self) -> (moves: Vec<ChessMove>)
        ensures
            moves@ == self@.ally_moves(),
            forall|i: int| 0 <= i < moves.len() ==> (#[trigger] moves[i]).wf(),
    {
        let mut moves = self.gen_pawn_moves();
        let mut more = self.gen_king_moves();
        moves.append(&mut more);
        let mut more = self.gen_knight_moves();
        moves.append(&mut more);
        let mut more = self.gen_bishop_moves();
        moves.append(&mut more);
        let mut more = self.gen_queen_moves();
        moves.append(&mut more);
        let mut more = self.gen_rook_moves();
        moves.append(&mut more);
        moves
    }

    /// The pseudo-legal moves of the other side: the moves of the side to
    /// move in the mirrored position, each mirrored back.
    pub fn gen_enemy_moves(&self) -> (moves: Vec<ChessMove>)
        ensures
            moves@ == self@.enemy_moves(),
            forall|i: int| 0 <= i < moves.len() ==> (#[trigger] moves[i]).wf(),
    {
        let flipped = self.as_other();
        let mut moves = flipped.gen_ally_moves();
        let ghost mirrored = moves@;
        let mut next: usize = 0;
        while next < moves.len()
            invariant
                next <= moves.len(),
                moves.len() == mirrored.len(),
                forall|i: int| 0 <= i < mirrored.len() ==> (#[trigger] mirrored[i]).wf(),
                forall|i: int| 0 <= i < next ==> #[trigger] moves[i] == mirrored[i].flipped(),
                forall|i: int| next <= i < moves.len() ==> #[trigger] moves[i] == mirrored[i],
            decreases moves.len() - next,
        {
            let mut mv = moves[next];
            mv.flip_vertical();
            moves.set(next, mv);
            next = next + 1;
        }
        proof {
            assert(moves@ =~= mirrored.map_values(|mv: ChessMove| mv.flipped()));
            assert forall|i: int| 0 <= i < moves.len() implies (#[trigger] moves[i]).wf() by {
                crate::square::lemma_flipped_twice(mirrored[i].from);
                crate::square::lemma_flipped_twice(mirrored[i].to);
            }
        }
        moves
    }

    /// How many more squares of `set` the allies hold than the enemies.
    fn balance(&self, set: SquareSet) -> (diff: i32)
        ensures
            diff == set@.intersect(self.allies@).len() - set@.intersect(self.enemies@).len(),
            -64 <= diff <= 64,
    {
        let ours = set.intersect(self.allies).num_pieces();
        let theirs = set.intersect(self.enemies).num_pieces();
        ours as i32 - theirs as i32
    }

    /// The value of the position for the side to move: lost without an own
    /// king, else won without an enemy king, else the balance of material
    /// with a pawn at 1, a knight or bishop at 3, a rook at 5 and a queen at 9.
    pub fn score(&self) -> (score: Score)
        ensures
            score == self@.score(),
    {
        if self.kings.intersect(self.allies).is_empty() {
            Score::Lose
        } else if self.kings.intersect(self.enemies).is_empty() {
            Score::Win
        } else {
            let pawn_score = self.balance(self.pawns);
            let rook_score = self.balance(self.rooks);
            let knight_score = self.balance(self.knights);
            let bishop_score = self.balance(self.bishops);
            let queen_score = self.balance(self.queens);
            Score::Heuristic(
                pawn_score + rook_score * 5 + knight_score * 3 + bishop_score * 3 + queen_score
                    * 9,
            )
        }
    }

    /// Whether the game is over: one side has no king.
    pub fn is_game_over(&self) -> (over: bool)
        ensures
            over == self@.game_over(),
            over == (self@.score() == Score::Win || self@.score() == Score::Lose),
    {
        proof {
            game_is_over_when_decided(self@);
        }
        self.kings.intersect(self.allies).is_empty() || self.kings.intersect(
            self.enemies,
        ).is_empty()
    }
}

} // verus!
