//! What holds of every position: the invariants that moves keep, the
//! symmetry between the two sides, and what scores and move lists mean.

use crate::chess_move::ChessMove;
use crate::position::{knight_jump, moves_from, PieceKind, Position, Score};
use crate::rays::{lemma_blocked_ray, ray_of, ray_on_board, ray_square, Direction};
use crate::square::{lemma_flipped_twice, Square};
use crate::square_set::{
    flip_of, lemma_squares_of, lemma_within_board_finite, squares_of, within_board,
};
use vstd::prelude::*;

verus! {

/// In the initial position every piece has a side, every square of a side
/// has a piece, no square has two pieces and no square belongs to both sides.
pub proof fn initial_position_is_consistent()
    ensures
        Position::initial().wf(),
{
    let start = Position::initial();
    assert forall|sq: Square| start.pieces().contains(sq) == start.occupied().contains(sq) by {
        if start.occupied().contains(sq) {
            let file = sq.file();
            let kind = if sq.rank() == 1 || sq.rank() == 6 {
                PieceKind::Pawn
            } else if file == 0 || file == 7 {
                PieceKind::Rook
            } else if file == 1 || file == 6 {
                PieceKind::Knight
            } else if file == 2 || file == 5 {
                PieceKind::Bishop
            } else if file == 3 {
                PieceKind::Queen
            } else {
                PieceKind::King
            };
            assert(start.kind(kind).contains(sq));
        }
        if start.pieces().contains(sq) {
            let kind = choose|kind: PieceKind| #[trigger] start.kind(kind).contains(sq);
            assert(start.kind(kind).contains(sq));
        }
    }
    assert(start.pieces() =~= start.occupied());
}

/// The squares whose index is at least `low` and below `high`.
pub open spec fn squares_between(low: int, high: int) -> Set<Square> {
    Set::new(|sq: Square| low <= sq.index < high)
}

/// There are `high - low` squares with an index from `low` up to `high`.
pub proof fn squares_between_are_counted(low: int, high: int)
    requires
        0 <= low <= high <= 64,
    ensures
        squares_between(low, high).finite(),
        squares_between(low, high).len() == high - low,
    decreases high - low,
{
    if low == high {
        assert(squares_between(low, high) =~= Set::<Square>::empty());
    } else {
        squares_between_are_counted(low, high - 1);
        let last = Square { index: (high - 1) as u8 };
        assert(squares_between(low, high) =~= squares_between(low, high - 1).insert(last));
    }
}

/// In the initial position each side has eight pawns, two rooks, two
/// knights, two bishops, a queen and a king, sixteen pieces in all; the two
/// sides stand on 32 squares, and the material is balanced.
pub proof fn initial_position_has_the_full_armies()
    ensures
        ({
            let start = Position::initial();
            &&& start.pawns.intersect(start.allies).len() == 8
            &&& start.pawns.intersect(start.enemies).len() == 8
            &&& start.rooks.intersect(start.allies).len() == 2
            &&& start.rooks.intersect(start.enemies).len() == 2
            &&& start.knights.intersect(start.allies).len() == 2
            &&& start.knights.intersect(start.enemies).len() == 2
            &&& start.bishops.intersect(start.allies).len() == 2
            &&& start.bishops.intersect(start.enemies).len() == 2
            &&& start.queens.intersect(start.allies).len() == 1
            &&& start.queens.intersect(start.enemies).len() == 1
            &&& start.kings.intersect(start.allies).len() == 1
            &&& start.kings.intersect(start.enemies).len() == 1
            &&& start.allies.len() == 16
            &&& start.enemies.len() == 16
            &&& start.allies.disjoint(start.enemies)
            &&& start.occupied().len() == 32
            &&& start.score() == Score::Heuristic(0)
        }),
{
    let start = Position::initial();
    let at = |index: int| Square { index: index as u8 };
    squares_between_are_counted(0, 16);
    squares_between_are_counted(48, 64);
    squares_between_are_counted(8, 16);
    squares_between_are_counted(48, 56);
    assert(start.allies =~= squares_between(0, 16));
    assert(start.enemies =~= squares_between(48, 64));
    assert(start.pawns.intersect(start.allies) =~= squares_between(8, 16));
    assert(start.pawns.intersect(start.enemies) =~= squares_between(48, 56));
    assert(start.rooks.intersect(start.allies) =~= set![at(0), at(7)]);
    assert(start.rooks.intersect(start.enemies) =~= set![at(56), at(63)]);
    assert(start.knights.intersect(start.allies) =~= set![at(1), at(6)]);
    assert(start.knights.intersect(start.enemies) =~= set![at(57), at(62)]);
    assert(start.bishops.intersect(start.allies) =~= set![at(2), at(5)]);
    assert(start.bishops.intersect(start.enemies) =~= set![at(58), at(61)]);
    assert(start.queens.intersect(start.allies) =~= set![at(3)]);
    assert(start.queens.intersect(start.enemies) =~= set![at(59)]);
    assert(start.kings.intersect(start.allies) =~= set![at(4)]);
    assert(start.kings.intersect(start.enemies) =~= set![at(60)]);
    vstd::set_lib::lemma_set_disjoint_lens(start.allies, start.enemies);
    assert(start.kings.intersect(start.allies).contains(at(4)));
    assert(start.kings.intersect(start.enemies).contains(at(60)));
}

/// A move never puts a square on both sides: if allies and enemies were
/// disjoint before, they are disjoint after.
pub proof fn move_keeps_sides_disjoint(p: Position, mv: ChessMove)
    requires
        p.sides_disjoint(),
    ensures
        p.after_move(mv).sides_disjoint(),
{
}

/// A move takes a consistent position to a consistent position.
pub proof fn move_keeps_consistency(p: Position, mv: ChessMove)
    requires
        p.wf(),
        mv.wf(),
    ensures
        p.after_move(mv).wf(),
{
    let q = p.after_move(mv);
    assert forall|sq: Square| q.pieces().contains(sq) == q.occupied().contains(sq) by {
        let origin = if sq == mv.to {
            mv.from
        } else {
            sq
        };
        if q.pieces().contains(sq) {
            let kind = choose|kind: PieceKind| #[trigger] q.kind(kind).contains(sq);
            assert(p.kind(kind).contains(origin));
            assert(p.pieces().contains(origin));
            assert(p.occupied().contains(origin));
        }
        if q.occupied().contains(sq) {
            assert(p.occupied().contains(origin));
            assert(p.pieces().contains(origin));
            let kind = choose|kind: PieceKind| #[trigger] p.kind(kind).contains(origin);
            assert(q.kind(kind).contains(sq));
        }
    }
    assert(q.pieces() =~= q.occupied());
    assert forall|a: PieceKind, b: PieceKind| a != b implies #[trigger] q.kind(a).disjoint(
        #[trigger] q.kind(b),
    ) by {
        assert(p.kind(a).disjoint(p.kind(b)));
    }
}

/// Mirroring never puts a square on both sides.
pub proof fn mirror_keeps_sides_disjoint(p: Position)
    requires
        p.sides_disjoint(),
    ensures
        p.mirror().sides_disjoint(),
{
    assert forall|sq: Square| !(p.mirror().allies.contains(sq) && p.mirror().enemies.contains(sq)) by {
        if p.mirror().allies.contains(sq) && p.mirror().enemies.contains(sq) {
            assert(p.allies.contains(sq.flipped()) && p.enemies.contains(sq.flipped()));
        }
    }
}

/// Mirroring takes a consistent position to a consistent position.
pub proof fn mirror_keeps_consistency(p: Position)
    requires
        p.wf(),
    ensures
        p.mirror().wf(),
{
    let q = p.mirror();
    assert forall|sq: Square| q.pieces().contains(sq) == q.occupied().contains(sq) by {
        if q.pieces().contains(sq) {
            let kind = choose|kind: PieceKind| #[trigger] q.kind(kind).contains(sq);
            assert(p.kind(kind).contains(sq.flipped()));
            assert(p.pieces().contains(sq.flipped()));
            assert(p.occupied().contains(sq.flipped()));
        }
        if q.occupied().contains(sq) {
            assert(p.occupied().contains(sq.flipped()));
            assert(p.pieces().contains(sq.flipped()));
            let kind = choose|kind: PieceKind| #[trigger] p.kind(kind).contains(sq.flipped());
            assert(q.kind(kind).contains(sq));
        }
    }
    assert(q.pieces() =~= q.occupied());
    assert forall|a: PieceKind, b: PieceKind| a != b implies #[trigger] q.kind(a).disjoint(
        #[trigger] q.kind(b),
    ) by {
        assert(p.kind(a).disjoint(p.kind(b)));
    }
}

/// In every position reached from the initial one by moves, whatever the
/// moves, no square belongs to both sides.
pub proof fn reachable_positions_keep_sides_disjoint(moves: Seq<ChessMove>)
    ensures
        Position::initial().after_moves(moves).sides_disjoint(),
    decreases moves.len(),
{
    if moves.len() == 0 {
        initial_position_is_consistent();
    } else {
        reachable_positions_keep_sides_disjoint(moves.drop_last());
        move_keeps_sides_disjoint(
            Position::initial().after_moves(moves.drop_last()),
            moves.last(),
        );
    }
}

/// Every position reached from the initial one by moves between squares of
/// the board is consistent.
pub proof fn reachable_positions_are_consistent(moves: Seq<ChessMove>)
    requires
        forall|i: int| 0 <= i < moves.len() ==> (#[trigger] moves[i]).wf(),
    ensures
        Position::initial().after_moves(moves).wf(),
    decreases moves.len(),
{
    if moves.len() == 0 {
        initial_position_is_consistent();
    } else {
        reachable_positions_are_consistent(moves.drop_last());
        move_keeps_consistency(Position::initial().after_moves(moves.drop_last()), moves.last());
    }
}

/// Mirroring twice gives the position back.
pub proof fn mirror_is_an_involution(p: Position)
    requires
        p.on_board(),
    ensures
        p.mirror().mirror() == p,
        p.mirror().on_board(),
{
    assert forall|sq: Square| sq.wf() implies sq.flipped().wf() && sq.flipped().flipped()
        == sq by {
        lemma_flipped_twice(sq);
    }
    assert(p.mirror().mirror() =~= p);
}

/// A move whose source square is empty only empties the destination: every
/// set loses the destination square and is otherwise unchanged.
pub proof fn move_from_empty_square_only_captures(p: Position, mv: ChessMove)
    requires
        !p.occupied().contains(mv.from),
        !p.pieces().contains(mv.from),
    ensures
        p.after_move(mv) == (Position {
            pawns: p.pawns.remove(mv.to),
            knights: p.knights.remove(mv.to),
            rooks: p.rooks.remove(mv.to),
            bishops: p.bishops.remove(mv.to),
            queens: p.queens.remove(mv.to),
            kings: p.kings.remove(mv.to),
            enemies: p.enemies.remove(mv.to),
            allies: p.allies.remove(mv.to),
        }),
{
    assert(!p.kind(PieceKind::Pawn).contains(mv.from));
    assert(!p.kind(PieceKind::Knight).contains(mv.from));
    assert(!p.kind(PieceKind::Rook).contains(mv.from));
    assert(!p.kind(PieceKind::Bishop).contains(mv.from));
    assert(!p.kind(PieceKind::Queen).contains(mv.from));
    assert(!p.kind(PieceKind::King).contains(mv.from));
}

/// The score is a win exactly when the enemies have no king and the allies
/// have one, and a loss exactly when the allies have no king.
pub proof fn score_tells_who_lost_the_king(p: Position)
    ensures
        p.score() == Score::Win <==> p.enemies_lost() && !p.allies_lost(),
        p.score() == Score::Lose <==> p.allies_lost(),
{
}

/// Unless both kings are gone, the score is a loss exactly when the allies
/// have no king and the enemies have one.
pub proof fn score_is_lost_with_one_king_gone(p: Position)
    requires
        !(p.allies_lost() && p.enemies_lost()),
    ensures
        p.score() == Score::Lose <==> p.allies_lost() && !p.enemies_lost(),
{
}

/// The game is over exactly when the score is a win or a loss.
pub proof fn game_is_over_when_decided(p: Position)
    ensures
        p.game_over() <==> (p.score() == Score::Win || p.score() == Score::Lose),
{
}

/// The balance of material of a position on the board lies between -1344
/// and 1344, so the heuristic score holds it exactly.
pub proof fn material_is_bounded(p: Position)
    requires
        p.on_board(),
    ensures
        -1344 <= p.material() <= 1344,
        !p.game_over() ==> p.score() == Score::Heuristic(p.material() as i32) && (p.material() as i32)
            == p.material(),
{
    balance_is_bounded(p, PieceKind::Pawn);
    balance_is_bounded(p, PieceKind::Rook);
    balance_is_bounded(p, PieceKind::Knight);
    balance_is_bounded(p, PieceKind::Bishop);
    balance_is_bounded(p, PieceKind::Queen);
}

/// Neither side has more than 64 pieces of a kind.
pub proof fn balance_is_bounded(p: Position, kind: PieceKind)
    requires
        p.on_board(),
    ensures
        -64 <= p.balance(kind) <= 64,
{
    lemma_within_board_finite(p.kind(kind).intersect(p.allies));
    lemma_within_board_finite(p.kind(kind).intersect(p.enemies));
}

/// Mirroring a set of squares of the board keeps their number.
pub proof fn flip_keeps_the_count(set: Set<Square>)
    requires
        within_board(set),
    ensures
        within_board(flip_of(set)),
        flip_of(set).len() == set.len(),
{
    lemma_within_board_finite(set);
    let flip = |sq: Square| sq.flipped();
    assert forall|sq: Square| sq.wf() implies sq.flipped().wf() && sq.flipped().flipped()
        == sq by {
        lemma_flipped_twice(sq);
    }
    assert(vstd::relations::injective_on(flip, set)) by {
        assert forall|a: Square, b: Square|
            set.contains(a) && set.contains(b) && #[trigger] flip(a) == #[trigger] flip(
                b,
            ) implies a == b by {
            assert(a.flipped().flipped() == a);
            assert(b.flipped().flipped() == b);
        }
    }
    assert forall|sq: Square| set.map(flip).contains(sq) == flip_of(set).contains(sq) by {
        if set.map(flip).contains(sq) {
            let origin = choose|origin: Square| set.contains(origin) && sq == flip(origin);
            assert(sq.flipped() == origin);
        }
        if flip_of(set).contains(sq) {
            assert(set.contains(sq.flipped()) && sq == flip(sq.flipped()));
        }
    }
    assert(set.map(flip) =~= flip_of(set));
    vstd::set_lib::lemma_map_size(set, flip_of(set), flip);
}

/// The two sides see opposite values: mirroring negates the balance of
/// material, and turns a win into a loss and, unless both kings are gone, a
/// loss into a win.
pub proof fn mirror_reverses_the_score(p: Position)
    requires
        p.on_board(),
    ensures
        p.mirror().material() == -p.material(),
        p.mirror().allies_lost() == p.enemies_lost(),
        p.mirror().enemies_lost() == p.allies_lost(),
        p.score() matches Score::Heuristic(h) ==> p.mirror().score() == Score::Heuristic(
            (-h) as i32,
        ),
        p.score() == Score::Win ==> p.mirror().score() == Score::Lose,
        p.score() == Score::Lose && !p.enemies_lost() ==> p.mirror().score() == Score::Win,
{
    mirror_swaps_the_counts(p, PieceKind::Pawn);
    mirror_swaps_the_counts(p, PieceKind::Rook);
    mirror_swaps_the_counts(p, PieceKind::Knight);
    mirror_swaps_the_counts(p, PieceKind::Bishop);
    mirror_swaps_the_counts(p, PieceKind::Queen);
    mirror_swaps_the_counts(p, PieceKind::King);
    lemma_within_board_finite(p.kings.intersect(p.allies));
    lemma_within_board_finite(p.kings.intersect(p.enemies));
    lemma_within_board_finite(p.mirror().kings.intersect(p.mirror().allies));
    lemma_within_board_finite(p.mirror().kings.intersect(p.mirror().enemies));
    material_is_bounded(p);
}

/// In the mirrored position each side has as many pieces of a kind as the
/// other side had.
proof fn mirror_swaps_the_counts(p: Position, kind: PieceKind)
    requires
        p.on_board(),
    ensures
        p.mirror().kind(kind).intersect(p.mirror().allies).len() == p.kind(kind).intersect(
            p.enemies,
        ).len(),
        p.mirror().kind(kind).intersect(p.mirror().enemies).len() == p.kind(kind).intersect(
            p.allies,
        ).len(),
        p.mirror().balance(kind) == -p.balance(kind),
{
    let q = p.mirror();
    assert(q.kind(kind) == flip_of(p.kind(kind)));
    assert(q.kind(kind).intersect(q.allies) =~= flip_of(p.kind(kind).intersect(p.enemies)));
    assert(q.kind(kind).intersect(q.enemies) =~= flip_of(p.kind(kind).intersect(p.allies)));
    flip_keeps_the_count(p.kind(kind).intersect(p.enemies));
    flip_keeps_the_count(p.kind(kind).intersect(p.allies));
}

/// One more allied pawn is worth exactly one point: if `q` is `p` with an
/// allied pawn put on an empty square, the material of `q` is that of `p`
/// plus one, and so is its heuristic score.
pub proof fn extra_ally_pawn_adds_one(p: Position, q: Position, sq: Square)
    requires
        p.on_board(),
        sq.wf(),
        !p.occupied().contains(sq),
        !p.pieces().contains(sq),
        q == (Position { pawns: p.pawns.insert(sq), allies: p.allies.insert(sq), ..p }),
    ensures
        q.material() == p.material() + 1,
        p.score() matches Score::Heuristic(h) ==> (q.score() matches Score::Heuristic(g) && g == h
            + 1),
{
    assert(!p.kind(PieceKind::Pawn).contains(sq));
    assert(!p.kind(PieceKind::Knight).contains(sq));
    assert(!p.kind(PieceKind::Rook).contains(sq));
    assert(!p.kind(PieceKind::Bishop).contains(sq));
    assert(!p.kind(PieceKind::Queen).contains(sq));
    assert(!p.kind(PieceKind::King).contains(sq));
    lemma_within_board_finite(p.pawns.intersect(p.allies));
    assert(q.pawns.intersect(q.allies) =~= p.pawns.intersect(p.allies).insert(sq));
    assert(q.pawns.intersect(q.enemies) =~= p.pawns.intersect(p.enemies));
    assert(q.rooks.intersect(q.allies) =~= p.rooks.intersect(p.allies));
    assert(q.knights.intersect(q.allies) =~= p.knights.intersect(p.allies));
    assert(q.bishops.intersect(q.allies) =~= p.bishops.intersect(p.allies));
    assert(q.queens.intersect(q.allies) =~= p.queens.intersect(p.allies));
    assert(q.kings.intersect(q.allies) =~= p.kings.intersect(p.allies));
    assert(q.balance(PieceKind::Pawn) == p.balance(PieceKind::Pawn) + 1);
    assert(q.balance(PieceKind::Rook) == p.balance(PieceKind::Rook));
    assert(q.balance(PieceKind::Knight) == p.balance(PieceKind::Knight));
    assert(q.balance(PieceKind::Bishop) == p.balance(PieceKind::Bishop));
    assert(q.balance(PieceKind::Queen) == p.balance(PieceKind::Queen));
    material_is_bounded(p);
    assert(q.on_board());
    material_is_bounded(q);
}

/// An element of a flattened sequence comes from one of the parts.
pub proof fn flat_map_contains<A, B>(s: Seq<A>, f: spec_fn(A) -> Seq<B>, x: B)
    ensures
        s.flat_map(f).contains(x) <==> exists|i: int| 0 <= i < s.len() && (#[trigger] f(s[i])).contains(x),
    decreases s.len(),
{
    if s.len() == 0 {
        assert(s.flat_map(f) =~= Seq::<B>::empty());
    } else {
        let front = s.drop_last();
        let whole = s.flat_map(f);
        assert(s =~= front.push(s.last()));
        front.lemma_flat_map_push(f, s.last());
        assert(whole =~= front.flat_map(f) + f(s.last()));
        flat_map_contains(front, f, x);
        if whole.contains(x) {
            let k = choose|k: int| 0 <= k < whole.len() && whole[k] == x;
            if k < front.flat_map(f).len() {
                assert(front.flat_map(f)[k] == x);
                assert(front.flat_map(f).contains(x));
                let i = choose|i: int| 0 <= i < front.len() && (#[trigger] f(front[i])).contains(x);
                assert(f(s[i]).contains(x));
            } else {
                assert(f(s.last())[k - front.flat_map(f).len()] == x);
                assert(f(s[s.len() - 1]).contains(x));
            }
        }
        if exists|i: int| 0 <= i < s.len() && (#[trigger] f(s[i])).contains(x) {
            let i = choose|i: int| 0 <= i < s.len() && (#[trigger] f(s[i])).contains(x);
            if i < front.len() {
                assert(f(front[i]).contains(x));
                assert(front.flat_map(f).contains(x));
                let k = choose|k: int| 0 <= k < front.flat_map(f).len() && front.flat_map(f)[k] == x;
                assert(whole[k] == x);
            } else {
                let part = f(s.last());
                let k = choose|k: int| 0 <= k < part.len() && part[k] == x;
                assert(whole[front.flat_map(f).len() + k] == x);
            }
        }
    }
}

/// The moves from one square to a set of targets are exactly the pairs of
/// that square and a target on the board.
pub proof fn moves_from_contains(from: Square, targets: Set<Square>, mv: ChessMove)
    ensures
        moves_from(from, targets).contains(mv) <==> mv.from == from && mv.to.wf()
            && targets.contains(mv.to),
{
    lemma_squares_of(targets);
    let squares = squares_of(targets);
    let moves = moves_from(from, targets);
    if moves.contains(mv) {
        let k = choose|k: int| 0 <= k < moves.len() && moves[k] == mv;
        assert(squares.contains(squares[k]));
    }
    if mv.from == from && mv.to.wf() && targets.contains(mv.to) {
        assert(squares.contains(mv.to));
        let k = choose|k: int| 0 <= k < squares.len() && squares[k] == mv.to;
        assert(moves[k] == mv);
    }
}

/// A move is among the generated moves of a kind exactly when it takes an
/// allied piece of that kind to one of its targets.
pub proof fn moves_of_contains(p: Position, kind: PieceKind, mv: ChessMove)
    ensures
        p.moves_of(kind).contains(mv) <==> mv.wf() && p.kind(kind).contains(mv.from)
            && p.allies.contains(mv.from) && p.targets(kind, mv.from).contains(mv.to),
{
    let pieces = squares_of(p.kind(kind).intersect(p.allies));
    let f = p.piece_moves(kind);
    lemma_squares_of(p.kind(kind).intersect(p.allies));
    flat_map_contains(pieces, f, mv);
    if p.moves_of(kind).contains(mv) {
        let i = choose|i: int| 0 <= i < pieces.len() && (#[trigger] f(pieces[i])).contains(mv);
        moves_from_contains(pieces[i], p.targets(kind, pieces[i]), mv);
        assert(pieces.contains(pieces[i]));
    }
    if mv.wf() && p.kind(kind).contains(mv.from) && p.allies.contains(mv.from) && p.targets(
        kind,
        mv.from,
    ).contains(mv.to) {
        assert(pieces.contains(mv.from));
        let i = choose|i: int| 0 <= i < pieces.len() && pieces[i] == mv.from;
        moves_from_contains(mv.from, p.targets(kind, mv.from), mv);
        assert(f(pieces[i]).contains(mv));
    }
}

/// A move is among the allies' moves exactly when it takes an allied piece
/// of some kind to one of that kind's targets.
pub proof fn ally_moves_contains(p: Position, mv: ChessMove)
    ensures
        p.ally_moves().contains(mv) <==> mv.wf() && p.allies.contains(mv.from) && exists|
            kind: PieceKind,
        |
            p.kind(kind).contains(mv.from) && #[trigger] p.targets(kind, mv.from).contains(mv.to),
{
    moves_of_contains(p, PieceKind::Pawn, mv);
    moves_of_contains(p, PieceKind::King, mv);
    moves_of_contains(p, PieceKind::Knight, mv);
    moves_of_contains(p, PieceKind::Bishop, mv);
    moves_of_contains(p, PieceKind::Queen, mv);
    moves_of_contains(p, PieceKind::Rook, mv);
    let a = p.moves_of(PieceKind::Pawn);
    let b = p.moves_of(PieceKind::King);
    let c = p.moves_of(PieceKind::Knight);
    let d = p.moves_of(PieceKind::Bishop);
    let e = p.moves_of(PieceKind::Queen);
    let g = p.moves_of(PieceKind::Rook);
    concat_contains(a, b, mv);
    concat_contains(a + b, c, mv);
    concat_contains(a + b + c, d, mv);
    concat_contains(a + b + c + d, e, mv);
    concat_contains(a + b + c + d + e, g, mv);
    if p.ally_moves().contains(mv) {
        let kind = if a.contains(mv) {
            PieceKind::Pawn
        } else if b.contains(mv) {
            PieceKind::King
        } else if c.contains(mv) {
            PieceKind::Knight
        } else if d.contains(mv) {
            PieceKind::Bishop
        } else if e.contains(mv) {
            PieceKind::Queen
        } else {
            PieceKind::Rook
        };
        assert(p.kind(kind).contains(mv.from) && p.targets(kind, mv.from).contains(mv.to));
    }
}

/// An element of a concatenation is an element of one of the two parts.
pub proof fn concat_contains<A>(a: Seq<A>, b: Seq<A>, x: A)
    ensures
        (a + b).contains(x) <==> a.contains(x) || b.contains(x),
{
    if (a + b).contains(x) {
        let k = choose|k: int| 0 <= k < (a + b).len() && (a + b)[k] == x;
        if k < a.len() {
            assert(a[k] == x);
        } else {
            assert(b[k - a.len()] == x);
        }
    }
    if a.contains(x) {
        let k = choose|k: int| 0 <= k < a.len() && a[k] == x;
        assert((a + b)[k] == x);
    }
    if b.contains(x) {
        let k = choose|k: int| 0 <= k < b.len() && b[k] == x;
        assert((a + b)[a.len() + k] == x);
    }
}

/// `a` stands before `b` in a list of generated moves: its source square has
/// the lower index, or the same source and the destination with the lower index.
pub open spec fn move_before(a: ChessMove, b: ChessMove) -> bool {
    a.from.index < b.from.index || (a.from == b.from && a.to.index < b.to.index)
}

/// Each move of the list stands before all that follow it.
pub open spec fn strictly_ordered(moves: Seq<ChessMove>) -> bool {
    forall|i: int, j: int|
        0 <= i < j < moves.len() ==> move_before(#[trigger] moves[i], #[trigger] moves[j])
}

/// The statement of `moves_of_are_ordered` for the first `n` pieces of the kind.
proof fn moves_of_first_pieces_are_ordered(p: Position, kind: PieceKind, n: int)
    requires
        0 <= n <= squares_of(p.kind(kind).intersect(p.allies)).len(),
    ensures
        ({
            let pieces = squares_of(p.kind(kind).intersect(p.allies));
            let moves = pieces.take(n).flat_map(p.piece_moves(kind));
            &&& strictly_ordered(moves)
            &&& forall|k: int|
                0 <= k < moves.len() ==> n > 0 && (#[trigger] moves[k]).from.index <= pieces[n
                    - 1].index
        }),
    decreases n,
{
    let pieces = squares_of(p.kind(kind).intersect(p.allies));
    let f = p.piece_moves(kind);
    let moves = pieces.take(n).flat_map(f);
    if n == 0 {
        assert(moves =~= Seq::<ChessMove>::empty());
    } else {
        moves_of_first_pieces_are_ordered(p, kind, n - 1);
        lemma_squares_of(p.kind(kind).intersect(p.allies));
        pieces.lemma_flat_map_take_append(f, n - 1);
        let from = pieces[n - 1];
        let earlier = pieces.take(n - 1).flat_map(f);
        let added = f(from);
        assert(moves =~= earlier + added);
        lemma_squares_of(p.targets(kind, from));
        assert forall|i: int, j: int| 0 <= i < j < moves.len() implies move_before(
            #[trigger] moves[i],
            #[trigger] moves[j],
        ) by {
            if j < earlier.len() {
                assert(move_before(earlier[i], earlier[j]));
            } else if i < earlier.len() {
                assert(earlier[i].from.index <= pieces[n - 2].index);
                assert(added[j - earlier.len()].from == from);
            } else {
                assert(added[i - earlier.len()].from == from);
                assert(added[j - earlier.len()].from == from);
            }
        }
        assert forall|k: int| 0 <= k < moves.len() implies (#[trigger] moves[k]).from.index
            <= pieces[n - 1].index by {
            if k < earlier.len() {
                assert(earlier[k].from.index <= pieces[n - 2].index);
            } else {
                assert(added[k - earlier.len()].from == from);
            }
        }
    }
}

/// The generated moves of a kind come by ascending source square and then by
/// ascending destination, so none comes twice.
pub proof fn moves_of_are_ordered(p: Position, kind: PieceKind)
    ensures
        strictly_ordered(p.moves_of(kind)),
        p.moves_of(kind).no_duplicates(),
{
    let pieces = squares_of(p.kind(kind).intersect(p.allies));
    moves_of_first_pieces_are_ordered(p, kind, pieces.len() as int);
    assert(pieces.take(pieces.len() as int) =~= pieces);
}

/// In a consistent position no move is generated twice for the allies.
pub proof fn ally_moves_have_no_duplicates(p: Position)
    requires
        p.wf(),
    ensures
        p.ally_moves().no_duplicates(),
{
    let a = p.moves_of(PieceKind::Pawn);
    let b = p.moves_of(PieceKind::King);
    let c = p.moves_of(PieceKind::Knight);
    let d = p.moves_of(PieceKind::Bishop);
    let e = p.moves_of(PieceKind::Queen);
    let g = p.moves_of(PieceKind::Rook);
    moves_of_are_ordered(p, PieceKind::Pawn);
    moves_of_are_ordered(p, PieceKind::King);
    moves_of_are_ordered(p, PieceKind::Knight);
    moves_of_are_ordered(p, PieceKind::Bishop);
    moves_of_are_ordered(p, PieceKind::Queen);
    moves_of_are_ordered(p, PieceKind::Rook);
    moves_of_kinds_differ(p, PieceKind::Pawn, PieceKind::King);
    moves_of_kinds_differ(p, PieceKind::Pawn, PieceKind::Knight);
    moves_of_kinds_differ(p, PieceKind::Pawn, PieceKind::Bishop);
    moves_of_kinds_differ(p, PieceKind::Pawn, PieceKind::Queen);
    moves_of_kinds_differ(p, PieceKind::Pawn, PieceKind::Rook);
    moves_of_kinds_differ(p, PieceKind::King, PieceKind::Knight);
    moves_of_kinds_differ(p, PieceKind::King, PieceKind::Bishop);
    moves_of_kinds_differ(p, PieceKind::King, PieceKind::Queen);
    moves_of_kinds_differ(p, PieceKind::King, PieceKind::Rook);
    moves_of_kinds_differ(p, PieceKind::Knight, PieceKind::Bishop);
    moves_of_kinds_differ(p, PieceKind::Knight, PieceKind::Queen);
    moves_of_kinds_differ(p, PieceKind::Knight, PieceKind::Rook);
    moves_of_kinds_differ(p, PieceKind::Bishop, PieceKind::Queen);
    moves_of_kinds_differ(p, PieceKind::Bishop, PieceKind::Rook);
    moves_of_kinds_differ(p, PieceKind::Queen, PieceKind::Rook);
    vstd::seq_lib::lemma_no_dup_in_concat(a, b);
    vstd::seq_lib::lemma_no_dup_in_concat(a + b, c);
    vstd::seq_lib::lemma_no_dup_in_concat(a + b + c, d);
    vstd::seq_lib::lemma_no_dup_in_concat(a + b + c + d, e);
    vstd::seq_lib::lemma_no_dup_in_concat(a + b + c + d + e, g);
}

/// In a consistent position the moves of two different kinds have nothing in
/// common: their pieces stand on different squares.
proof fn moves_of_kinds_differ(p: Position, first: PieceKind, second: PieceKind)
    requires
        p.wf(),
        first != second,
    ensures
        forall|i: int, j: int|
            0 <= i < p.moves_of(first).len() && 0 <= j < p.moves_of(second).len() ==> (
            #[trigger] p.moves_of(first)[i]) != (#[trigger] p.moves_of(second)[j]),
{
    assert forall|i: int, j: int|
        0 <= i < p.moves_of(first).len() && 0 <= j < p.moves_of(second).len() implies (
    #[trigger] p.moves_of(first)[i]) != (#[trigger] p.moves_of(second)[j]) by {
        let x = p.moves_of(first)[i];
        let y = p.moves_of(second)[j];
        assert(p.moves_of(first).contains(x));
        assert(p.moves_of(second).contains(y));
        moves_of_contains(p, first, x);
        moves_of_contains(p, second, y);
        assert(p.kind(first).disjoint(p.kind(second)));
    }
}

/// A list without repeats has as many moves as there are moves in it.
proof fn moves_are_counted(moves: Seq<ChessMove>, expected: Set<ChessMove>)
    requires
        moves.no_duplicates(),
        forall|mv: ChessMove| moves.contains(mv) <==> expected.contains(mv),
    ensures
        moves.len() == expected.len(),
{
    moves.unique_seq_to_set();
    assert(moves.to_set() =~= expected);
}

/// From a square of the first rank of the initial position a sliding piece
/// sees allies only.
proof fn first_rank_sees_allies_only(from: Square, dir: Direction)
    requires
        from.wf(),
        from.rank() == 0,
    ensures
        ray_of(Position::initial().occupied(), from, dir).subset_of(Position::initial().allies),
{
    let start = Position::initial();
    lemma_blocked_ray(start.occupied(), from, dir);
    if ray_on_board(from, dir, 1) {
        assert(start.allies.contains(ray_square(from, dir, 1)));
    }
}

/// In the initial position the allies have eight pawn moves, the single
/// pushes, and four knight moves, two for each knight; their bishops, rooks,
/// queen and king cannot move. That makes twelve moves.
pub proof fn initial_position_offers_twelve_moves()
    ensures
        ({
            let start = Position::initial();
            &&& start.moves_of(PieceKind::Pawn).len() == 8
            &&& start.moves_of(PieceKind::Knight).len() == 4
            &&& start.moves_of(PieceKind::Bishop).len() == 0
            &&& start.moves_of(PieceKind::Rook).len() == 0
            &&& start.moves_of(PieceKind::Queen).len() == 0
            &&& start.moves_of(PieceKind::King).len() == 0
            &&& start.ally_moves().len() == 12
            &&& forall|mv: ChessMove|
                start.moves_of(PieceKind::Pawn).contains(mv) <==> mv.from.wf() && mv.from.rank()
                    == 1 && mv.to == mv.from.shifted(0, 1)
        }),
{
    let start = Position::initial();
    let step = |from: int, to: int|
        ChessMove { from: Square { index: from as u8 }, to: Square { index: to as u8 } };

    let pushes = set![
        step(8, 16),
        step(9, 17),
        step(10, 18),
        step(11, 19),
        step(12, 20),
        step(13, 21),
        step(14, 22),
        step(15, 23),
    ];
    assert forall|mv: ChessMove| start.moves_of(PieceKind::Pawn).contains(mv) <==> pushes.contains(
        mv,
    ) by {
        moves_of_contains(start, PieceKind::Pawn, mv);
    }
    assert forall|mv: ChessMove|
        start.moves_of(PieceKind::Pawn).contains(mv) <==> mv.from.wf() && mv.from.rank() == 1
            && mv.to == mv.from.shifted(0, 1) by {
        moves_of_contains(start, PieceKind::Pawn, mv);
    }
    moves_of_are_ordered(start, PieceKind::Pawn);
    moves_are_counted(start.moves_of(PieceKind::Pawn), pushes);

    let jumps = set![step(1, 16), step(1, 18), step(6, 21), step(6, 23)];
    assert forall|mv: ChessMove| start.moves_of(PieceKind::Knight).contains(mv) <==> jumps.contains(
        mv,
    ) by {
        moves_of_contains(start, PieceKind::Knight, mv);
        if jumps.contains(mv) {
            assert(knight_jump(mv.from, mv.to));
        }
    }
    moves_of_are_ordered(start, PieceKind::Knight);
    moves_are_counted(start.moves_of(PieceKind::Knight), jumps);

    let none = Set::<ChessMove>::empty();
    assert forall|mv: ChessMove| !start.moves_of(PieceKind::King).contains(mv) by {
        moves_of_contains(start, PieceKind::King, mv);
    }
    moves_of_are_ordered(start, PieceKind::King);
    moves_are_counted(start.moves_of(PieceKind::King), none);

    assert forall|mv: ChessMove|
        !start.moves_of(PieceKind::Rook).contains(mv) && !start.moves_of(
            PieceKind::Bishop,
        ).contains(mv) && !start.moves_of(PieceKind::Queen).contains(mv) by {
        moves_of_contains(start, PieceKind::Rook, mv);
        moves_of_contains(start, PieceKind::Bishop, mv);
        moves_of_contains(start, PieceKind::Queen, mv);
        if mv.from.wf() && mv.from.rank() == 0 {
            first_rank_sees_allies_only(mv.from, Direction::North);
            first_rank_sees_allies_only(mv.from, Direction::NorthEast);
            first_rank_sees_allies_only(mv.from, Direction::East);
            first_rank_sees_allies_only(mv.from, Direction::SouthEast);
            first_rank_sees_allies_only(mv.from, Direction::South);
            first_rank_sees_allies_only(mv.from, Direction::SouthWest);
            first_rank_sees_allies_only(mv.from, Direction::West);
            first_rank_sees_allies_only(mv.from, Direction::NorthWest);
        }
    }
    moves_of_are_ordered(start, PieceKind::Rook);
    moves_of_are_ordered(start, PieceKind::Bishop);
    moves_of_are_ordered(start, PieceKind::Queen);
    moves_are_counted(start.moves_of(PieceKind::Rook), none);
    moves_are_counted(start.moves_of(PieceKind::Bishop), none);
    moves_are_counted(start.moves_of(PieceKind::Queen), none);
}

/// Every generated move of the allies has both squares on the board.
pub proof fn ally_moves_are_on_board(p: Position)
    ensures
        forall|i: int| 0 <= i < p.ally_moves().len() ==> (#[trigger] p.ally_moves()[i]).wf(),
{
    assert forall|i: int| 0 <= i < p.ally_moves().len() implies (#[trigger] p.ally_moves()[i]).wf() by {
        let mv = p.ally_moves()[i];
        assert(p.ally_moves().contains(mv));
        ally_moves_contains(p, mv);
    }
}

/// A move between squares of the board is among the enemies' moves exactly
/// when its mirror image is among the allies' moves of the mirrored position.
pub proof fn enemy_moves_contains(p: Position, mv: ChessMove)
    requires
        mv.wf(),
    ensures
        p.enemy_moves().contains(mv) <==> p.mirror().ally_moves().contains(mv.flipped()),
{
    let mirrored = p.mirror().ally_moves();
    let enemy = p.enemy_moves();
    ally_moves_are_on_board(p.mirror());
    lemma_flipped_twice(mv.from);
    lemma_flipped_twice(mv.to);
    if enemy.contains(mv) {
        let i = choose|i: int| 0 <= i < enemy.len() && enemy[i] == mv;
        lemma_flipped_twice(mirrored[i].from);
        lemma_flipped_twice(mirrored[i].to);
        assert(mirrored[i] == mv.flipped());
    }
    if mirrored.contains(mv.flipped()) {
        let i = choose|i: int| 0 <= i < mirrored.len() && mirrored[i] == mv.flipped();
        assert(enemy[i] == mv);
    }
}

/// The two sides' move lists mirror each other: the enemies' moves are the
/// allies' moves of the mirrored position, mirrored back, and the allies'
/// moves are the enemies' moves of the mirrored position, mirrored back.
pub proof fn move_lists_mirror_each_other(p: Position)
    requires
        p.on_board(),
    ensures
        p.enemy_moves() == p.mirror().ally_moves().map_values(|mv: ChessMove| mv.flipped()),
        p.ally_moves() == p.mirror().enemy_moves().map_values(|mv: ChessMove| mv.flipped()),
{
    mirror_is_an_involution(p);
    ally_moves_are_on_board(p);
    let flip = |mv: ChessMove| mv.flipped();
    let back = p.mirror().enemy_moves().map_values(flip);
    assert(p.mirror().enemy_moves() == p.ally_moves().map_values(flip));
    assert forall|i: int| 0 <= i < back.len() implies back[i] == p.ally_moves()[i] by {
        let mv = p.ally_moves()[i];
        lemma_flipped_twice(mv.from);
        lemma_flipped_twice(mv.to);
    }
    assert(p.ally_moves() =~= back);
}

} // verus!
