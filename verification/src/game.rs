//! The course of a game: whose turn it is, when the game has ended, and
//! which typed moves are accepted.

use crate::chess_board::ChessBoard;
use crate::chess_move::{move_of_text, parse_move, ChessMove};
use crate::position::{Position, Score};
use vstd::prelude::*;

verus! {

/// One of the two sides, named from the board's point of view.
#[derive(Clone, Copy, Debug, PartialEq, Eq, Structural)]
pub enum Team {
    /// The side on the first ranks, for which the rules are written.
    Ally,
    /// The other side.
    Enemy,
}

/// Where a game stands when a side is about to move.
#[derive(Clone, Copy, Debug, PartialEq, Eq, Structural)]
pub enum Phase {
    /// A king has been captured; the team named has won.
    Won(Team),
    /// Both kings stand, and the team named is to move but has no move.
    NoMoves(Team),
    /// Both kings stand, and the team named is to move and has a move.
    Turn(Team),
}

/// Why a typed move is not accepted.
#[derive(Clone, Copy, Debug, PartialEq, Eq, Structural)]
pub enum MoveError {
    /// The text is not a move in four-character notation.
    BadFormat,
    /// The text is a move, but not one of the moves on offer.
    NotValid,
}

impl Team {
    /// The opposite side.
    pub open spec fn spec_other_team(self) -> Team {
        match self {
            Team::Ally => Team::Enemy,
            Team::Enemy => Team::Ally,
        }
    }

    /// The opposite side.
    #[verifier::when_used_as_spec(spec_other_team)]
    pub fn other_team(self) -> (other: Team)
        ensures
            other == self.spec_other_team(),
    {
        match self {
            Team::Ally => Team::Enemy,
            Team::Enemy => Team::Ally,
        }
    }
}

impl Position {
    /// The pseudo-legal moves of the given team.
    pub open spec fn moves_for(self, team: Team) -> Seq<ChessMove> {
        match team {
            Team::Ally => self.ally_moves(),
            Team::Enemy => self.enemy_moves(),
        }
    }

    /// The team that has won, if a king has been captured: the enemies when
    /// the allies have no king, else the allies.
    pub open spec fn winner(self) -> Option<Team> {
        match self.score() {
            Score::Win => Some(Team::Ally),
            Score::Lose => Some(Team::Enemy),
            Score::Heuristic(_) => None,
        }
    }

    /// Where the game stands when `turn` is about to move.
    pub open spec fn phase(self, turn: Team) -> Phase {
        match self.winner() {
            Some(team) => Phase::Won(team),
            None => if self.moves_for(turn).len() == 0 {
                Phase::NoMoves(turn)
            } else {
                Phase::Turn(turn)
            },
        }
    }
}

/// What becomes of a typed move when `moves` are on offer: the move it names
/// if that is one of them, else the reason why it is refused.
pub open spec fn reading_of(moves: Seq<ChessMove>, text: Seq<char>) -> Result<ChessMove, MoveError> {
    match move_of_text(text) {
        None => Err(MoveError::BadFormat),
        Some(mv) => if moves.contains(mv) {
            Ok(mv)
        } else {
            Err(MoveError::NotValid)
        },
    }
}

/// Whether `mv` is one of `moves`.
pub fn contains_move(moves: &Vec<ChessMove>, mv: &ChessMove) -> (found: bool)
    ensures
        found == moves@.contains(*mv),
{
    let mut next: usize = 0;
    while next < moves.len()
        invariant
            next <= moves.len(),
            forall|i: int| 0 <= i < next ==> moves[i] != *mv,
        decreases moves.len() - next,
    {
        if moves[next] == *mv {
            return true;
        }
        next = next + 1;
    }
    false
}

/// Reads a typed move and accepts it if it is one of `moves`.
pub fn read_move(moves: &Vec<ChessMove>, text: &str) -> (read: Result<ChessMove, MoveError>)
    ensures
        read == reading_of(moves@, text@),
{
    match parse_move(text) {
        Err(_) => Err(MoveError::BadFormat),
        Ok(mv) => if contains_move(moves, &mv) {
            Ok(mv)
        } else {
            Err(MoveError::NotValid)
        },
    }
}

impl ChessBoard {
    /// The pseudo-legal moves of the given team.
    pub fn gen_moves(&self, team: Team) -> (moves: Vec<ChessMove>)
        ensures
            moves@ == self@.moves_for(team),
            forall|i: int| 0 <= i < moves.len() ==> (#[trigger] moves[i]).wf(),
    {
        match team {
            Team::Ally => self.gen_ally_moves(),
            Team::Enemy => self.gen_enemy_moves(),
        }
    }

    /// The team that has won, if a king has been captured.
    pub fn winner(&self) -> (team: Option<Team>)
        ensures
            team == self@.winner(),
    {
        match self.score() {
            Score::Win => Some(Team::Ally),
            Score::Lose => Some(Team::Enemy),
            Score::Heuristic(_) => None,
        }
    }

    /// Where the game stands when `turn` is about to move.
    pub fn phase(&self, turn: Team) -> (phase: Phase)
        ensures
            phase == self@.phase(turn),
    {
        match self.winner() {
            Some(team) => Phase::Won(team),
            None => if self.gen_moves(turn).len() == 0 {
                Phase::NoMoves(turn)
            } else {
                Phase::Turn(turn)
            },
        }
    }
}

} // verus!
