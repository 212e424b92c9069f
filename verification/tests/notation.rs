use rusty_chess::chess_board::ChessBoard;
use rusty_chess::chess_move::{parse_move, ChessMove};
use rusty_chess::square::Square;

fn sq(file: usize, rank: usize) -> Square {
    Square::from_file_rank(file, rank).unwrap()
}

#[test]
fn upper_and_lower_case_give_the_same_move() {
    let board = ChessBoard::new();
    let upper = board.move_from_str("A2A4");
    let lower = board.move_from_str("a2a4");
    assert_eq!(Ok(ChessMove { from: sq(0, 1), to: sq(0, 3) }), upper);
    assert_eq!(upper, lower);
    assert_eq!(upper, board.move_from_str("a2A4"));
}

#[test]
fn malformed_moves_are_refused() {
    let board = ChessBoard::new();
    assert_eq!(Err(()), board.move_from_str("A2A4X"));
    assert_eq!(Err(()), board.move_from_str("I2A4"));
    assert_eq!(Err(()), board.move_from_str("A0A4"));
    assert_eq!(Err(()), board.move_from_str(""));
    assert_eq!(Err(()), board.move_from_str("A2A"));
    assert_eq!(Err(()), board.move_from_str("A9A4"));
    assert_eq!(Err(()), board.move_from_str("A2I4"));
    assert_eq!(Err(()), board.move_from_str("A2A9"));
    assert_eq!(Err(()), board.move_from_str("A2A0"));
    assert_eq!(Err(()), board.move_from_str("2A4A"));
    assert_eq!(Err(()), board.move_from_str("A2 A4"));
    assert_eq!(Err(()), board.move_from_str(" A2A4"));
    assert_eq!(Err(()), board.move_from_str("A2A4\n"));
    assert_eq!(Err(()), board.move_from_str("@2A4"));
    assert_eq!(Err(()), board.move_from_str("`2A4"));
    assert_eq!(Err(()), board.move_from_str("i2a4"));
    assert_eq!(Err(()), board.move_from_str("A:A4"));
    assert_eq!(Err(()), board.move_from_str("A/A4"));
}

#[test]
fn letters_with_marks_are_not_files() {
    assert_eq!(Err(()), parse_move("\u{1e96}1a1"));
    assert_eq!(Err(()), parse_move("\u{1e9a}1a1"));
    assert_eq!(Err(()), parse_move("\u{e9}2a4"));
    assert_eq!(Err(()), parse_move("a\u{661}a4"));
    assert_eq!(Err(()), parse_move("\u{e9}\u{e9}\u{e9}\u{e9}"));
}

#[test]
fn corners_of_the_board_parse() {
    assert_eq!(Ok(ChessMove { from: sq(0, 0), to: sq(7, 7) }), parse_move("A1H8"));
    assert_eq!(Ok(ChessMove { from: sq(7, 7), to: sq(0, 0) }), parse_move("h8a1"));
    assert_eq!(Ok(ChessMove { from: sq(4, 1), to: sq(4, 3) }), parse_move("e2E4"));
    assert_eq!(Ok(ChessMove { from: sq(3, 3), to: sq(3, 3) }), parse_move("d4d4"));
}

#[test]
fn every_square_has_a_name() {
    let files = ["A", "B", "C", "D", "E", "F", "G", "H"];
    let ranks = ["1", "2", "3", "4", "5", "6", "7", "8"];
    for (file, letter) in files.iter().enumerate() {
        for (rank, digit) in ranks.iter().enumerate() {
            let text = format!("{}{}{}{}", letter, digit, letter.to_lowercase(), digit);
            let square = sq(file, rank);
            assert_eq!(Ok(ChessMove { from: square, to: square }), parse_move(&text));
        }
    }
}

#[test]
fn a_move_flips_both_squares() {
    let mut mv = parse_move("b1c3").unwrap();
    mv.flip_vertical();
    assert_eq!(parse_move("b8c6").unwrap(), mv);
    mv.flip_vertical();
    assert_eq!(parse_move("b1c3").unwrap(), mv);
}

#[test]
fn a_move_is_written_in_capitals() {
    assert_eq!("A2A4", parse_move("a2a4").unwrap().notation());
    assert_eq!("H8A1", parse_move("h8A1").unwrap().notation());
    assert_eq!("E1E1", ChessMove { from: sq(4, 0), to: sq(4, 0) }.notation());
}

#[test]
fn written_moves_read_back() {
    for from in 0..64u8 {
        for to in 0..64u8 {
            let mv = ChessMove { from: Square { index: from }, to: Square { index: to } };
            assert_eq!(Ok(mv), parse_move(&mv.notation()));
            assert_eq!(Ok(mv), parse_move(&mv.notation().to_lowercase()));
        }
    }
}
