use rusty_chess::chess_board::ChessBoard;
use rusty_chess::chess_move::{parse_move, ChessMove};
use rusty_chess::position::{PieceKind, Score};
use rusty_chess::square::Square;
use rusty_chess::square_set::SquareSet;

fn sq(file: usize, rank: usize) -> Square {
    Square::from_file_rank(file, rank).unwrap()
}

fn mv(text: &str) -> ChessMove {
    parse_move(text).unwrap()
}

fn moves(texts: &[&str]) -> Vec<ChessMove> {
    texts.iter().map(|text| mv(text)).collect()
}

fn set_of(names: &[&str]) -> SquareSet {
    let mut set = SquareSet::empty();
    for name in names {
        set.insert(mv(&format!("{}{}", name, name)).from);
    }
    set
}

fn empty_board() -> ChessBoard {
    ChessBoard {
        pawns: SquareSet::empty(),
        knights: SquareSet::empty(),
        rooks: SquareSet::empty(),
        bishops: SquareSet::empty(),
        queens: SquareSet::empty(),
        kings: SquareSet::empty(),
        enemies: SquareSet::empty(),
        allies: SquareSet::empty(),
    }
}

fn kings_only() -> ChessBoard {
    ChessBoard {
        kings: set_of(&["e1", "e8"]),
        allies: set_of(&["e1"]),
        enemies: set_of(&["e8"]),
        ..empty_board()
    }
}

fn sets_of(board: &ChessBoard) -> [SquareSet; 8] {
    [
        board.pawns,
        board.knights,
        board.rooks,
        board.bishops,
        board.queens,
        board.kings,
        board.enemies,
        board.allies,
    ]
}

fn is_consistent(board: &ChessBoard) -> bool {
    let kinds = [board.pawns, board.knights, board.rooks, board.bishops, board.queens, board.kings];
    let mut pieces = SquareSet::empty();
    let mut count = 0;
    for kind in kinds {
        pieces = pieces.union(kind);
        count += kind.num_pieces();
    }
    board.allies.intersect(board.enemies).is_empty()
        && pieces == board.allies.union(board.enemies)
        && count == pieces.num_pieces()
}

#[test]
fn initial_position_has_the_full_armies() {
    let board = ChessBoard::new();
    for side in [board.allies, board.enemies] {
        assert_eq!(8, board.pawns.intersect(side).num_pieces());
        assert_eq!(2, board.rooks.intersect(side).num_pieces());
        assert_eq!(2, board.knights.intersect(side).num_pieces());
        assert_eq!(2, board.bishops.intersect(side).num_pieces());
        assert_eq!(1, board.queens.intersect(side).num_pieces());
        assert_eq!(1, board.kings.intersect(side).num_pieces());
        assert_eq!(16, side.num_pieces());
    }
    assert!(board.allies.intersect(board.enemies).is_empty());
    assert_eq!(32, board.allies.union(board.enemies).num_pieces());
    assert_eq!(SquareSet { bits: 0xffff_0000_0000_ffff }, board.allies.union(board.enemies));
    assert_eq!(SquareSet { bits: 0x0000_0000_0000_ffff }, board.allies);
    assert!(is_consistent(&board));
}

#[test]
fn initial_position_has_each_piece_on_its_square() {
    let board = ChessBoard::new();
    assert_eq!(set_of(&["a1", "h1", "a8", "h8"]), board.rooks);
    assert_eq!(set_of(&["b1", "g1", "b8", "g8"]), board.knights);
    assert_eq!(set_of(&["c1", "f1", "c8", "f8"]), board.bishops);
    assert_eq!(set_of(&["d1", "d8"]), board.queens);
    assert_eq!(set_of(&["e1", "e8"]), board.kings);
    assert_eq!(
        set_of(&[
            "a2", "b2", "c2", "d2", "e2", "f2", "g2", "h2", "a7", "b7", "c7", "d7", "e7", "f7",
            "g7", "h7",
        ]),
        board.pawns
    );
    assert_eq!(board.pawns, board.kind(PieceKind::Pawn));
    assert_eq!(board.kings, board.kind(PieceKind::King));
    assert_eq!(board.queens, board.kind(PieceKind::Queen));
    assert_eq!(board.rooks, board.kind(PieceKind::Rook));
    assert_eq!(board.bishops, board.kind(PieceKind::Bishop));
    assert_eq!(board.knights, board.kind(PieceKind::Knight));
}

#[test]
fn initial_position_gives_pawn_pushes_and_knight_jumps() {
    let board = ChessBoard::new();
    assert_eq!(
        moves(&["a2a3", "b2b3", "c2c3", "d2d3", "e2e3", "f2f3", "g2g3", "h2h3"]),
        board.gen_pawn_moves()
    );
    assert_eq!(moves(&["b1a3", "b1c3", "g1f3", "g1h3"]), board.gen_knight_moves());
    assert!(board.gen_bishop_moves().is_empty());
    assert!(board.gen_rook_moves().is_empty());
    assert!(board.gen_queen_moves().is_empty());
    assert!(board.gen_king_moves().is_empty());
    assert_eq!(
        moves(&[
            "a2a3", "b2b3", "c2c3", "d2d3", "e2e3", "f2f3", "g2g3", "h2h3", "b1a3", "b1c3",
            "g1f3", "g1h3",
        ]),
        board.gen_ally_moves()
    );
}

#[test]
fn initial_position_gives_the_enemy_the_mirrored_moves() {
    let board = ChessBoard::new();
    assert_eq!(
        moves(&[
            "a7a6", "b7b6", "c7c6", "d7d6", "e7e6", "f7f6", "g7g6", "h7h6", "b8a6", "b8c6",
            "g8f6", "g8h6",
        ]),
        board.gen_enemy_moves()
    );
}

#[test]
fn enemy_moves_are_the_mirrored_ally_moves_of_the_mirrored_board() {
    let mut board = ChessBoard::new();
    for text in ["e2e3", "d7d5", "f1b5", "c7c6", "d1h5", "g8f6", "b1c3", "d5d4"] {
        board.do_move(&mv(text));
        let mut expected = board.as_other().gen_ally_moves();
        for m in expected.iter_mut() {
            m.flip_vertical();
        }
        assert_eq!(expected, board.gen_enemy_moves());
        let mut back = board.as_other().gen_enemy_moves();
        for m in back.iter_mut() {
            m.flip_vertical();
        }
        assert_eq!(back, board.gen_ally_moves());
    }
}

#[test]
fn mirroring_twice_gives_the_board_back() {
    let mut board = ChessBoard::new();
    assert_eq!(board, board.as_other().as_other());
    for text in ["e2e4", "e7e5", "g1f3", "b8c6", "f1c4", "f8c5", "c4f7"] {
        board.do_move(&mv(text));
        assert_eq!(board, board.as_other().as_other());
    }
}

#[test]
fn mirroring_swaps_the_sides() {
    let mut board = ChessBoard::new();
    board.do_move(&mv("e2e4"));
    let other = board.as_other();
    assert_eq!(board.enemies.flip_vertical(), other.allies);
    assert_eq!(board.allies.flip_vertical(), other.enemies);
    assert_eq!(board.pawns.flip_vertical(), other.pawns);
    assert!(other.pawns.intersect(other.enemies).contains(sq(4, 4)));
    assert_eq!(board.score(), Score::Heuristic(0));
    assert_eq!(other.score(), Score::Heuristic(0));
}

#[test]
fn moves_keep_the_sides_apart() {
    let mut board = ChessBoard::new();
    let played = [
        "e2e4", "d7d5", "e4d5", "d8d5", "b1c3", "d5e5", "f1e2", "c8g4", "e2g4", "e5e1", "a1a1",
        "h8h1", "c3c3", "a2a7",
    ];
    for text in played {
        board.do_move(&mv(text));
        assert!(board.allies.intersect(board.enemies).is_empty());
        assert!(is_consistent(&board));
    }
}

#[test]
fn a_move_relocates_the_piece() {
    let mut board = ChessBoard::new();
    board.do_move(&mv("g1f3"));
    assert!(!board.knights.contains(sq(6, 0)));
    assert!(!board.allies.contains(sq(6, 0)));
    assert!(board.knights.contains(sq(5, 2)));
    assert!(board.allies.contains(sq(5, 2)));
    assert_eq!(16, board.allies.num_pieces());
    assert_eq!(16, board.enemies.num_pieces());
    assert_eq!(set_of(&["b1", "f3", "b8", "g8"]), board.knights);
}

#[test]
fn a_capture_removes_the_captured_piece() {
    let mut board = ChessBoard::new();
    board.do_move(&mv("d1d7"));
    assert_eq!(set_of(&["d7", "d8"]), board.queens);
    assert!(!board.pawns.contains(sq(3, 6)));
    assert!(board.allies.contains(sq(3, 6)));
    assert!(!board.enemies.contains(sq(3, 6)));
    assert_eq!(15, board.enemies.num_pieces());
    assert_eq!(16, board.allies.num_pieces());
    assert_eq!(Score::Heuristic(1), board.score());
}

#[test]
fn a_move_from_an_empty_square_only_empties_the_destination() {
    let start = ChessBoard::new();
    let mut board = start;
    board.do_move(&mv("e4e7"));
    let gone = sq(4, 6);
    let before = sets_of(&start);
    let after = sets_of(&board);
    for (old, new) in before.iter().zip(after.iter()) {
        let mut expected = *old;
        expected.remove(gone);
        assert_eq!(expected, *new);
    }
    assert!(!board.enemies.contains(gone));

    let mut untouched = start;
    untouched.do_move(&mv("e4e5"));
    assert_eq!(start, untouched);
}

#[test]
fn a_move_onto_its_own_square_removes_the_piece() {
    let mut board = ChessBoard::new();
    board.do_move(&mv("e1e1"));
    assert!(!board.kings.contains(sq(4, 0)));
    assert!(!board.allies.contains(sq(4, 0)));
    assert_eq!(Score::Lose, board.score());
}

#[test]
fn score_of_the_initial_position_is_even() {
    let board = ChessBoard::new();
    assert_eq!(Score::Heuristic(0), board.score());
    assert!(!board.is_game_over());
}

#[test]
fn score_weighs_each_kind() {
    let kings = kings_only();
    assert_eq!(Score::Heuristic(0), kings.score());
    let with = |change: &dyn Fn(&mut ChessBoard)| {
        let mut board = kings;
        change(&mut board);
        board.score()
    };
    assert_eq!(
        Score::Heuristic(1),
        with(&|b| {
            b.pawns.insert(sq(0, 1));
            b.allies.insert(sq(0, 1));
        })
    );
    assert_eq!(
        Score::Heuristic(3),
        with(&|b| {
            b.knights.insert(sq(0, 1));
            b.allies.insert(sq(0, 1));
        })
    );
    assert_eq!(
        Score::Heuristic(3),
        with(&|b| {
            b.bishops.insert(sq(0, 1));
            b.allies.insert(sq(0, 1));
        })
    );
    assert_eq!(
        Score::Heuristic(5),
        with(&|b| {
            b.rooks.insert(sq(0, 1));
            b.allies.insert(sq(0, 1));
        })
    );
    assert_eq!(
        Score::Heuristic(9),
        with(&|b| {
            b.queens.insert(sq(0, 1));
            b.allies.insert(sq(0, 1));
        })
    );
    assert_eq!(
        Score::Heuristic(-9),
        with(&|b| {
            b.queens.insert(sq(0, 1));
            b.enemies.insert(sq(0, 1));
        })
    );
    assert_eq!(
        Score::Heuristic(-5),
        with(&|b| {
            b.rooks.insert(sq(0, 1));
            b.enemies.insert(sq(0, 1));
        })
    );
    assert_eq!(
        Score::Heuristic(-1),
        with(&|b| {
            b.pawns.insert(sq(0, 6));
            b.enemies.insert(sq(0, 6));
        })
    );
}

#[test]
fn score_sums_the_material() {
    let board = ChessBoard {
        pawns: set_of(&["a2", "b2", "c2", "a7"]),
        knights: set_of(&["b1", "b8", "g8"]),
        bishops: set_of(&["c1"]),
        rooks: set_of(&["a8", "h8"]),
        queens: set_of(&["d1"]),
        kings: set_of(&["e1", "e8"]),
        allies: set_of(&["a2", "b2", "c2", "b1", "c1", "d1", "e1"]),
        enemies: set_of(&["a7", "b8", "g8", "a8", "h8", "e8"]),
    };
    // (3 - 1) * 1 + (0 - 2) * 5 + (1 - 2) * 3 + (1 - 0) * 3 + (1 - 0) * 9
    assert_eq!(Score::Heuristic(1), board.score());
    assert_eq!(Score::Heuristic(-1), board.as_other().score());
}

#[test]
fn one_more_ally_pawn_is_worth_one_point() {
    let mut board = ChessBoard::new();
    board.do_move(&mv("e2e4"));
    board.do_move(&mv("d1h5"));
    let before = board.score();
    let mut more = board;
    more.pawns.insert(sq(0, 3));
    more.allies.insert(sq(0, 3));
    assert_eq!(Score::Heuristic(0), before);
    assert_eq!(Score::Heuristic(1), more.score());
    let mut two = more;
    two.pawns.insert(sq(7, 4));
    two.allies.insert(sq(7, 4));
    assert_eq!(Score::Heuristic(2), two.score());
}

#[test]
fn score_is_a_win_without_an_enemy_king() {
    let mut board = ChessBoard::new();
    board.do_move(&mv("d1e8"));
    assert_eq!(Score::Win, board.score());
    assert!(board.is_game_over());
    assert_eq!(Score::Lose, board.as_other().score());
    assert!(board.as_other().is_game_over());
}

#[test]
fn score_is_a_loss_without_an_own_king() {
    let mut board = ChessBoard::new();
    board.do_move(&mv("d8e1"));
    assert_eq!(Score::Lose, board.score());
    assert!(board.is_game_over());
    assert_eq!(Score::Win, board.as_other().score());
}

#[test]
fn score_is_a_loss_without_any_king() {
    let mut board = ChessBoard::new();
    board.do_move(&mv("d8e1"));
    board.do_move(&mv("d1e8"));
    assert!(board.kings.is_empty());
    assert_eq!(Score::Lose, board.score());
    assert!(board.is_game_over());
    assert_eq!(Score::Lose, empty_board().score());
    assert!(empty_board().is_game_over());
}

#[test]
fn game_is_over_exactly_when_the_score_is_decided() {
    let mut board = ChessBoard::new();
    let played = ["e2e4", "d7d5", "e4d5", "d8d5", "d1e8", "d5e1", "a1a8", "h8h1", "e1e2"];
    for text in played {
        board.do_move(&mv(text));
        let decided = matches!(board.score(), Score::Win | Score::Lose);
        assert_eq!(decided, board.is_game_over());
    }
    assert!(board.is_game_over());
}

#[test]
fn pawns_push_onto_empty_squares_only() {
    let mut board = kings_only();
    board.pawns = set_of(&["a2", "c4", "c5", "h7", "e7"]);
    board.allies = board.allies.union(set_of(&["a2", "c4", "h7", "e7"]));
    board.enemies = board.enemies.union(set_of(&["c5"]));
    assert_eq!(moves(&["a2a3", "h7h8"]), board.gen_pawn_moves());
}

#[test]
fn pawns_capture_diagonally_onto_enemies_only() {
    let mut board = kings_only();
    board.pawns = set_of(&["d4", "c5", "e5", "d5", "a4", "b5", "h4", "g5"]);
    board.allies = board.allies.union(set_of(&["d4", "a4", "h4", "d5"]));
    board.enemies = board.enemies.union(set_of(&["c5", "e5", "b5", "g5"]));
    assert_eq!(moves(&["a4a5", "a4b5", "d4c5", "d4e5", "h4g5", "h4h5", "d5d6"]), board.gen_pawn_moves());
    assert_eq!(set_of(&["c5", "e5"]), board.pawn_targets(sq(3, 3)));
    assert_eq!(set_of(&["a5", "b5"]), board.pawn_targets(sq(0, 3)));
    assert_eq!(set_of(&["g5", "h5"]), board.pawn_targets(sq(7, 3)));
}

#[test]
fn pawns_on_the_edge_files_move() {
    let mut board = kings_only();
    board.pawns = set_of(&["g2", "h2", "h3", "f3"]);
    board.allies = board.allies.union(set_of(&["g2", "h2"]));
    board.enemies = board.enemies.union(set_of(&["h3", "f3"]));
    assert_eq!(moves(&["g2f3", "g2g3", "g2h3"]), board.gen_pawn_moves());
}

#[test]
fn pawns_on_the_last_rank_have_no_move() {
    let mut board = kings_only();
    board.pawns = set_of(&["a8", "h8"]);
    board.allies = board.allies.union(set_of(&["a8", "h8"]));
    assert!(board.gen_pawn_moves().is_empty());
    assert!(board.pawn_targets(sq(0, 7)).is_empty());
}

#[test]
fn knights_jump_over_pieces() {
    let mut board = kings_only();
    board.knights = set_of(&["d4"]);
    board.pawns = set_of(&["c6", "e6", "d5", "c4", "e4", "d3"]);
    board.allies = board.allies.union(set_of(&["d4", "c6", "d5", "c4", "e4", "d3"]));
    board.enemies = board.enemies.union(set_of(&["e6"]));
    assert_eq!(
        moves(&["d4c2", "d4e2", "d4b3", "d4f3", "d4b5", "d4f5", "d4e6"]),
        board.gen_knight_moves()
    );
}

#[test]
fn knights_in_the_corners_stay_on_the_board() {
    let mut board = kings_only();
    board.knights = set_of(&["a1", "h1", "a8", "h8"]);
    board.allies = board.allies.union(board.knights);
    assert_eq!(
        moves(&["a1c2", "a1b3", "h1f2", "h1g3", "a8b6", "a8c7", "h8g6", "h8f7"]),
        board.gen_knight_moves()
    );
}

#[test]
fn kings_step_to_neighbours() {
    let mut board = empty_board();
    board.kings = set_of(&["d4", "h8"]);
    board.allies = set_of(&["d4", "e5"]);
    board.enemies = set_of(&["h8", "c3"]);
    board.pawns = set_of(&["e5", "c3"]);
    assert_eq!(
        moves(&["d4c3", "d4d3", "d4e3", "d4c4", "d4e4", "d4c5", "d4d5"]),
        board.gen_king_moves()
    );
    let mut corner = empty_board();
    corner.kings = set_of(&["a1", "h8"]);
    corner.allies = set_of(&["a1"]);
    corner.enemies = set_of(&["h8"]);
    assert_eq!(moves(&["a1b1", "a1a2", "a1b2"]), corner.gen_king_moves());
    assert_eq!(moves(&["h8g8", "h8g7", "h8h7"]), corner.gen_enemy_moves());
}

#[test]
fn rooks_slide_until_blocked() {
    let mut board = kings_only();
    board.rooks = set_of(&["d4"]);
    board.pawns = set_of(&["d6", "f4", "b4"]);
    board.allies = board.allies.union(set_of(&["d4", "d6"]));
    board.enemies = board.enemies.union(set_of(&["f4", "b4"]));
    assert_eq!(
        moves(&["d4d1", "d4d2", "d4d3", "d4b4", "d4c4", "d4e4", "d4f4", "d4d5"]),
        board.gen_rook_moves()
    );
    assert_eq!(
        set_of(&["d1", "d2", "d3", "b4", "c4", "e4", "f4", "d5"]),
        board.rook_targets(sq(3, 3))
    );
}

#[test]
fn bishops_slide_until_blocked() {
    let mut board = kings_only();
    board.bishops = set_of(&["d4"]);
    board.pawns = set_of(&["f6", "b2", "b6"]);
    board.allies = board.allies.union(set_of(&["d4", "f6"]));
    board.enemies = board.enemies.union(set_of(&["b2", "b6"]));
    assert_eq!(
        moves(&["d4g1", "d4b2", "d4f2", "d4c3", "d4e3", "d4c5", "d4e5", "d4b6"]),
        board.gen_bishop_moves()
    );
}

#[test]
fn queens_slide_in_all_directions() {
    let mut board = empty_board();
    board.queens = set_of(&["d4"]);
    board.allies = set_of(&["d4"]);
    assert_eq!(27, board.gen_queen_moves().len());
    assert_eq!(27, board.queen_targets(sq(3, 3)).num_pieces());
    assert_eq!(
        board.rook_targets(sq(3, 3)).union(board.bishop_targets(sq(3, 3))),
        board.queen_targets(sq(3, 3))
    );
    assert_eq!(board.queen_targets(sq(3, 3)), board.targets(PieceKind::Queen, sq(3, 3)));
    assert_eq!(board.gen_queen_moves(), board.gen_moves_of(PieceKind::Queen));
    assert_eq!(board.gen_queen_moves(), board.gen_ally_moves());
    assert!(board.gen_enemy_moves().is_empty());

    let mut hemmed = kings_only();
    hemmed.queens = set_of(&["a1"]);
    hemmed.pawns = set_of(&["a2", "b2", "b1"]);
    hemmed.allies = hemmed.allies.union(set_of(&["a1", "a2", "b1"]));
    hemmed.enemies = hemmed.enemies.union(set_of(&["b2"]));
    assert_eq!(moves(&["a1b2"]), hemmed.gen_queen_moves());
}

#[test]
fn only_the_side_to_move_is_generated_for() {
    let mut board = kings_only();
    board.rooks = set_of(&["a1", "a8"]);
    board.allies = board.allies.union(set_of(&["a1"]));
    board.enemies = board.enemies.union(set_of(&["a8"]));
    let ally = board.gen_rook_moves();
    assert_eq!(10, ally.len());
    assert!(ally.iter().all(|m| m.from == sq(0, 0)));
    assert!(ally.contains(&mv("a1a8")));
    let enemy = board.gen_enemy_moves();
    assert!(enemy.iter().all(|m| board.enemies.contains(m.from)));
    assert!(enemy.contains(&mv("a8a1")));
    assert!(enemy.contains(&mv("e8d7")));
}

#[test]
fn moves_come_by_kind_in_a_fixed_order() {
    let mut board = ChessBoard::new();
    board.do_move(&mv("e2e4"));
    board.do_move(&mv("d2d4"));
    let all = board.gen_ally_moves();
    let mut expected = board.gen_pawn_moves();
    expected.extend(board.gen_king_moves());
    expected.extend(board.gen_knight_moves());
    expected.extend(board.gen_bishop_moves());
    expected.extend(board.gen_queen_moves());
    expected.extend(board.gen_rook_moves());
    assert_eq!(expected, all);
    assert_eq!(moves(&["e1d2", "e1e2"]), board.gen_king_moves());
    assert_eq!(
        moves(&["c1d2", "c1e3", "c1f4", "c1g5", "c1h6", "f1e2", "f1d3", "f1c4", "f1b5", "f1a6"]),
        board.gen_bishop_moves()
    );
    assert_eq!(
        moves(&["d1d2", "d1e2", "d1d3", "d1f3", "d1g4", "d1h5"]),
        board.gen_queen_moves()
    );
    let mut seen = all.clone();
    seen.sort_by_key(|m| (m.from.index, m.to.index));
    seen.dedup();
    assert_eq!(all.len(), seen.len());
}

#[test]
fn a_generated_move_can_be_played() {
    let mut board = ChessBoard::new();
    let typed = board.move_from_str("b1c3").unwrap();
    assert!(board.gen_ally_moves().contains(&typed));
    assert!(!board.gen_ally_moves().contains(&board.move_from_str("b1d2").unwrap()));
    assert!(!board.gen_ally_moves().contains(&board.move_from_str("e2e4").unwrap()));
    board.do_move(&typed);
    assert!(board.knights.intersect(board.allies).contains(sq(2, 2)));
    let reply = board.move_from_str("E7E6").unwrap();
    assert!(board.gen_enemy_moves().contains(&reply));
    board.do_move(&reply);
    assert!(board.pawns.intersect(board.enemies).contains(sq(4, 5)));
    assert_eq!(Score::Heuristic(0), board.score());
}

#[test]
fn the_two_sides_see_opposite_scores() {
    let mut board = ChessBoard::new();
    for text in ["d1d7", "c8d7", "e2e4", "d7h3", "g2h3", "b8c6", "f1a6", "b7a6"] {
        board.do_move(&mv(text));
        match board.score() {
            Score::Heuristic(value) => {
                assert_eq!(Score::Heuristic(-value), board.as_other().score())
            },
            Score::Win => assert_eq!(Score::Lose, board.as_other().score()),
            Score::Lose => assert_eq!(Score::Win, board.as_other().score()),
        }
    }
    assert_eq!(Score::Heuristic(-8), board.score());
}
