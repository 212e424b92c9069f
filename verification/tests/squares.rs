use rusty_chess::rays::Direction;
use rusty_chess::square::Square;
use rusty_chess::square_set::SquareSet;

fn sq(file: usize, rank: usize) -> Square {
    Square::from_file_rank(file, rank).unwrap()
}

fn set_of(squares: &[Square]) -> SquareSet {
    let mut set = SquareSet::empty();
    for square in squares {
        set.insert(*square);
    }
    set
}

#[test]
fn square_from_file_and_rank() {
    let d4 = sq(3, 3);
    assert_eq!(27, d4.index);
    assert_eq!(3, d4.file());
    assert_eq!(3, d4.rank());
    let h8 = sq(7, 7);
    assert_eq!(63, h8.index);
    assert_eq!(0, sq(0, 0).index);
    assert_eq!(5, sq(5, 0).index);
    assert_eq!(40, sq(0, 5).index);
}

#[test]
fn square_off_the_board_is_refused() {
    assert_eq!(None, Square::from_file_rank(8, 0));
    assert_eq!(None, Square::from_file_rank(0, 8));
    assert_eq!(None, Square::from_file_rank(8, 8));
    assert_eq!(None, Square::from_file_rank(usize::MAX, 3));
    assert!(Square::from_file_rank(7, 7).is_some());
}

#[test]
fn square_flips_across_the_middle() {
    assert_eq!(sq(3, 4), sq(3, 3).flip_vertical());
    assert_eq!(sq(0, 7), sq(0, 0).flip_vertical());
    assert_eq!(sq(7, 0), sq(7, 7).flip_vertical());
    for index in 0..64u8 {
        let square = Square { index };
        assert_eq!(square, square.flip_vertical().flip_vertical());
        assert_eq!(square.file(), square.flip_vertical().file());
        assert_eq!(7 - square.rank(), square.flip_vertical().rank());
    }
}

#[test]
fn square_shift_stays_on_the_board() {
    assert_eq!(Some(sq(4, 5)), sq(3, 3).shift(1, 2));
    assert_eq!(Some(sq(0, 0)), sq(1, 1).shift(-1, -1));
    assert_eq!(None, sq(0, 0).shift(-1, 0));
    assert_eq!(None, sq(0, 0).shift(0, -1));
    assert_eq!(None, sq(7, 7).shift(1, 0));
    assert_eq!(None, sq(7, 7).shift(0, 1));
    assert_eq!(None, sq(6, 3).shift(2, 1));
    assert_eq!(Some(sq(7, 3)), sq(6, 3).shift(1, 0));
    assert_eq!(None, sq(3, 3).shift(i8::MAX, i8::MIN));
    assert_eq!(Some(sq(3, 3)), sq(3, 3).shift(0, 0));
}

#[test]
fn set_insert_remove_contains() {
    let mut set = SquareSet::empty();
    assert!(set.is_empty());
    assert_eq!(0, set.num_pieces());
    set.insert(sq(0, 0));
    set.insert(sq(7, 7));
    set.insert(sq(3, 4));
    set.insert(sq(3, 4));
    assert!(!set.is_empty());
    assert_eq!(3, set.num_pieces());
    assert!(set.contains(sq(0, 0)));
    assert!(set.contains(sq(7, 7)));
    assert!(set.contains(sq(3, 4)));
    assert!(!set.contains(sq(4, 3)));
    set.remove(sq(3, 4));
    set.remove(sq(5, 5));
    assert!(!set.contains(sq(3, 4)));
    assert_eq!(2, set.num_pieces());
    assert_eq!(1 | (1 << 63), set.bits);
}

#[test]
fn set_algebra() {
    let a = set_of(&[sq(0, 0), sq(1, 0), sq(2, 0)]);
    let b = set_of(&[sq(2, 0), sq(3, 0)]);
    assert_eq!(set_of(&[sq(0, 0), sq(1, 0), sq(2, 0), sq(3, 0)]), a.union(b));
    assert_eq!(set_of(&[sq(2, 0)]), a.intersect(b));
    assert_eq!(61, a.complement().num_pieces());
    assert!(a.intersect(a.complement()).is_empty());
    assert_eq!(64, a.union(a.complement()).num_pieces());
    assert_eq!(64, SquareSet::empty().complement().num_pieces());
    assert_eq!(a, a.complement().complement());
}

#[test]
fn set_flips_across_the_middle() {
    let set = set_of(&[sq(0, 0), sq(4, 1), sq(7, 6), sq(2, 3)]);
    let flipped = set.flip_vertical();
    assert_eq!(set_of(&[sq(0, 7), sq(4, 6), sq(7, 1), sq(2, 4)]), flipped);
    assert_eq!(set, flipped.flip_vertical());
    assert_eq!(SquareSet { bits: 0xff00_0000_0000_0000 }, SquareSet { bits: 0xff }.flip_vertical());
    assert_eq!(
        SquareSet { bits: 0x0807_0605_0403_0201 },
        SquareSet { bits: 0x0102_0304_0506_0708 }.flip_vertical()
    );
}

#[test]
fn set_lists_its_squares_in_order() {
    let set = set_of(&[sq(7, 7), sq(0, 0), sq(3, 2), sq(4, 2), sq(0, 1)]);
    assert_eq!(vec![sq(0, 0), sq(0, 1), sq(3, 2), sq(4, 2), sq(7, 7)], set.pieces());
    assert_eq!(Vec::<Square>::new(), SquareSet::empty().pieces());
    let all = SquareSet::empty().complement().pieces();
    assert_eq!(64, all.len());
    for (index, square) in all.iter().enumerate() {
        assert_eq!(index, square.index as usize);
    }
}

#[test]
fn rays_on_an_empty_board() {
    let nothing = SquareSet::empty();
    let d4 = sq(3, 3);
    assert_eq!(
        set_of(&[sq(0, 3), sq(1, 3), sq(2, 3), sq(4, 3), sq(5, 3), sq(6, 3), sq(7, 3)]),
        nothing.horizontal_ray(d4)
    );
    assert_eq!(
        set_of(&[sq(3, 0), sq(3, 1), sq(3, 2), sq(3, 4), sq(3, 5), sq(3, 6), sq(3, 7)]),
        nothing.vertical_ray(d4)
    );
    assert_eq!(
        set_of(&[sq(0, 0), sq(1, 1), sq(2, 2), sq(4, 4), sq(5, 5), sq(6, 6), sq(7, 7)]),
        nothing.diagonal_ray(d4)
    );
    assert_eq!(
        set_of(&[sq(0, 6), sq(1, 5), sq(2, 4), sq(4, 2), sq(5, 1), sq(6, 0)]),
        nothing.anti_diagonal_ray(d4)
    );
}

#[test]
fn rays_from_a_corner() {
    let nothing = SquareSet::empty();
    let a1 = sq(0, 0);
    assert_eq!(7, nothing.horizontal_ray(a1).num_pieces());
    assert_eq!(7, nothing.vertical_ray(a1).num_pieces());
    assert_eq!(7, nothing.diagonal_ray(a1).num_pieces());
    assert!(nothing.anti_diagonal_ray(a1).is_empty());
    assert!(nothing.ray(a1, Direction::South).is_empty());
    assert!(nothing.ray(a1, Direction::West).is_empty());
    assert!(nothing.ray(a1, Direction::SouthWest).is_empty());
    assert_eq!(set_of(&[sq(0, 1), sq(0, 2), sq(0, 3), sq(0, 4), sq(0, 5), sq(0, 6), sq(0, 7)]),
               nothing.ray(a1, Direction::North));
}

#[test]
fn rays_stop_at_and_include_the_first_blocker() {
    let d4 = sq(3, 3);
    let occupied = set_of(&[d4, sq(5, 3), sq(6, 3), sq(3, 4), sq(1, 1), sq(0, 0), sq(2, 4)]);
    assert_eq!(set_of(&[sq(4, 3), sq(5, 3)]), occupied.ray(d4, Direction::East));
    assert_eq!(set_of(&[sq(2, 3), sq(1, 3), sq(0, 3)]), occupied.ray(d4, Direction::West));
    assert_eq!(set_of(&[sq(3, 4)]), occupied.ray(d4, Direction::North));
    assert_eq!(set_of(&[sq(3, 2), sq(3, 1), sq(3, 0)]), occupied.ray(d4, Direction::South));
    assert_eq!(set_of(&[sq(2, 2), sq(1, 1)]), occupied.ray(d4, Direction::SouthWest));
    assert_eq!(set_of(&[sq(2, 4)]), occupied.ray(d4, Direction::NorthWest));
    assert_eq!(
        set_of(&[sq(4, 4), sq(5, 5), sq(6, 6), sq(7, 7)]),
        occupied.ray(d4, Direction::NorthEast)
    );
    assert_eq!(set_of(&[sq(4, 2), sq(5, 1), sq(6, 0)]), occupied.ray(d4, Direction::SouthEast));
    assert_eq!(
        set_of(&[sq(0, 3), sq(1, 3), sq(2, 3), sq(4, 3), sq(5, 3)]),
        occupied.horizontal_ray(d4)
    );
}

#[test]
fn directions_are_unit_steps() {
    assert_eq!((0, 1), (Direction::North.dx(), Direction::North.dy()));
    assert_eq!((1, 1), (Direction::NorthEast.dx(), Direction::NorthEast.dy()));
    assert_eq!((1, 0), (Direction::East.dx(), Direction::East.dy()));
    assert_eq!((1, -1), (Direction::SouthEast.dx(), Direction::SouthEast.dy()));
    assert_eq!((0, -1), (Direction::South.dx(), Direction::South.dy()));
    assert_eq!((-1, -1), (Direction::SouthWest.dx(), Direction::SouthWest.dy()));
    assert_eq!((-1, 0), (Direction::West.dx(), Direction::West.dy()));
    assert_eq!((-1, 1), (Direction::NorthWest.dx(), Direction::NorthWest.dy()));
}
