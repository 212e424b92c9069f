//! Rays: the squares that a sliding piece sees from its square.
//!
//! One primitive walks from an origin in one of the eight directions and stops
//! at the edge of the board or at the first occupied square, which it still
//! includes. The four line rays are unions of two opposite walks.

use crate::square::Square;
use crate::square_set::SquareSet;
use vstd::prelude::*;

verus! {

/// The eight directions in which a sliding piece moves.
#[derive(Clone, Copy, Debug, PartialEq, Eq, Structural)]
pub enum Direction {
    North,
    NorthEast,
    East,
    SouthEast,
    South,
    SouthWest,
    West,
    NorthWest,
}

impl Direction {
    /// The change of file in one step: -1, 0 or 1.
    pub open spec fn spec_dx(self) -> i8 {
        match self {
            Direction::North | Direction::South => 0i8,
            Direction::NorthEast | Direction::East | Direction::SouthEast => 1i8,
            Direction::SouthWest | Direction::West | Direction::NorthWest => -1i8,
        }
    }

    /// The change of rank in one step: -1, 0 or 1.
    pub open spec fn spec_dy(self) -> i8 {
        match self {
            Direction::East | Direction::West => 0i8,
            Direction::North | Direction::NorthEast | Direction::NorthWest => 1i8,
            Direction::South | Direction::SouthEast | Direction::SouthWest => -1i8,
        }
    }

    #[verifier::when_used_as_spec(spec_dx)]
    pub fn dx(self) -> (d: i8)
        ensures
            d == self.spec_dx(),
    {
        match self {
            Direction::North | Direction::South => 0,
            Direction::NorthEast | Direction::East | Direction::SouthEast => 1,
            Direction::SouthWest | Direction::West | Direction::NorthWest => -1,
        }
    }

    #[verifier::when_used_as_spec(spec_dy)]
    pub fn dy(self) -> (d: i8)
        ensures
            d == self.spec_dy(),
    {
        match self {
            Direction::East | Direction::West => 0,
            Direction::North | Direction::NorthEast | Direction::NorthWest => 1,
            Direction::South | Direction::SouthEast | Direction::SouthWest => -1,
        }
    }
}

/// `steps` times the unit `unit`, for a unit of -1, 0 or 1.
pub open spec fn scaled(unit: int, steps: int) -> int {
    if unit > 0 {
        steps
    } else if unit < 0 {
        -steps
    } else {
        0
    }
}

/// Whether `steps` steps from `origin` in direction `dir` stay on the board.
pub open spec fn ray_on_board(origin: Square, dir: Direction, steps: int) -> bool {
    origin.can_shift(scaled(dir.dx() as int, steps), scaled(dir.dy() as int, steps))
}

/// The square `steps` steps from `origin` in direction `dir`.
pub open spec fn ray_square(origin: Square, dir: Direction, steps: int) -> Square
    recommends
        ray_on_board(origin, dir, steps),
{
    origin.shifted(scaled(dir.dx() as int, steps), scaled(dir.dy() as int, steps))
}

/// The walk from `origin` in direction `dir` gets as far as `steps` steps: that
/// square is on the board and no square before it is in `occupied`.
pub open spec fn ray_reaches(occupied: Set<Square>, origin: Square, dir: Direction, steps: int) -> bool {
    &&& 1 <= steps
    &&& ray_on_board(origin, dir, steps)
    &&& forall|j: int| 1 <= j < steps ==> !occupied.contains(#[trigger] ray_square(origin, dir, j))
}

/// The squares seen from `origin` in direction `dir`: every square of the walk
/// up to and including the first one in `occupied`.
pub open spec fn ray_of(occupied: Set<Square>, origin: Square, dir: Direction) -> Set<Square> {
    Set::new(
        |sq: Square|
            exists|steps: int| #[trigger]
                ray_reaches(occupied, origin, dir, steps) && sq == ray_square(origin, dir, steps),
    )
}

/// The squares seen from `origin` along its rank, in both directions.
pub open spec fn horizontal_ray_of(occupied: Set<Square>, origin: Square) -> Set<Square> {
    ray_of(occupied, origin, Direction::East).union(ray_of(occupied, origin, Direction::West))
}

/// The squares seen from `origin` along its file, in both directions.
pub open spec fn vertical_ray_of(occupied: Set<Square>, origin: Square) -> Set<Square> {
    ray_of(occupied, origin, Direction::North).union(ray_of(occupied, origin, Direction::South))
}

/// The squares seen from `origin` along the diagonal on which file and rank
/// rise together, in both directions.
pub open spec fn diagonal_ray_of(occupied: Set<Square>, origin: Square) -> Set<Square> {
    ray_of(occupied, origin, Direction::NorthEast).union(
        ray_of(occupied, origin, Direction::SouthWest),
    )
}

/// The squares seen from `origin` along the diagonal on which the file falls
/// as the rank rises, in both directions.
pub open spec fn anti_diagonal_ray_of(occupied: Set<Square>, origin: Square) -> Set<Square> {
    ray_of(occupied, origin, Direction::NorthWest).union(
        ray_of(occupied, origin, Direction::SouthEast),
    )
}

/// The part of `ray_of` that lies fewer than `limit` steps from the origin.
spec fn ray_within(occupied: Set<Square>, origin: Square, dir: Direction, limit: int) -> Set<Square> {
    Set::new(
        |sq: Square|
            exists|steps: int|
                steps < limit && #[trigger] ray_reaches(occupied, origin, dir, steps) && sq
                    == ray_square(origin, dir, steps),
    )
}

/// One more step along a walk: the next square is the current one shifted by
/// the direction, and a walk of more than seven steps has left the board.
proof fn lemma_ray_step(origin: Square, dir: Direction, steps: int)
    requires
        origin.wf(),
        0 <= steps,
        ray_on_board(origin, dir, steps),
    ensures
        ray_square(origin, dir, steps).wf(),
        steps <= 7,
        ray_square(origin, dir, 0) == origin,
        ray_square(origin, dir, steps).can_shift(dir.dx() as int, dir.dy() as int) == ray_on_board(
            origin,
            dir,
            steps + 1,
        ),
        ray_on_board(origin, dir, steps + 1) ==> ray_square(origin, dir, steps).shifted(
            dir.dx() as int,
            dir.dy() as int,
        ) == ray_square(origin, dir, steps + 1),
{
}

/// A walk that is on the board after `far` steps was on the board at every
/// step before.
proof fn lemma_ray_convex(origin: Square, dir: Direction, near: int, far: int)
    requires
        origin.wf(),
        0 <= near <= far,
        ray_on_board(origin, dir, far),
    ensures
        ray_on_board(origin, dir, near),
{
}

/// A walk sees nothing past the first square when that square is occupied,
/// and nothing at all when the first step leaves the board.
pub proof fn lemma_blocked_ray(occupied: Set<Square>, origin: Square, dir: Direction)
    requires
        origin.wf(),
    ensures
        !ray_on_board(origin, dir, 1) ==> ray_of(occupied, origin, dir) == Set::<Square>::empty(),
        ray_on_board(origin, dir, 1) && occupied.contains(ray_square(origin, dir, 1)) ==> ray_of(
            occupied,
            origin,
            dir,
        ) == set![ray_square(origin, dir, 1)],
{
    let first = ray_square(origin, dir, 1);
    assert forall|sq: Square| ray_of(occupied, origin, dir).contains(sq) implies ray_on_board(
        origin,
        dir,
        1,
    ) && (occupied.contains(first) ==> sq == first) by {
        let far = choose|far: int| #[trigger]
            ray_reaches(occupied, origin, dir, far) && sq == ray_square(origin, dir, far);
        lemma_ray_convex(origin, dir, 1, far);
        if far > 1 {
            assert(!occupied.contains(ray_square(origin, dir, 1)));
        }
    }
    if !ray_on_board(origin, dir, 1) {
        assert(ray_of(occupied, origin, dir) =~= Set::<Square>::empty());
    } else if occupied.contains(first) {
        assert(ray_reaches(occupied, origin, dir, 1));
        assert(ray_of(occupied, origin, dir).contains(first));
        assert(ray_of(occupied, origin, dir) =~= set![first]);
    }
}

impl SquareSet {
    /// The squares seen from `origin` in direction `dir` when `self` is the
    /// set of occupied squares: each square of the walk up to the edge of the
    /// board or up to and including the first occupied square.
    pub fn ray(&self, origin: Square, dir: Direction) -> (seen: SquareSet)
        requires
            origin.wf(),
        ensures
            seen@ == ray_of(self@, origin, dir),
    {
        let mut seen = SquareSet::empty();
        let mut current = origin;
        let mut steps: u8 = 0;
        let mut walking = true;
        proof {
            lemma_ray_step(origin, dir, 0);
            assert(ray_within(self@, origin, dir, 1) =~= Set::<Square>::empty());
        }
        while walking
            invariant
                origin.wf(),
                current.wf(),
                steps <= 7,
                ray_on_board(origin, dir, steps as int),
                current == ray_square(origin, dir, steps as int),
                walking ==> ray_reaches(self@, origin, dir, steps + 1) || !ray_on_board(
                    origin,
                    dir,
                    steps + 1,
                ),
                walking ==> forall|j: int|
                    1 <= j <= steps ==> !self@.contains(#[trigger] ray_square(origin, dir, j)),
                walking ==> seen@ == ray_within(self@, origin, dir, steps + 1),
                !walking ==> seen@ == ray_of(self@, origin, dir),
            decreases
                    (if walking {
                        8 - steps
                    } else {
                        0
                    }),
        {
            proof {
                lemma_ray_step(origin, dir, steps as int);
            }
            match current.shift(dir.dx(), dir.dy()) {
                None => {
                    proof {
                        assert forall|sq: Square| ray_of(self@, origin, dir).contains(sq)
                            implies seen@.contains(sq) by {
                            let far = choose|far: int| #[trigger]
                                ray_reaches(self@, origin, dir, far) && sq == ray_square(
                                    origin,
                                    dir,
                                    far,
                                );
                            if far > steps {
                                lemma_ray_convex(origin, dir, steps + 1, far);
                            }
                        }
                        assert(seen@ =~= ray_of(self@, origin, dir));
                    }
                    walking = false;
                },
                Some(next) => {
                    let ghost before = seen@;
                    seen.insert(next);
                    proof {
                        lemma_ray_step(origin, dir, steps + 1);
                        assert(ray_reaches(self@, origin, dir, steps + 1));
                        assert forall|sq: Square|
                            ray_within(self@, origin, dir, steps + 2).contains(sq)
                            implies seen@.contains(sq) by {
                            let far = choose|far: int|
                                far < steps + 2 && #[trigger] ray_reaches(
                                    self@,
                                    origin,
                                    dir,
                                    far,
                                ) && sq == ray_square(origin, dir, far);
                            if far < steps + 1 {
                                assert(before.contains(sq));
                            }
                        }
                        assert(seen@ =~= ray_within(self@, origin, dir, steps + 2));
                    }
                    if self.contains(next) {
                        proof {
                            assert forall|sq: Square| ray_of(self@, origin, dir).contains(sq)
                                implies seen@.contains(sq) by {
                                let far = choose|far: int| #[trigger]
                                    ray_reaches(self@, origin, dir, far) && sq == ray_square(
                                        origin,
                                        dir,
                                        far,
                                    );
                                if far > steps + 1 {
                                    assert(!self@.contains(ray_square(origin, dir, steps + 1)));
                                }
                            }
                            assert(seen@ =~= ray_of(self@, origin, dir));
                        }
                        walking = false;
                    } else {
                        current = next;
                        steps = steps + 1;
                    }
                },
            }
        }
        seen
    }

    /// The squares seen from `origin` along its rank, with `self` as the
    /// occupied squares.
    pub fn horizontal_ray(&self, origin: Square) -> (seen: SquareSet)
        requires
            origin.wf(),
        ensures
            seen@ == horizontal_ray_of(self@, origin),
    {
        self.ray(origin, Direction::East).union(self.ray(origin, Direction::West))
    }

    /// The squares seen from `origin` along its file, with `self` as the
    /// occupied squares.
    pub fn vertical_ray(&self, origin: Square) -> (seen: SquareSet)
        requires
            origin.wf(),
        ensures
            seen@ == vertical_ray_of(self@, origin),
    {
        self.ray(origin, Direction::North).union(self.ray(origin, Direction::South))
    }

    /// The squares seen from `origin` along the rising diagonal, with `self`
    /// as the occupied squares.
    pub fn diagonal_ray(&self, origin: Square) -> (seen: SquareSet)
        requires
            origin.wf(),
        ensures
            seen@ == diagonal_ray_of(self@, origin),
    {
        self.ray(origin, Direction::NorthEast).union(self.ray(origin, Direction::SouthWest))
    }

    /// The squares seen from `origin` along the falling diagonal, with `self`
    /// as the occupied squares.
    pub fn anti_diagonal_ray(&self, origin: Square) -> (seen: SquareSet)
        requires
            origin.wf(),
        ensures
            seen@ == anti_diagonal_ray_of(self@, origin),
    {
        self.ray(origin, Direction::NorthWest).union(self.ray(origin, Direction::SouthEast))
    }
}

} // verus!
