use vstd::prelude::*;

verus! {

/// A coordinate: the bit pattern of an IEEE-754 binary64 value. The library
/// copies coordinates between the caller and the engine and never computes
/// with them, so the bits are all it needs to hold.
pub type Coord = u64;

/// A point type whose two coordinates can be read.
pub trait Positioned {
    /// The first coordinate, as the contracts see it.
    spec fn spec_x(&self) -> Coord;

    /// The second coordinate, as the contracts see it.
    spec fn spec_y(&self) -> Coord;

    fn x(&self) -> (r: Coord)
        ensures
            r == self.spec_x(),
    ;

    fn y(&self) -> (r: Coord)
        ensures
            r == self.spec_y(),
    ;
}

/// A point type that can be built from two coordinates, told apart by whether
/// the point is a terminal of the input or a Steiner point the engine added.
pub trait FromSteiner: Positioned + Sized {
    fn from_terminal(x: Coord, y: Coord) -> (r: Self)
        ensures
            r.spec_x() == x,
            r.spec_y() == y,
    ;

    fn from_steiner(x: Coord, y: Coord) -> (r: Self)
        ensures
            r.spec_x() == x,
            r.spec_y() == y,
    ;
}

impl Positioned for (Coord, Coord) {
    open spec fn spec_x(&self) -> Coord {
        self.0
    }

    open spec fn spec_y(&self) -> Coord {
        self.1
    }

    fn x(&self) -> (r: Coord) {
        self.0
    }

    fn y(&self) -> (r: Coord) {
        self.1
    }
}

impl Positioned for [Coord; 2] {
    open spec fn spec_x(&self) -> Coord {
        self@[0]
    }

    open spec fn spec_y(&self) -> Coord {
        self@[1]
    }

    fn x(&self) -> (r: Coord) {
        self[0]
    }

    fn y(&self) -> (r: Coord) {
        self[1]
    }
}

impl FromSteiner for (Coord, Coord) {
    fn from_terminal(x: Coord, y: Coord) -> (r: Self) {
        (x, y)
    }

    fn from_steiner(x: Coord, y: Coord) -> (r: Self) {
        (x, y)
    }
}

impl FromSteiner for [Coord; 2] {
    fn from_terminal(x: Coord, y: Coord) -> (r: Self) {
        [x, y]
    }

    fn from_steiner(x: Coord, y: Coord) -> (r: Self) {
        [x, y]
    }
}

/// The coordinates of `points` laid out as `[x0, y0, x1, y1, ...]`.
pub open spec fn flat_coords<P: Positioned>(points: Seq<P>) -> Seq<Coord> {
    Seq::new(
        2 * points.len(),
        |i: int| if i % 2 == 0 { points[i / 2].spec_x() } else { points[i / 2].spec_y() },
    )
}

/// Lays the coordinates of `points` out in one buffer, `[x0, y0, x1, y1, ...]`,
/// keeping the order of the points.
pub fn flatten_terminals<P: Positioned>(points: &[P]) -> (r: Vec<Coord>)
    requires
        points@.len() <= usize::MAX / 2,
    ensures
        r@ == flat_coords(points@),
{
    let mut r: Vec<Coord> = Vec::with_capacity(2 * points.len());
    let mut i: usize = 0;
    while i < points.len()
        invariant
            0 <= i <= points@.len(),
            points@.len() <= usize::MAX / 2,
            r@.len() == 2 * i,
            forall|j: int| 0 <= j < 2 * i ==> #[trigger] r@[j] == flat_coords(points@)[j],
        decreases points@.len() - i,
    {
        r.push(points[i].x());
        r.push(points[i].y());
        i = i + 1;
    }
    assert(r@ =~= flat_coords(points@));
    r
}

} // verus!
