use vstd::prelude::*;

verus! {

/// A coordinate with integer components.
#[derive(Debug, Clone, Copy, PartialEq, Eq, Structural, Hash)]
pub struct Coord32 {
    pub x: i32,
    pub y: i32,
}

/// An ordered sequence of coordinates.
#[derive(Debug, Clone, PartialEq, Eq, Hash)]
pub struct LineString32(pub Vec<Coord32>);

/// A line segment between two coordinates.
#[derive(Debug, Clone, Copy, PartialEq, Eq, Structural, Hash)]
pub struct Line32 {
    pub start: Coord32,
    pub end: Coord32,
}

/// A polygon: one exterior ring and zero or more interior rings.
///
/// Rings built with [`Polygon32::new`] are closed: their last coordinate
/// equals their first one (empty rings stay empty).
#[derive(Debug, Clone, PartialEq, Eq, Hash)]
pub struct Polygon32 {
    pub exterior: LineString32,
    pub interiors: Vec<LineString32>,
}

/// An axis-aligned rectangle given by its minimum and maximum corners.
#[derive(Debug, Clone, Copy, PartialEq, Eq, Structural, Hash)]
pub struct Rect32 {
    pub min: Coord32,
    pub max: Coord32,
}

/// A triangle given by its three corners.
#[derive(Debug, Clone, Copy, PartialEq, Eq, Structural, Hash)]
pub struct Triangle32(pub Coord32, pub Coord32, pub Coord32);

/// A single geometry of any kind, with integer coordinates.
#[derive(Debug)]
pub enum Geom32 {
    Point(Coord32),
    Line(Line32),
    LineString(LineString32),
    Polygon(Polygon32),
    MultiPoint(Vec<Coord32>),
    MultiLineString(Vec<LineString32>),
    MultiPolygon(Vec<Polygon32>),
    GeometryCollection(Vec<Geom32>),
    Rect(Rect32),
    Triangle(Triangle32),
}

/// A ring is closed when its first and last coordinates agree (an empty ring
/// counts as closed).
pub open spec fn is_closed(ring: Seq<Coord32>) -> bool {
    ring.len() == 0 || ring[0] == ring[ring.len() - 1]
}

/// The ring with its first coordinate appended when it is not closed.
pub open spec fn closed_ring(ring: Seq<Coord32>) -> Seq<Coord32> {
    if is_closed(ring) {
        ring
    } else {
        ring.push(ring[0])
    }
}

/// Closes `ring` in place, as a polygon constructor does with every ring.
pub fn close_ring(ring: &mut LineString32)
    ensures
        final(ring).0@ == closed_ring(old(ring).0@),
{
    let n = ring.0.len();
    if n > 0 {
        let first = ring.0[0];
        if first != ring.0[n - 1] {
            ring.0.push(first);
        }
    }
}

impl Polygon32 {
    /// Creates a polygon, closing the exterior and every interior ring.
    pub fn new(exterior: LineString32, interiors: Vec<LineString32>) -> (p: Polygon32)
        ensures
            p.exterior.0@ == closed_ring(exterior.0@),
            p.interiors@.len() == interiors@.len(),
            forall|i: int|
                0 <= i < interiors@.len() ==> #[trigger] p.interiors@[i].0@ == closed_ring(
                    interiors@[i].0@,
                ),
    {
        let mut exterior = exterior;
        close_ring(&mut exterior);
        let mut closed: Vec<LineString32> = Vec::new();
        let mut interiors = interiors;
        let ghost orig = interiors@;
        // Move each ring out, close it and keep it, preserving order.
        let mut rest: Vec<LineString32> = Vec::new();
        while interiors.len() > 0
            invariant
                closed@.len() + interiors@.len() == orig.len(),
                forall|i: int|
                    0 <= i < closed@.len() ==> #[trigger] closed@[i].0@ == closed_ring(
                        orig[orig.len() - 1 - i].0@,
                    ),
                forall|i: int|
                    0 <= i < interiors@.len() ==> #[trigger] interiors@[i] == orig[i],
            decreases interiors@.len(),
        {
            let mut r = interiors.pop().unwrap();
            close_ring(&mut r);
            closed.push(r);
        }
        // `closed` holds the rings in reverse order.
        while closed.len() > 0
            invariant
                rest@.len() + closed@.len() == orig.len(),
                forall|i: int|
                    0 <= i < closed@.len() ==> #[trigger] closed@[i].0@ == closed_ring(
                        orig[orig.len() - 1 - i].0@,
                    ),
                forall|i: int|
                    0 <= i < rest@.len() ==> #[trigger] rest@[i].0@ == closed_ring(orig[i].0@),
            decreases closed@.len(),
        {
            let r = closed.pop().unwrap();
            rest.push(r);
        }
        Polygon32 { exterior, interiors: rest }
    }
}

impl Rect32 {
    /// The exterior ring of the rectangle as a polygon would hold it:
    /// (max.x, min.y), (max.x, max.y), (min.x, max.y), (min.x, min.y), (max.x, min.y).
    pub open spec fn spec_ring(self) -> Seq<Coord32> {
        seq![
            Coord32 { x: self.max.x, y: self.min.y },
            Coord32 { x: self.max.x, y: self.max.y },
            Coord32 { x: self.min.x, y: self.max.y },
            Coord32 { x: self.min.x, y: self.min.y },
            Coord32 { x: self.max.x, y: self.min.y },
        ]
    }

    /// The rectangle as a polygon with a single closed exterior ring.
    pub fn to_polygon(self) -> (p: Polygon32)
        ensures
            p.exterior.0@ == self.spec_ring(),
            p.interiors@.len() == 0,
    {
        let v = vec![
            Coord32 { x: self.max.x, y: self.min.y },
            Coord32 { x: self.max.x, y: self.max.y },
            Coord32 { x: self.min.x, y: self.max.y },
            Coord32 { x: self.min.x, y: self.min.y },
            Coord32 { x: self.max.x, y: self.min.y },
        ];
        Polygon32 { exterior: LineString32(v), interiors: Vec::new() }
    }
}

impl Triangle32 {
    /// The exterior ring of the triangle: its corners followed by the first corner again.
    pub open spec fn spec_ring(self) -> Seq<Coord32> {
        seq![self.0, self.1, self.2, self.0]
    }

    /// The triangle as a polygon with a single closed exterior ring.
    pub fn to_polygon(self) -> (p: Polygon32)
        ensures
            p.exterior.0@ == self.spec_ring(),
            p.exterior.0@ == seq![self.0, self.1, self.2, self.0],
            p.interiors@.len() == 0,
    {
        let v = vec![self.0, self.1, self.2, self.0];
        Polygon32 { exterior: LineString32(v), interiors: Vec::new() }
    }
}

} // verus!
