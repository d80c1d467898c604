//! Points, outlines and bounding boxes.
//!
//! Coordinates are signed integers. Only their order matters here, so any
//! order-preserving encoding of an engine's coordinates will do.

use vstd::prelude::*;

verus! {

/// A position in the plane.
#[derive(Clone, Copy, Debug, PartialEq, Eq, Structural)]
pub struct Point {
    pub x: i64,
    pub y: i64,
}

/// The box that stands for "no vertices": its minimum corner lies above its
/// maximum corner in both coordinates.
pub open spec fn empty_box() -> (Point, Point) {
    (Point { x: i64::MAX, y: i64::MAX }, Point { x: i64::MIN, y: i64::MIN })
}

/// `p` lies inside the box `b` (corners included).
pub open spec fn encloses(b: (Point, Point), p: Point) -> bool {
    &&& b.0.x <= p.x <= b.1.x
    &&& b.0.y <= p.y <= b.1.y
}

/// `b` is the bounding box of `v`: the empty box where `v` is empty, else the
/// box that holds every vertex and whose four sides each touch one.
pub open spec fn is_bbox(v: Seq<Point>, b: (Point, Point)) -> bool {
    if v.len() == 0 {
        b == empty_box()
    } else {
        &&& forall|i: int| 0 <= i < v.len() ==> encloses(b, #[trigger] v[i])
        &&& exists|i: int| 0 <= i < v.len() && (#[trigger] v[i]).x == b.0.x
        &&& exists|i: int| 0 <= i < v.len() && (#[trigger] v[i]).y == b.0.y
        &&& exists|i: int| 0 <= i < v.len() && (#[trigger] v[i]).x == b.1.x
        &&& exists|i: int| 0 <= i < v.len() && (#[trigger] v[i]).y == b.1.y
    }
}

/// The bounding box of `v`, as a value.
pub open spec fn bbox_of(v: Seq<Point>) -> (Point, Point) {
    choose|b: (Point, Point)| is_bbox(v, b)
}

/// A vertex sequence has at most one bounding box.
pub proof fn lemma_bbox_unique(v: Seq<Point>, a: (Point, Point), b: (Point, Point))
    requires
        is_bbox(v, a),
        is_bbox(v, b),
    ensures
        a == b,
{
    if v.len() > 0 {
        let ax0 = choose|i: int| 0 <= i < v.len() && (#[trigger] v[i]).x == a.0.x;
        let bx0 = choose|i: int| 0 <= i < v.len() && (#[trigger] v[i]).x == b.0.x;
        let ay0 = choose|i: int| 0 <= i < v.len() && (#[trigger] v[i]).y == a.0.y;
        let by0 = choose|i: int| 0 <= i < v.len() && (#[trigger] v[i]).y == b.0.y;
        let ax1 = choose|i: int| 0 <= i < v.len() && (#[trigger] v[i]).x == a.1.x;
        let bx1 = choose|i: int| 0 <= i < v.len() && (#[trigger] v[i]).x == b.1.x;
        let ay1 = choose|i: int| 0 <= i < v.len() && (#[trigger] v[i]).y == a.1.y;
        let by1 = choose|i: int| 0 <= i < v.len() && (#[trigger] v[i]).y == b.1.y;
        assert(encloses(a, v[bx0]) && encloses(b, v[ax0]));
        assert(encloses(a, v[by0]) && encloses(b, v[ay0]));
        assert(encloses(a, v[bx1]) && encloses(b, v[ax1]));
        assert(encloses(a, v[by1]) && encloses(b, v[ay1]));
    }
}

/// Every vertex of a non-empty sequence lies within the sequence's bounding
/// box, in both coordinates.
pub proof fn lemma_bbox_encloses(v: Seq<Point>, b: (Point, Point), i: int)
    requires
        is_bbox(v, b),
        0 <= i < v.len(),
    ensures
        b.0.x <= v[i].x <= b.1.x,
        b.0.y <= v[i].y <= b.1.y,
{
    assert(encloses(b, v[i]));
}

/// The empty box is the bounding box of the empty sequence and of no other:
/// a box of one or more vertices has its minimum corner at or below its
/// maximum corner, which the empty box has not.
pub proof fn lemma_empty_box_tells_empty(v: Seq<Point>, b: (Point, Point))
    requires
        is_bbox(v, b),
    ensures
        v.len() == 0 <==> b == empty_box(),
        v.len() > 0 ==> b.0.x <= b.1.x && b.0.y <= b.1.y,
{
    if v.len() > 0 {
        assert(encloses(b, v[0]));
    }
}

/// What an outline is, apart from the box cached with it.
pub struct OutlineView {
    pub vertices: Seq<Point>,
    pub positive: bool,
}

/// One closed loop: its vertices in traversal order, the winding sign that
/// the engine gave it (`true` adds area, `false` is a hole), and its
/// bounding box, computed once when the outline is made.
#[derive(Debug)]
pub struct Outline {
    bbox: (Point, Point),
    vertices: Vec<Point>,
    positive: bool,
}

/// The outlines of one polygon: an outer boundary and its holes.
pub type OutlineGroup = Vec<Outline>;

/// What a run returns: the group of the undivided polygon first, then one
/// group for each island, in the order in which the engine reported them.
pub type PipelineResult = Vec<OutlineGroup>;

impl View for Outline {
    type V = OutlineView;

    closed spec fn view(&self) -> OutlineView {
        OutlineView { vertices: self.vertices@, positive: self.positive }
    }
}

impl Outline {
    #[verifier::type_invariant]
    spec fn boxed(&self) -> bool {
        is_bbox(self.vertices@, self.bbox)
    }

    /// Makes the outline of `vertices`, with its bounding box.
    pub fn new(vertices: Vec<Point>, positive: bool) -> (outline: Outline)
        ensures
            outline@.vertices == vertices@,
            outline@.positive == positive,
    {
        let bbox = Self::bbox(vertices.as_slice());
        Outline { bbox, vertices, positive }
    }

    /// The bounding box of `vertices`: the tightest box around them, or the
    /// empty box where there are none.
    pub fn bbox(vertices: &[Point]) -> (b: (Point, Point))
        ensures
            is_bbox(vertices@, b),
            b == bbox_of(vertices@),
    {
        let mut min = Point { x: i64::MAX, y: i64::MAX };
        let mut max = Point { x: i64::MIN, y: i64::MIN };
        let mut i: usize = 0;
        while i < vertices.len()
            invariant
                i <= vertices.len(),
                is_bbox(vertices@.take(i as int), (min, max)),
            decreases vertices.len() - i,
        {
            let vertex = vertices[i];
            let ghost seen = vertices@.take(i as int);
            let ghost next = vertices@.take(i + 1);
            let ghost before = (min, max);
            if vertex.x < min.x {
                min.x = vertex.x;
            }
            if vertex.y < min.y {
                min.y = vertex.y;
            }
            if vertex.x > max.x {
                max.x = vertex.x;
            }
            if vertex.y > max.y {
                max.y = vertex.y;
            }
            proof {
                assert(next[i as int] == vertex);
                assert forall|j: int| 0 <= j < next.len() implies encloses(
                    (min, max),
                    #[trigger] next[j],
                ) by {
                    if j < i {
                        assert(encloses(before, seen[j]));
                    }
                }
                lemma_side_touched(seen, next, before.0.x, min.x, vertex.x, |p: Point| p.x);
                lemma_side_touched(seen, next, before.0.y, min.y, vertex.y, |p: Point| p.y);
                lemma_side_touched(seen, next, before.1.x, max.x, vertex.x, |p: Point| p.x);
                lemma_side_touched(seen, next, before.1.y, max.y, vertex.y, |p: Point| p.y);
            }
            i += 1;
        }
        proof {
            assert(vertices@.take(i as int) =~= vertices@);
            lemma_bbox_unique(vertices@, (min, max), bbox_of(vertices@));
        }
        (min, max)
    }

    /// The vertices, in traversal order.
    pub fn vertices(&self) -> (v: &Vec<Point>)
        ensures
            v@ == self@.vertices,
    {
        &self.vertices
    }

    /// The winding sign.
    pub fn positive(&self) -> (p: bool)
        ensures
            p == self@.positive,
    {
        self.positive
    }

    /// The bounding box that was computed when the outline was made.
    pub fn bounds(&self) -> (b: (Point, Point))
        ensures
            is_bbox(self@.vertices, b),
            b == bbox_of(self@.vertices),
    {
        proof {
            use_type_invariant(self);
            lemma_bbox_unique(self.vertices@, self.bbox, bbox_of(self.vertices@));
        }
        self.bbox
    }
}

/// One step of the scan for a side of the box: `side` is the coordinate that
/// the side had over `seen`, `moved` the one it has once the next vertex,
/// with coordinate `c`, is taken in.
proof fn lemma_side_touched(
    seen: Seq<Point>,
    next: Seq<Point>,
    side: i64,
    moved: i64,
    c: i64,
    coord: spec_fn(Point) -> i64,
)
    requires
        next.len() == seen.len() + 1,
        forall|j: int| 0 <= j < seen.len() ==> seen[j] == next[j],
        coord(next[seen.len() as int]) == c,
        moved == c || moved == side,
        seen.len() == 0 ==> moved == c,
        seen.len() > 0 ==> exists|j: int| 0 <= j < seen.len() && coord(#[trigger] seen[j]) == side,
    ensures
        exists|j: int| 0 <= j < next.len() && coord(#[trigger] next[j]) == moved,
{
    if moved == c {
        assert(coord(next[seen.len() as int]) == moved);
    } else {
        let j = choose|j: int| 0 <= j < seen.len() && coord(#[trigger] seen[j]) == side;
        assert(coord(next[j]) == moved);
    }
}

} // verus!
