//! Vertices, edges, cycles and faces: the entities that refer to geometry, and
//! to each other, by handle.

pub mod builder;
pub mod turns;

use vstd::prelude::*;
use crate::math::{Point, Transform};
use crate::shape::store::Handle;

verus! {

/// A vertex: a point of the shape that bounds edges.
#[derive(Clone, Copy, Debug, PartialEq, Eq, Structural, Hash)]
pub struct Vertex {
    /// The handle of the point at which the vertex lies.
    pub point: Handle,
}

/// The vertices that bound an edge: none for a curve that is not cut, else one
/// or two.
#[derive(Clone, Copy, Debug, PartialEq, Eq, Structural, Hash)]
pub enum Ends {
    Open,
    One(Handle),
    Two(Handle, Handle),
}

/// An edge: a piece of a curve between the vertices that bound it.
#[derive(Clone, Copy, Debug, PartialEq, Eq, Structural, Hash)]
pub struct Edge {
    /// The handle of the curve that carries the edge.
    pub curve: Handle,
    /// The handles of the vertices that bound the edge.
    pub vertices: Ends,
}

/// A cycle: edges that follow each other and come back to where they began.
#[derive(Debug)]
pub struct Cycle {
    /// The handles of the edges, in the order of the chain.
    pub edges: Vec<Handle>,
}

/// Three points that span a triangle.
#[derive(Clone, Copy, Debug, PartialEq, Eq, Structural, Hash)]
pub struct Triangle {
    pub a: Point,
    pub b: Point,
    pub c: Point,
}

/// A face: a region of a surface bounded by cycles, or, in the older form that
/// is on its way out, a list of triangles that refers to nothing else.
#[derive(Debug)]
pub enum Face {
    Face {
        /// The handle of the surface that carries the face.
        surface: Handle,
        /// The handles of the bounding cycles, the outer one and the inner ones.
        cycles: Vec<Handle>,
    },
    Triangles(Vec<Triangle>),
}

/// What a face holds, as mathematical values.
pub enum FaceView {
    Face { surface: Handle, cycles: Seq<Handle> },
    Triangles(Seq<Triangle>),
}

impl Ends {
    /// The number of vertices.
    pub open spec fn count(self) -> nat {
        match self {
            Ends::Open => 0,
            Ends::One(_) => 1,
            Ends::Two(_, _) => 2,
        }
    }

    /// Whether `vertex` is one of the vertices.
    pub open spec fn has(self, vertex: Handle) -> bool {
        match self {
            Ends::Open => false,
            Ends::One(a) => a == vertex,
            Ends::Two(a, b) => a == vertex || b == vertex,
        }
    }

    /// Whether two values hold the same vertices, in whichever order.
    pub open spec fn same(self, other: Ends) -> bool {
        match (self, other) {
            (Ends::Open, Ends::Open) => true,
            (Ends::One(a), Ends::One(b)) => a == b,
            (Ends::Two(a, b), Ends::Two(c, d)) => (a == c && b == d) || (a == d && b == c),
            _ => false,
        }
    }

    /// Decides `same`.
    pub fn matches(&self, other: &Ends) -> (r: bool)
        ensures
            r == self.same(*other),
    {
        match (self, other) {
            (Ends::Open, Ends::Open) => true,
            (Ends::One(a), Ends::One(b)) => *a == *b,
            (Ends::Two(a, b), Ends::Two(c, d)) => (*a == *c && *b == *d) || (*a == *d && *b == *c),
            _ => false,
        }
    }

    /// Where a chain that arrives at the vertex `at` stands after it has run
    /// along an edge with these ends: at the other end, or nowhere where the
    /// edge does not have two ends of which `at` is one.
    pub open spec fn across(self, at: Handle) -> Option<Handle> {
        match self {
            Ends::Two(a, b) => if a == at {
                Some(b)
            } else if b == at {
                Some(a)
            } else {
                None
            },
            _ => None,
        }
    }

    /// Computes `across`.
    pub fn step(&self, at: &Handle) -> (r: Option<Handle>)
        ensures
            r == self.across(*at),
    {
        match self {
            Ends::Two(a, b) => if *a == *at {
                Some(*b)
            } else if *b == *at {
                Some(*a)
            } else {
                None
            },
            _ => None,
        }
    }
}

impl Edge {
    /// Whether two edges lie on the same curve between the same vertices.
    pub open spec fn same(self, other: Edge) -> bool {
        self.curve == other.curve && self.vertices.same(other.vertices)
    }

    /// Decides `same`.
    pub fn matches(&self, other: &Edge) -> (r: bool)
        ensures
            r == self.same(*other),
    {
        self.curve == other.curve && self.vertices.matches(&other.vertices)
    }
}

/// Whether `b` is `a` begun at position `k`: the same chain run in the same
/// direction from another edge.
pub open spec fn turned(a: Seq<Handle>, b: Seq<Handle>, k: int) -> bool {
    &&& a.len() == b.len()
    &&& forall|i: int| 0 <= i < b.len() ==> b[i] == a[(i + k) % (a.len() as int)]
}

/// Whether `b` is `a` run backwards from position `k`.
pub open spec fn turned_back(a: Seq<Handle>, b: Seq<Handle>, k: int) -> bool {
    &&& a.len() == b.len()
    &&& forall|i: int| 0 <= i < b.len() ==> b[i] == a[(k - i) % (a.len() as int)]
}

/// Whether two sequences of edges are the same cycle: one is the other begun
/// at some edge and run in one of the two directions.
#[verifier::opaque]
pub open spec fn same_cycle(a: Seq<Handle>, b: Seq<Handle>) -> bool {
    &&& a.len() == b.len()
    &&& a.len() == 0 || exists|k: int| 0 <= k < a.len() && (turned(a, b, k) || turned_back(a, b, k))
}

/// A sequence of edges begun at position `k` and run in the same direction.
pub open spec fn forward(cycle: Seq<Handle>, k: int) -> Seq<Handle> {
    Seq::new(cycle.len(), |i: int| cycle[(i + k) % (cycle.len() as int)])
}

/// A sequence of edges begun at position `k` and run backwards.
pub open spec fn backward(cycle: Seq<Handle>, k: int) -> Seq<Handle> {
    Seq::new(cycle.len(), |i: int| cycle[(k - i) % (cycle.len() as int)])
}

/// Whether `k` is the first position at which `cycle` holds its least handle:
/// the one with the least position in its store.
pub open spec fn least_at(cycle: Seq<Handle>, k: int) -> bool {
    &&& 0 <= k < cycle.len()
    &&& forall|j: int| 0 <= j < cycle.len() ==> cycle[k].index <= (#[trigger] cycle[j]).index
    &&& forall|j: int| 0 <= j < k ==> cycle[k].index < (#[trigger] cycle[j]).index
}

/// Whether `a` comes before `b` in the order of the dictionary: at the first
/// position at which the two differ, `a` holds the lesser handle.
pub open spec fn precedes(a: Seq<Handle>, b: Seq<Handle>) -> bool {
    exists|i: int|
        0 <= i < a.len() && i < b.len() && (#[trigger] a[i]).index < b[i].index && forall|j: int|
            0 <= j < i ==> (#[trigger] a[j]).index == b[j].index
}

/// The first of the least handles of a cycle stands at one position.
pub proof fn lemma_least_at_unique(cycle: Seq<Handle>, k: int, l: int)
    requires
        least_at(cycle, k),
        least_at(cycle, l),
    ensures
        k == l,
{
    if k < l {
        assert(cycle[l].index < cycle[k].index);
    } else if l < k {
        assert(cycle[k].index < cycle[l].index);
    }
}

/// The position `(i + k) mod n`, for positions `i` and `k` below `n`.
pub fn ahead(i: usize, k: usize, n: usize) -> (r: usize)
    requires
        i < n,
        k < n,
    ensures
        r == (i as int + k as int) % (n as int),
        r < n,
{
    let r: usize = if i < n - k {
        i + k
    } else {
        i - (n - k)
    };
    proof {
        if i < n - k {
            vstd::arithmetic::div_mod::lemma_small_mod((i + k) as nat, n as nat);
        } else {
            vstd::arithmetic::div_mod::lemma_small_mod((i + k - n) as nat, n as nat);
            vstd::arithmetic::div_mod::lemma_mod_sub_multiples_vanish(
                i as int + k as int,
                n as int,
            );
        }
    }
    r
}

/// The position `(k - i) mod n`, for positions `i` and `k` below `n`.
pub fn behind(i: usize, k: usize, n: usize) -> (r: usize)
    requires
        i < n,
        k < n,
    ensures
        r == (k as int - i as int) % (n as int),
        r < n,
{
    let r: usize = if i <= k {
        k - i
    } else {
        n - (i - k)
    };
    proof {
        if i <= k {
            vstd::arithmetic::div_mod::lemma_small_mod((k - i) as nat, n as nat);
        } else {
            vstd::arithmetic::div_mod::lemma_small_mod((k + n - i) as nat, n as nat);
            vstd::arithmetic::div_mod::lemma_mod_add_multiples_vanish(
                k as int - i as int,
                n as int,
            );
        }
    }
    r
}

/// Decides `precedes`.
pub fn comes_before(a: &Vec<Handle>, b: &Vec<Handle>) -> (r: bool)
    requires
        a@.len() == b@.len(),
    ensures
        r == precedes(a@, b@),
{
    let mut i: usize = 0;
    while i < a.len()
        invariant
            a@.len() == b@.len(),
            i <= a@.len(),
            forall|j: int| 0 <= j < i ==> (#[trigger] a@[j]).index == b@[j].index,
        decreases a@.len() - i,
    {
        if a[i].index < b[i].index {
            return true;
        }
        if a[i].index > b[i].index {
            assert forall|w: int| 0 <= w < a@.len() && (#[trigger] a@[w]).index < b@[w].index implies !(
            forall|j: int| 0 <= j < w ==> (#[trigger] a@[j]).index == b@[j].index) by {
                if w > i {
                    assert(a@[i as int].index != b@[i as int].index);
                }
            }
            return false;
        }
        i = i + 1;
    }
    false
}

impl View for Cycle {
    type V = Seq<Handle>;

    open spec fn view(&self) -> Seq<Handle> {
        self.edges@
    }
}

impl Cycle {
    /// A cycle of the given edges.
    pub fn new(edges: Vec<Handle>) -> (r: Cycle)
        ensures
            r@ == edges@,
    {
        Cycle { edges }
    }

    /// A copy of this cycle.
    pub fn duplicate(&self) -> (r: Cycle)
        ensures
            r@ == self@,
    {
        Cycle { edges: copy_handles(&self.edges) }
    }

    /// Decides whether `other` is this cycle begun at position `k`.
    fn matches_turned(&self, other: &Cycle, k: usize) -> (r: bool)
        requires
            self@.len() == other@.len(),
            k < self@.len(),
        ensures
            r == turned(self@, other@, k as int),
    {
        let n: usize = self.edges.len();
        let mut i: usize = 0;
        while i < n
            invariant
                n == self@.len(),
                n == other@.len(),
                k < n,
                i <= n,
                forall|j: int| 0 <= j < i ==> other@[j] == self@[(j + k) % (n as int)],
            decreases n - i,
        {
            let at: usize = ahead(i, k, n);
            if self.edges[at] != other.edges[i] {
                return false;
            }
            i = i + 1;
        }
        true
    }

    /// Decides whether `other` is this cycle run backwards from position `k`.
    fn matches_turned_back(&self, other: &Cycle, k: usize) -> (r: bool)
        requires
            self@.len() == other@.len(),
            k < self@.len(),
        ensures
            r == turned_back(self@, other@, k as int),
    {
        let n: usize = self.edges.len();
        let mut i: usize = 0;
        while i < n
            invariant
                n == self@.len(),
                n == other@.len(),
                k < n,
                i <= n,
                forall|j: int| 0 <= j < i ==> other@[j] == self@[(k - j) % (n as int)],
            decreases n - i,
        {
            let at: usize = behind(i, k, n);
            if self.edges[at] != other.edges[i] {
                return false;
            }
            i = i + 1;
        }
        true
    }

    /// The same cycle begun at position `k`.
    pub fn turn(&self, k: usize) -> (r: Vec<Handle>)
        requires
            k < self@.len(),
        ensures
            r@ == forward(self@, k as int),
    {
        let n: usize = self.edges.len();
        let mut out: Vec<Handle> = Vec::new();
        let mut i: usize = 0;
        while i < n
            invariant
                n == self@.len(),
                k < n,
                i <= n,
                out@.len() == i,
                forall|j: int| 0 <= j < i ==> out@[j] == self@[(j + k) % (n as int)],
            decreases n - i,
        {
            out.push(self.edges[ahead(i, k, n)]);
            i = i + 1;
        }
        assert(out@ =~= forward(self@, k as int));
        out
    }

    /// The same cycle run backwards from position `k`.
    pub fn turn_back(&self, k: usize) -> (r: Vec<Handle>)
        requires
            k < self@.len(),
        ensures
            r@ == backward(self@, k as int),
    {
        let n: usize = self.edges.len();
        let mut out: Vec<Handle> = Vec::new();
        let mut i: usize = 0;
        while i < n
            invariant
                n == self@.len(),
                k < n,
                i <= n,
                out@.len() == i,
                forall|j: int| 0 <= j < i ==> out@[j] == self@[(k - j) % (n as int)],
            decreases n - i,
        {
            out.push(self.edges[behind(i, k, n)]);
            i = i + 1;
        }
        assert(out@ =~= backward(self@, k as int));
        out
    }

    /// The first position at which this cycle holds its least handle.
    pub fn least(&self) -> (r: usize)
        requires
            self@.len() > 0,
        ensures
            least_at(self@, r as int),
    {
        let n: usize = self.edges.len();
        let mut k: usize = 0;
        let mut i: usize = 1;
        while i < n
            invariant
                n == self@.len(),
                k < i <= n,
                forall|j: int| 0 <= j < i ==> self@[k as int].index <= (#[trigger] self@[j]).index,
                forall|j: int| 0 <= j < k ==> self@[k as int].index < (#[trigger] self@[j]).index,
            decreases n - i,
        {
            if self.edges[i].index < self.edges[k].index {
                k = i;
            }
            i = i + 1;
        }
        k
    }

    /// Decides `same_cycle`.
    pub fn matches(&self, other: &Cycle) -> (r: bool)
        ensures
            r == same_cycle(self@, other@),
    {
        proof {
            reveal(same_cycle);
        }
        let n: usize = self.edges.len();
        if other.edges.len() != n {
            return false;
        }
        let mut k: usize = 0;
        while k < n
            invariant
                n == self@.len(),
                n == other@.len(),
                k <= n,
                forall|j: int|
                    0 <= j < k ==> !turned(self@, other@, j) && !turned_back(self@, other@, j),
            decreases n - k,
        {
            if self.matches_turned(other, k) || self.matches_turned_back(other, k) {
                proof {
                    reveal(same_cycle);
                }
                return true;
            }
            k = k + 1;
        }
        n == 0
    }
}

/// A copy of a list of handles.
pub fn copy_handles(handles: &Vec<Handle>) -> (r: Vec<Handle>)
    ensures
        r@ == handles@,
{
    let mut out: Vec<Handle> = Vec::new();
    let mut i: usize = 0;
    while i < handles.len()
        invariant
            i <= handles@.len(),
            out@ == handles@.subrange(0, i as int),
        decreases handles@.len() - i,
    {
        out.push(handles[i]);
        assert(out@ == handles@.subrange(0, i + 1));
        i = i + 1;
    }
    assert(out@ == handles@);
    out
}

/// Whether every handle of `a` occurs in `b`.
pub open spec fn all_among(a: Seq<Handle>, b: Seq<Handle>) -> bool {
    forall|i: int| 0 <= i < a.len() ==> b.contains(#[trigger] a[i])
}

/// Decides whether `handle` occurs in `handles`.
pub fn occurs(handles: &Vec<Handle>, handle: &Handle) -> (r: bool)
    ensures
        r == handles@.contains(*handle),
{
    let mut i: usize = 0;
    while i < handles.len()
        invariant
            i <= handles@.len(),
            forall|j: int| 0 <= j < i ==> handles@[j] != *handle,
        decreases handles@.len() - i,
    {
        if handles[i] == *handle {
            return true;
        }
        i = i + 1;
    }
    false
}

/// Decides `all_among`.
pub fn each_occurs(a: &Vec<Handle>, b: &Vec<Handle>) -> (r: bool)
    ensures
        r == all_among(a@, b@),
{
    let mut i: usize = 0;
    while i < a.len()
        invariant
            i <= a@.len(),
            forall|j: int| 0 <= j < i ==> b@.contains(#[trigger] a@[j]),
        decreases a@.len() - i,
    {
        if !occurs(b, &a[i]) {
            return false;
        }
        i = i + 1;
    }
    true
}

impl Triangle {
    /// Whether the image of this triangle under `t` can be stored.
    pub open spec fn maps(self, t: Transform) -> bool {
        t.maps_point(self.a) && t.maps_point(self.b) && t.maps_point(self.c)
    }

    /// The image of this triangle under `t`, meaningful where `maps` holds.
    pub open spec fn image(self, t: Transform) -> Triangle {
        Triangle { a: t.point_image(self.a), b: t.point_image(self.b), c: t.point_image(self.c) }
    }

    /// The image of this triangle under `t`, or `None` where the image has a
    /// coordinate outside the grid.
    pub fn transform(&self, t: &Transform) -> (r: Option<Triangle>)
        ensures
            r.is_some() == self.maps(*t),
            r.is_some() ==> r.unwrap() == self.image(*t),
    {
        match (t.try_point(&self.a), t.try_point(&self.b), t.try_point(&self.c)) {
            (Some(a), Some(b), Some(c)) => Some(Triangle { a, b, c }),
            _ => None,
        }
    }
}

impl FaceView {
    /// Whether two faces lie on the same surface and are bounded by the same
    /// set of cycles. A list of triangles is the same as no other face.
    pub open spec fn same(self, other: FaceView) -> bool {
        match (self, other) {
            (
                FaceView::Face { surface: s, cycles: a },
                FaceView::Face { surface: t, cycles: b },
            ) => s == t && all_among(a, b) && all_among(b, a),
            _ => false,
        }
    }

    /// Whether the image of this face under `t` can be stored.
    pub open spec fn maps(self, t: Transform) -> bool {
        match self {
            FaceView::Face { .. } => true,
            FaceView::Triangles(triangles) => forall|i: int|
                0 <= i < triangles.len() ==> (#[trigger] triangles[i]).maps(t),
        }
    }

    /// The image of this face under `t`: a face bounded by cycles is left as it
    /// is, and each triangle of a list of triangles is moved.
    pub open spec fn image(self, t: Transform) -> FaceView {
        match self {
            FaceView::Face { .. } => self,
            FaceView::Triangles(triangles) => FaceView::Triangles(
                Seq::new(triangles.len(), |i: int| triangles[i].image(t)),
            ),
        }
    }
}

impl View for Face {
    type V = FaceView;

    open spec fn view(&self) -> FaceView {
        match self {
            Face::Face { surface, cycles } => FaceView::Face { surface: *surface, cycles: cycles@ },
            Face::Triangles(triangles) => FaceView::Triangles(triangles@),
        }
    }
}

impl Face {
    /// A copy of this face.
    pub fn duplicate(&self) -> (r: Face)
        ensures
            r@ == self@,
    {
        match self {
            Face::Face { surface, cycles } => Face::Face {
                surface: *surface,
                cycles: copy_handles(cycles),
            },
            Face::Triangles(triangles) => {
                let mut out: Vec<Triangle> = Vec::new();
                let mut i: usize = 0;
                while i < triangles.len()
                    invariant
                        i <= triangles@.len(),
                        out@ == triangles@.subrange(0, i as int),
                    decreases triangles@.len() - i,
                {
                    out.push(triangles[i]);
                    assert(out@ == triangles@.subrange(0, i + 1));
                    i = i + 1;
                }
                assert(out@ == triangles@);
                Face::Triangles(out)
            },
        }
    }

    /// Decides whether two faces are the same face.
    pub fn matches(&self, other: &Face) -> (r: bool)
        ensures
            r == self@.same(other@),
    {
        match (self, other) {
            (Face::Face { surface: s, cycles: a }, Face::Face { surface: t, cycles: b }) => {
                *s == *t && each_occurs(a, b) && each_occurs(b, a)
            },
            _ => false,
        }
    }

    /// The image of this face under `t`, or `None` where the image has a
    /// coordinate outside the grid.
    pub fn transform(&self, t: &Transform) -> (r: Option<Face>)
        ensures
            r.is_some() == self@.maps(*t),
            r.is_some() ==> r.unwrap()@ == self@.image(*t),
    {
        match self {
            Face::Face { surface, cycles } => Some(
                Face::Face { surface: *surface, cycles: copy_handles(cycles) },
            ),
            Face::Triangles(triangles) => {
                let mut out: Vec<Triangle> = Vec::new();
                let mut i: usize = 0;
                while i < triangles.len()
                    invariant
                        i <= triangles@.len(),
                        out@.len() == i,
                        self@ == FaceView::Triangles(triangles@),
                        forall|j: int| 0 <= j < i ==> (#[trigger] triangles@[j]).maps(*t),
                        forall|j: int| 0 <= j < i ==> out@[j] == triangles@[j].image(*t),
                    decreases triangles@.len() - i,
                {
                    match triangles[i].transform(t) {
                        Some(moved) => {
                            out.push(moved);
                        },
                        None => {
                            assert(!triangles@[i as int].maps(*t));
                            return None;
                        },
                    }
                    i = i + 1;
                }
                assert(out@ =~= Seq::new(triangles@.len(), |i: int| triangles@[i].image(*t)));
                Some(Face::Triangles(out))
            },
        }
    }
}

} // verus!
