//! The rules that a shape holds its topology to, and the functions that
//! decide them.
//!
//! A rule is stated over the view of a shape. The functions run over the slots
//! of a store from the first on, and where they look for an entity they find
//! the first that fits.

use vstd::prelude::*;
use crate::geometry::{Curve, Surface};
use crate::math::Point;
use crate::shape::store::{Handle, Kind};
use crate::shape::{Shape, ShapeView, ValidationError};
use crate::topology::{
    backward, comes_before, forward, least_at, lemma_least_at_unique, precedes, same_cycle, Cycle,
    Edge, Ends, Face, FaceView, Vertex,
};

verus! {

/// Whether `i` is the first of the positions below `n` at which `f` holds.
pub open spec fn first_such(n: nat, f: spec_fn(int) -> bool, i: int) -> bool {
    &&& 0 <= i < n
    &&& f(i)
    &&& forall|j: int| 0 <= j < i ==> !#[trigger] f(j)
}

/// Whether `f` holds at no position below `n`.
pub open spec fn none_such(n: nat, f: spec_fn(int) -> bool) -> bool {
    forall|j: int| 0 <= j < n ==> !#[trigger] f(j)
}

/// There is at most one first position.
pub proof fn lemma_first_such_unique(n: nat, f: spec_fn(int) -> bool, i: int, j: int)
    requires
        first_such(n, f, i),
        first_such(n, f, j),
    ensures
        i == j,
{
    if i < j {
        assert(!f(i));
    } else if j < i {
        assert(!f(j));
    }
}

impl ShapeView {
    /// Whether `found` is the outcome of a search among the entities of `kind`
    /// for the first that satisfies `f`: the handle of the first position at
    /// which `f` holds, or `None` where it holds at none.
    pub open spec fn finds(self, found: Option<Handle>, kind: Kind, f: spec_fn(int) -> bool) -> bool {
        match found {
            Some(handle) => {
                &&& handle == self.handle(kind, handle.index as int)
                &&& first_such(self.count(kind), f, handle.index as int)
            },
            None => none_such(self.count(kind), f),
        }
    }

    /// The point at which the vertex at position `i` lies.
    pub open spec fn vertex_point_at(self, i: int) -> Point {
        self.points[self.vertices[i].point.index as int]
    }

    /// Whether the point at position `i` is closer to `p` than the minimum distance.
    pub open spec fn point_near(self, p: Point, i: int) -> bool {
        self.points[i].near(p, self.min_distance)
    }

    /// Whether the vertex at position `i` is closer to `p` than the minimum distance.
    pub open spec fn vertex_near(self, p: Point, i: int) -> bool {
        self.vertex_point_at(i).near(p, self.min_distance)
    }

    /// The positions of the points that are closer to `p` than the minimum distance.
    pub open spec fn near_point(self, p: Point) -> spec_fn(int) -> bool {
        |i: int| self.point_near(p, i)
    }

    /// The positions of the vertices that are closer to `p` than the minimum distance.
    pub open spec fn near_vertex(self, p: Point) -> spec_fn(int) -> bool {
        |i: int| self.vertex_near(p, i)
    }

    /// The positions of the curves that are the same curve as `curve`.
    pub open spec fn like_curve(self, curve: Curve) -> spec_fn(int) -> bool {
        |i: int| self.curves[i].same(curve)
    }

    /// The positions of the surfaces that are the same surface as `surface`.
    pub open spec fn like_surface(self, surface: Surface) -> spec_fn(int) -> bool {
        |i: int| self.surfaces[i].same(surface)
    }

    /// The positions of the edges that are the same edge as `edge`.
    pub open spec fn like_edge(self, edge: Edge) -> spec_fn(int) -> bool {
        |i: int| self.edges[i].same(edge)
    }

    /// The positions of the cycles that are the same cycle as `cycle`.
    pub open spec fn like_cycle(self, cycle: Seq<Handle>) -> spec_fn(int) -> bool {
        |i: int| same_cycle(self.cycles[i], cycle)
    }

    /// The positions of the faces that are the same face as `face`.
    pub open spec fn like_face(self, face: FaceView) -> spec_fn(int) -> bool {
        |i: int| self.faces[i].same(face)
    }

    /// The outcome of a search among the entities of `kind` for the first that
    /// satisfies `f`.
    pub open spec fn search(self, kind: Kind, f: spec_fn(int) -> bool) -> Option<Handle> {
        if exists|i: int| first_such(self.count(kind), f, i) {
            Some(self.handle(kind, choose|i: int| first_such(self.count(kind), f, i)))
        } else {
            None
        }
    }

    /// A search has one outcome.
    pub proof fn lemma_search(self, found: Option<Handle>, kind: Kind, f: spec_fn(int) -> bool)
        requires
            self.finds(found, kind, f),
        ensures
            found == self.search(kind, f),
    {
        match found {
            Some(handle) => {
                let i = choose|i: int| first_such(self.count(kind), f, i);
                lemma_first_such_unique(self.count(kind), f, i, handle.index as int);
            },
            None => {
                assert forall|i: int| !first_such(self.count(kind), f, i) by {
                    if 0 <= i < self.count(kind) {
                        assert(!f(i));
                    }
                }
            },
        }
    }

    /// Whether some vertex is closer to `p` than the minimum distance.
    pub open spec fn crowded(self, p: Point) -> bool {
        exists|i: int| 0 <= i < self.vertices.len() && #[trigger] self.vertex_near(p, i)
    }

    /// Whether the shape holds an edge on the same curve between the same vertices.
    pub open spec fn holds_edge(self, edge: Edge) -> bool {
        exists|i: int| 0 <= i < self.edges.len() && (#[trigger] self.edges[i]).same(edge)
    }

    /// Whether the shape holds the same cycle, begun at whichever edge and run
    /// in whichever direction.
    pub open spec fn holds_cycle(self, cycle: Seq<Handle>) -> bool {
        exists|i: int| 0 <= i < self.cycles.len() && same_cycle(#[trigger] self.cycles[i], cycle)
    }

    /// Whether the shape holds a face on the same surface with the same set of cycles.
    pub open spec fn holds_face(self, face: FaceView) -> bool {
        exists|i: int| 0 <= i < self.faces.len() && (#[trigger] self.faces[i]).same(face)
    }

    /// The curve that `edge` names.
    pub open spec fn edge_curve_of(self, edge: Edge) -> Curve {
        self.curves[edge.curve.index as int]
    }

    /// Whether the vertices of an edge that has two lie on its curve: each
    /// closer to it than the minimum distance.
    pub open spec fn edge_carried(self, edge: Edge) -> bool {
        match edge.vertices {
            Ends::Two(a, b) => {
                &&& self.edge_curve_of(edge).holds(self.vertex_point(a), self.min_distance)
                &&& self.edge_curve_of(edge).holds(self.vertex_point(b), self.min_distance)
            },
            _ => true,
        }
    }

    /// The ends of the edge at position `i` of `cycle`.
    pub open spec fn ends_at(self, cycle: Seq<Handle>, i: int) -> Ends {
        self.edges[cycle[i].index as int].vertices
    }

    /// The vertex at which a chain stands that began at the vertex `from` and
    /// has run along the first `n` edges of `cycle`, each from one end to the
    /// other; `None` where one of these edges did not continue the chain.
    pub open spec fn chain(self, cycle: Seq<Handle>, from: Handle, n: nat) -> Option<Handle>
        decreases n,
    {
        if n == 0 {
            Some(from)
        } else {
            match self.chain(cycle, from, (n - 1) as nat) {
                Some(at) => self.ends_at(cycle, n - 1).across(at),
                None => None,
            }
        }
    }

    /// Whether the edges of `cycle` form a closed chain: there is at least
    /// one, and a chain that begins at an end of the first edge and runs along
    /// all of them in order stands where it began; or there is one edge only,
    /// without vertices, on a closed curve.
    pub open spec fn closed(self, cycle: Seq<Handle>) -> bool {
        &&& cycle.len() > 0
        &&& match self.ends_at(cycle, 0) {
            Ends::Two(a, b) => {
                ||| self.chain(cycle, a, cycle.len()) == Some(a)
                ||| self.chain(cycle, b, cycle.len()) == Some(b)
            },
            Ends::Open => cycle.len() == 1 && self.edge_curve(cycle[0]).closed(),
            Ends::One(_) => false,
        }
    }

    /// The vertex at which the closed chain along `cycle` begins: the first
    /// of the two ends of the first edge from which a chain along all edges
    /// comes back.
    pub open spec fn chain_start(self, cycle: Seq<Handle>) -> Handle {
        match self.ends_at(cycle, 0) {
            Ends::Two(a, b) => if self.chain(cycle, a, cycle.len()) == Some(a) {
                a
            } else {
                b
            },
            _ => cycle[0],
        }
    }

    /// The vertices through which the closed chain along `cycle` runs when it
    /// is begun at the edge at position `k`: the vertex before that edge, the
    /// vertex after it, and so on.
    pub open spec fn corners_forward(self, cycle: Seq<Handle>, k: int) -> Seq<Handle> {
        Seq::new(cycle.len(), |j: int| self.ring(cycle, self.chain_start(cycle), k + j))
    }

    /// The vertices through which the closed chain along `cycle` runs when it
    /// is run backwards from the edge at position `k`: the vertex after that
    /// edge, the vertex before it, and so on.
    pub open spec fn corners_backward(self, cycle: Seq<Handle>, k: int) -> Seq<Handle> {
        Seq::new(
            cycle.len(),
            |j: int| self.ring(cycle, self.chain_start(cycle), k + 1 + cycle.len() - j),
        )
    }

    /// The normal form of a cycle: the same cycle begun at the first of its
    /// least edge handles, and run in the direction in which the vertices that
    /// it runs through come first in the order of the dictionary; forwards
    /// where both directions give the same vertices, or the edges have none.
    pub open spec fn normalized(self, cycle: Seq<Handle>) -> Seq<Handle> {
        if cycle.len() == 0 {
            cycle
        } else {
            let k = choose|k: int| least_at(cycle, k);
            if self.ends_at(cycle, 0) is Two && precedes(
                self.corners_backward(cycle, k),
                self.corners_forward(cycle, k),
            ) {
                backward(cycle, k)
            } else {
                forward(cycle, k)
            }
        }
    }

    /// Whether the curve of every edge of `cycle` runs in `surface`.
    pub open spec fn cycle_carried(self, surface: Surface, cycle: Seq<Handle>) -> bool {
        forall|k: int|
            0 <= k < cycle.len() ==> surface.holds_curve(
                self.edge_curve(#[trigger] cycle[k]),
                self.min_distance,
            )
    }

    /// Whether the curves of all edges of all cycles of a face run in its
    /// surface. A list of triangles refers to no surface.
    pub open spec fn face_carried(self, face: FaceView) -> bool {
        match face {
            FaceView::Face { surface, cycles } => forall|j: int|
                0 <= j < cycles.len() ==> self.cycle_carried(
                    self.surfaces[surface.index as int],
                    self.cycles[(#[trigger] cycles[j]).index as int],
                ),
            FaceView::Triangles(_) => true,
        }
    }

    /// Why `vertex` cannot be added, or `None` where it can.
    pub open spec fn vertex_verdict(self, vertex: Vertex) -> Option<ValidationError> {
        if !self.vertex_sound(vertex) {
            Some(ValidationError::StructuralMissing)
        } else if self.crowded(self.points[vertex.point.index as int]) {
            Some(ValidationError::GeometricDuplicate)
        } else {
            None
        }
    }

    /// Why `edge` cannot be added, or `None` where it can.
    pub open spec fn edge_verdict(self, edge: Edge) -> Option<ValidationError> {
        if !self.edge_sound(edge) {
            Some(ValidationError::StructuralMissing)
        } else if self.holds_edge(edge) {
            Some(ValidationError::TopologicalDuplicate)
        } else if !self.edge_carried(edge) {
            Some(ValidationError::NotOnCarrier)
        } else {
            None
        }
    }

    /// Why `cycle` cannot be added, or `None` where it can.
    pub open spec fn cycle_verdict(self, cycle: Seq<Handle>) -> Option<ValidationError> {
        if !self.cycle_sound(cycle) {
            Some(ValidationError::StructuralMissing)
        } else if !self.closed(cycle) {
            Some(ValidationError::NotClosed)
        } else if self.holds_cycle(cycle) {
            Some(ValidationError::TopologicalDuplicate)
        } else {
            None
        }
    }

    /// Why `face` cannot be added, or `None` where it can.
    pub open spec fn face_verdict(self, face: FaceView) -> Option<ValidationError> {
        if !self.face_sound(face) {
            Some(ValidationError::StructuralMissing)
        } else if !self.face_carried(face) {
            Some(ValidationError::NotOnCarrier)
        } else if self.holds_face(face) {
            Some(ValidationError::TopologicalDuplicate)
        } else {
            None
        }
    }

    /// A chain that has broken stays broken.
    pub proof fn lemma_chain_broken(self, cycle: Seq<Handle>, from: Handle, k: nat, n: nat)
        requires
            k <= n,
            self.chain(cycle, from, k).is_none(),
        ensures
            self.chain(cycle, from, n).is_none(),
        decreases n,
    {
        if k < n {
            self.lemma_chain_broken(cycle, from, k, (n - 1) as nat);
        }
    }
}

/// The first point of the shape that is closer to `p` than the minimum
/// distance, or `None` where there is none.
pub fn nearest_point(shape: &Shape, p: &Point) -> (r: Option<Handle>)
    requires
        shape.wf(),
    ensures
        shape@.finds(r, Kind::Point, shape@.near_point(*p)),
{
    let ghost f = shape@.near_point(*p);
    let mut i: usize = 0;
    while i < shape.points.len()
        invariant
            shape.wf(),
            i <= shape@.points.len(),
            shape.points@ == shape@.points,
            f == shape@.near_point(*p),
            forall|j: int| 0 <= j < i ==> !#[trigger] f(j),
        decreases shape@.points.len() - i,
    {
        if shape.points.at(i).within(p, shape.min_distance) {
            assert(f(i as int));
            return Some(shape.points.handle(i));
        }
        assert(!f(i as int));
        i = i + 1;
    }
    None
}

/// The first vertex of the shape that is closer to `p` than the minimum
/// distance, or `None` where there is none.
pub fn nearest_vertex(shape: &Shape, p: &Point) -> (r: Option<Handle>)
    requires
        shape.wf(),
    ensures
        shape@.finds(r, Kind::Vertex, shape@.near_vertex(*p)),
        r.is_some() == shape@.crowded(*p),
{
    let ghost f = shape@.near_vertex(*p);
    let mut i: usize = 0;
    while i < shape.vertices.len()
        invariant
            shape.wf(),
            i <= shape@.vertices.len(),
            shape.vertices@ == shape@.vertices,
            shape.points@ == shape@.points,
            f == shape@.near_vertex(*p),
            forall|j: int| 0 <= j < i ==> !#[trigger] f(j),
        decreases shape@.vertices.len() - i,
    {
        let vertex = shape.vertices.at(i);
        assert(shape@.vertex_sound(shape@.vertices[i as int]));
        if shape.points.at(vertex.point.index).within(p, shape.min_distance) {
            assert(f(i as int));
            assert(shape@.vertex_near(*p, i as int));
            return Some(shape.vertices.handle(i));
        }
        assert(!f(i as int));
        i = i + 1;
    }
    assert forall|j: int| 0 <= j < shape@.vertices.len() implies !shape@.vertex_near(*p, j) by {
        assert(!f(j));
    }
    None
}

/// The first curve of the shape that is the same curve as `curve`, or `None`
/// where there is none.
pub fn find_curve(shape: &Shape, curve: &Curve) -> (r: Option<Handle>)
    requires
        shape.wf(),
    ensures
        shape@.finds(r, Kind::Curve, shape@.like_curve(*curve)),
{
    let ghost f = shape@.like_curve(*curve);
    let mut i: usize = 0;
    while i < shape.curves.len()
        invariant
            shape.wf(),
            i <= shape@.curves.len(),
            shape.curves@ == shape@.curves,
            f == shape@.like_curve(*curve),
            forall|j: int| 0 <= j < i ==> !#[trigger] f(j),
        decreases shape@.curves.len() - i,
    {
        if shape.curves.at(i).matches(curve) {
            assert(f(i as int));
            return Some(shape.curves.handle(i));
        }
        assert(!f(i as int));
        i = i + 1;
    }
    None
}

/// The first surface of the shape that is the same surface as `surface`, or
/// `None` where there is none.
pub fn find_surface(shape: &Shape, surface: &Surface) -> (r: Option<Handle>)
    requires
        shape.wf(),
    ensures
        shape@.finds(r, Kind::Surface, shape@.like_surface(*surface)),
{
    let ghost f = shape@.like_surface(*surface);
    let mut i: usize = 0;
    while i < shape.surfaces.len()
        invariant
            shape.wf(),
            i <= shape@.surfaces.len(),
            shape.surfaces@ == shape@.surfaces,
            f == shape@.like_surface(*surface),
            forall|j: int| 0 <= j < i ==> !#[trigger] f(j),
        decreases shape@.surfaces.len() - i,
    {
        if shape.surfaces.at(i).matches(surface) {
            assert(f(i as int));
            return Some(shape.surfaces.handle(i));
        }
        assert(!f(i as int));
        i = i + 1;
    }
    None
}

/// The first edge of the shape that is the same as `edge`, or `None` where
/// there is none.
pub fn find_edge(shape: &Shape, edge: &Edge) -> (r: Option<Handle>)
    requires
        shape.wf(),
    ensures
        shape@.finds(r, Kind::Edge, shape@.like_edge(*edge)),
        r.is_some() == shape@.holds_edge(*edge),
{
    let ghost f = shape@.like_edge(*edge);
    let mut i: usize = 0;
    while i < shape.edges.len()
        invariant
            shape.wf(),
            i <= shape@.edges.len(),
            shape.edges@ == shape@.edges,
            f == shape@.like_edge(*edge),
            forall|j: int| 0 <= j < i ==> !#[trigger] f(j),
        decreases shape@.edges.len() - i,
    {
        if shape.edges.at(i).matches(edge) {
            assert(f(i as int));
            return Some(shape.edges.handle(i));
        }
        assert(!f(i as int));
        i = i + 1;
    }
    assert forall|j: int| 0 <= j < shape@.edges.len() implies !(#[trigger] shape@.edges[j]).same(
        *edge,
    ) by {
        assert(!f(j));
    }
    None
}

/// The first cycle of the shape that is the same as `cycle`, or `None` where
/// there is none.
pub fn find_cycle(shape: &Shape, cycle: &Cycle) -> (r: Option<Handle>)
    requires
        shape.wf(),
    ensures
        shape@.finds(r, Kind::Cycle, shape@.like_cycle(cycle@)),
        r.is_some() == shape@.holds_cycle(cycle@),
{
    let ghost f = shape@.like_cycle(cycle@);
    let mut i: usize = 0;
    while i < shape.cycles.len()
        invariant
            shape.wf(),
            i <= shape@.cycles.len(),
            shape.cycles@.len() == shape@.cycles.len(),
            forall|j: int| 0 <= j < shape@.cycles.len() ==> shape.cycles@[j]@ == shape@.cycles[j],
            f == shape@.like_cycle(cycle@),
            forall|j: int| 0 <= j < i ==> !#[trigger] f(j),
        decreases shape@.cycles.len() - i,
    {
        if shape.cycles.at(i).matches(cycle) {
            assert(f(i as int));
            return Some(shape.cycles.handle(i));
        }
        assert(!f(i as int));
        i = i + 1;
    }
    assert forall|j: int| 0 <= j < shape@.cycles.len() implies !same_cycle(
        #[trigger] shape@.cycles[j],
        cycle@,
    ) by {
        assert(!f(j));
    }
    None
}

/// The first face of the shape that is the same as `face`, or `None` where
/// there is none.
pub fn find_face(shape: &Shape, face: &Face) -> (r: Option<Handle>)
    requires
        shape.wf(),
    ensures
        shape@.finds(r, Kind::Face, shape@.like_face(face@)),
        r.is_some() == shape@.holds_face(face@),
{
    let ghost f = shape@.like_face(face@);
    let mut i: usize = 0;
    while i < shape.faces.len()
        invariant
            shape.wf(),
            i <= shape@.faces.len(),
            shape.faces@.len() == shape@.faces.len(),
            forall|j: int| 0 <= j < shape@.faces.len() ==> shape.faces@[j]@ == shape@.faces[j],
            f == shape@.like_face(face@),
            forall|j: int| 0 <= j < i ==> !#[trigger] f(j),
        decreases shape@.faces.len() - i,
    {
        if shape.faces.at(i).matches(face) {
            assert(f(i as int));
            return Some(shape.faces.handle(i));
        }
        assert(!f(i as int));
        i = i + 1;
    }
    assert forall|j: int| 0 <= j < shape@.faces.len() implies !(#[trigger] shape@.faces[j]).same(
        face@,
    ) by {
        assert(!f(j));
    }
    None
}

/// Decides whether the shape has issued every handle inside `vertex`.
pub fn vertex_issued(shape: &Shape, vertex: &Vertex) -> (r: bool)
    requires
        shape.wf(),
    ensures
        r == shape@.vertex_sound(*vertex),
{
    shape.points.contains(&vertex.point)
}

/// Decides whether the shape has issued every handle inside `edge`.
pub fn edge_issued(shape: &Shape, edge: &Edge) -> (r: bool)
    requires
        shape.wf(),
    ensures
        r == shape@.edge_sound(*edge),
{
    shape.curves.contains(&edge.curve) && match edge.vertices {
        Ends::Open => true,
        Ends::One(a) => shape.vertices.contains(&a),
        Ends::Two(a, b) => shape.vertices.contains(&a) && shape.vertices.contains(&b),
    }
}

/// Decides whether the shape has issued every handle inside `cycle`.
pub fn cycle_issued(shape: &Shape, cycle: &Cycle) -> (r: bool)
    requires
        shape.wf(),
    ensures
        r == shape@.cycle_sound(cycle@),
{
    let mut i: usize = 0;
    while i < cycle.edges.len()
        invariant
            shape.wf(),
            i <= cycle@.len(),
            shape.edges@ == shape@.edges,
            forall|j: int| 0 <= j < i ==> shape@.has(Kind::Edge, #[trigger] cycle@[j]),
        decreases cycle@.len() - i,
    {
        if !shape.edges.contains(&cycle.edges[i]) {
            assert(!shape@.has(Kind::Edge, cycle@[i as int]));
            return false;
        }
        i = i + 1;
    }
    true
}

/// Decides whether the shape has issued every handle inside `face`.
pub fn face_issued(shape: &Shape, face: &Face) -> (r: bool)
    requires
        shape.wf(),
    ensures
        r == shape@.face_sound(face@),
{
    match face {
        Face::Face { surface, cycles } => {
            if !shape.surfaces.contains(surface) {
                return false;
            }
            let mut i: usize = 0;
            while i < cycles.len()
                invariant
                    shape.wf(),
                    i <= cycles@.len(),
                    shape.cycles@.len() == shape@.cycles.len(),
                    face@ == (FaceView::Face { surface: *surface, cycles: cycles@ }),
                    shape@.has(Kind::Surface, *surface),
                    forall|j: int| 0 <= j < i ==> shape@.has(Kind::Cycle, #[trigger] cycles@[j]),
                decreases cycles@.len() - i,
            {
                if !shape.cycles.contains(&cycles[i]) {
                    assert(!shape@.has(Kind::Cycle, cycles@[i as int]));
                    assert(face@ is Face);
                    assert(face@->cycles == cycles@);
                    assert(face@->cycles[i as int] == cycles@[i as int]);
                    assert(!shape@.face_sound(face@));
                    return false;
                }
                i = i + 1;
            }
            true
        },
        Face::Triangles(_) => true,
    }
}

/// The point at which the vertex that `vertex` addresses lies.
fn point_of(shape: &Shape, vertex: &Handle) -> (r: Point)
    requires
        shape.wf(),
        shape@.has(Kind::Vertex, *vertex),
    ensures
        r == shape@.vertex_point(*vertex),
{
    let v = shape.vertices.at(vertex.index);
    assert(shape@.vertex_sound(shape@.vertices[vertex.index as int]));
    *shape.points.at(v.point.index)
}

/// Decides whether the vertices of an edge that has two lie on its curve.
pub fn edge_on_curve(shape: &Shape, edge: &Edge) -> (r: bool)
    requires
        shape.wf(),
        shape@.edge_sound(*edge),
    ensures
        r == shape@.edge_carried(*edge),
{
    match edge.vertices {
        Ends::Two(a, b) => {
            let curve = shape.curves.at(edge.curve.index);
            let pa = point_of(shape, &a);
            let pb = point_of(shape, &b);
            curve.carries(&pa, shape.min_distance) && curve.carries(&pb, shape.min_distance)
        },
        _ => true,
    }
}

/// Decides whether a chain that begins at `from` and runs along all edges of
/// `cycle` stands at `from` again.
fn chain_returns(shape: &Shape, cycle: &Cycle, from: &Handle) -> (r: bool)
    requires
        shape.wf(),
        shape@.cycle_sound(cycle@),
    ensures
        r == (shape@.chain(cycle@, *from, cycle@.len()) == Some(*from)),
{
    let mut at: Handle = *from;
    let mut i: usize = 0;
    while i < cycle.edges.len()
        invariant
            shape.wf(),
            shape@.cycle_sound(cycle@),
            shape.edges@ == shape@.edges,
            i <= cycle@.len(),
            shape@.chain(cycle@, *from, i as nat) == Some(at),
        decreases cycle@.len() - i,
    {
        let handle = &cycle.edges[i];
        assert(shape@.has(Kind::Edge, cycle@[i as int]));
        let edge = shape.edges.at(handle.index);
        assert(edge.vertices == shape@.ends_at(cycle@, i as int));
        match edge.vertices.step(&at) {
            Some(next) => {
                assert(shape@.chain(cycle@, *from, (i + 1) as nat) == Some(next));
                at = next;
            },
            None => {
                proof {
                    assert(shape@.chain(cycle@, *from, (i + 1) as nat).is_none());
                    shape@.lemma_chain_broken(cycle@, *from, (i + 1) as nat, cycle@.len());
                }
                return false;
            },
        }
        i = i + 1;
    }
    at == *from
}

/// Decides whether the edges of `cycle` form a closed chain.
pub fn cycle_closed(shape: &Shape, cycle: &Cycle) -> (r: bool)
    requires
        shape.wf(),
        shape@.cycle_sound(cycle@),
    ensures
        r == shape@.closed(cycle@),
{
    if cycle.edges.len() == 0 {
        return false;
    }
    let handle = &cycle.edges[0];
    assert(shape@.has(Kind::Edge, cycle@[0]));
    let first = shape.edges.at(handle.index);
    assert(first.vertices == shape@.ends_at(cycle@, 0));
    match first.vertices {
        Ends::Two(a, b) => chain_returns(shape, cycle, &a) || chain_returns(shape, cycle, &b),
        Ends::Open => {
            assert(shape@.edge_sound(shape@.edges[handle.index as int]));
            cycle.edges.len() == 1 && shape.curves.at(first.curve.index).is_closed()
        },
        Ends::One(_) => false,
    }
}

/// The vertices through which a closed chain runs: where it stands after no
/// edge, after one, and so on, up to all of them.
fn corners(shape: &Shape, cycle: &Cycle, start: &Handle) -> (r: Vec<Handle>)
    requires
        shape.wf(),
        shape@.cycle_sound(cycle@),
        shape@.chain(cycle@, *start, cycle@.len()) == Some(*start),
    ensures
        r@.len() == cycle@.len() + 1,
        forall|i: int|
            0 <= i <= cycle@.len() ==> shape@.chain(cycle@, *start, i as nat) == Some(
                #[trigger] r@[i],
            ),
{
    let mut out: Vec<Handle> = Vec::new();
    out.push(*start);
    let mut at: Handle = *start;
    let mut i: usize = 0;
    while i < cycle.edges.len()
        invariant
            shape.wf(),
            shape@.cycle_sound(cycle@),
            shape@.chain(cycle@, *start, cycle@.len()) == Some(*start),
            shape.edges@ == shape@.edges,
            i <= cycle@.len(),
            out@.len() == i + 1,
            at == out@[i as int],
            forall|j: int|
                0 <= j <= i ==> shape@.chain(cycle@, *start, j as nat) == Some(#[trigger] out@[j]),
        decreases cycle@.len() - i,
    {
        let handle = &cycle.edges[i];
        assert(shape@.has(Kind::Edge, cycle@[i as int]));
        let edge = shape.edges.at(handle.index);
        assert(edge.vertices == shape@.ends_at(cycle@, i as int));
        proof {
            shape@.lemma_chain_whole(cycle@, *start, i as nat);
        }
        let next = match edge.vertices.step(&at) {
            Some(next) => next,
            None => at,
        };
        out.push(next);
        at = next;
        i = i + 1;
    }
    out
}

/// The normal form of a closed cycle of edges of the shape.
pub fn normalize(shape: &Shape, cycle: &Cycle) -> (r: Cycle)
    requires
        shape.wf(),
        shape@.cycle_sound(cycle@),
        shape@.closed(cycle@),
    ensures
        r@ == shape@.normalized(cycle@),
{
    let n: usize = cycle.edges.len();
    let k: usize = cycle.least();
    proof {
        let chosen = choose|l: int| least_at(cycle@, l);
        lemma_least_at_unique(cycle@, k as int, chosen);
    }
    let handle = &cycle.edges[0];
    assert(shape@.has(Kind::Edge, cycle@[0]));
    let first = shape.edges.at(handle.index);
    assert(first.vertices == shape@.ends_at(cycle@, 0));
    match first.vertices {
        Ends::Two(a, b) => {
            let start: Handle = if chain_returns(shape, cycle, &a) {
                a
            } else {
                b
            };
            assert(start == shape@.chain_start(cycle@));
            let ring = corners(shape, cycle, &start);
            let mut onward: Vec<Handle> = Vec::new();
            let mut back: Vec<Handle> = Vec::new();
            let mut j: usize = 0;
            while j < n
                invariant
                    n == cycle@.len(),
                    k < n,
                    j <= n,
                    ring@.len() == n + 1,
                    start == shape@.chain_start(cycle@),
                    forall|i: int|
                        0 <= i <= n ==> shape@.chain(cycle@, start, i as nat) == Some(
                            #[trigger] ring@[i],
                        ),
                    onward@.len() == j,
                    back@.len() == j,
                    forall|i: int|
                        0 <= i < j ==> #[trigger] onward@[i] == shape@.ring(cycle@, start, k + i),
                    forall|i: int|
                        0 <= i < j ==> #[trigger] back@[i] == shape@.ring(
                            cycle@,
                            start,
                            k + 1 + n - i,
                        ),
                decreases n - j,
            {
                let ahead: usize = if j <= n - k {
                    k + j
                } else {
                    j - (n - k)
                };
                let behind: usize = if j <= k {
                    k + 1 - j
                } else {
                    n - (j - (k + 1))
                };
                assert(shape@.ring(cycle@, start, k + j) == ring@[ahead as int]);
                assert(shape@.ring(cycle@, start, k + 1 + n - j) == ring@[behind as int]);
                onward.push(ring[ahead]);
                back.push(ring[behind]);
                j = j + 1;
            }
            assert(onward@ =~= shape@.corners_forward(cycle@, k as int));
            assert(back@ =~= shape@.corners_backward(cycle@, k as int));
            if comes_before(&back, &onward) {
                Cycle { edges: cycle.turn_back(k) }
            } else {
                Cycle { edges: cycle.turn(k) }
            }
        },
        _ => Cycle { edges: cycle.turn(k) },
    }
}

/// Decides whether the curve of every edge of `cycle` runs in `surface`.
fn cycle_on_surface(shape: &Shape, surface: &Surface, cycle: &Cycle) -> (r: bool)
    requires
        shape.wf(),
        shape@.cycle_sound(cycle@),
    ensures
        r == shape@.cycle_carried(*surface, cycle@),
{
    let mut k: usize = 0;
    while k < cycle.edges.len()
        invariant
            shape.wf(),
            shape@.cycle_sound(cycle@),
            shape.edges@ == shape@.edges,
            shape.curves@ == shape@.curves,
            k <= cycle@.len(),
            forall|j: int|
                0 <= j < k ==> surface.holds_curve(
                    shape@.edge_curve(#[trigger] cycle@[j]),
                    shape@.min_distance,
                ),
        decreases cycle@.len() - k,
    {
        let handle = &cycle.edges[k];
        assert(shape@.has(Kind::Edge, cycle@[k as int]));
        let edge = shape.edges.at(handle.index);
        assert(shape@.edge_sound(shape@.edges[handle.index as int]));
        let curve: &Curve = shape.curves.at(edge.curve.index);
        if !surface.carries_curve(curve, shape.min_distance) {
            assert(!surface.holds_curve(shape@.edge_curve(cycle@[k as int]), shape@.min_distance));
            return false;
        }
        k = k + 1;
    }
    true
}

/// Decides whether the curves of all edges of all cycles of a face run in its
/// surface.
pub fn face_on_surface(shape: &Shape, face: &Face) -> (r: bool)
    requires
        shape.wf(),
        shape@.face_sound(face@),
    ensures
        r == shape@.face_carried(face@),
{
    match face {
        Face::Face { surface, cycles } => {
            let carrier = shape.surfaces.at(surface.index);
            let mut j: usize = 0;
            while j < cycles.len()
                invariant
                    shape.wf(),
                    shape@.face_sound(face@),
                    face@ == (FaceView::Face { surface: *surface, cycles: cycles@ }),
                    *carrier == shape@.surfaces[surface.index as int],
                    shape.cycles@.len() == shape@.cycles.len(),
                    forall|i: int|
                        0 <= i < shape@.cycles.len() ==> shape.cycles@[i]@ == shape@.cycles[i],
                    j <= cycles@.len(),
                    forall|i: int|
                        0 <= i < j ==> shape@.cycle_carried(
                            *carrier,
                            shape@.cycles[(#[trigger] face@->cycles[i]).index as int],
                        ),
                decreases cycles@.len() - j,
            {
                let handle = &cycles[j];
                assert(face@->cycles[j as int] == cycles@[j as int]);
                assert(shape@.has(Kind::Cycle, cycles@[j as int]));
                let cycle = shape.cycles.at(handle.index);
                assert(shape@.cycle_sound(shape@.cycles[handle.index as int]));
                if !cycle_on_surface(shape, carrier, cycle) {
                    assert(!shape@.cycle_carried(
                        *carrier,
                        shape@.cycles[face@->cycles[j as int].index as int],
                    ));
                    return false;
                }
                j = j + 1;
            }
            true
        },
        Face::Triangles(_) => true,
    }
}

} // verus!
