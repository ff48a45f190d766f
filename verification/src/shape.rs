//! The shape: the stores of one model and the two facets that give access to them.

pub mod geometry;
pub mod laws;
pub mod merge;
pub mod merge_laws;
pub mod rings;
pub mod store;
pub mod topology;
pub mod traits;
pub mod validate;

use vstd::prelude::*;
use crate::geometry::{Curve, Surface};
use crate::math::{Point, Transform};
use crate::shape::geometry::Geometry;
use crate::shape::store::{Handle, Kind, Store};
use crate::shape::topology::Topology;
use crate::topology::{Cycle, Edge, Ends, Face, FaceView, Vertex};

verus! {

/// Why a shape has refused a change.
#[derive(Clone, Copy, Debug, PartialEq, Eq, Structural, Hash)]
pub enum ValidationError {
    /// A handle inside the entity was not issued by this shape.
    StructuralMissing,
    /// The vertex would lie closer to a vertex of the shape than the minimum distance.
    GeometricDuplicate,
    /// The shape holds the same edge, cycle or face already.
    TopologicalDuplicate,
    /// Vertices of an edge are not on its curve, or curves of a face are not
    /// on its surface.
    NotOnCarrier,
    /// The edges of a cycle do not form a closed chain.
    NotClosed,
    /// The minimum distance cannot change once the shape holds an entity.
    ToleranceFrozen,
}

/// The handle of an entity that was added, or the reason why it was not.
pub type ValidationResult = Result<Handle, ValidationError>;

/// The minimum distance of a shape that was given none: a single grid unit, so
/// that two vertices are told apart as soon as they lie at different points.
pub const DEFAULT_MINIMUM_DISTANCE: u32 = 1;

/// One model: its geometry and its topology.
pub struct Shape {
    identity: u64,
    min_distance: u32,
    points: Store<Point>,
    curves: Store<Curve>,
    surfaces: Store<Surface>,
    vertices: Store<Vertex>,
    edges: Store<Edge>,
    cycles: Store<Cycle>,
    faces: Store<Face>,
}

/// What a shape holds, as mathematical values: each store as the sequence of
/// its payloads in the order of insertion.
pub struct ShapeView {
    pub identity: u64,
    pub min_distance: u32,
    pub points: Seq<Point>,
    pub curves: Seq<Curve>,
    pub surfaces: Seq<Surface>,
    pub vertices: Seq<Vertex>,
    pub edges: Seq<Edge>,
    pub cycles: Seq<Seq<Handle>>,
    pub faces: Seq<FaceView>,
}

/// The cycles of a store as sequences of handles.
pub open spec fn cycle_views(cycles: Seq<Cycle>) -> Seq<Seq<Handle>> {
    Seq::new(cycles.len(), |i: int| cycles[i]@)
}

/// The faces of a store as mathematical values.
pub open spec fn face_views(faces: Seq<Face>) -> Seq<FaceView> {
    Seq::new(faces.len(), |i: int| faces[i]@)
}

impl ShapeView {
    /// The number of entities of a kind.
    pub open spec fn count(self, kind: Kind) -> nat {
        match kind {
            Kind::Point => self.points.len(),
            Kind::Curve => self.curves.len(),
            Kind::Surface => self.surfaces.len(),
            Kind::Vertex => self.vertices.len(),
            Kind::Edge => self.edges.len(),
            Kind::Cycle => self.cycles.len(),
            Kind::Face => self.faces.len(),
        }
    }

    /// The handle that this shape issues for the entity of a kind at a position.
    pub open spec fn handle(self, kind: Kind, index: int) -> Handle {
        Handle { shape: self.identity, kind, index: index as usize }
    }

    /// Whether `handle` was issued by this shape for an entity of `kind`.
    pub open spec fn has(self, kind: Kind, handle: Handle) -> bool {
        &&& handle.shape == self.identity
        &&& handle.kind == kind
        &&& handle.index < self.count(kind)
    }

    /// Whether the shape holds no entity yet.
    pub open spec fn empty(self) -> bool {
        &&& self.points.len() == 0
        &&& self.curves.len() == 0
        &&& self.surfaces.len() == 0
        &&& self.vertices.len() == 0
        &&& self.edges.len() == 0
        &&& self.cycles.len() == 0
        &&& self.faces.len() == 0
    }

    /// The point at which a vertex lies.
    pub open spec fn vertex_point(self, vertex: Handle) -> Point {
        self.points[self.vertices[vertex.index as int].point.index as int]
    }

    /// The curve that carries an edge.
    pub open spec fn edge_curve(self, edge: Handle) -> Curve {
        self.curves[self.edges[edge.index as int].curve.index as int]
    }

    /// Whether this shape has issued every handle inside `vertex`.
    pub open spec fn vertex_sound(self, vertex: Vertex) -> bool {
        self.has(Kind::Point, vertex.point)
    }

    /// Whether this shape has issued each of the vertices in `ends`.
    pub open spec fn ends_sound(self, ends: Ends) -> bool {
        match ends {
            Ends::Open => true,
            Ends::One(a) => self.has(Kind::Vertex, a),
            Ends::Two(a, b) => self.has(Kind::Vertex, a) && self.has(Kind::Vertex, b),
        }
    }

    /// Whether this shape has issued every handle inside `edge`.
    pub open spec fn edge_sound(self, edge: Edge) -> bool {
        self.has(Kind::Curve, edge.curve) && self.ends_sound(edge.vertices)
    }

    /// Whether this shape has issued every handle inside `cycle`.
    pub open spec fn cycle_sound(self, cycle: Seq<Handle>) -> bool {
        forall|i: int| 0 <= i < cycle.len() ==> self.has(Kind::Edge, #[trigger] cycle[i])
    }

    /// Whether this shape has issued every handle inside `face`.
    pub open spec fn face_sound(self, face: FaceView) -> bool {
        match face {
            FaceView::Face { surface, cycles } => {
                &&& self.has(Kind::Surface, surface)
                &&& forall|i: int|
                    0 <= i < cycles.len() ==> self.has(Kind::Cycle, #[trigger] cycles[i])
            },
            FaceView::Triangles(_) => true,
        }
    }

    /// Every handle stored inside an entity refers to an entity of this shape.
    pub open spec fn sound(self) -> bool {
        &&& forall|i: int|
            0 <= i < self.vertices.len() ==> self.vertex_sound(#[trigger] self.vertices[i])
        &&& forall|i: int| 0 <= i < self.edges.len() ==> self.edge_sound(#[trigger] self.edges[i])
        &&& forall|i: int|
            0 <= i < self.cycles.len() ==> self.cycle_sound(#[trigger] self.cycles[i])
        &&& forall|i: int| 0 <= i < self.faces.len() ==> self.face_sound(#[trigger] self.faces[i])
    }

    /// No store holds more than can be counted.
    pub open spec fn countable(self) -> bool {
        &&& self.points.len() <= usize::MAX
        &&& self.curves.len() <= usize::MAX
        &&& self.surfaces.len() <= usize::MAX
        &&& self.vertices.len() <= usize::MAX
        &&& self.edges.len() <= usize::MAX
        &&& self.cycles.len() <= usize::MAX
        &&& self.faces.len() <= usize::MAX
    }

    /// What holds of the view of every shape: every handle stored inside an
    /// entity refers to an entity of the shape, the minimum distance is
    /// positive, and no store holds more than can be counted.
    pub open spec fn fit(self) -> bool {
        &&& self.sound()
        &&& self.min_distance > 0
        &&& self.countable()
    }

    /// Whether this shape is `earlier` after entities were added to it: each
    /// store begins with what it held, the rest is as it was.
    pub open spec fn extends(self, earlier: ShapeView) -> bool {
        &&& self.identity == earlier.identity
        &&& self.min_distance == earlier.min_distance
        &&& earlier.points.is_prefix_of(self.points)
        &&& earlier.curves.is_prefix_of(self.curves)
        &&& earlier.surfaces.is_prefix_of(self.surfaces)
        &&& earlier.vertices.is_prefix_of(self.vertices)
        &&& earlier.edges.is_prefix_of(self.edges)
        &&& earlier.cycles.is_prefix_of(self.cycles)
        &&& earlier.faces.is_prefix_of(self.faces)
    }

    /// Whether the image of every payload under `t` can be stored.
    pub open spec fn admits(self, t: Transform) -> bool {
        &&& forall|i: int| 0 <= i < self.points.len() ==> t.maps_point(#[trigger] self.points[i])
        &&& forall|i: int| 0 <= i < self.curves.len() ==> (#[trigger] self.curves[i]).maps(t)
        &&& forall|i: int| 0 <= i < self.surfaces.len() ==> (#[trigger] self.surfaces[i]).maps(t)
        &&& forall|i: int| 0 <= i < self.faces.len() ==> (#[trigger] self.faces[i]).maps(t)
    }

    /// This shape with every geometric payload replaced by its image under `t`:
    /// the points, the curves, the surfaces, and the triangles of faces that
    /// are lists of triangles. Nothing else changes, and nothing changes place.
    pub open spec fn image(self, t: Transform) -> ShapeView {
        ShapeView {
            points: Seq::new(self.points.len(), |i: int| t.point_image(self.points[i])),
            curves: Seq::new(self.curves.len(), |i: int| self.curves[i].image(t)),
            surfaces: Seq::new(self.surfaces.len(), |i: int| self.surfaces[i].image(t)),
            faces: Seq::new(self.faces.len(), |i: int| self.faces[i].image(t)),
            ..self
        }
    }
}

impl View for Shape {
    type V = ShapeView;

    closed spec fn view(&self) -> ShapeView {
        ShapeView {
            identity: self.identity,
            min_distance: self.min_distance,
            points: self.points@,
            curves: self.curves@,
            surfaces: self.surfaces@,
            vertices: self.vertices@,
            edges: self.edges@,
            cycles: cycle_views(self.cycles@),
            faces: face_views(self.faces@),
        }
    }
}

impl Shape {
    /// Whether each store carries the identity of this shape and its own kind.
    pub closed spec fn tagged(&self) -> bool {
        &&& self.points.shape() == self.identity && self.points.kind() == Kind::Point
        &&& self.curves.shape() == self.identity && self.curves.kind() == Kind::Curve
        &&& self.surfaces.shape() == self.identity && self.surfaces.kind() == Kind::Surface
        &&& self.vertices.shape() == self.identity && self.vertices.kind() == Kind::Vertex
        &&& self.edges.shape() == self.identity && self.edges.kind() == Kind::Edge
        &&& self.cycles.shape() == self.identity && self.cycles.kind() == Kind::Cycle
        &&& self.faces.shape() == self.identity && self.faces.kind() == Kind::Face
    }

    /// The invariant of a shape: its stores are its own, and its view is fit.
    /// Every function that makes or changes a shape keeps it.
    pub open spec fn wf(&self) -> bool {
        &&& self.tagged()
        &&& self@.fit()
    }

    /// An empty shape with the given identity and minimum distance.
    ///
    /// Handles carry the identity of the shape that issued them, so shapes
    /// that are given different identities refuse each other's handles.
    pub fn tagged_with(identity: u64, min_distance: u32) -> (r: Shape)
        requires
            min_distance > 0,
        ensures
            r.wf(),
            r@.empty(),
            r@.identity == identity,
            r@.min_distance == min_distance,
    {
        let r = Shape {
            identity,
            min_distance,
            points: Store::new(identity, Kind::Point),
            curves: Store::new(identity, Kind::Curve),
            surfaces: Store::new(identity, Kind::Surface),
            vertices: Store::new(identity, Kind::Vertex),
            edges: Store::new(identity, Kind::Edge),
            cycles: Store::new(identity, Kind::Cycle),
            faces: Store::new(identity, Kind::Face),
        };
        assert(r@.cycles.len() == 0);
        assert(r@.faces.len() == 0);
        r
    }

    /// An empty shape with identity 0 and the default minimum distance.
    pub fn new() -> (r: Shape)
        ensures
            r.wf(),
            r@.empty(),
            r@.identity == 0,
            r@.min_distance == DEFAULT_MINIMUM_DISTANCE,
    {
        Shape::tagged_with(0, DEFAULT_MINIMUM_DISTANCE)
    }

    /// An empty shape with identity 0 and the given minimum distance.
    pub fn with_minimum_distance(min_distance: u32) -> (r: Shape)
        requires
            min_distance > 0,
        ensures
            r.wf(),
            r@.empty(),
            r@.identity == 0,
            r@.min_distance == min_distance,
    {
        Shape::tagged_with(0, min_distance)
    }

    /// The minimum distance: two vertices must lie at least this far apart.
    pub fn minimum_distance(&self) -> (r: u32)
        ensures
            r == self@.min_distance,
    {
        self.min_distance
    }

    /// Whether the shape holds no entity yet.
    pub fn is_empty(&self) -> (r: bool)
        ensures
            r == self@.empty(),
    {
        self.points.is_empty() && self.curves.is_empty() && self.surfaces.is_empty()
            && self.vertices.is_empty() && self.edges.is_empty() && self.cycles.is_empty()
            && self.faces.is_empty()
    }

    /// Sets the minimum distance of a shape that holds no entity yet. Once the
    /// shape holds one, the minimum distance stays as it is and the call fails.
    pub fn set_minimum_distance(&mut self, min_distance: u32) -> (r: Result<(), ValidationError>)
        requires
            old(self).wf(),
            min_distance > 0,
        ensures
            final(self).wf(),
            old(self)@.empty() ==> r == Ok::<(), ValidationError>(()) && final(self)@ == (ShapeView {
                min_distance,
                ..old(self)@
            }),
            !old(self)@.empty() ==> r == Err::<(), ValidationError>(
                ValidationError::ToleranceFrozen,
            ) && final(self)@ == old(self)@,
    {
        if self.is_empty() {
            self.min_distance = min_distance;
            Ok(())
        } else {
            Err(ValidationError::ToleranceFrozen)
        }
    }

    /// The facet through which geometry is added, found and moved.
    pub fn geometry(&mut self) -> (r: Geometry<'_>)
        ensures
            *r.shape == *old(self),
            *final(self) == *final(r.shape),
    {
        Geometry { shape: self }
    }

    /// The facet through which topology is added and found.
    pub fn topology(&mut self) -> (r: Topology<'_>)
        ensures
            *r.shape == *old(self),
            *final(self) == *final(r.shape),
    {
        Topology { shape: self }
    }
}

} // verus!
