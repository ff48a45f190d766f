//! Merging: bringing an entity of another shape, with everything that it
//! refers to, into a shape.
//!
//! What the entity refers to is brought in first. Geometry that the shape
//! holds already is used again: a point that is closer to the new one than the
//! minimum distance, a curve or a surface that is the same as the new one. The entity
//! itself is then added as any other, except that where the shape holds the
//! same entity already, the handle of that one is the result.

use vstd::prelude::*;
use crate::geometry::{Curve, Surface};
use crate::math::Point;
use crate::shape::laws::lemma_geometry_added;
use crate::shape::store::{Handle, Kind};
use crate::shape::topology::Topology;
use crate::shape::traits::TopoObject;
use crate::shape::validate::{
    find_curve, find_cycle, find_edge, find_face, find_surface, nearest_point, nearest_vertex,
};
use crate::shape::{Shape, ShapeView, ValidationError, ValidationResult};
use crate::topology::{Cycle, Edge, Ends, Face, FaceView, Vertex};

verus! {

/// A shape and a handle into it, or the reason why there is none.
pub type Merged = Result<(ShapeView, Handle), ValidationError>;

impl ShapeView {
    /// This shape after `point` was added.
    pub open spec fn with_point(self, point: Point) -> ShapeView {
        ShapeView { points: self.points.push(point), ..self }
    }

    /// This shape after `curve` was added.
    pub open spec fn with_curve(self, curve: Curve) -> ShapeView {
        ShapeView { curves: self.curves.push(curve), ..self }
    }

    /// This shape after `surface` was added.
    pub open spec fn with_surface(self, surface: Surface) -> ShapeView {
        ShapeView { surfaces: self.surfaces.push(surface), ..self }
    }

    /// The shape and the handle after `point` was brought in: the first point
    /// that is closer to it than the minimum distance, or else a new one.
    pub open spec fn homed_point(self, point: Point) -> (ShapeView, Handle) {
        match self.search(Kind::Point, self.near_point(point)) {
            Some(handle) => (self, handle),
            None => (self.with_point(point), self.handle(Kind::Point, self.points.len() as int)),
        }
    }

    /// The shape and the handle after `curve` was brought in: the first curve
    /// that is the same curve, or else a new one.
    pub open spec fn homed_curve(self, curve: Curve) -> (ShapeView, Handle) {
        match self.search(Kind::Curve, self.like_curve(curve)) {
            Some(handle) => (self, handle),
            None => (self.with_curve(curve), self.handle(Kind::Curve, self.curves.len() as int)),
        }
    }

    /// The shape and the handle after `surface` was brought in: the first
    /// surface that is the same surface, or else a new one.
    pub open spec fn homed_surface(self, surface: Surface) -> (ShapeView, Handle) {
        match self.search(Kind::Surface, self.like_surface(surface)) {
            Some(handle) => (self, handle),
            None => (
                self.with_surface(surface),
                self.handle(Kind::Surface, self.surfaces.len() as int),
            ),
        }
    }

    /// The outcome of adding `vertex`, with the first vertex that is too close
    /// to it in place of a refusal as a duplicate.
    pub open spec fn settled_vertex(self, vertex: Vertex) -> Merged {
        match self.vertex_verdict(vertex) {
            None => Ok(
                (self.with_vertex(vertex), self.handle(Kind::Vertex, self.vertices.len() as int)),
            ),
            Some(ValidationError::GeometricDuplicate) => Ok(
                (
                    self,
                    self.search(
                        Kind::Vertex,
                        self.near_vertex(self.points[vertex.point.index as int]),
                    ).unwrap(),
                ),
            ),
            Some(error) => Err(error),
        }
    }

    /// The outcome of adding `edge`, with the first edge that is the same in
    /// place of a refusal as a duplicate.
    pub open spec fn settled_edge(self, edge: Edge) -> Merged {
        match self.edge_verdict(edge) {
            None => Ok((self.with_edge(edge), self.handle(Kind::Edge, self.edges.len() as int))),
            Some(ValidationError::TopologicalDuplicate) => Ok(
                (self, self.search(Kind::Edge, self.like_edge(edge)).unwrap()),
            ),
            Some(error) => Err(error),
        }
    }

    /// The outcome of adding `cycle`, in its normal form, with the first cycle
    /// that is the same in place of a refusal as a duplicate.
    pub open spec fn settled_cycle(self, cycle: Seq<Handle>) -> Merged {
        match self.cycle_verdict(cycle) {
            None => Ok(
                (self.with_cycle(cycle), self.handle(Kind::Cycle, self.cycles.len() as int)),
            ),
            Some(ValidationError::TopologicalDuplicate) => Ok(
                (self, self.search(Kind::Cycle, self.like_cycle(cycle)).unwrap()),
            ),
            Some(error) => Err(error),
        }
    }

    /// The outcome of adding `face`, with the first face that is the same in
    /// place of a refusal as a duplicate.
    pub open spec fn settled_face(self, face: FaceView) -> Merged {
        match self.face_verdict(face) {
            None => Ok((self.with_face(face), self.handle(Kind::Face, self.faces.len() as int))),
            Some(ValidationError::TopologicalDuplicate) => Ok(
                (self, self.search(Kind::Face, self.like_face(face)).unwrap()),
            ),
            Some(error) => Err(error),
        }
    }

    /// The outcome of merging `vertex` of the shape `source` into this shape:
    /// its point is brought in, then the vertex is settled.
    #[verifier::opaque]
    pub open spec fn merged_vertex(self, source: ShapeView, vertex: Vertex) -> Merged {
        if !source.vertex_sound(vertex) {
            Err(ValidationError::StructuralMissing)
        } else {
            let (shape, point) = self.homed_point(source.points[vertex.point.index as int]);
            shape.settled_vertex(Vertex { point })
        }
    }

    /// The outcome of merging the vertices `ends` of the shape `source` into
    /// this shape, the first before the second.
    #[verifier::opaque]
    pub open spec fn merged_ends(self, source: ShapeView, ends: Ends) -> Result<
        (ShapeView, Ends),
        ValidationError,
    > {
        match ends {
            Ends::Open => Ok((self, Ends::Open)),
            Ends::One(a) => match self.merged_vertex(source, source.vertices[a.index as int]) {
                Ok((shape, a)) => Ok((shape, Ends::One(a))),
                Err(error) => Err(error),
            },
            Ends::Two(a, b) => match self.merged_vertex(source, source.vertices[a.index as int]) {
                Ok((shape, a)) => match shape.merged_vertex(
                    source,
                    source.vertices[b.index as int],
                ) {
                    Ok((shape, b)) => Ok((shape, Ends::Two(a, b))),
                    Err(error) => Err(error),
                },
                Err(error) => Err(error),
            },
        }
    }

    /// The outcome of merging `edge` of the shape `source` into this shape: its
    /// curve is brought in, its vertices are merged, then the edge is settled.
    #[verifier::opaque]
    pub open spec fn merged_edge(self, source: ShapeView, edge: Edge) -> Merged {
        if !source.edge_sound(edge) {
            Err(ValidationError::StructuralMissing)
        } else {
            let (shape, curve) = self.homed_curve(source.curves[edge.curve.index as int]);
            match shape.merged_ends(source, edge.vertices) {
                Ok((shape, vertices)) => shape.settled_edge(Edge { curve, vertices }),
                Err(error) => Err(error),
            }
        }
    }

    /// The outcome of merging the first `n` of the edges `edges` of the shape
    /// `source` into this shape, in order: the shape and the handles of the
    /// merged edges.
    #[verifier::opaque]
    pub open spec fn merged_edges(self, source: ShapeView, edges: Seq<Handle>, n: nat) -> Result<
        (ShapeView, Seq<Handle>),
        ValidationError,
    >
        decreases n,
    {
        if n == 0 {
            Ok((self, Seq::empty()))
        } else {
            match self.merged_edges(source, edges, (n - 1) as nat) {
                Ok((shape, merged)) => match shape.merged_edge(
                    source,
                    source.edges[edges[n - 1].index as int],
                ) {
                    Ok((shape, edge)) => Ok((shape, merged.push(edge))),
                    Err(error) => Err(error),
                },
                Err(error) => Err(error),
            }
        }
    }

    /// The outcome of merging `cycle` of the shape `source` into this shape:
    /// its edges are merged in order, then the cycle is settled.
    #[verifier::opaque]
    pub open spec fn merged_cycle(self, source: ShapeView, cycle: Seq<Handle>) -> Merged {
        if !source.cycle_sound(cycle) {
            Err(ValidationError::StructuralMissing)
        } else {
            match self.merged_edges(source, cycle, cycle.len()) {
                Ok((shape, edges)) => shape.settled_cycle(edges),
                Err(error) => Err(error),
            }
        }
    }

    /// The outcome of merging the first `n` of the cycles `cycles` of the shape
    /// `source` into this shape, in order: the shape and the handles of the
    /// merged cycles.
    #[verifier::opaque]
    pub open spec fn merged_cycles(self, source: ShapeView, cycles: Seq<Handle>, n: nat) -> Result<
        (ShapeView, Seq<Handle>),
        ValidationError,
    >
        decreases n,
    {
        if n == 0 {
            Ok((self, Seq::empty()))
        } else {
            match self.merged_cycles(source, cycles, (n - 1) as nat) {
                Ok((shape, merged)) => match shape.merged_cycle(
                    source,
                    source.cycles[cycles[n - 1].index as int],
                ) {
                    Ok((shape, cycle)) => Ok((shape, merged.push(cycle))),
                    Err(error) => Err(error),
                },
                Err(error) => Err(error),
            }
        }
    }

    /// The outcome of merging `face` of the shape `source` into this shape: its
    /// surface is brought in, its cycles are merged in order, then the face is
    /// settled. A list of triangles refers to nothing and is added as it is.
    #[verifier::opaque]
    pub open spec fn merged_face(self, source: ShapeView, face: FaceView) -> Merged {
        match face {
            FaceView::Face { surface, cycles } => if !source.face_sound(face) {
                Err(ValidationError::StructuralMissing)
            } else {
                let (shape, surface) = self.homed_surface(
                    source.surfaces[surface.index as int],
                );
                match shape.merged_cycles(source, cycles, cycles.len()) {
                    Ok((shape, cycles)) => shape.settled_face(FaceView::Face { surface, cycles }),
                    Err(error) => Err(error),
                }
            },
            FaceView::Triangles(_) => self.settled_face(face),
        }
    }

    /// Being an extension is transitive.
    pub proof fn lemma_extends_twice(self, middle: ShapeView, earlier: ShapeView)
        requires
            self.extends(middle),
            middle.extends(earlier),
        ensures
            self.extends(earlier),
    {
    }

    /// Where merging some of the edges has failed, merging more of them fails
    /// in the same way.
    pub proof fn lemma_merged_edges_failed(
        self,
        source: ShapeView,
        edges: Seq<Handle>,
        k: nat,
        n: nat,
    )
        requires
            k <= n,
            self.merged_edges(source, edges, k).is_err(),
        ensures
            self.merged_edges(source, edges, n) == self.merged_edges(source, edges, k),
        decreases n,
    {
        reveal(ShapeView::merged_edges);
        if k < n {
            self.lemma_merged_edges_failed(source, edges, k, (n - 1) as nat);
        }
    }

    /// Where merging some of the cycles has failed, merging more of them fails
    /// in the same way.
    pub proof fn lemma_merged_cycles_failed(
        self,
        source: ShapeView,
        cycles: Seq<Handle>,
        k: nat,
        n: nat,
    )
        requires
            k <= n,
            self.merged_cycles(source, cycles, k).is_err(),
        ensures
            self.merged_cycles(source, cycles, n) == self.merged_cycles(source, cycles, k),
        decreases n,
    {
        reveal(ShapeView::merged_cycles);
        if k < n {
            self.lemma_merged_cycles_failed(source, cycles, k, (n - 1) as nat);
        }
    }
}

/// How many entities of each kind a shape holds.
struct Extent {
    points: usize,
    curves: usize,
    surfaces: usize,
    vertices: usize,
    edges: usize,
    cycles: usize,
    faces: usize,
}

impl Extent {
    /// Whether these are the numbers of entities of `shape`.
    spec fn of(self, shape: ShapeView) -> bool {
        &&& self.points == shape.points.len()
        &&& self.curves == shape.curves.len()
        &&& self.surfaces == shape.surfaces.len()
        &&& self.vertices == shape.vertices.len()
        &&& self.edges == shape.edges.len()
        &&& self.cycles == shape.cycles.len()
        &&& self.faces == shape.faces.len()
    }
}

impl<'r> Topology<'r> {
    /// The numbers of entities that the shape holds now.
    fn extent(&self) -> (r: Extent)
        requires
            self.wf(),
        ensures
            r.of(self@),
    {
        Extent {
            points: self.shape.points.len(),
            curves: self.shape.curves.len(),
            surfaces: self.shape.surfaces.len(),
            vertices: self.shape.vertices.len(),
            edges: self.shape.edges.len(),
            cycles: self.shape.cycles.len(),
            faces: self.shape.faces.len(),
        }
    }

    /// Takes away what was added since the shape was `earlier`.
    fn rewind(&mut self, extent: &Extent, Ghost(earlier): Ghost<ShapeView>)
        requires
            old(self).wf(),
            old(self)@.extends(earlier),
            earlier.sound(),
            extent.of(earlier),
        ensures
            final(self).wf(),
            final(self)@ == earlier,
            *final(final(self).shape) == *final(old(self).shape),
    {
        self.shape.points.truncate(extent.points);
        self.shape.curves.truncate(extent.curves);
        self.shape.surfaces.truncate(extent.surfaces);
        self.shape.vertices.truncate(extent.vertices);
        self.shape.edges.truncate(extent.edges);
        self.shape.cycles.truncate(extent.cycles);
        self.shape.faces.truncate(extent.faces);
        proof {
            assert(self@.points =~= earlier.points);
            assert(self@.curves =~= earlier.curves);
            assert(self@.surfaces =~= earlier.surfaces);
            assert(self@.vertices =~= earlier.vertices);
            assert(self@.edges =~= earlier.edges);
            assert(self@.cycles =~= earlier.cycles);
            assert(self@.faces =~= earlier.faces);
        }
    }

    /// Brings a point into the shape.
    fn home_point(&mut self, point: Point) -> (r: Handle)
        requires
            old(self).wf(),
        ensures
            final(self).wf(),
            *final(final(self).shape) == *final(old(self).shape),
            (final(self)@, r) == old(self)@.homed_point(point),
            final(self)@.extends(old(self)@),
            old(self)@.valid() ==> final(self)@.valid(),
            old(self)@.carried() ==> final(self)@.carried(),
    {
        let found = nearest_point(&*self.shape, &point);
        proof {
            self@.lemma_search(found, Kind::Point, self@.near_point(point));
        }
        match found {
            Some(handle) => handle,
            None => {
                let handle = self.shape.points.insert(point);
                proof {
                    lemma_geometry_added(old(self)@, self@);
                }
                handle
            },
        }
    }

    /// Brings a curve into the shape.
    fn home_curve(&mut self, curve: Curve) -> (r: Handle)
        requires
            old(self).wf(),
        ensures
            final(self).wf(),
            *final(final(self).shape) == *final(old(self).shape),
            (final(self)@, r) == old(self)@.homed_curve(curve),
            final(self)@.extends(old(self)@),
            old(self)@.valid() ==> final(self)@.valid(),
            old(self)@.carried() ==> final(self)@.carried(),
    {
        let found = find_curve(&*self.shape, &curve);
        proof {
            self@.lemma_search(found, Kind::Curve, self@.like_curve(curve));
        }
        match found {
            Some(handle) => handle,
            None => {
                let handle = self.shape.curves.insert(curve);
                proof {
                    lemma_geometry_added(old(self)@, self@);
                }
                handle
            },
        }
    }

    /// Brings a surface into the shape.
    fn home_surface(&mut self, surface: Surface) -> (r: Handle)
        requires
            old(self).wf(),
        ensures
            final(self).wf(),
            *final(final(self).shape) == *final(old(self).shape),
            (final(self)@, r) == old(self)@.homed_surface(surface),
            final(self)@.extends(old(self)@),
            old(self)@.valid() ==> final(self)@.valid(),
            old(self)@.carried() ==> final(self)@.carried(),
    {
        let found = find_surface(&*self.shape, &surface);
        proof {
            self@.lemma_search(found, Kind::Surface, self@.like_surface(surface));
        }
        match found {
            Some(handle) => handle,
            None => {
                let handle = self.shape.surfaces.insert(surface);
                proof {
                    lemma_geometry_added(old(self)@, self@);
                }
                handle
            },
        }
    }

    /// Adds a vertex, or finds the one that stands in its way.
    fn settle_vertex(&mut self, vertex: Vertex) -> (r: ValidationResult)
        requires
            old(self).wf(),
        ensures
            final(self).wf(),
            *final(final(self).shape) == *final(old(self).shape),
            final(self)@.extends(old(self)@),
            old(self)@.valid() ==> final(self)@.valid(),
            old(self)@.carried() ==> final(self)@.carried(),
            match old(self)@.settled_vertex(vertex) {
                Ok((shape, handle)) => r == Ok::<Handle, ValidationError>(handle) && final(self)@
                    == shape,
                Err(error) => r == Err::<Handle, ValidationError>(error) && final(self)@ == old(
                    self,
                )@,
            },
    {
        match self.add_vertex(vertex) {
            Ok(handle) => Ok(handle),
            Err(ValidationError::GeometricDuplicate) => {
                let point = *self.shape.points.at(vertex.point.index);
                let found = nearest_vertex(&*self.shape, &point);
                proof {
                    self@.lemma_search(found, Kind::Vertex, self@.near_vertex(point));
                }
                Ok(found.unwrap())
            },
            Err(error) => Err(error),
        }
    }

    /// Adds an edge, or finds the one that is the same.
    fn settle_edge(&mut self, edge: Edge) -> (r: ValidationResult)
        requires
            old(self).wf(),
        ensures
            final(self).wf(),
            *final(final(self).shape) == *final(old(self).shape),
            final(self)@.extends(old(self)@),
            old(self)@.valid() ==> final(self)@.valid(),
            old(self)@.carried() ==> final(self)@.carried(),
            match old(self)@.settled_edge(edge) {
                Ok((shape, handle)) => r == Ok::<Handle, ValidationError>(handle) && final(self)@
                    == shape,
                Err(error) => r == Err::<Handle, ValidationError>(error) && final(self)@ == old(
                    self,
                )@,
            },
    {
        match self.add_edge(edge) {
            Ok(handle) => Ok(handle),
            Err(ValidationError::TopologicalDuplicate) => {
                let found = find_edge(&*self.shape, &edge);
                proof {
                    self@.lemma_search(found, Kind::Edge, self@.like_edge(edge));
                }
                Ok(found.unwrap())
            },
            Err(error) => Err(error),
        }
    }

    /// Merges a vertex; what it has added stays where the result is an error.
    fn grow_vertex(&mut self, source: &Shape, vertex: &Vertex) -> (r: ValidationResult)
        requires
            old(self).wf(),
            source.wf(),
        ensures
            final(self).wf(),
            *final(final(self).shape) == *final(old(self).shape),
            final(self)@.extends(old(self)@),
            old(self)@.valid() ==> final(self)@.valid(),
            old(self)@.carried() ==> final(self)@.carried(),
            match old(self)@.merged_vertex(source@, *vertex) {
                Ok((shape, handle)) => r == Ok::<Handle, ValidationError>(handle) && final(self)@
                    == shape,
                Err(error) => r == Err::<Handle, ValidationError>(error),
            },
    {
        proof {
            reveal(ShapeView::merged_vertex);
        }
        if !source.points.contains(&vertex.point) {
            return Err(ValidationError::StructuralMissing);
        }
        let point = self.home_point(*source.points.at(vertex.point.index));
        let ghost homed = self@;
        let r = self.settle_vertex(Vertex { point });
        proof {
            self@.lemma_extends_twice(homed, old(self)@);
        }
        r
    }

    /// Merges the vertices of an edge; what it has added stays where the result
    /// is an error.
    fn grow_ends(&mut self, source: &Shape, ends: &Ends) -> (r: Result<Ends, ValidationError>)
        requires
            old(self).wf(),
            source.wf(),
            source@.ends_sound(*ends),
        ensures
            final(self).wf(),
            *final(final(self).shape) == *final(old(self).shape),
            final(self)@.extends(old(self)@),
            old(self)@.valid() ==> final(self)@.valid(),
            old(self)@.carried() ==> final(self)@.carried(),
            match old(self)@.merged_ends(source@, *ends) {
                Ok((shape, merged)) => r == Ok::<Ends, ValidationError>(merged) && final(self)@
                    == shape,
                Err(error) => r == Err::<Ends, ValidationError>(error),
            },
    {
        proof {
            reveal(ShapeView::merged_ends);
        }
        match ends {
            Ends::Open => Ok(Ends::Open),
            Ends::One(a) => {
                match self.grow_vertex(source, source.vertices.at(a.index)) {
                    Ok(a) => Ok(Ends::One(a)),
                    Err(error) => Err(error),
                }
            },
            Ends::Two(a, b) => {
                match self.grow_vertex(source, source.vertices.at(a.index)) {
                    Ok(a) => {
                        let ghost first = self@;
                        let r = self.grow_vertex(source, source.vertices.at(b.index));
                        proof {
                            self@.lemma_extends_twice(first, old(self)@);
                        }
                        match r {
                            Ok(b) => Ok(Ends::Two(a, b)),
                            Err(error) => Err(error),
                        }
                    },
                    Err(error) => Err(error),
                }
            },
        }
    }

    /// Merges an edge; what it has added stays where the result is an error.
    fn grow_edge(&mut self, source: &Shape, edge: &Edge) -> (r: ValidationResult)
        requires
            old(self).wf(),
            source.wf(),
        ensures
            final(self).wf(),
            *final(final(self).shape) == *final(old(self).shape),
            final(self)@.extends(old(self)@),
            old(self)@.valid() ==> final(self)@.valid(),
            old(self)@.carried() ==> final(self)@.carried(),
            match old(self)@.merged_edge(source@, *edge) {
                Ok((shape, handle)) => r == Ok::<Handle, ValidationError>(handle) && final(self)@
                    == shape,
                Err(error) => r == Err::<Handle, ValidationError>(error),
            },
    {
        proof {
            reveal(ShapeView::merged_edge);
        }
        if !crate::shape::validate::edge_issued(source, edge) {
            return Err(ValidationError::StructuralMissing);
        }
        let curve = self.home_curve(*source.curves.at(edge.curve.index));
        let ghost homed = self@;
        match self.grow_ends(source, &edge.vertices) {
            Ok(vertices) => {
                let ghost ended = self@;
                let r = self.settle_edge(Edge { curve, vertices });
                proof {
                    ended.lemma_extends_twice(homed, old(self)@);
                    self@.lemma_extends_twice(ended, old(self)@);
                }
                r
            },
            Err(error) => {
                proof {
                    self@.lemma_extends_twice(homed, old(self)@);
                }
                Err(error)
            },
        }
    }

    /// Merges a vertex of the shape `source` into this shape.
    ///
    /// The point of the vertex is brought in first: the first point of this
    /// shape that is closer to it than the minimum distance is used again, and
    /// where there is none the point is added. The result is the handle of the
    /// first vertex of this shape that is closer than the minimum distance to
    /// that point, and where there is none a vertex is added at it. Fails with
    /// `StructuralMissing`, and changes nothing, where `source` has not issued
    /// the handle of the point.
    pub fn merge_vertex(&mut self, source: &Shape, vertex: &Vertex) -> (r: ValidationResult)
        requires
            old(self).wf(),
            source.wf(),
        ensures
            final(self).wf(),
            *final(final(self).shape) == *final(old(self).shape),
            final(self)@.extends(old(self)@),
            old(self)@.valid() ==> final(self)@.valid(),
            old(self)@.carried() ==> final(self)@.carried(),
            match old(self)@.merged_vertex(source@, *vertex) {
                Ok((shape, handle)) => r == Ok::<Handle, ValidationError>(handle) && final(self)@
                    == shape,
                Err(error) => r == Err::<Handle, ValidationError>(error) && final(self)@ == old(
                    self,
                )@,
            },
    {
        let extent = self.extent();
        let r = self.grow_vertex(source, vertex);
        if r.is_err() {
            self.rewind(&extent, Ghost(old(self)@));
        }
        r
    }

    /// Merges an edge of the shape `source` into this shape.
    ///
    /// The curve of the edge is brought in first: the first curve of this
    /// shape that is the same is used again, and where there is none the curve
    /// is added. Then the vertices of the edge are merged, the first before the
    /// second. The result is the handle of the first edge of this shape on that
    /// curve between those vertices, and where there is none the edge is added
    /// as `add_edge` adds it. Fails, and changes nothing, with
    /// `StructuralMissing` where `source` has not issued a handle inside the
    /// edge, and with `NotOnCarrier` where the merged vertices do not lie on the
    /// curve.
    pub fn merge_edge(&mut self, source: &Shape, edge: &Edge) -> (r: ValidationResult)
        requires
            old(self).wf(),
            source.wf(),
        ensures
            final(self).wf(),
            *final(final(self).shape) == *final(old(self).shape),
            final(self)@.extends(old(self)@),
            old(self)@.valid() ==> final(self)@.valid(),
            old(self)@.carried() ==> final(self)@.carried(),
            match old(self)@.merged_edge(source@, *edge) {
                Ok((shape, handle)) => r == Ok::<Handle, ValidationError>(handle) && final(self)@
                    == shape,
                Err(error) => r == Err::<Handle, ValidationError>(error) && final(self)@ == old(
                    self,
                )@,
            },
    {
        let extent = self.extent();
        let r = self.grow_edge(source, edge);
        if r.is_err() {
            self.rewind(&extent, Ghost(old(self)@));
        }
        r
    }
    /// Adds a cycle, or finds the one that is the same.
    fn settle_cycle(&mut self, cycle: Cycle) -> (r: ValidationResult)
        requires
            old(self).wf(),
        ensures
            final(self).wf(),
            *final(final(self).shape) == *final(old(self).shape),
            final(self)@.extends(old(self)@),
            old(self)@.valid() ==> final(self)@.valid(),
            old(self)@.carried() ==> final(self)@.carried(),
            match old(self)@.settled_cycle(cycle@) {
                Ok((shape, handle)) => r == Ok::<Handle, ValidationError>(handle) && final(self)@
                    == shape,
                Err(error) => r == Err::<Handle, ValidationError>(error) && final(self)@ == old(
                    self,
                )@,
            },
    {
        let found = find_cycle(&*self.shape, &cycle);
        proof {
            self@.lemma_search(found, Kind::Cycle, self@.like_cycle(cycle@));
        }
        match self.add_cycle(cycle) {
            Ok(handle) => Ok(handle),
            Err(ValidationError::TopologicalDuplicate) => Ok(found.unwrap()),
            Err(error) => Err(error),
        }
    }

    /// Adds a face, or finds the one that is the same.
    fn settle_face(&mut self, face: Face) -> (r: ValidationResult)
        requires
            old(self).wf(),
        ensures
            final(self).wf(),
            *final(final(self).shape) == *final(old(self).shape),
            final(self)@.extends(old(self)@),
            old(self)@.valid() ==> final(self)@.valid(),
            old(self)@.carried() ==> final(self)@.carried(),
            match old(self)@.settled_face(face@) {
                Ok((shape, handle)) => r == Ok::<Handle, ValidationError>(handle) && final(self)@
                    == shape,
                Err(error) => r == Err::<Handle, ValidationError>(error) && final(self)@ == old(
                    self,
                )@,
            },
    {
        let found = find_face(&*self.shape, &face);
        proof {
            self@.lemma_search(found, Kind::Face, self@.like_face(face@));
        }
        match self.add_face(face) {
            Ok(handle) => Ok(handle),
            Err(ValidationError::TopologicalDuplicate) => Ok(found.unwrap()),
            Err(error) => Err(error),
        }
    }

    /// Merges a cycle; what it has added stays where the result is an error.
    fn grow_cycle(&mut self, source: &Shape, cycle: &Cycle) -> (r: ValidationResult)
        requires
            old(self).wf(),
            source.wf(),
        ensures
            final(self).wf(),
            *final(final(self).shape) == *final(old(self).shape),
            final(self)@.extends(old(self)@),
            old(self)@.valid() ==> final(self)@.valid(),
            old(self)@.carried() ==> final(self)@.carried(),
            match old(self)@.merged_cycle(source@, cycle@) {
                Ok((shape, handle)) => r == Ok::<Handle, ValidationError>(handle) && final(self)@
                    == shape,
                Err(error) => r == Err::<Handle, ValidationError>(error),
            },
    {
        proof {
            reveal(ShapeView::merged_cycle);
            reveal(ShapeView::merged_edges);
        }
        if !crate::shape::validate::cycle_issued(source, cycle) {
            return Err(ValidationError::StructuralMissing);
        }
        let mut merged: Vec<Handle> = Vec::new();
        let mut i: usize = 0;
        while i < cycle.edges.len()
            invariant
                self.wf(),
                source.wf(),
                source@.cycle_sound(cycle@),
                source.edges@ == source@.edges,
                *final(self.shape) == *final(old(self).shape),
                self@.extends(old(self)@),
                old(self)@.valid() ==> self@.valid(),
                old(self)@.carried() ==> self@.carried(),
                i <= cycle@.len(),
                old(self)@.merged_edges(source@, cycle@, i as nat) == Ok::<
                    (ShapeView, Seq<Handle>),
                    ValidationError,
                >((self@, merged@)),
            decreases cycle@.len() - i,
        {
            let ghost before = self@;
            proof {
                reveal(ShapeView::merged_cycle);
                reveal(ShapeView::merged_edges);
            }
            assert(source@.has(Kind::Edge, cycle@[i as int]));
            let edge = source.edges.at(cycle.edges[i].index);
            match self.grow_edge(source, edge) {
                Ok(handle) => {
                    merged.push(handle);
                    proof {
                        self@.lemma_extends_twice(before, old(self)@);
                    }
                },
                Err(error) => {
                    proof {
                        self@.lemma_extends_twice(before, old(self)@);
                        old(self)@.lemma_merged_edges_failed(
                            source@,
                            cycle@,
                            (i + 1) as nat,
                            cycle@.len(),
                        );
                    }
                    return Err(error);
                },
            }
            i = i + 1;
        }
        let ghost chained = self@;
        let r = self.settle_cycle(Cycle::new(merged));
        proof {
            self@.lemma_extends_twice(chained, old(self)@);
        }
        r
    }

    /// Merges a face; what it has added stays where the result is an error.
    fn grow_face(&mut self, source: &Shape, face: &Face) -> (r: ValidationResult)
        requires
            old(self).wf(),
            source.wf(),
        ensures
            final(self).wf(),
            *final(final(self).shape) == *final(old(self).shape),
            final(self)@.extends(old(self)@),
            old(self)@.valid() ==> final(self)@.valid(),
            old(self)@.carried() ==> final(self)@.carried(),
            match old(self)@.merged_face(source@, face@) {
                Ok((shape, handle)) => r == Ok::<Handle, ValidationError>(handle) && final(self)@
                    == shape,
                Err(error) => r == Err::<Handle, ValidationError>(error),
            },
    {
        proof {
            reveal(ShapeView::merged_face);
            reveal(ShapeView::merged_cycles);
        }
        match face {
            Face::Triangles(_) => self.settle_face(face.duplicate()),
            Face::Face { surface, cycles } => {
                if !crate::shape::validate::face_issued(source, face) {
                    return Err(ValidationError::StructuralMissing);
                }
                let carrier = self.home_surface(*source.surfaces.at(surface.index));
                let ghost homed = self@;
                let mut merged: Vec<Handle> = Vec::new();
                let mut i: usize = 0;
                while i < cycles.len()
                    invariant
                        self.wf(),
                        source.wf(),
                        source@.face_sound(face@),
                        face@ == (FaceView::Face { surface: *surface, cycles: cycles@ }),
                        source.cycles@.len() == source@.cycles.len(),
                        forall|j: int|
                            0 <= j < source@.cycles.len() ==> source.cycles@[j]@
                                == source@.cycles[j],
                        *final(self.shape) == *final(old(self).shape),
                        self@.extends(old(self)@),
                        old(self)@.valid() ==> self@.valid(),
                        old(self)@.carried() ==> self@.carried(),
                        i <= cycles@.len(),
                        (homed, carrier) == old(self)@.homed_surface(
                            source@.surfaces[surface.index as int],
                        ),
                        homed.merged_cycles(source@, cycles@, i as nat) == Ok::<
                            (ShapeView, Seq<Handle>),
                            ValidationError,
                        >((self@, merged@)),
                    decreases cycles@.len() - i,
                {
                    let ghost before = self@;
                    proof {
                        reveal(ShapeView::merged_face);
                        reveal(ShapeView::merged_cycles);
                    }
                    assert(face@->cycles[i as int] == cycles@[i as int]);
                    assert(source@.has(Kind::Cycle, cycles@[i as int]));
                    let cycle = source.cycles.at(cycles[i].index);
                    match self.grow_cycle(source, cycle) {
                        Ok(handle) => {
                            merged.push(handle);
                            proof {
                                self@.lemma_extends_twice(before, old(self)@);
                            }
                        },
                        Err(error) => {
                            proof {
                                self@.lemma_extends_twice(before, old(self)@);
                                homed.lemma_merged_cycles_failed(
                                    source@,
                                    cycles@,
                                    (i + 1) as nat,
                                    cycles@.len(),
                                );
                            }
                            return Err(error);
                        },
                    }
                    i = i + 1;
                }
                let ghost cycled = self@;
                let r = self.settle_face(Face::Face { surface: carrier, cycles: merged });
                proof {
                    self@.lemma_extends_twice(cycled, old(self)@);
                }
                r
            },
        }
    }

    /// Merges a cycle of the shape `source` into this shape.
    ///
    /// The edges of the cycle are merged first, in order, each as `merge_edge`
    /// merges it. The result is the handle of the first cycle of this shape that
    /// is the same as the cycle of the merged edges, and where there is none
    /// the cycle is added as `add_cycle` adds it. Fails, and changes nothing,
    /// with `StructuralMissing` where `source` has not issued a handle inside
    /// the cycle, with the error of the first edge that could not be merged,
    /// and with `NotClosed` where the merged edges do not form a closed chain.
    pub fn merge_cycle(&mut self, source: &Shape, cycle: &Cycle) -> (r: ValidationResult)
        requires
            old(self).wf(),
            source.wf(),
        ensures
            final(self).wf(),
            *final(final(self).shape) == *final(old(self).shape),
            final(self)@.extends(old(self)@),
            old(self)@.valid() ==> final(self)@.valid(),
            old(self)@.carried() ==> final(self)@.carried(),
            match old(self)@.merged_cycle(source@, cycle@) {
                Ok((shape, handle)) => r == Ok::<Handle, ValidationError>(handle) && final(self)@
                    == shape,
                Err(error) => r == Err::<Handle, ValidationError>(error) && final(self)@ == old(
                    self,
                )@,
            },
    {
        let extent = self.extent();
        let r = self.grow_cycle(source, cycle);
        if r.is_err() {
            self.rewind(&extent, Ghost(old(self)@));
        }
        r
    }

    /// Merges a face of the shape `source` into this shape.
    ///
    /// A list of triangles is added as it is. Of a face that is bounded by
    /// cycles the surface is brought in first: the first surface of this shape
    /// that equals it is used again, and where there is none the surface is
    /// added. Then the cycles are merged, in order, each as `merge_cycle`
    /// merges it. The result is the handle of the first face of this shape on
    /// that surface with that set of cycles, and where there is none the face
    /// is added as `add_face` adds it. Fails, and changes nothing, with
    /// `StructuralMissing` where `source` has not issued a handle inside the
    /// face, with the error of the first cycle that could not be merged, and
    /// with `NotOnCarrier` where a curve of the merged cycles does not run in
    /// the surface.
    pub fn merge_face(&mut self, source: &Shape, face: &Face) -> (r: ValidationResult)
        requires
            old(self).wf(),
            source.wf(),
        ensures
            final(self).wf(),
            *final(final(self).shape) == *final(old(self).shape),
            final(self)@.extends(old(self)@),
            old(self)@.valid() ==> final(self)@.valid(),
            old(self)@.carried() ==> final(self)@.carried(),
            match old(self)@.merged_face(source@, face@) {
                Ok((shape, handle)) => r == Ok::<Handle, ValidationError>(handle) && final(self)@
                    == shape,
                Err(error) => r == Err::<Handle, ValidationError>(error) && final(self)@ == old(
                    self,
                )@,
            },
    {
        let extent = self.extent();
        let r = self.grow_face(source, face);
        if r.is_err() {
            self.rewind(&extent, Ghost(old(self)@));
        }
        r
    }
    /// Merges an entity of the shape `source`, with everything that it refers
    /// to, into this shape, and gives the handle under which this shape then
    /// holds it. Where the merge fails, this shape is left as it was.
    pub fn merge<T: TopoObject>(&mut self, source: &Shape, object: &T) -> (r: ValidationResult)
        requires
            old(self).wf(),
            source.wf(),
        ensures
            final(self).wf(),
            *final(final(self).shape) == *final(old(self).shape),
            final(self)@.extends(old(self)@),
            old(self)@.valid() ==> final(self)@.valid(),
            old(self)@.carried() ==> final(self)@.carried(),
            match object.merged(old(self)@, source@) {
                Ok((shape, handle)) => r == Ok::<Handle, ValidationError>(handle) && final(self)@
                    == shape,
                Err(error) => r == Err::<Handle, ValidationError>(error) && final(self)@ == old(
                    self,
                )@,
            },
    {
        object.merge_into(source, self)
    }
}

} // verus!
