//! The topology facet of a shape.

use vstd::prelude::*;
use crate::shape::laws::{
    lemma_cycle_added, lemma_edge_added, lemma_face_added, lemma_grown_sound, lemma_vertex_added,
};
use crate::shape::store::{Handle, Iter, Kind};
use crate::shape::validate::{
    cycle_closed, cycle_issued, edge_issued, edge_on_curve, face_issued, face_on_surface,
    find_cycle, find_edge, find_face, nearest_vertex, normalize, vertex_issued,
};
use crate::shape::{Shape, ShapeView, ValidationError, ValidationResult};
use crate::topology::{Cycle, Edge, Face, Vertex};

verus! {

/// Access to the topology of a shape: its vertices, edges, cycles and faces.
///
/// Topology refers to geometry and to other topology by handle. Whatever is
/// added is validated first, and is either added whole or not at all: a call
/// that fails leaves the shape as it was.
pub struct Topology<'r> {
    /// The shape that this facet gives access to.
    pub shape: &'r mut Shape,
}

impl<'r> View for Topology<'r> {
    type V = ShapeView;

    open spec fn view(&self) -> ShapeView {
        self.shape@
    }
}

impl<'r> Topology<'r> {
    /// The invariant of the shape behind the facet.
    pub open spec fn wf(&self) -> bool {
        self.shape.wf()
    }

    /// Adds a vertex to the shape.
    ///
    /// Fails with `StructuralMissing` where the shape has not issued the handle
    /// of the point, and with `GeometricDuplicate` where the point is closer
    /// than the minimum distance to the point of a vertex of the shape.
    pub fn add_vertex(&mut self, vertex: Vertex) -> (r: ValidationResult)
        requires
            old(self).wf(),
        ensures
            final(self).wf(),
            *final(final(self).shape) == *final(old(self).shape),
            old(self)@.valid() ==> final(self)@.valid(),
            old(self)@.carried() ==> final(self)@.carried(),
            match r {
                Ok(handle) => {
                    &&& old(self)@.vertex_verdict(vertex).is_none()
                    &&& final(self)@ == (ShapeView {
                        vertices: old(self)@.vertices.push(vertex),
                        ..old(self)@
                    })
                    &&& handle == old(self)@.handle(Kind::Vertex, old(self)@.vertices.len() as int)
                },
                Err(error) => {
                    &&& old(self)@.vertex_verdict(vertex) == Some(error)
                    &&& final(self)@ == old(self)@
                },
            },
    {
        if !vertex_issued(&*self.shape, &vertex) {
            return Err(ValidationError::StructuralMissing);
        }
        let point = *self.shape.points.at(vertex.point.index);
        if nearest_vertex(&*self.shape, &point).is_some() {
            return Err(ValidationError::GeometricDuplicate);
        }
        let handle = self.shape.vertices.insert(vertex);
        proof {
            lemma_grown_sound(old(self)@, self@);
            lemma_vertex_added(old(self)@, vertex);
        }
        Ok(handle)
    }

    /// Adds an edge to the shape.
    ///
    /// Fails with `StructuralMissing` where the shape has not issued the handle
    /// of the curve or of a vertex, with `TopologicalDuplicate` where the shape
    /// holds an edge on the same curve between the same vertices, and with
    /// `NotOnCarrier` where the edge has two vertices and one of them is not
    /// closer to the curve than the minimum distance.
    pub fn add_edge(&mut self, edge: Edge) -> (r: ValidationResult)
        requires
            old(self).wf(),
        ensures
            final(self).wf(),
            *final(final(self).shape) == *final(old(self).shape),
            old(self)@.valid() ==> final(self)@.valid(),
            old(self)@.carried() ==> final(self)@.carried(),
            match r {
                Ok(handle) => {
                    &&& old(self)@.edge_verdict(edge).is_none()
                    &&& final(self)@ == (ShapeView {
                        edges: old(self)@.edges.push(edge),
                        ..old(self)@
                    })
                    &&& handle == old(self)@.handle(Kind::Edge, old(self)@.edges.len() as int)
                },
                Err(error) => {
                    &&& old(self)@.edge_verdict(edge) == Some(error)
                    &&& final(self)@ == old(self)@
                },
            },
    {
        if !edge_issued(&*self.shape, &edge) {
            return Err(ValidationError::StructuralMissing);
        }
        if find_edge(&*self.shape, &edge).is_some() {
            return Err(ValidationError::TopologicalDuplicate);
        }
        if !edge_on_curve(&*self.shape, &edge) {
            return Err(ValidationError::NotOnCarrier);
        }
        let handle = self.shape.edges.insert(edge);
        proof {
            lemma_grown_sound(old(self)@, self@);
            lemma_edge_added(old(self)@, edge);
        }
        Ok(handle)
    }

    /// Adds a cycle to the shape, in its normal form: begun at the first of its
    /// least edge handles, and run in the direction in which the vertices that
    /// it runs through come first in the order of the dictionary.
    ///
    /// Fails with `StructuralMissing` where the shape has not issued the handle
    /// of an edge, with `NotClosed` where the edges do not form a closed chain,
    /// and with `TopologicalDuplicate` where the shape holds the same cycle,
    /// begun at whichever edge and run in whichever direction.
    pub fn add_cycle(&mut self, cycle: Cycle) -> (r: ValidationResult)
        requires
            old(self).wf(),
        ensures
            final(self).wf(),
            *final(final(self).shape) == *final(old(self).shape),
            old(self)@.valid() ==> final(self)@.valid(),
            old(self)@.carried() ==> final(self)@.carried(),
            match r {
                Ok(handle) => {
                    &&& old(self)@.cycle_verdict(cycle@).is_none()
                    &&& final(self)@ == (ShapeView {
                        cycles: old(self)@.cycles.push(old(self)@.normalized(cycle@)),
                        ..old(self)@
                    })
                    &&& handle == old(self)@.handle(Kind::Cycle, old(self)@.cycles.len() as int)
                },
                Err(error) => {
                    &&& old(self)@.cycle_verdict(cycle@) == Some(error)
                    &&& final(self)@ == old(self)@
                },
            },
    {
        if !cycle_issued(&*self.shape, &cycle) {
            return Err(ValidationError::StructuralMissing);
        }
        if !cycle_closed(&*self.shape, &cycle) {
            return Err(ValidationError::NotClosed);
        }
        if find_cycle(&*self.shape, &cycle).is_some() {
            return Err(ValidationError::TopologicalDuplicate);
        }
        let ghost given = cycle@;
        let normal = normalize(&*self.shape, &cycle);
        let handle = self.shape.cycles.insert(normal);
        proof {
            assert(self@.cycles =~= old(self)@.cycles.push(old(self)@.normalized(given)));
            assert(self@.faces =~= old(self)@.faces);
            lemma_cycle_added(old(self)@, given);
        }
        Ok(handle)
    }

    /// Adds a face to the shape.
    ///
    /// A list of triangles refers to nothing and is always added. A face that
    /// is bounded by cycles fails with `StructuralMissing` where the shape has
    /// not issued the handle of the surface or of a cycle, with `NotOnCarrier`
    /// where the curve of an edge of one of the cycles does not run in the
    /// surface, and with `TopologicalDuplicate` where the shape holds a face on
    /// the same surface with the same set of cycles.
    pub fn add_face(&mut self, face: Face) -> (r: ValidationResult)
        requires
            old(self).wf(),
        ensures
            final(self).wf(),
            *final(final(self).shape) == *final(old(self).shape),
            old(self)@.valid() ==> final(self)@.valid(),
            old(self)@.carried() ==> final(self)@.carried(),
            match r {
                Ok(handle) => {
                    &&& old(self)@.face_verdict(face@).is_none()
                    &&& final(self)@ == (ShapeView {
                        faces: old(self)@.faces.push(face@),
                        ..old(self)@
                    })
                    &&& handle == old(self)@.handle(Kind::Face, old(self)@.faces.len() as int)
                },
                Err(error) => {
                    &&& old(self)@.face_verdict(face@) == Some(error)
                    &&& final(self)@ == old(self)@
                },
            },
    {
        if !face_issued(&*self.shape, &face) {
            return Err(ValidationError::StructuralMissing);
        }
        if !face_on_surface(&*self.shape, &face) {
            return Err(ValidationError::NotOnCarrier);
        }
        if find_face(&*self.shape, &face).is_some() {
            return Err(ValidationError::TopologicalDuplicate);
        }
        let ghost added = face@;
        let handle = self.shape.faces.insert(face);
        proof {
            assert(self@.faces =~= old(self)@.faces.push(added));
            assert(self@.cycles =~= old(self)@.cycles);
            lemma_grown_sound(old(self)@, self@);
            lemma_face_added(old(self)@, added);
        }
        Ok(handle)
    }

    /// A pass over all vertices, each with its handle.
    pub fn vertices(&self) -> (r: Iter<'_, Vertex>)
        requires
            self.wf(),
        ensures
            r.store()@ == self@.vertices,
            r.store().shape() == self@.identity,
            r.store().kind() == Kind::Vertex,
            r.position() == 0,
    {
        self.shape.vertices.iter()
    }

    /// A pass over all edges, each with its handle.
    pub fn edges(&self) -> (r: Iter<'_, Edge>)
        requires
            self.wf(),
        ensures
            r.store()@ == self@.edges,
            r.store().shape() == self@.identity,
            r.store().kind() == Kind::Edge,
            r.position() == 0,
    {
        self.shape.edges.iter()
    }

    /// A pass over all cycles, each with its handle.
    pub fn cycles(&self) -> (r: Iter<'_, Cycle>)
        requires
            self.wf(),
        ensures
            crate::shape::cycle_views(r.store()@) == self@.cycles,
            r.store().shape() == self@.identity,
            r.store().kind() == Kind::Cycle,
            r.position() == 0,
    {
        self.shape.cycles.iter()
    }

    /// A pass over all faces, each with its handle.
    pub fn faces(&self) -> (r: Iter<'_, Face>)
        requires
            self.wf(),
        ensures
            crate::shape::face_views(r.store()@) == self@.faces,
            r.store().shape() == self@.identity,
            r.store().kind() == Kind::Face,
            r.position() == 0,
    {
        self.shape.faces.iter()
    }

    /// The vertex that `handle` addresses, or `None` where this shape has
    /// issued no such handle for a vertex.
    pub fn vertex(&self, handle: &Handle) -> (r: Option<Vertex>)
        requires
            self.wf(),
        ensures
            r.is_some() == self@.has(Kind::Vertex, *handle),
            r.is_some() ==> r.unwrap() == self@.vertices[handle.index as int],
    {
        match self.shape.vertices.get(handle) {
            Some(vertex) => Some(*vertex),
            None => None,
        }
    }

    /// The edge that `handle` addresses, or `None` where this shape has issued
    /// no such handle for an edge.
    pub fn edge(&self, handle: &Handle) -> (r: Option<Edge>)
        requires
            self.wf(),
        ensures
            r.is_some() == self@.has(Kind::Edge, *handle),
            r.is_some() ==> r.unwrap() == self@.edges[handle.index as int],
    {
        match self.shape.edges.get(handle) {
            Some(edge) => Some(*edge),
            None => None,
        }
    }

    /// A copy of the cycle that `handle` addresses, or `None` where this shape
    /// has issued no such handle for a cycle.
    pub fn cycle(&self, handle: &Handle) -> (r: Option<Cycle>)
        requires
            self.wf(),
        ensures
            r.is_some() == self@.has(Kind::Cycle, *handle),
            r.is_some() ==> r.unwrap()@ == self@.cycles[handle.index as int],
    {
        match self.shape.cycles.get(handle) {
            Some(cycle) => Some(cycle.duplicate()),
            None => None,
        }
    }

    /// A copy of the face that `handle` addresses, or `None` where this shape
    /// has issued no such handle for a face.
    pub fn face(&self, handle: &Handle) -> (r: Option<Face>)
        requires
            self.wf(),
        ensures
            r.is_some() == self@.has(Kind::Face, *handle),
            r.is_some() ==> r.unwrap()@ == self@.faces[handle.index as int],
    {
        match self.shape.faces.get(handle) {
            Some(face) => Some(face.duplicate()),
            None => None,
        }
    }
}

} // verus!
