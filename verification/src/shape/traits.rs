//! The closed families of entities: the kinds of geometry and of topology.

pub mod geo;
pub mod topo;

use vstd::prelude::*;
use crate::geometry::{Curve, Surface};
use crate::math::Point;
use crate::shape::merge::Merged;
use crate::shape::store::{Handle, Kind, Store};
use crate::shape::topology::Topology;
use crate::shape::{Shape, ShapeView, ValidationError, ValidationResult};
use crate::topology::{Cycle, Edge, Face, Vertex};

verus! {

/// The kinds of geometry that a shape stores: points, curves and surfaces.
///
/// The family is closed. An entity of one of these kinds refers to no other
/// entity, and a shape may hold equal ones any number of times.
pub trait GeoObject: Sized + geo::Sealed {
    /// The kind under which shapes store these entities.
    spec fn kind() -> Kind;

    /// The entities of this kind that a shape holds, in the order of insertion.
    spec fn among(shape: ShapeView) -> Seq<Self>;

    /// The store in which a shape keeps the entities of this kind.
    fn store(shape: &Shape) -> (r: &Store<Self>)
        requires
            shape.wf(),
        ensures
            r@ == Self::among(shape@),
            r.shape() == shape@.identity,
            r.kind() == Self::kind(),
    ;

    /// Whether two values describe the same entity: equal points, the same
    /// curve, the same surface.
    spec fn alike(self, other: Self) -> bool;

    /// Decides `alike`.
    fn same(&self, other: &Self) -> (r: bool)
        ensures
            r == self.alike(*other),
    ;
}

impl geo::Sealed for Point {
}

impl geo::Sealed for Curve {
}

impl geo::Sealed for Surface {
}

impl GeoObject for Point {
    open spec fn kind() -> Kind {
        Kind::Point
    }

    open spec fn among(shape: ShapeView) -> Seq<Point> {
        shape.points
    }

    fn store(shape: &Shape) -> (r: &Store<Point>) {
        &shape.points
    }

    open spec fn alike(self, other: Point) -> bool {
        self == other
    }

    fn same(&self, other: &Point) -> (r: bool) {
        *self == *other
    }
}

impl GeoObject for Curve {
    open spec fn kind() -> Kind {
        Kind::Curve
    }

    open spec fn among(shape: ShapeView) -> Seq<Curve> {
        shape.curves
    }

    fn store(shape: &Shape) -> (r: &Store<Curve>) {
        &shape.curves
    }

    open spec fn alike(self, other: Curve) -> bool {
        self.same(other)
    }

    fn same(&self, other: &Curve) -> (r: bool) {
        self.matches(other)
    }
}

impl GeoObject for Surface {
    open spec fn kind() -> Kind {
        Kind::Surface
    }

    open spec fn among(shape: ShapeView) -> Seq<Surface> {
        shape.surfaces
    }

    fn store(shape: &Shape) -> (r: &Store<Surface>) {
        &shape.surfaces
    }

    open spec fn alike(self, other: Surface) -> bool {
        self.same(other)
    }

    fn same(&self, other: &Surface) -> (r: bool) {
        self.matches(other)
    }
}

/// The kinds of topology that a shape stores: vertices, edges, cycles and faces.
///
/// The family is closed. An entity of one of these kinds refers to others by
/// handle, and can be merged from the shape that holds it into another.
pub trait TopoObject: Sized + topo::Sealed {
    /// The outcome of merging this entity of the shape `source` into the shape
    /// `target`.
    spec fn merged(&self, target: ShapeView, source: ShapeView) -> Merged;

    /// Merges this entity of the shape `source` into the shape behind
    /// `topology`. `Topology::merge` does the same.
    fn merge_into(&self, source: &Shape, topology: &mut Topology) -> (r: ValidationResult)
        requires
            old(topology).wf(),
            source.wf(),
        ensures
            final(topology).wf(),
            *final(final(topology).shape) == *final(old(topology).shape),
            final(topology)@.extends(old(topology)@),
            old(topology)@.valid() ==> final(topology)@.valid(),
            old(topology)@.carried() ==> final(topology)@.carried(),
            match self.merged(old(topology)@, source@) {
                Ok((shape, handle)) => {
                    &&& r == Ok::<Handle, ValidationError>(handle)
                    &&& final(topology)@ == shape
                },
                Err(error) => {
                    &&& r == Err::<Handle, ValidationError>(error)
                    &&& final(topology)@ == old(topology)@
                },
            },
    ;
}

impl topo::Sealed for Vertex {
}

impl topo::Sealed for Edge {
}

impl topo::Sealed for Cycle {
}

impl topo::Sealed for Face {
}

impl TopoObject for Vertex {
    open spec fn merged(&self, target: ShapeView, source: ShapeView) -> Merged {
        target.merged_vertex(source, *self)
    }

    fn merge_into(&self, source: &Shape, topology: &mut Topology) -> (r: ValidationResult) {
        topology.merge_vertex(source, self)
    }
}

impl TopoObject for Edge {
    open spec fn merged(&self, target: ShapeView, source: ShapeView) -> Merged {
        target.merged_edge(source, *self)
    }

    fn merge_into(&self, source: &Shape, topology: &mut Topology) -> (r: ValidationResult) {
        topology.merge_edge(source, self)
    }
}

impl TopoObject for Cycle {
    open spec fn merged(&self, target: ShapeView, source: ShapeView) -> Merged {
        target.merged_cycle(source, self@)
    }

    fn merge_into(&self, source: &Shape, topology: &mut Topology) -> (r: ValidationResult) {
        topology.merge_cycle(source, self)
    }
}

impl TopoObject for Face {
    open spec fn merged(&self, target: ShapeView, source: ShapeView) -> Merged {
        target.merged_face(source, self@)
    }

    fn merge_into(&self, source: &Shape, topology: &mut Topology) -> (r: ValidationResult) {
        topology.merge_face(source, self)
    }
}

} // verus!
