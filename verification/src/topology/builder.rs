//! Building a vertex from a point.

use vstd::prelude::*;
use crate::math::Point;
use crate::shape::laws::lemma_extension;
use crate::shape::store::{Handle, Kind};
use crate::shape::validate::nearest_vertex;
use crate::shape::{Shape, ValidationError, ValidationResult};
use crate::topology::Vertex;

verus! {

/// Builds a vertex in a shape from the location at which it is to lie.
pub struct VertexBuilder<'r> {
    /// The shape in which the vertex is built.
    pub shape: &'r mut Shape,
}

impl Vertex {
    /// A builder of vertices in `shape`.
    pub fn builder(shape: &mut Shape) -> (r: VertexBuilder<'_>)
        ensures
            *r.shape == *old(shape),
            *final(shape) == *final(r.shape),
    {
        VertexBuilder { shape }
    }
}

impl<'r> VertexBuilder<'r> {
    /// Adds `point` to the shape and a vertex at it, and gives the handle of
    /// the vertex. Fails with `GeometricDuplicate`, and adds nothing, where a
    /// vertex of the shape is closer to `point` than the minimum distance.
    pub fn from_point(self, point: Point) -> (r: ValidationResult)
        requires
            self.shape.wf(),
        ensures
            final(self.shape).wf(),
            old(self.shape)@.valid() ==> final(self.shape)@.valid(),
            old(self.shape)@.carried() ==> final(self.shape)@.carried(),
            match r {
                Ok(handle) => {
                    &&& !old(self.shape)@.crowded(point)
                    &&& final(self.shape)@ == old(self.shape)@.with_point(point).with_vertex(
                        Vertex {
                            point: old(self.shape)@.handle(Kind::Point, old(self.shape)@.points.len() as int),
                        },
                    )
                    &&& handle == old(self.shape)@.handle(
                        Kind::Vertex,
                        old(self.shape)@.vertices.len() as int,
                    )
                },
                Err(error) => {
                    &&& error == ValidationError::GeometricDuplicate
                    &&& old(self.shape)@.crowded(point)
                    &&& final(self.shape)@ == old(self.shape)@
                },
            },
    {
        let ghost before = self.shape@;
        if nearest_vertex(&*self.shape, &point).is_some() {
            return Err(ValidationError::GeometricDuplicate);
        }
        let handle: Handle = self.shape.geometry().add_point(point);
        proof {
            let homed = self.shape@;
            lemma_extension(before, homed);
            assert forall|i: int| 0 <= i < homed.vertices.len() implies !#[trigger] homed.vertex_near(
                point,
                i,
            ) by {
                assert(!before.vertex_near(point, i));
                assert(homed.vertex_point_at(i) == before.vertex_point_at(i));
            }
            assert(homed.points[handle.index as int] == point);
            assert(homed.vertex_sound(Vertex { point: handle }));
            assert(!homed.crowded(point));
            assert(homed.vertex_verdict(Vertex { point: handle }).is_none());
        }
        self.shape.topology().add_vertex(Vertex { point: handle })
    }
}

} // verus!
