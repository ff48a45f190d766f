//! The geometry facet of a shape.

use vstd::prelude::*;
use crate::geometry::{Curve, Surface};
use crate::math::{Point, Transform};
use crate::shape::laws::{lemma_geometry_added, lemma_moved};
use crate::shape::store::{Handle, Iter, Kind, Store};
use crate::shape::traits::GeoObject;
use crate::shape::{face_views, Shape, ShapeView};
use crate::topology::Face;

verus! {

/// Access to the geometry of a shape: its points, curves and surfaces.
///
/// Geometry refers to no other entity, and a shape may hold equal geometry any
/// number of times, so nothing is validated and adding geometry cannot fail.
pub struct Geometry<'r> {
    /// The shape that this facet gives access to.
    pub shape: &'r mut Shape,
}

impl<'r> View for Geometry<'r> {
    type V = ShapeView;

    open spec fn view(&self) -> ShapeView {
        self.shape@
    }
}

impl<'r> Geometry<'r> {
    /// The invariant of the shape behind the facet.
    pub open spec fn wf(&self) -> bool {
        self.shape.wf()
    }

    /// Adds a point to the shape.
    pub fn add_point(&mut self, point: Point) -> (r: Handle)
        requires
            old(self).wf(),
        ensures
            final(self).wf(),
            final(self)@ == (ShapeView { points: old(self)@.points.push(point), ..old(self)@ }),
            r == old(self)@.handle(Kind::Point, old(self)@.points.len() as int),
            *final(final(self).shape) == *final(old(self).shape),
            old(self)@.valid() ==> final(self)@.valid(),
            old(self)@.carried() ==> final(self)@.carried(),
    {
        let handle = self.shape.points.insert(point);
        proof {
            lemma_geometry_added(old(self)@, self@);
        }
        handle
    }

    /// Adds a curve to the shape.
    pub fn add_curve(&mut self, curve: Curve) -> (r: Handle)
        requires
            old(self).wf(),
        ensures
            final(self).wf(),
            final(self)@ == (ShapeView { curves: old(self)@.curves.push(curve), ..old(self)@ }),
            r == old(self)@.handle(Kind::Curve, old(self)@.curves.len() as int),
            *final(final(self).shape) == *final(old(self).shape),
            old(self)@.valid() ==> final(self)@.valid(),
            old(self)@.carried() ==> final(self)@.carried(),
    {
        let handle = self.shape.curves.insert(curve);
        proof {
            lemma_geometry_added(old(self)@, self@);
        }
        handle
    }

    /// Adds a surface to the shape.
    pub fn add_surface(&mut self, surface: Surface) -> (r: Handle)
        requires
            old(self).wf(),
        ensures
            final(self).wf(),
            final(self)@ == (ShapeView {
                surfaces: old(self)@.surfaces.push(surface),
                ..old(self)@
            }),
            r == old(self)@.handle(Kind::Surface, old(self)@.surfaces.len() as int),
            *final(final(self).shape) == *final(old(self).shape),
            old(self)@.valid() ==> final(self)@.valid(),
            old(self)@.carried() ==> final(self)@.carried(),
    {
        let handle = self.shape.surfaces.insert(surface);
        proof {
            lemma_geometry_added(old(self)@, self@);
        }
        handle
    }

    /// A pass over all points, each with its handle.
    pub fn points(&self) -> (r: Iter<'_, Point>)
        requires
            self.wf(),
        ensures
            r.store()@ == self@.points,
            r.store().shape() == self@.identity,
            r.store().kind() == Kind::Point,
            r.position() == 0,
    {
        self.shape.points.iter()
    }

    /// A pass over all curves, each with its handle.
    pub fn curves(&self) -> (r: Iter<'_, Curve>)
        requires
            self.wf(),
        ensures
            r.store()@ == self@.curves,
            r.store().shape() == self@.identity,
            r.store().kind() == Kind::Curve,
            r.position() == 0,
    {
        self.shape.curves.iter()
    }

    /// A pass over all surfaces, each with its handle.
    pub fn surfaces(&self) -> (r: Iter<'_, Surface>)
        requires
            self.wf(),
        ensures
            r.store()@ == self@.surfaces,
            r.store().shape() == self@.identity,
            r.store().kind() == Kind::Surface,
            r.position() == 0,
    {
        self.shape.surfaces.iter()
    }

    /// The point that `handle` addresses, or `None` where this shape has issued
    /// no such handle for a point.
    pub fn point(&self, handle: &Handle) -> (r: Option<Point>)
        requires
            self.wf(),
        ensures
            r.is_some() == self@.has(Kind::Point, *handle),
            r.is_some() ==> r.unwrap() == self@.points[handle.index as int],
    {
        match self.shape.points.get(handle) {
            Some(point) => Some(*point),
            None => None,
        }
    }

    /// The curve that `handle` addresses, or `None` where this shape has issued
    /// no such handle for a curve.
    pub fn curve(&self, handle: &Handle) -> (r: Option<Curve>)
        requires
            self.wf(),
        ensures
            r.is_some() == self@.has(Kind::Curve, *handle),
            r.is_some() ==> r.unwrap() == self@.curves[handle.index as int],
    {
        match self.shape.curves.get(handle) {
            Some(curve) => Some(*curve),
            None => None,
        }
    }

    /// The surface that `handle` addresses, or `None` where this shape has
    /// issued no such handle for a surface.
    pub fn surface(&self, handle: &Handle) -> (r: Option<Surface>)
        requires
            self.wf(),
        ensures
            r.is_some() == self@.has(Kind::Surface, *handle),
            r.is_some() ==> r.unwrap() == self@.surfaces[handle.index as int],
    {
        match self.shape.surfaces.get(handle) {
            Some(surface) => Some(*surface),
            None => None,
        }
    }

    /// Moves the whole shape: every point, curve and surface, and every
    /// triangle of a face that is a list of triangles, is replaced by its image
    /// under `t`. Topology refers to geometry by handle and holds none itself,
    /// so it is untouched, and every handle addresses what it addressed.
    ///
    /// The move is made as a whole or not at all: where the image of some
    /// payload has a coordinate outside the grid, nothing changes and the
    /// result is `false`.
    pub fn transform(&mut self, t: &Transform) -> (done: bool)
        requires
            old(self).wf(),
        ensures
            final(self).wf(),
            done == old(self)@.admits(*t),
            done ==> final(self)@ == old(self)@.image(*t),
            !done ==> final(self)@ == old(self)@,
            *final(final(self).shape) == *final(old(self).shape),
            old(self)@.valid() ==> final(self)@.valid(),
            old(self)@.carried() ==> final(self)@.carried(),
    {
        let points = moved_points(&self.shape.points, t);
        let curves = moved_curves(&self.shape.curves, t);
        let surfaces = moved_surfaces(&self.shape.surfaces, t);
        let faces = moved_faces(&self.shape.faces, t);
        proof {
            let before = self@;
            assert(before.points == self.shape.points@);
            assert(before.curves == self.shape.curves@);
            assert(before.surfaces == self.shape.surfaces@);
            assert(before.faces == face_views(self.shape.faces@));
            assert(points.is_some() == (forall|i: int|
                0 <= i < before.points.len() ==> t.maps_point(#[trigger] before.points[i])));
            assert(curves.is_some() == (forall|i: int|
                0 <= i < before.curves.len() ==> (#[trigger] before.curves[i]).maps(*t)));
            assert(surfaces.is_some() == (forall|i: int|
                0 <= i < before.surfaces.len() ==> (#[trigger] before.surfaces[i]).maps(*t)));
            assert(faces.is_some() == (forall|i: int|
                0 <= i < before.faces.len() ==> (#[trigger] before.faces[i]).maps(*t)));
        }
        match (points, curves, surfaces, faces) {
            (Some(points), Some(curves), Some(surfaces), Some(faces)) => {
                self.shape.points.replace_all(points);
                self.shape.curves.replace_all(curves);
                self.shape.surfaces.replace_all(surfaces);
                self.shape.faces.replace_all(faces);
                proof {
                    let before = old(self)@;
                    let after = self@;
                    lemma_moved(before, *t);
                    assert(after.faces =~= before.image(*t).faces);
                    assert(after.cycles =~= before.cycles);
                }
                true
            },
            _ => false,
        }
    }

    /// The handle of the first entity of the shape that is the same as
    /// `object`, or `None` where the shape holds no such entity.
    pub fn handle_for<T: GeoObject>(&self, object: &T) -> (r: Option<Handle>)
        requires
            self.wf(),
        ensures
            match r {
                Some(handle) => {
                    &&& handle == self@.handle(T::kind(), handle.index as int)
                    &&& handle.index < T::among(self@).len()
                    &&& T::among(self@)[handle.index as int].alike(*object)
                    &&& forall|i: int|
                        0 <= i < handle.index ==> !(#[trigger] T::among(self@)[i]).alike(*object)
                },
                None => forall|i: int|
                    0 <= i < T::among(self@).len() ==> !(#[trigger] T::among(self@)[i]).alike(
                        *object,
                    ),
            },
    {
        let store = T::store(&*self.shape);
        let mut i: usize = 0;
        while i < store.len()
            invariant
                i <= store@.len(),
                store@ == T::among(self@),
                store.shape() == self@.identity,
                store.kind() == T::kind(),
                forall|j: int| 0 <= j < i ==> !(#[trigger] store@[j]).alike(*object),
            decreases store@.len() - i,
        {
            if store.at(i).same(object) {
                return Some(store.handle(i));
            }
            i = i + 1;
        }
        None
    }
}

/// The images of all points of a store, or `None` where one cannot be stored.
fn moved_points(store: &Store<Point>, t: &Transform) -> (r: Option<Vec<Point>>)
    ensures
        r.is_some() == (forall|i: int| 0 <= i < store@.len() ==> t.maps_point(#[trigger] store@[i])),
        r.is_some() ==> r.unwrap()@ == Seq::new(store@.len(), |i: int| t.point_image(store@[i])),
{
    let mut out: Vec<Point> = Vec::new();
    let mut i: usize = 0;
    while i < store.len()
        invariant
            i <= store@.len(),
            out@.len() == i,
            forall|j: int| 0 <= j < i ==> t.maps_point(#[trigger] store@[j]),
            forall|j: int| 0 <= j < i ==> out@[j] == t.point_image(store@[j]),
        decreases store@.len() - i,
    {
        match t.try_point(store.at(i)) {
            Some(moved) => {
                out.push(moved);
            },
            None => {
                assert(!t.maps_point(store@[i as int]));
                return None;
            },
        }
        i = i + 1;
    }
    assert(out@ =~= Seq::new(store@.len(), |i: int| t.point_image(store@[i])));
    Some(out)
}

/// The images of all curves of a store, or `None` where one cannot be stored.
fn moved_curves(store: &Store<Curve>, t: &Transform) -> (r: Option<Vec<Curve>>)
    ensures
        r.is_some() == (forall|i: int| 0 <= i < store@.len() ==> (#[trigger] store@[i]).maps(*t)),
        r.is_some() ==> r.unwrap()@ == Seq::new(store@.len(), |i: int| store@[i].image(*t)),
{
    let mut out: Vec<Curve> = Vec::new();
    let mut i: usize = 0;
    while i < store.len()
        invariant
            i <= store@.len(),
            out@.len() == i,
            forall|j: int| 0 <= j < i ==> (#[trigger] store@[j]).maps(*t),
            forall|j: int| 0 <= j < i ==> out@[j] == store@[j].image(*t),
        decreases store@.len() - i,
    {
        match store.at(i).transform(t) {
            Some(moved) => {
                out.push(moved);
            },
            None => {
                assert(!store@[i as int].maps(*t));
                return None;
            },
        }
        i = i + 1;
    }
    assert(out@ =~= Seq::new(store@.len(), |i: int| store@[i].image(*t)));
    Some(out)
}

/// The images of all surfaces of a store, or `None` where one cannot be stored.
fn moved_surfaces(store: &Store<Surface>, t: &Transform) -> (r: Option<Vec<Surface>>)
    ensures
        r.is_some() == (forall|i: int| 0 <= i < store@.len() ==> (#[trigger] store@[i]).maps(*t)),
        r.is_some() ==> r.unwrap()@ == Seq::new(store@.len(), |i: int| store@[i].image(*t)),
{
    let mut out: Vec<Surface> = Vec::new();
    let mut i: usize = 0;
    while i < store.len()
        invariant
            i <= store@.len(),
            out@.len() == i,
            forall|j: int| 0 <= j < i ==> (#[trigger] store@[j]).maps(*t),
            forall|j: int| 0 <= j < i ==> out@[j] == store@[j].image(*t),
        decreases store@.len() - i,
    {
        match store.at(i).transform(t) {
            Some(moved) => {
                out.push(moved);
            },
            None => {
                assert(!store@[i as int].maps(*t));
                return None;
            },
        }
        i = i + 1;
    }
    assert(out@ =~= Seq::new(store@.len(), |i: int| store@[i].image(*t)));
    Some(out)
}

/// The images of all faces of a store, or `None` where one cannot be stored.
fn moved_faces(store: &Store<Face>, t: &Transform) -> (r: Option<Vec<Face>>)
    ensures
        r.is_some() == (forall|i: int|
            0 <= i < store@.len() ==> (#[trigger] face_views(store@)[i]).maps(*t)),
        r.is_some() ==> r.unwrap()@.len() == store@.len(),
        r.is_some() ==> face_views(r.unwrap()@) == Seq::new(
            store@.len(),
            |i: int| face_views(store@)[i].image(*t),
        ),
{
    let mut out: Vec<Face> = Vec::new();
    let mut i: usize = 0;
    while i < store.len()
        invariant
            i <= store@.len(),
            out@.len() == i,
            forall|j: int| 0 <= j < i ==> (#[trigger] face_views(store@)[j]).maps(*t),
            forall|j: int| 0 <= j < i ==> (#[trigger] out@[j])@ == store@[j]@.image(*t),
        decreases store@.len() - i,
    {
        match store.at(i).transform(t) {
            Some(moved) => {
                out.push(moved);
            },
            None => {
                assert(!face_views(store@)[i as int].maps(*t));
                return None;
            },
        }
        i = i + 1;
    }
    assert(face_views(out@) =~= Seq::new(
        store@.len(),
        |i: int| face_views(store@)[i].image(*t),
    ));
    Some(out)
}

} // verus!
