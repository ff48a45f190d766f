//! Merging twice is merging once: what a merge has brought into a shape is
//! found again by every later merge of the same entity.

use vstd::prelude::*;
use crate::geometry::{Curve, Surface};
use crate::math::Point;
use crate::shape::laws::{
    lemma_closed_kept, lemma_cycle_added, lemma_extension, lemma_grown_sound, lemma_normalized,
};
use crate::shape::store::{Handle, Kind};
use crate::shape::validate::first_such;
use crate::shape::{ShapeView, ValidationError};
use crate::topology::{same_cycle, Edge, Ends, FaceView, Vertex};

verus! {

/// A shape of which an extension can be counted can be counted.
proof fn lemma_countable_below(s: ShapeView, t: ShapeView)
    requires
        t.extends(s),
        t.countable(),
    ensures
        s.countable(),
{
}

/// The first position at which a property holds is still the first among more
/// positions, for a property that agrees with it on the earlier ones.
proof fn lemma_first_kept(
    n: nat,
    m: nat,
    f: spec_fn(int) -> bool,
    g: spec_fn(int) -> bool,
    i: int,
)
    requires
        first_such(n, f, i),
        n <= m,
        forall|j: int| 0 <= j < n ==> f(j) == #[trigger] g(j),
    ensures
        first_such(m, g, i),
{
    assert(g(i));
    assert forall|j: int| 0 <= j < i implies !#[trigger] g(j) by {
        assert(!f(j));
    }
}

/// What a search has found in a shape, it finds in every extension of the
/// shape, for a property that agrees on the entities of the shape.
proof fn lemma_search_kept(
    s: ShapeView,
    t: ShapeView,
    kind: Kind,
    f: spec_fn(int) -> bool,
    g: spec_fn(int) -> bool,
    i: int,
)
    requires
        t.extends(s),
        t.fit(),
        first_such(s.count(kind), f, i),
        forall|j: int| 0 <= j < s.count(kind) ==> f(j) == #[trigger] g(j),
    ensures
        t.search(kind, g) == Some(s.handle(kind, i)),
        s.search(kind, f) == Some(s.handle(kind, i)),
{
    assert(s.count(kind) <= t.count(kind));
    assert(t.count(kind) <= usize::MAX);
    lemma_first_kept(s.count(kind), t.count(kind), f, g, i);
    t.lemma_search(Some(t.handle(kind, i)), kind, g);
    s.lemma_search(Some(s.handle(kind, i)), kind, f);
}

/// What `search` names is the first position at which the property holds.
proof fn lemma_search_found(s: ShapeView, kind: Kind, f: spec_fn(int) -> bool)
    requires
        s.search(kind, f).is_some(),
        s.count(kind) <= usize::MAX,
    ensures
        first_such(s.count(kind), f, s.search(kind, f).unwrap().index as int),
        s.search(kind, f).unwrap() == s.handle(kind, s.search(kind, f).unwrap().index as int),
{
}

/// Where `search` names nothing, the property holds nowhere.
proof fn lemma_search_missed(s: ShapeView, kind: Kind, f: spec_fn(int) -> bool)
    requires
        s.search(kind, f).is_none(),
    ensures
        forall|j: int| 0 <= j < s.count(kind) ==> !#[trigger] f(j),
{
    assert forall|j: int| 0 <= j < s.count(kind) implies !#[trigger] f(j) by {
        if f(j) {
            lemma_some_first(s.count(kind), f, j);
        }
    }
}

/// Where a property holds at some position, it holds at a first one.
proof fn lemma_some_first(n: nat, f: spec_fn(int) -> bool, j: int)
    requires
        0 <= j < n,
        f(j),
    ensures
        exists|i: int| first_such(n, f, i),
    decreases j,
{
    if exists|k: int| 0 <= k < j && #[trigger] f(k) {
        let k = choose|k: int| 0 <= k < j && #[trigger] f(k);
        lemma_some_first(n, f, k);
    } else {
        assert(first_such(n, f, j));
    }
}

/// A point that was brought into a shape: the shape has grown and is fit, the
/// handle is issued, and the handle is the first of a point that is close.
pub proof fn lemma_homed_point(s: ShapeView, p: Point)
    requires
        s.fit(),
        s.homed_point(p).0.countable(),
    ensures
        s.homed_point(p).0.extends(s),
        s.homed_point(p).0.sound(),
        s.homed_point(p).0.same_topology(s),
        s.homed_point(p).0.has(Kind::Point, s.homed_point(p).1),
        first_such(
            s.homed_point(p).0.points.len(),
            s.homed_point(p).0.near_point(p),
            s.homed_point(p).1.index as int,
        ),
{
    let f = s.near_point(p);
    let (s1, h) = s.homed_point(p);
    assert(s.count(Kind::Point) <= s1.count(Kind::Point) <= usize::MAX);
    if s.search(Kind::Point, f).is_some() {
        lemma_search_found(s, Kind::Point, f);
    } else {
        lemma_search_missed(s, Kind::Point, f);
        lemma_grown_sound(s, s1);
        let n = s.points.len() as int;
        assert(s1.points[n] == p);
        assert(p.distance_squared(p) == 0) by (nonlinear_arith);
        assert(0 < s.min_distance * s.min_distance) by (nonlinear_arith)
            requires
                s.min_distance > 0,
        ;
        assert(s1.near_point(p)(n));
        assert forall|j: int| 0 <= j < n implies !#[trigger] s1.near_point(p)(j) by {
            assert(!f(j));
        }
    }
}

/// A point that was brought into a shape is found by every later attempt to
/// bring it in.
pub proof fn lemma_homed_point_kept(s: ShapeView, t: ShapeView, p: Point)
    requires
        s.fit(),
        t.fit(),
        t.extends(s.homed_point(p).0),
    ensures
        t.homed_point(p) == (t, s.homed_point(p).1),
{
    let (s1, h) = s.homed_point(p);
    lemma_countable_below(s1, t);
    assert(s.count(Kind::Point) <= s1.count(Kind::Point) <= usize::MAX);
    if s.search(Kind::Point, s.near_point(p)).is_some() {
        lemma_search_found(s, Kind::Point, s.near_point(p));
        lemma_search_kept(s, t, Kind::Point, s.near_point(p), t.near_point(p), h.index as int);
    } else {
        lemma_search_missed(s, Kind::Point, s.near_point(p));
        let n = s.points.len() as int;
        assert(s1.points[n] == p);
        assert(p.distance_squared(p) == 0) by (nonlinear_arith);
        assert(0 < s.min_distance * s.min_distance) by (nonlinear_arith)
            requires
                s.min_distance > 0,
        ;
        assert(s1.near_point(p)(n));
        assert forall|j: int| 0 <= j < n implies !#[trigger] s1.near_point(p)(j) by {
            assert(!s.near_point(p)(j));
        }
        lemma_search_kept(s1, t, Kind::Point, s1.near_point(p), t.near_point(p), n);
    }
}

/// A vertex that was settled in a shape: the shape has grown and is sound, and
/// the handle is that of the first vertex that is close to the point.
pub proof fn lemma_settled_vertex(s: ShapeView, v: Vertex)
    requires
        s.fit(),
        s.settled_vertex(v).is_ok(),
        s.settled_vertex(v).unwrap().0.countable(),
    ensures
        s.vertex_sound(v),
        s.settled_vertex(v).unwrap().0.extends(s),
        s.settled_vertex(v).unwrap().0.sound(),
        first_such(
            s.settled_vertex(v).unwrap().0.vertices.len(),
            s.settled_vertex(v).unwrap().0.near_vertex(s.points[v.point.index as int]),
            s.settled_vertex(v).unwrap().1.index as int,
        ),
        s.settled_vertex(v).unwrap().1 == s.handle(
            Kind::Vertex,
            s.settled_vertex(v).unwrap().1.index as int,
        ),
{
    let q = s.points[v.point.index as int];
    let (s1, h) = s.settled_vertex(v).unwrap();
    assert(s.count(Kind::Vertex) <= s1.count(Kind::Vertex) <= usize::MAX);
    match s.vertex_verdict(v) {
        None => {
            lemma_grown_sound(s, s1);
            let n = s.vertices.len() as int;
            assert(s1.vertex_point_at(n) == q);
            assert(q.distance_squared(q) == 0) by (nonlinear_arith);
            assert(0 < s.min_distance * s.min_distance) by (nonlinear_arith)
                requires
                    s.min_distance > 0,
            ;
            assert(s1.near_vertex(q)(n));
            assert forall|j: int| 0 <= j < n implies !#[trigger] s1.near_vertex(q)(j) by {
                assert(!s.vertex_near(q, j));
                assert(s1.vertex_point_at(j) == s.vertex_point_at(j));
            }
        },
        Some(_) => {
            let j = choose|j: int| 0 <= j < s.vertices.len() && #[trigger] s.vertex_near(q, j);
            assert(s.near_vertex(q)(j));
            lemma_some_first(s.vertices.len(), s.near_vertex(q), j);
            lemma_search_found(s, Kind::Vertex, s.near_vertex(q));
        },
    }
}

/// A vertex that was settled in a shape is found by every later attempt to
/// settle it.
pub proof fn lemma_settled_vertex_kept(s: ShapeView, t: ShapeView, v: Vertex)
    requires
        s.fit(),
        t.fit(),
        s.settled_vertex(v).is_ok(),
        t.extends(s.settled_vertex(v).unwrap().0),
    ensures
        t.settled_vertex(v) == Ok::<(ShapeView, Handle), ValidationError>(
            (t, s.settled_vertex(v).unwrap().1),
        ),
{
    let q = s.points[v.point.index as int];
    let (s1, h) = s.settled_vertex(v).unwrap();
    lemma_countable_below(s1, t);
    lemma_settled_vertex(s, v);
    lemma_extension(s1, t);
    assert(t.points[v.point.index as int] == q);
    assert forall|j: int| 0 <= j < s1.count(Kind::Vertex) implies s1.near_vertex(q)(j)
        == #[trigger] t.near_vertex(q)(j) by {
        assert(t.vertex_point_at(j) == s1.vertex_point_at(j));
    }
    lemma_search_kept(s1, t, Kind::Vertex, s1.near_vertex(q), t.near_vertex(q), h.index as int);
    assert(t.vertex_near(q, h.index as int));
}

/// A vertex that was merged into a shape: the shape has grown and is sound.
pub proof fn lemma_merged_vertex(s: ShapeView, source: ShapeView, v: Vertex)
    requires
        s.fit(),
        s.merged_vertex(source, v).is_ok(),
        s.merged_vertex(source, v).unwrap().0.countable(),
    ensures
        s.merged_vertex(source, v).unwrap().0.extends(s),
        s.merged_vertex(source, v).unwrap().0.sound(),
        s.merged_vertex(source, v).unwrap().0.has(
            Kind::Vertex,
            s.merged_vertex(source, v).unwrap().1,
        ),
{
    reveal(ShapeView::merged_vertex);
    let p = source.points[v.point.index as int];
    let (s1, point) = s.homed_point(p);
    let (s2, h) = s1.settled_vertex(Vertex { point }).unwrap();
    lemma_countable_below(s1, s2);
    lemma_homed_point(s, p);
    lemma_settled_vertex(s1, Vertex { point });
}

/// A vertex that was merged into a shape is found by every later merge of it.
pub proof fn lemma_merged_vertex_kept(s: ShapeView, t: ShapeView, source: ShapeView, v: Vertex)
    requires
        s.fit(),
        t.fit(),
        s.merged_vertex(source, v).is_ok(),
        t.extends(s.merged_vertex(source, v).unwrap().0),
    ensures
        t.merged_vertex(source, v) == Ok::<(ShapeView, Handle), ValidationError>(
            (t, s.merged_vertex(source, v).unwrap().1),
        ),
{
    reveal(ShapeView::merged_vertex);
    let p = source.points[v.point.index as int];
    let (s1, point) = s.homed_point(p);
    let (s2, h) = s1.settled_vertex(Vertex { point }).unwrap();
    lemma_countable_below(s2, t);
    lemma_countable_below(s1, s2);
    lemma_homed_point(s, p);
    lemma_settled_vertex(s1, Vertex { point });
    t.lemma_extends_twice(s2, s1);
    lemma_homed_point_kept(s, t, p);
    lemma_settled_vertex_kept(s1, t, Vertex { point });
}

/// Merging a vertex twice is merging it once: the second merge changes
/// nothing and gives the same handle.
pub proof fn law_merge_vertex_twice(s: ShapeView, source: ShapeView, v: Vertex)
    requires
        s.fit(),
        s.merged_vertex(source, v).is_ok(),
        s.merged_vertex(source, v).unwrap().0.countable(),
    ensures
        s.merged_vertex(source, v).unwrap().0.merged_vertex(source, v) == s.merged_vertex(
            source,
            v,
        ),
{
    lemma_merged_vertex(s, source, v);
    lemma_merged_vertex_kept(s, s.merged_vertex(source, v).unwrap().0, source, v);
}

/// A curve that was brought into a shape: the shape has grown and is sound,
/// and the handle is issued.
pub proof fn lemma_homed_curve(s: ShapeView, c: Curve)
    requires
        s.fit(),
        s.homed_curve(c).0.countable(),
    ensures
        s.homed_curve(c).0.extends(s),
        s.homed_curve(c).0.sound(),
        s.homed_curve(c).0.has(Kind::Curve, s.homed_curve(c).1),
        s.homed_curve(c).0.curves[s.homed_curve(c).1.index as int].same(c),
{
    let f = s.like_curve(c);
    let (s1, h) = s.homed_curve(c);
    assert(s.count(Kind::Curve) <= s1.count(Kind::Curve) <= usize::MAX);
    if s.search(Kind::Curve, f).is_some() {
        lemma_search_found(s, Kind::Curve, f);
    } else {
        lemma_grown_sound(s, s1);
    }
}

/// A curve that was brought into a shape is found by every later attempt to
/// bring it in.
pub proof fn lemma_homed_curve_kept(s: ShapeView, t: ShapeView, c: Curve)
    requires
        s.fit(),
        t.fit(),
        t.extends(s.homed_curve(c).0),
    ensures
        t.homed_curve(c) == (t, s.homed_curve(c).1),
{
    let (s1, h) = s.homed_curve(c);
    lemma_countable_below(s1, t);
    assert(s.count(Kind::Curve) <= s1.count(Kind::Curve) <= usize::MAX);
    if s.search(Kind::Curve, s.like_curve(c)).is_some() {
        lemma_search_found(s, Kind::Curve, s.like_curve(c));
        lemma_search_kept(s, t, Kind::Curve, s.like_curve(c), t.like_curve(c), h.index as int);
    } else {
        lemma_search_missed(s, Kind::Curve, s.like_curve(c));
        let n = s.curves.len() as int;
        assert(s1.like_curve(c)(n));
        assert forall|j: int| 0 <= j < n implies !#[trigger] s1.like_curve(c)(j) by {
            assert(!s.like_curve(c)(j));
        }
        lemma_search_kept(s1, t, Kind::Curve, s1.like_curve(c), t.like_curve(c), n);
    }
}

/// A surface that was brought into a shape: the shape has grown and is sound,
/// and the handle is issued.
pub proof fn lemma_homed_surface(s: ShapeView, c: Surface)
    requires
        s.fit(),
        s.homed_surface(c).0.countable(),
    ensures
        s.homed_surface(c).0.extends(s),
        s.homed_surface(c).0.sound(),
        s.homed_surface(c).0.has(Kind::Surface, s.homed_surface(c).1),
        s.homed_surface(c).0.surfaces[s.homed_surface(c).1.index as int].same(c),
{
    let f = s.like_surface(c);
    let (s1, h) = s.homed_surface(c);
    assert(s.count(Kind::Surface) <= s1.count(Kind::Surface) <= usize::MAX);
    if s.search(Kind::Surface, f).is_some() {
        lemma_search_found(s, Kind::Surface, f);
    } else {
        lemma_grown_sound(s, s1);
    }
}

/// A surface that was brought into a shape is found by every later attempt to
/// bring it in.
pub proof fn lemma_homed_surface_kept(s: ShapeView, t: ShapeView, c: Surface)
    requires
        s.fit(),
        t.fit(),
        t.extends(s.homed_surface(c).0),
    ensures
        t.homed_surface(c) == (t, s.homed_surface(c).1),
{
    let (s1, h) = s.homed_surface(c);
    lemma_countable_below(s1, t);
    assert(s.count(Kind::Surface) <= s1.count(Kind::Surface) <= usize::MAX);
    if s.search(Kind::Surface, s.like_surface(c)).is_some() {
        lemma_search_found(s, Kind::Surface, s.like_surface(c));
        lemma_search_kept(
            s,
            t,
            Kind::Surface,
            s.like_surface(c),
            t.like_surface(c),
            h.index as int,
        );
    } else {
        lemma_search_missed(s, Kind::Surface, s.like_surface(c));
        let n = s.surfaces.len() as int;
        assert(s1.like_surface(c)(n));
        assert forall|j: int| 0 <= j < n implies !#[trigger] s1.like_surface(c)(j) by {
            assert(!s.like_surface(c)(j));
        }
        lemma_search_kept(s1, t, Kind::Surface, s1.like_surface(c), t.like_surface(c), n);
    }
}

/// The vertices of an edge that were merged into a shape: the shape has grown
/// and is sound, and the handles are issued.
pub proof fn lemma_merged_ends(s: ShapeView, source: ShapeView, ends: Ends)
    requires
        s.fit(),
        s.merged_ends(source, ends).is_ok(),
        s.merged_ends(source, ends).unwrap().0.countable(),
    ensures
        s.merged_ends(source, ends).unwrap().0.extends(s),
        s.merged_ends(source, ends).unwrap().0.sound(),
        s.merged_ends(source, ends).unwrap().0.ends_sound(s.merged_ends(source, ends).unwrap().1),
{
    reveal(ShapeView::merged_ends);
    match ends {
        Ends::Open => {},
        Ends::One(a) => {
            lemma_merged_vertex(s, source, source.vertices[a.index as int]);
        },
        Ends::Two(a, b) => {
            let va = source.vertices[a.index as int];
            let vb = source.vertices[b.index as int];
            let (s1, ha) = s.merged_vertex(source, va).unwrap();
            let (s2, hb) = s1.merged_vertex(source, vb).unwrap();
            lemma_merged_vertex_grows(s1, source, vb);
            lemma_countable_below(s1, s2);
            lemma_merged_vertex(s, source, va);
            lemma_merged_vertex(s1, source, vb);
            s2.lemma_extends_twice(s1, s);
        },
    }
}

/// A merge of a vertex takes nothing away.
proof fn lemma_merged_vertex_grows(s: ShapeView, source: ShapeView, v: Vertex)
    requires
        s.merged_vertex(source, v).is_ok(),
    ensures
        s.merged_vertex(source, v).unwrap().0.extends(s),
{
    reveal(ShapeView::merged_vertex);
}

/// The vertices of an edge that were merged into a shape are found by every
/// later merge of them.
pub proof fn lemma_merged_ends_kept(s: ShapeView, t: ShapeView, source: ShapeView, ends: Ends)
    requires
        s.fit(),
        t.fit(),
        s.merged_ends(source, ends).is_ok(),
        t.extends(s.merged_ends(source, ends).unwrap().0),
    ensures
        t.merged_ends(source, ends) == Ok::<(ShapeView, Ends), ValidationError>(
            (t, s.merged_ends(source, ends).unwrap().1),
        ),
{
    reveal(ShapeView::merged_ends);
    match ends {
        Ends::Open => {},
        Ends::One(a) => {
            lemma_merged_vertex_kept(s, t, source, source.vertices[a.index as int]);
        },
        Ends::Two(a, b) => {
            let va = source.vertices[a.index as int];
            let vb = source.vertices[b.index as int];
            let (s1, ha) = s.merged_vertex(source, va).unwrap();
            let (s2, hb) = s1.merged_vertex(source, vb).unwrap();
            lemma_countable_below(s2, t);
            lemma_merged_vertex_grows(s1, source, vb);
            lemma_countable_below(s1, s2);
            lemma_merged_vertex(s, source, va);
            t.lemma_extends_twice(s2, s1);
            lemma_merged_vertex_kept(s, t, source, va);
            lemma_merged_vertex_kept(s1, t, source, vb);
        },
    }
}

/// An edge that was settled in a shape: the shape has grown and is sound, and
/// the handle is that of the first edge that is the same.
pub proof fn lemma_settled_edge(s: ShapeView, e: Edge)
    requires
        s.fit(),
        s.settled_edge(e).is_ok(),
        s.settled_edge(e).unwrap().0.countable(),
    ensures
        s.edge_sound(e),
        s.settled_edge(e).unwrap().0.extends(s),
        s.settled_edge(e).unwrap().0.sound(),
        s.settled_edge(e).unwrap().0.has(Kind::Edge, s.settled_edge(e).unwrap().1),
        first_such(
            s.settled_edge(e).unwrap().0.edges.len(),
            s.settled_edge(e).unwrap().0.like_edge(e),
            s.settled_edge(e).unwrap().1.index as int,
        ),
{
    let (s1, h) = s.settled_edge(e).unwrap();
    assert(s.count(Kind::Edge) <= s1.count(Kind::Edge) <= usize::MAX);
    match s.edge_verdict(e) {
        None => {
            lemma_grown_sound(s, s1);
            let n = s.edges.len() as int;
            assert(s1.like_edge(e)(n));
            assert forall|j: int| 0 <= j < n implies !#[trigger] s1.like_edge(e)(j) by {
                assert(!s.edges[j].same(e));
            }
        },
        Some(_) => {
            let j = choose|j: int| 0 <= j < s.edges.len() && (#[trigger] s.edges[j]).same(e);
            assert(s.like_edge(e)(j));
            lemma_some_first(s.edges.len(), s.like_edge(e), j);
            lemma_search_found(s, Kind::Edge, s.like_edge(e));
        },
    }
}

/// An edge that was settled in a shape is found by every later attempt to
/// settle it.
pub proof fn lemma_settled_edge_kept(s: ShapeView, t: ShapeView, e: Edge)
    requires
        s.fit(),
        t.fit(),
        s.settled_edge(e).is_ok(),
        t.extends(s.settled_edge(e).unwrap().0),
    ensures
        t.settled_edge(e) == Ok::<(ShapeView, Handle), ValidationError>(
            (t, s.settled_edge(e).unwrap().1),
        ),
{
    let (s1, h) = s.settled_edge(e).unwrap();
    lemma_countable_below(s1, t);
    lemma_settled_edge(s, e);
    lemma_search_kept(s1, t, Kind::Edge, s1.like_edge(e), t.like_edge(e), h.index as int);
    assert(t.edges[h.index as int].same(e));
}

/// An edge that was merged into a shape: the shape has grown and is sound, and
/// the handle is issued.
pub proof fn lemma_merged_edge(s: ShapeView, source: ShapeView, e: Edge)
    requires
        s.fit(),
        s.merged_edge(source, e).is_ok(),
        s.merged_edge(source, e).unwrap().0.countable(),
    ensures
        s.merged_edge(source, e).unwrap().0.extends(s),
        s.merged_edge(source, e).unwrap().0.sound(),
        s.merged_edge(source, e).unwrap().0.has(Kind::Edge, s.merged_edge(source, e).unwrap().1),
{
    reveal(ShapeView::merged_edge);
    let c = source.curves[e.curve.index as int];
    let (s1, curve) = s.homed_curve(c);
    let (s2, vertices) = s1.merged_ends(source, e.vertices).unwrap();
    let (s3, h) = s2.settled_edge(Edge { curve, vertices }).unwrap();
    lemma_countable_below(s2, s3);
    lemma_merged_ends_grows(s1, source, e.vertices);
    lemma_countable_below(s1, s2);
    lemma_homed_curve(s, c);
    lemma_merged_ends(s1, source, e.vertices);
    lemma_settled_edge(s2, Edge { curve, vertices });
    s2.lemma_extends_twice(s1, s);
    s3.lemma_extends_twice(s2, s);
}

/// A merge of the vertices of an edge takes nothing away.
proof fn lemma_merged_ends_grows(s: ShapeView, source: ShapeView, ends: Ends)
    requires
        s.merged_ends(source, ends).is_ok(),
    ensures
        s.merged_ends(source, ends).unwrap().0.extends(s),
{
    reveal(ShapeView::merged_ends);
    match ends {
        Ends::Two(a, b) => {
            let (s1, ha) = s.merged_vertex(source, source.vertices[a.index as int]).unwrap();
            lemma_merged_vertex_grows(s, source, source.vertices[a.index as int]);
            lemma_merged_vertex_grows(s1, source, source.vertices[b.index as int]);
        },
        Ends::One(a) => {
            lemma_merged_vertex_grows(s, source, source.vertices[a.index as int]);
        },
        Ends::Open => {},
    }
}

/// A merge of an edge takes nothing away.
proof fn lemma_merged_edge_grows(s: ShapeView, source: ShapeView, e: Edge)
    requires
        s.merged_edge(source, e).is_ok(),
    ensures
        s.merged_edge(source, e).unwrap().0.extends(s),
{
    reveal(ShapeView::merged_edge);
    let (s1, curve) = s.homed_curve(source.curves[e.curve.index as int]);
    lemma_merged_ends_grows(s1, source, e.vertices);
}

/// An edge that was merged into a shape is found by every later merge of it.
pub proof fn lemma_merged_edge_kept(s: ShapeView, t: ShapeView, source: ShapeView, e: Edge)
    requires
        s.fit(),
        t.fit(),
        s.merged_edge(source, e).is_ok(),
        t.extends(s.merged_edge(source, e).unwrap().0),
    ensures
        t.merged_edge(source, e) == Ok::<(ShapeView, Handle), ValidationError>(
            (t, s.merged_edge(source, e).unwrap().1),
        ),
{
    reveal(ShapeView::merged_edge);
    let c = source.curves[e.curve.index as int];
    let (s1, curve) = s.homed_curve(c);
    let (s2, vertices) = s1.merged_ends(source, e.vertices).unwrap();
    let (s3, h) = s2.settled_edge(Edge { curve, vertices }).unwrap();
    lemma_countable_below(s3, t);
    lemma_countable_below(s2, s3);
    lemma_merged_ends_grows(s1, source, e.vertices);
    lemma_countable_below(s1, s2);
    lemma_homed_curve(s, c);
    lemma_merged_ends(s1, source, e.vertices);
    t.lemma_extends_twice(s3, s2);
    t.lemma_extends_twice(s2, s1);
    lemma_homed_curve_kept(s, t, c);
    lemma_merged_ends_kept(s1, t, source, e.vertices);
    lemma_settled_edge_kept(s2, t, Edge { curve, vertices });
}

/// Merging an edge twice is merging it once: the second merge changes nothing
/// and gives the same handle.
pub proof fn law_merge_edge_twice(s: ShapeView, source: ShapeView, e: Edge)
    requires
        s.fit(),
        s.merged_edge(source, e).is_ok(),
        s.merged_edge(source, e).unwrap().0.countable(),
    ensures
        s.merged_edge(source, e).unwrap().0.merged_edge(source, e) == s.merged_edge(source, e),
{
    lemma_merged_edge(s, source, e);
    lemma_merged_edge_kept(s, s.merged_edge(source, e).unwrap().0, source, e);
}

/// A merge of some edges takes nothing away.
proof fn lemma_merged_edges_grows(s: ShapeView, source: ShapeView, edges: Seq<Handle>, n: nat)
    requires
        s.merged_edges(source, edges, n).is_ok(),
    ensures
        s.merged_edges(source, edges, n).unwrap().0.extends(s),
    decreases n,
{
    reveal(ShapeView::merged_edges);
    if n > 0 {
        let (s1, merged) = s.merged_edges(source, edges, (n - 1) as nat).unwrap();
        lemma_merged_edges_grows(s, source, edges, (n - 1) as nat);
        lemma_merged_edge_grows(s1, source, source.edges[edges[n - 1].index as int]);
    }
}

/// Edges that were merged into a shape: the shape has grown and is sound, and
/// the handles are issued, one for each edge.
pub proof fn lemma_merged_edges(s: ShapeView, source: ShapeView, edges: Seq<Handle>, n: nat)
    requires
        s.fit(),
        s.merged_edges(source, edges, n).is_ok(),
        s.merged_edges(source, edges, n).unwrap().0.countable(),
    ensures
        s.merged_edges(source, edges, n).unwrap().0.extends(s),
        s.merged_edges(source, edges, n).unwrap().0.sound(),
        s.merged_edges(source, edges, n).unwrap().1.len() == n,
        s.merged_edges(source, edges, n).unwrap().0.cycle_sound(
            s.merged_edges(source, edges, n).unwrap().1,
        ),
    decreases n,
{
    reveal(ShapeView::merged_edges);
    if n > 0 {
        let e = source.edges[edges[n - 1].index as int];
        let (s1, merged) = s.merged_edges(source, edges, (n - 1) as nat).unwrap();
        let (s2, h) = s1.merged_edge(source, e).unwrap();
        lemma_merged_edge_grows(s1, source, e);
        lemma_countable_below(s1, s2);
        lemma_merged_edges(s, source, edges, (n - 1) as nat);
        lemma_merged_edge(s1, source, e);
    }
}

/// Edges that were merged into a shape are found by every later merge of them.
pub proof fn lemma_merged_edges_kept(
    s: ShapeView,
    t: ShapeView,
    source: ShapeView,
    edges: Seq<Handle>,
    n: nat,
)
    requires
        s.fit(),
        t.fit(),
        s.merged_edges(source, edges, n).is_ok(),
        t.extends(s.merged_edges(source, edges, n).unwrap().0),
    ensures
        t.merged_edges(source, edges, n) == Ok::<(ShapeView, Seq<Handle>), ValidationError>(
            (t, s.merged_edges(source, edges, n).unwrap().1),
        ),
    decreases n,
{
    reveal(ShapeView::merged_edges);
    if n > 0 {
        let e = source.edges[edges[n - 1].index as int];
        let (s1, merged) = s.merged_edges(source, edges, (n - 1) as nat).unwrap();
        let (s2, h) = s1.merged_edge(source, e).unwrap();
        lemma_countable_below(s2, t);
        lemma_merged_edge_grows(s1, source, e);
        lemma_countable_below(s1, s2);
        lemma_merged_edges(s, source, edges, (n - 1) as nat);
        t.lemma_extends_twice(s2, s1);
        lemma_merged_edges_kept(s, t, source, edges, (n - 1) as nat);
        lemma_merged_edge_kept(s1, t, source, e);
    }
}

/// A cycle that was settled in a shape: the shape has grown and is sound, and
/// the handle is that of the first cycle that is the same.
pub proof fn lemma_settled_cycle(s: ShapeView, c: Seq<Handle>)
    requires
        s.fit(),
        s.settled_cycle(c).is_ok(),
        s.settled_cycle(c).unwrap().0.countable(),
    ensures
        s.cycle_sound(c),
        s.closed(c),
        s.settled_cycle(c).unwrap().0.extends(s),
        s.settled_cycle(c).unwrap().0.sound(),
        s.settled_cycle(c).unwrap().0.has(Kind::Cycle, s.settled_cycle(c).unwrap().1),
        first_such(
            s.settled_cycle(c).unwrap().0.cycles.len(),
            s.settled_cycle(c).unwrap().0.like_cycle(c),
            s.settled_cycle(c).unwrap().1.index as int,
        ),
{
    let (s1, h) = s.settled_cycle(c).unwrap();
    assert(s.count(Kind::Cycle) <= s1.count(Kind::Cycle) <= usize::MAX);
    match s.cycle_verdict(c) {
        None => {
            lemma_cycle_added(s, c);
            let n = s.cycles.len() as int;
            lemma_normalized(s, c);
            assert(s1.like_cycle(c)(n));
            assert forall|j: int| 0 <= j < n implies !#[trigger] s1.like_cycle(c)(j) by {
                assert(!same_cycle(s.cycles[j], c));
            }
        },
        Some(_) => {
            let j = choose|j: int| 0 <= j < s.cycles.len() && same_cycle(#[trigger] s.cycles[j], c);
            assert(s.like_cycle(c)(j));
            lemma_some_first(s.cycles.len(), s.like_cycle(c), j);
            lemma_search_found(s, Kind::Cycle, s.like_cycle(c));
        },
    }
}

/// A cycle that was settled in a shape is found by every later attempt to
/// settle it.
pub proof fn lemma_settled_cycle_kept(s: ShapeView, t: ShapeView, c: Seq<Handle>)
    requires
        s.fit(),
        t.fit(),
        s.settled_cycle(c).is_ok(),
        t.extends(s.settled_cycle(c).unwrap().0),
    ensures
        t.settled_cycle(c) == Ok::<(ShapeView, Handle), ValidationError>(
            (t, s.settled_cycle(c).unwrap().1),
        ),
{
    let (s1, h) = s.settled_cycle(c).unwrap();
    lemma_countable_below(s1, t);
    lemma_settled_cycle(s, c);
    t.lemma_extends_twice(s1, s);
    assert(t.cycle_sound(c)) by {
        assert forall|i: int| 0 <= i < c.len() implies t.has(Kind::Edge, #[trigger] c[i]) by {
            assert(s.has(Kind::Edge, c[i]));
        }
    }
    assert(t.closed(c)) by {
        lemma_closed_kept(s, t, c);
    }
    assert(t.holds_cycle(c)) by {
        assert(s1.like_cycle(c)(h.index as int));
        assert(t.cycles[h.index as int] == s1.cycles[h.index as int]);
    }
    assert(t.search(Kind::Cycle, t.like_cycle(c)) == Some(h)) by {
        assert forall|j: int| 0 <= j < s1.count(Kind::Cycle) implies s1.like_cycle(c)(j)
            == #[trigger] t.like_cycle(c)(j) by {
            assert(t.cycles[j] == s1.cycles[j]);
        }
        lemma_search_kept(s1, t, Kind::Cycle, s1.like_cycle(c), t.like_cycle(c), h.index as int);
    }
}

/// A merge of a cycle takes nothing away.
proof fn lemma_merged_cycle_grows(s: ShapeView, source: ShapeView, c: Seq<Handle>)
    requires
        s.merged_cycle(source, c).is_ok(),
    ensures
        s.merged_cycle(source, c).unwrap().0.extends(s),
{
    reveal(ShapeView::merged_cycle);
    lemma_merged_edges_grows(s, source, c, c.len());
}

/// A cycle that was merged into a shape: the shape has grown and is sound, and
/// the handle is issued.
pub proof fn lemma_merged_cycle(s: ShapeView, source: ShapeView, c: Seq<Handle>)
    requires
        s.fit(),
        s.merged_cycle(source, c).is_ok(),
        s.merged_cycle(source, c).unwrap().0.countable(),
    ensures
        s.merged_cycle(source, c).unwrap().0.extends(s),
        s.merged_cycle(source, c).unwrap().0.sound(),
        s.merged_cycle(source, c).unwrap().0.has(Kind::Cycle, s.merged_cycle(source, c).unwrap().1),
{
    reveal(ShapeView::merged_cycle);
    let (s1, edges) = s.merged_edges(source, c, c.len()).unwrap();
    let (s2, h) = s1.settled_cycle(edges).unwrap();
    lemma_countable_below(s1, s2);
    lemma_merged_edges(s, source, c, c.len());
    lemma_settled_cycle(s1, edges);
    s2.lemma_extends_twice(s1, s);
}

/// A cycle that was merged into a shape is found by every later merge of it.
pub proof fn lemma_merged_cycle_kept(
    s: ShapeView,
    t: ShapeView,
    source: ShapeView,
    c: Seq<Handle>,
)
    requires
        s.fit(),
        t.fit(),
        s.merged_cycle(source, c).is_ok(),
        t.extends(s.merged_cycle(source, c).unwrap().0),
    ensures
        t.merged_cycle(source, c) == Ok::<(ShapeView, Handle), ValidationError>(
            (t, s.merged_cycle(source, c).unwrap().1),
        ),
{
    reveal(ShapeView::merged_cycle);
    let (s1, edges) = s.merged_edges(source, c, c.len()).unwrap();
    let (s2, h) = s1.settled_cycle(edges).unwrap();
    lemma_countable_below(s2, t);
    lemma_countable_below(s1, s2);
    lemma_merged_edges(s, source, c, c.len());
    t.lemma_extends_twice(s2, s1);
    lemma_merged_edges_kept(s, t, source, c, c.len());
    lemma_settled_cycle_kept(s1, t, edges);
}

/// Merging a cycle twice is merging it once: the second merge changes nothing
/// and gives the same handle.
pub proof fn law_merge_cycle_twice(s: ShapeView, source: ShapeView, c: Seq<Handle>)
    requires
        s.fit(),
        s.merged_cycle(source, c).is_ok(),
        s.merged_cycle(source, c).unwrap().0.countable(),
    ensures
        s.merged_cycle(source, c).unwrap().0.merged_cycle(source, c) == s.merged_cycle(source, c),
{
    lemma_merged_cycle(s, source, c);
    lemma_merged_cycle_kept(s, s.merged_cycle(source, c).unwrap().0, source, c);
}

/// A merge of some cycles takes nothing away.
proof fn lemma_merged_cycles_grows(s: ShapeView, source: ShapeView, cycles: Seq<Handle>, n: nat)
    requires
        s.merged_cycles(source, cycles, n).is_ok(),
    ensures
        s.merged_cycles(source, cycles, n).unwrap().0.extends(s),
    decreases n,
{
    reveal(ShapeView::merged_cycles);
    if n > 0 {
        let (s1, merged) = s.merged_cycles(source, cycles, (n - 1) as nat).unwrap();
        lemma_merged_cycles_grows(s, source, cycles, (n - 1) as nat);
        lemma_merged_cycle_grows(s1, source, source.cycles[cycles[n - 1].index as int]);
    }
}

/// Cycles that were merged into a shape: the shape has grown and is sound, and
/// the handles are issued.
pub proof fn lemma_merged_cycles(s: ShapeView, source: ShapeView, cycles: Seq<Handle>, n: nat)
    requires
        s.fit(),
        s.merged_cycles(source, cycles, n).is_ok(),
        s.merged_cycles(source, cycles, n).unwrap().0.countable(),
    ensures
        s.merged_cycles(source, cycles, n).unwrap().0.extends(s),
        s.merged_cycles(source, cycles, n).unwrap().0.sound(),
        forall|i: int|
            0 <= i < s.merged_cycles(source, cycles, n).unwrap().1.len() ==> s.merged_cycles(
                source,
                cycles,
                n,
            ).unwrap().0.has(
                Kind::Cycle,
                #[trigger] s.merged_cycles(source, cycles, n).unwrap().1[i],
            ),
    decreases n,
{
    reveal(ShapeView::merged_cycles);
    if n > 0 {
        let c = source.cycles[cycles[n - 1].index as int];
        let (s1, merged) = s.merged_cycles(source, cycles, (n - 1) as nat).unwrap();
        let (s2, h) = s1.merged_cycle(source, c).unwrap();
        lemma_merged_cycle_grows(s1, source, c);
        lemma_countable_below(s1, s2);
        lemma_merged_cycles(s, source, cycles, (n - 1) as nat);
        lemma_merged_cycle(s1, source, c);
        let all = merged.push(h);
        assert forall|i: int| 0 <= i < all.len() implies s2.has(Kind::Cycle, #[trigger] all[i]) by {
            if i < merged.len() {
                assert(s1.has(Kind::Cycle, merged[i]));
            }
        }
    }
}

/// Cycles that were merged into a shape are found by every later merge of them.
pub proof fn lemma_merged_cycles_kept(
    s: ShapeView,
    t: ShapeView,
    source: ShapeView,
    cycles: Seq<Handle>,
    n: nat,
)
    requires
        s.fit(),
        t.fit(),
        s.merged_cycles(source, cycles, n).is_ok(),
        t.extends(s.merged_cycles(source, cycles, n).unwrap().0),
    ensures
        t.merged_cycles(source, cycles, n) == Ok::<(ShapeView, Seq<Handle>), ValidationError>(
            (t, s.merged_cycles(source, cycles, n).unwrap().1),
        ),
    decreases n,
{
    reveal(ShapeView::merged_cycles);
    if n > 0 {
        let c = source.cycles[cycles[n - 1].index as int];
        let (s1, merged) = s.merged_cycles(source, cycles, (n - 1) as nat).unwrap();
        let (s2, h) = s1.merged_cycle(source, c).unwrap();
        lemma_countable_below(s2, t);
        lemma_merged_cycle_grows(s1, source, c);
        lemma_countable_below(s1, s2);
        lemma_merged_cycles(s, source, cycles, (n - 1) as nat);
        t.lemma_extends_twice(s2, s1);
        lemma_merged_cycles_kept(s, t, source, cycles, (n - 1) as nat);
        lemma_merged_cycle_kept(s1, t, source, c);
    }
}

/// A face bounded by cycles that was settled in a shape: the shape has grown
/// and is sound, and the handle is that of the first face that is the same.
pub proof fn lemma_settled_face(s: ShapeView, f: FaceView)
    requires
        s.fit(),
        f is Face,
        s.settled_face(f).is_ok(),
        s.settled_face(f).unwrap().0.countable(),
    ensures
        s.face_sound(f),
        s.face_carried(f),
        s.settled_face(f).unwrap().0.extends(s),
        s.settled_face(f).unwrap().0.sound(),
        s.settled_face(f).unwrap().0.has(Kind::Face, s.settled_face(f).unwrap().1),
        first_such(
            s.settled_face(f).unwrap().0.faces.len(),
            s.settled_face(f).unwrap().0.like_face(f),
            s.settled_face(f).unwrap().1.index as int,
        ),
{
    let (s1, h) = s.settled_face(f).unwrap();
    assert(s.count(Kind::Face) <= s1.count(Kind::Face) <= usize::MAX);
    match s.face_verdict(f) {
        None => {
            lemma_grown_sound(s, s1);
            let n = s.faces.len() as int;
            assert(f.same(f));
            assert(s1.like_face(f)(n));
            assert forall|j: int| 0 <= j < n implies !#[trigger] s1.like_face(f)(j) by {
                assert(!s.faces[j].same(f));
            }
        },
        Some(_) => {
            let j = choose|j: int| 0 <= j < s.faces.len() && (#[trigger] s.faces[j]).same(f);
            assert(s.like_face(f)(j));
            lemma_some_first(s.faces.len(), s.like_face(f), j);
            lemma_search_found(s, Kind::Face, s.like_face(f));
        },
    }
}

/// A face bounded by cycles that was settled in a shape is found by every
/// later attempt to settle it.
pub proof fn lemma_settled_face_kept(s: ShapeView, t: ShapeView, f: FaceView)
    requires
        s.fit(),
        t.fit(),
        f is Face,
        s.settled_face(f).is_ok(),
        t.extends(s.settled_face(f).unwrap().0),
    ensures
        t.settled_face(f) == Ok::<(ShapeView, Handle), ValidationError>(
            (t, s.settled_face(f).unwrap().1),
        ),
{
    let (s1, h) = s.settled_face(f).unwrap();
    lemma_countable_below(s1, t);
    lemma_settled_face(s, f);
    t.lemma_extends_twice(s1, s);
    lemma_extension(s, t);
    lemma_search_kept(s1, t, Kind::Face, s1.like_face(f), t.like_face(f), h.index as int);
    assert(t.faces[h.index as int].same(f));
    assert forall|i: int| 0 <= i < f->cycles.len() implies t.has(
        Kind::Cycle,
        #[trigger] f->cycles[i],
    ) by {
        assert(s.has(Kind::Cycle, f->cycles[i]));
    }
}

/// Merging a face that is bounded by cycles twice is merging it once: the
/// second merge changes nothing and gives the same handle.
pub proof fn law_merge_face_twice(s: ShapeView, source: ShapeView, f: FaceView)
    requires
        s.fit(),
        f is Face,
        s.merged_face(source, f).is_ok(),
        s.merged_face(source, f).unwrap().0.countable(),
    ensures
        s.merged_face(source, f).unwrap().0.merged_face(source, f) == s.merged_face(source, f),
{
    reveal(ShapeView::merged_face);
    let c = source.surfaces[f->surface.index as int];
    let (s1, surface) = s.homed_surface(c);
    let (s2, cycles) = s1.merged_cycles(source, f->cycles, f->cycles.len()).unwrap();
    let g = FaceView::Face { surface, cycles };
    let (s3, h) = s2.settled_face(g).unwrap();
    assert(s3.extends(s2));
    lemma_countable_below(s2, s3);
    lemma_merged_cycles_grows(s1, source, f->cycles, f->cycles.len());
    lemma_countable_below(s1, s2);
    lemma_homed_surface(s, c);
    lemma_merged_cycles(s1, source, f->cycles, f->cycles.len());
    lemma_settled_face(s2, g);
    s3.lemma_extends_twice(s2, s1);
    lemma_homed_surface_kept(s, s3, c);
    lemma_merged_cycles_kept(s1, s3, source, f->cycles, f->cycles.len());
    lemma_settled_face_kept(s2, s3, g);
}

} // verus!
