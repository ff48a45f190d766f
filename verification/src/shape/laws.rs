//! The rules that hold of every shape, and the proofs that each change keeps them.

use vstd::prelude::*;
use crate::geometry::{Curve, Surface};
use crate::math::Transform;
use crate::shape::store::{Handle, Kind};
use crate::shape::{ShapeView, ValidationError};
use crate::topology::turns::{
    lemma_least, lemma_same_cycle_transitive, lemma_same_handles, lemma_turn_same,
};
use crate::topology::{backward, forward, least_at, same_cycle, Edge, Ends, FaceView, Vertex};

verus! {

impl ShapeView {
    /// No two vertices lie closer to each other than the minimum distance.
    pub open spec fn vertices_apart(self) -> bool {
        forall|i: int, j: int|
            0 <= i < j < self.vertices.len() ==> !(#[trigger] self.vertex_point_at(i)).near(
                #[trigger] self.vertex_point_at(j),
                self.min_distance,
            )
    }

    /// No two edges lie on the same curve between the same vertices.
    pub open spec fn edges_distinct(self) -> bool {
        forall|i: int, j: int|
            0 <= i < j < self.edges.len() ==> !(#[trigger] self.edges[i]).same(
                #[trigger] self.edges[j],
            )
    }

    /// No two cycles are the same cycle.
    pub open spec fn cycles_distinct(self) -> bool {
        forall|i: int, j: int|
            0 <= i < j < self.cycles.len() ==> !same_cycle(
                #[trigger] self.cycles[i],
                #[trigger] self.cycles[j],
            )
    }

    /// No two faces lie on the same surface with the same set of cycles.
    pub open spec fn faces_distinct(self) -> bool {
        forall|i: int, j: int|
            0 <= i < j < self.faces.len() ==> !(#[trigger] self.faces[i]).same(
                #[trigger] self.faces[j],
            )
    }

    /// The edges of every cycle form a closed chain.
    pub open spec fn cycles_closed(self) -> bool {
        forall|i: int| 0 <= i < self.cycles.len() ==> self.closed(#[trigger] self.cycles[i])
    }

    /// The rules of uniqueness and closure, which every change of a shape keeps.
    pub open spec fn valid(self) -> bool {
        &&& self.vertices_apart()
        &&& self.edges_distinct()
        &&& self.cycles_distinct()
        &&& self.faces_distinct()
        &&& self.cycles_closed()
    }

    /// Every edge with two vertices has both on its curve, and every face that is
    /// bounded by cycles has the curves of their edges in its surface. Every
    /// addition to a shape keeps this.
    pub open spec fn carried(self) -> bool {
        &&& forall|i: int| 0 <= i < self.edges.len() ==> self.edge_carried(#[trigger] self.edges[i])
        &&& forall|i: int| 0 <= i < self.faces.len() ==> self.face_carried(#[trigger] self.faces[i])
    }

    /// This shape after `vertex` was added.
    pub open spec fn with_vertex(self, vertex: Vertex) -> ShapeView {
        ShapeView { vertices: self.vertices.push(vertex), ..self }
    }

    /// This shape after `edge` was added.
    pub open spec fn with_edge(self, edge: Edge) -> ShapeView {
        ShapeView { edges: self.edges.push(edge), ..self }
    }

    /// This shape after `cycle` was added, in its normal form.
    pub open spec fn with_cycle(self, cycle: Seq<Handle>) -> ShapeView {
        ShapeView { cycles: self.cycles.push(self.normalized(cycle)), ..self }
    }

    /// This shape after `face` was added.
    pub open spec fn with_face(self, face: FaceView) -> ShapeView {
        ShapeView { faces: self.faces.push(face), ..self }
    }

    /// Whether this shape has the topology of `earlier`, unchanged.
    pub open spec fn same_topology(self, earlier: ShapeView) -> bool {
        &&& self.vertices == earlier.vertices
        &&& self.edges == earlier.edges
        &&& self.cycles == earlier.cycles
        &&& self.faces == earlier.faces
    }
}

/// A shape that was sound stays sound when entities are added whose handles
/// it has issued.
pub proof fn lemma_grown_sound(before: ShapeView, after: ShapeView)
    requires
        before.sound(),
        after.extends(before),
        forall|i: int|
            before.vertices.len() <= i < after.vertices.len() ==> after.vertex_sound(
                #[trigger] after.vertices[i],
            ),
        forall|i: int|
            before.edges.len() <= i < after.edges.len() ==> after.edge_sound(
                #[trigger] after.edges[i],
            ),
        forall|i: int|
            before.cycles.len() <= i < after.cycles.len() ==> after.cycle_sound(
                #[trigger] after.cycles[i],
            ),
        forall|i: int|
            before.faces.len() <= i < after.faces.len() ==> after.face_sound(
                #[trigger] after.faces[i],
            ),
    ensures
        after.sound(),
{
    assert forall|i: int| 0 <= i < after.vertices.len() implies after.vertex_sound(
        #[trigger] after.vertices[i],
    ) by {
        if i < before.vertices.len() {
            assert(before.vertex_sound(before.vertices[i]));
        }
    }
    assert forall|i: int| 0 <= i < after.edges.len() implies after.edge_sound(
        #[trigger] after.edges[i],
    ) by {
        if i < before.edges.len() {
            assert(before.edge_sound(before.edges[i]));
        }
    }
    assert forall|i: int| 0 <= i < after.cycles.len() implies after.cycle_sound(
        #[trigger] after.cycles[i],
    ) by {
        if i < before.cycles.len() {
            assert(before.cycle_sound(before.cycles[i]));
        }
    }
    assert forall|i: int| 0 <= i < after.faces.len() implies after.face_sound(
        #[trigger] after.faces[i],
    ) by {
        if i < before.faces.len() {
            assert(before.face_sound(before.faces[i]));
        }
    }
}

/// A chain along a cycle of a shape runs the same way after entities were
/// added to the shape.
pub proof fn lemma_chain_kept(
    before: ShapeView,
    after: ShapeView,
    cycle: Seq<Handle>,
    from: Handle,
    n: nat,
)
    requires
        after.extends(before),
        before.cycle_sound(cycle),
        n <= cycle.len(),
    ensures
        after.chain(cycle, from, n) == before.chain(cycle, from, n),
    decreases n,
{
    if n > 0 {
        lemma_chain_kept(before, after, cycle, from, (n - 1) as nat);
        assert(before.has(Kind::Edge, cycle[n - 1]));
        assert(after.ends_at(cycle, n - 1) == before.ends_at(cycle, n - 1));
    }
}

/// What was decided of an entity of a sound shape is decided the same way
/// after entities were added to the shape.
pub proof fn lemma_extension(before: ShapeView, after: ShapeView)
    requires
        before.sound(),
        after.extends(before),
    ensures
        forall|i: int|
            0 <= i < before.vertices.len() ==> #[trigger] after.vertex_point_at(i)
                == before.vertex_point_at(i),
        forall|edge: Edge|
            before.edge_sound(edge) ==> #[trigger] after.edge_carried(edge) == before.edge_carried(
                edge,
            ),
        forall|cycle: Seq<Handle>|
            before.cycle_sound(cycle) ==> #[trigger] after.closed(cycle) == before.closed(cycle),
        forall|surface: Surface, cycle: Seq<Handle>|
            before.cycle_sound(cycle) ==> #[trigger] after.cycle_carried(surface, cycle)
                == before.cycle_carried(surface, cycle),
        forall|face: FaceView|
            before.face_sound(face) ==> #[trigger] after.face_carried(face) == before.face_carried(
                face,
            ),
{
    assert forall|i: int| 0 <= i < before.vertices.len() implies #[trigger] after.vertex_point_at(i)
        == before.vertex_point_at(i) by {
        assert(before.vertex_sound(before.vertices[i]));
    }
    assert forall|edge: Edge| before.edge_sound(edge) implies #[trigger] after.edge_carried(edge)
        == before.edge_carried(edge) by {
        lemma_edge_carried_kept(before, after, edge);
    }
    assert forall|cycle: Seq<Handle>| before.cycle_sound(cycle) implies #[trigger] after.closed(
        cycle,
    ) == before.closed(cycle) by {
        lemma_closed_kept(before, after, cycle);
    }
    assert forall|surface: Surface, cycle: Seq<Handle>|
        before.cycle_sound(cycle) implies #[trigger] after.cycle_carried(surface, cycle)
        == before.cycle_carried(surface, cycle) by {
        lemma_cycle_carried_kept(before, after, surface, cycle);
    }
    assert forall|face: FaceView| before.face_sound(face) implies #[trigger] after.face_carried(
        face,
    ) == before.face_carried(face) by {
        lemma_face_carried_kept(before, after, face);
    }
}

/// Whether an edge of a sound shape lies on its curve is not changed by what
/// is added to the shape.
proof fn lemma_edge_carried_kept(before: ShapeView, after: ShapeView, edge: Edge)
    requires
        before.sound(),
        after.extends(before),
        before.edge_sound(edge),
    ensures
        after.edge_carried(edge) == before.edge_carried(edge),
{
    match edge.vertices {
        Ends::Two(a, b) => {
            assert(before.vertex_sound(before.vertices[a.index as int]));
            assert(before.vertex_sound(before.vertices[b.index as int]));
            assert(after.vertex_point(a) == before.vertex_point(a));
            assert(after.vertex_point(b) == before.vertex_point(b));
        },
        _ => {},
    }
}

/// Whether a cycle of edges of a sound shape is closed is not changed by what
/// is added to the shape.
pub proof fn lemma_closed_kept(before: ShapeView, after: ShapeView, cycle: Seq<Handle>)
    requires
        before.sound(),
        after.extends(before),
        before.cycle_sound(cycle),
    ensures
        after.closed(cycle) == before.closed(cycle),
{
    if cycle.len() > 0 {
        assert(before.has(Kind::Edge, cycle[0]));
        assert(before.edge_sound(before.edges[cycle[0].index as int]));
        assert(after.ends_at(cycle, 0) == before.ends_at(cycle, 0));
        assert(after.edge_curve(cycle[0]) == before.edge_curve(cycle[0]));
        match before.ends_at(cycle, 0) {
            Ends::Two(a, b) => {
                lemma_chain_kept(before, after, cycle, a, cycle.len());
                lemma_chain_kept(before, after, cycle, b, cycle.len());
            },
            _ => {},
        }
    }
}

/// Whether the curves of a cycle of a sound shape run in a surface is not
/// changed by what is added to the shape.
proof fn lemma_cycle_carried_kept(
    before: ShapeView,
    after: ShapeView,
    surface: Surface,
    cycle: Seq<Handle>,
)
    requires
        before.sound(),
        after.extends(before),
        before.cycle_sound(cycle),
    ensures
        after.cycle_carried(surface, cycle) == before.cycle_carried(surface, cycle),
{
    assert forall|k: int| 0 <= k < cycle.len() implies after.edge_curve(#[trigger] cycle[k])
        == before.edge_curve(cycle[k]) by {
        assert(before.has(Kind::Edge, cycle[k]));
        assert(before.edge_sound(before.edges[cycle[k].index as int]));
    }
}

/// Whether a face of a sound shape lies on its surface is not changed by what
/// is added to the shape.
proof fn lemma_face_carried_kept(before: ShapeView, after: ShapeView, face: FaceView)
    requires
        before.sound(),
        after.extends(before),
        before.face_sound(face),
    ensures
        after.face_carried(face) == before.face_carried(face),
{
    match face {
        FaceView::Face { surface, cycles } => {
            assert forall|j: int| 0 <= j < cycles.len() implies after.cycle_carried(
                after.surfaces[surface.index as int],
                after.cycles[(#[trigger] cycles[j]).index as int],
            ) == before.cycle_carried(
                before.surfaces[surface.index as int],
                before.cycles[cycles[j].index as int],
            ) by {
                assert(before.has(Kind::Cycle, cycles[j]));
                assert(before.cycle_sound(before.cycles[cycles[j].index as int]));
                lemma_cycle_carried_kept(
                    before,
                    after,
                    before.surfaces[surface.index as int],
                    before.cycles[cycles[j].index as int],
                );
            }
        },
        FaceView::Triangles(_) => {},
    }
}

/// Adding geometry keeps the rules.
pub proof fn lemma_geometry_added(before: ShapeView, after: ShapeView)
    requires
        before.sound(),
        after.extends(before),
        after.same_topology(before),
    ensures
        before.valid() ==> after.valid(),
        before.carried() ==> after.carried(),
{
    lemma_extension(before, after);
    if before.valid() {
        assert forall|i: int| 0 <= i < after.cycles.len() implies after.closed(
            #[trigger] after.cycles[i],
        ) by {
            assert(before.cycle_sound(before.cycles[i]));
            assert(before.closed(before.cycles[i]));
        }
    }
    if before.carried() {
        assert forall|i: int| 0 <= i < after.edges.len() implies after.edge_carried(
            #[trigger] after.edges[i],
        ) by {
            assert(before.edge_sound(before.edges[i]));
            assert(before.edge_carried(before.edges[i]));
        }
        assert forall|i: int| 0 <= i < after.faces.len() implies after.face_carried(
            #[trigger] after.faces[i],
        ) by {
            assert(before.face_sound(before.faces[i]));
            assert(before.face_carried(before.faces[i]));
        }
    }
}

/// Adding a vertex that passes validation keeps the rules.
pub proof fn lemma_vertex_added(before: ShapeView, vertex: Vertex)
    requires
        before.sound(),
        before.vertex_verdict(vertex).is_none(),
    ensures
        before.valid() ==> before.with_vertex(vertex).valid(),
        before.carried() ==> before.with_vertex(vertex).carried(),
{
    let after = before.with_vertex(vertex);
    let p = before.points[vertex.point.index as int];
    lemma_extension(before, after);
    if before.valid() {
        assert forall|i: int, j: int| 0 <= i < j < after.vertices.len() implies !(
        #[trigger] after.vertex_point_at(i)).near(
            #[trigger] after.vertex_point_at(j),
            after.min_distance,
        ) by {
            if j < before.vertices.len() {
                assert(!before.vertex_point_at(i).near(
                    before.vertex_point_at(j),
                    before.min_distance,
                ));
            } else {
                assert(after.vertex_point_at(j) == p);
                assert(!before.vertex_near(p, i));
            }
        }
        assert forall|i: int| 0 <= i < after.cycles.len() implies after.closed(
            #[trigger] after.cycles[i],
        ) by {
            assert(before.cycle_sound(before.cycles[i]));
            assert(before.closed(before.cycles[i]));
        }
    }
    if before.carried() {
        assert forall|i: int| 0 <= i < after.edges.len() implies after.edge_carried(
            #[trigger] after.edges[i],
        ) by {
            assert(before.edge_sound(before.edges[i]));
            assert(before.edge_carried(before.edges[i]));
        }
        assert forall|i: int| 0 <= i < after.faces.len() implies after.face_carried(
            #[trigger] after.faces[i],
        ) by {
            assert(before.face_sound(before.faces[i]));
            assert(before.face_carried(before.faces[i]));
        }
    }
}

/// Adding an edge that passes validation keeps the rules.
pub proof fn lemma_edge_added(before: ShapeView, edge: Edge)
    requires
        before.sound(),
        before.edge_verdict(edge).is_none(),
    ensures
        before.valid() ==> before.with_edge(edge).valid(),
        before.carried() ==> before.with_edge(edge).carried(),
{
    let after = before.with_edge(edge);
    lemma_extension(before, after);
    if before.valid() {
        assert forall|i: int, j: int| 0 <= i < j < after.edges.len() implies !(
        #[trigger] after.edges[i]).same(#[trigger] after.edges[j]) by {
            if j < before.edges.len() {
                assert(!before.edges[i].same(before.edges[j]));
            } else {
                assert(!before.edges[i].same(edge));
            }
        }
        assert forall|i: int| 0 <= i < after.cycles.len() implies after.closed(
            #[trigger] after.cycles[i],
        ) by {
            assert(before.cycle_sound(before.cycles[i]));
            assert(before.closed(before.cycles[i]));
        }
        assert forall|i: int, j: int| 0 <= i < j < after.vertices.len() implies !(
        #[trigger] after.vertex_point_at(i)).near(
            #[trigger] after.vertex_point_at(j),
            after.min_distance,
        ) by {
            assert(!before.vertex_point_at(i).near(before.vertex_point_at(j), before.min_distance));
        }
    }
    if before.carried() {
        assert forall|i: int| 0 <= i < after.edges.len() implies after.edge_carried(
            #[trigger] after.edges[i],
        ) by {
            if i < before.edges.len() {
                assert(before.edge_sound(before.edges[i]));
                assert(before.edge_carried(before.edges[i]));
            }
        }
        assert forall|i: int| 0 <= i < after.faces.len() implies after.face_carried(
            #[trigger] after.faces[i],
        ) by {
            assert(before.face_sound(before.faces[i]));
            assert(before.face_carried(before.faces[i]));
        }
    }
}

/// The normal form of a cycle is the same cycle, and holds the same handles.
pub proof fn lemma_normalized(shape: ShapeView, cycle: Seq<Handle>)
    ensures
        same_cycle(cycle, shape.normalized(cycle)),
        same_cycle(shape.normalized(cycle), cycle),
        shape.normalized(cycle).len() == cycle.len(),
        forall|i: int|
            0 <= i < cycle.len() ==> cycle.contains(#[trigger] shape.normalized(cycle)[i]),
{
    if cycle.len() == 0 {
        reveal(same_cycle);
    } else {
        lemma_least(cycle);
        let k = choose|k: int| least_at(cycle, k);
        lemma_turn_same(cycle, k, forward(cycle, k));
        lemma_turn_same(cycle, k, backward(cycle, k));
    }
}

/// Adding a cycle that passes validation keeps the shape sound and keeps the
/// rules.
pub proof fn lemma_cycle_added(before: ShapeView, cycle: Seq<Handle>)
    requires
        before.sound(),
        before.cycle_verdict(cycle).is_none(),
    ensures
        before.with_cycle(cycle).sound(),
        before.valid() ==> before.with_cycle(cycle).valid(),
        before.carried() ==> before.with_cycle(cycle).carried(),
{
    let after = before.with_cycle(cycle);
    let normal = before.normalized(cycle);
    lemma_normalized(before, cycle);
    assert(after.cycle_sound(normal)) by {
        assert forall|i: int| 0 <= i < normal.len() implies after.has(
            Kind::Edge,
            #[trigger] normal[i],
        ) by {
            let j = choose|j: int| 0 <= j < cycle.len() && cycle[j] == normal[i];
            assert(before.has(Kind::Edge, cycle[j]));
        }
    }
    lemma_grown_sound(before, after);
    lemma_extension(before, after);
    if before.valid() {
        assert forall|i: int, j: int| 0 <= i < j < after.cycles.len() implies !same_cycle(
            #[trigger] after.cycles[i],
            #[trigger] after.cycles[j],
        ) by {
            if j < before.cycles.len() {
                assert(!same_cycle(before.cycles[i], before.cycles[j]));
            } else {
                assert(!same_cycle(before.cycles[i], cycle));
                if same_cycle(before.cycles[i], normal) {
                    lemma_same_cycle_transitive(before.cycles[i], normal, cycle);
                }
            }
        }
        assert forall|i: int| 0 <= i < after.cycles.len() implies after.closed(
            #[trigger] after.cycles[i],
        ) by {
            if i < before.cycles.len() {
                assert(before.cycle_sound(before.cycles[i]));
                assert(before.closed(before.cycles[i]));
            } else {
                before.lemma_closed_same(cycle, normal);
                lemma_closed_turned_kept(before, after, normal);
            }
        }
        assert forall|i: int, j: int| 0 <= i < j < after.vertices.len() implies !(
        #[trigger] after.vertex_point_at(i)).near(
            #[trigger] after.vertex_point_at(j),
            after.min_distance,
        ) by {
            assert(!before.vertex_point_at(i).near(before.vertex_point_at(j), before.min_distance));
        }
    }
    if before.carried() {
        assert forall|i: int| 0 <= i < after.edges.len() implies after.edge_carried(
            #[trigger] after.edges[i],
        ) by {
            assert(before.edge_sound(before.edges[i]));
            assert(before.edge_carried(before.edges[i]));
        }
        assert forall|i: int| 0 <= i < after.faces.len() implies after.face_carried(
            #[trigger] after.faces[i],
        ) by {
            assert(before.face_sound(before.faces[i]));
            assert(before.face_carried(before.faces[i]));
        }
    }
}

/// A chain along edges of a shape is closed after entities were added exactly
/// when it was closed before.
proof fn lemma_closed_turned_kept(before: ShapeView, after: ShapeView, cycle: Seq<Handle>)
    requires
        before.sound(),
        after.extends(before),
        forall|i: int| 0 <= i < cycle.len() ==> after.has(Kind::Edge, #[trigger] cycle[i]),
        after.edges == before.edges,
    ensures
        after.closed(cycle) == before.closed(cycle),
{
    assert(before.cycle_sound(cycle)) by {
        assert forall|i: int| 0 <= i < cycle.len() implies before.has(
            Kind::Edge,
            #[trigger] cycle[i],
        ) by {
            assert(after.has(Kind::Edge, cycle[i]));
        }
    }
    lemma_closed_kept(before, after, cycle);
}

/// Adding a face that passes validation keeps the rules.
pub proof fn lemma_face_added(before: ShapeView, face: FaceView)
    requires
        before.sound(),
        before.face_verdict(face).is_none(),
    ensures
        before.valid() ==> before.with_face(face).valid(),
        before.carried() ==> before.with_face(face).carried(),
{
    let after = before.with_face(face);
    lemma_extension(before, after);
    if before.valid() {
        assert forall|i: int, j: int| 0 <= i < j < after.faces.len() implies !(
        #[trigger] after.faces[i]).same(#[trigger] after.faces[j]) by {
            if j < before.faces.len() {
                assert(!before.faces[i].same(before.faces[j]));
            } else {
                assert(!before.faces[i].same(face));
            }
        }
        assert forall|i: int| 0 <= i < after.cycles.len() implies after.closed(
            #[trigger] after.cycles[i],
        ) by {
            assert(before.cycle_sound(before.cycles[i]));
            assert(before.closed(before.cycles[i]));
        }
        assert forall|i: int, j: int| 0 <= i < j < after.vertices.len() implies !(
        #[trigger] after.vertex_point_at(i)).near(
            #[trigger] after.vertex_point_at(j),
            after.min_distance,
        ) by {
            assert(!before.vertex_point_at(i).near(before.vertex_point_at(j), before.min_distance));
        }
    }
    if before.carried() {
        assert forall|i: int| 0 <= i < after.edges.len() implies after.edge_carried(
            #[trigger] after.edges[i],
        ) by {
            assert(before.edge_sound(before.edges[i]));
            assert(before.edge_carried(before.edges[i]));
        }
        assert forall|i: int| 0 <= i < after.faces.len() implies after.face_carried(
            #[trigger] after.faces[i],
        ) by {
            if i < before.faces.len() {
                assert(before.face_sound(before.faces[i]));
                assert(before.face_carried(before.faces[i]));
            }
        }
    }
}

/// Moving a shape keeps the rules: a transform keeps all distances, and the
/// handles stay as they are.
pub proof fn lemma_moved(before: ShapeView, t: Transform)
    requires
        before.sound(),
        before.admits(t),
    ensures
        before.image(t).sound(),
        before.valid() ==> before.image(t).valid(),
        before.carried() ==> before.image(t).carried(),
{
    if before.carried() {
        lemma_moved_carried(before, t);
    }
    let after = before.image(t);
    assert forall|i: int| 0 <= i < after.vertices.len() implies after.vertex_sound(
        #[trigger] after.vertices[i],
    ) by {
        assert(before.vertex_sound(before.vertices[i]));
    }
    assert forall|i: int| 0 <= i < after.edges.len() implies after.edge_sound(
        #[trigger] after.edges[i],
    ) by {
        assert(before.edge_sound(before.edges[i]));
    }
    assert forall|i: int| 0 <= i < after.cycles.len() implies after.cycle_sound(
        #[trigger] after.cycles[i],
    ) by {
        assert(before.cycle_sound(before.cycles[i]));
    }
    assert forall|i: int| 0 <= i < after.faces.len() implies after.face_sound(
        #[trigger] after.faces[i],
    ) by {
        assert(before.face_sound(before.faces[i]));
    }
    if before.valid() {
        assert forall|i: int, j: int| 0 <= i < j < after.vertices.len() implies !(
        #[trigger] after.vertex_point_at(i)).near(
            #[trigger] after.vertex_point_at(j),
            after.min_distance,
        ) by {
            assert(before.vertex_sound(before.vertices[i]));
            assert(before.vertex_sound(before.vertices[j]));
            let a = before.vertex_point_at(i);
            let b = before.vertex_point_at(j);
            assert(t.maps_point(before.points[before.vertices[i].point.index as int]));
            assert(t.maps_point(before.points[before.vertices[j].point.index as int]));
            t.lemma_keeps_distance(a, b);
            assert(!a.near(b, before.min_distance));
        }
        assert forall|i: int| 0 <= i < after.cycles.len() implies after.closed(
            #[trigger] after.cycles[i],
        ) by {
            assert(before.closed(before.cycles[i]));
            assert(before.cycle_sound(before.cycles[i]));
            lemma_closed_moved(before, t, before.cycles[i]);
        }
        assert(after.edges_distinct());
        assert(after.cycles_distinct());
        assert forall|i: int, j: int| 0 <= i < j < after.faces.len() implies !(
        #[trigger] after.faces[i]).same(#[trigger] after.faces[j]) by {
            assert(!before.faces[i].same(before.faces[j]));
        }
    }
}

/// A chain along a cycle runs the same way after the shape was moved.
proof fn lemma_chain_moved(before: ShapeView, t: Transform, cycle: Seq<Handle>, from: Handle, n: nat)
    ensures
        before.image(t).chain(cycle, from, n) == before.chain(cycle, from, n),
    decreases n,
{
    if n > 0 {
        lemma_chain_moved(before, t, cycle, from, (n - 1) as nat);
        assert(before.image(t).ends_at(cycle, n - 1) == before.ends_at(cycle, n - 1));
    }
}

/// Whether a cycle is closed is not changed by moving the shape.
proof fn lemma_closed_moved(before: ShapeView, t: Transform, cycle: Seq<Handle>)
    requires
        before.sound(),
        before.cycle_sound(cycle),
    ensures
        before.image(t).closed(cycle) == before.closed(cycle),
{
    if cycle.len() > 0 {
        assert(before.has(Kind::Edge, cycle[0]));
        assert(before.edge_sound(before.edges[cycle[0].index as int]));
        assert(before.image(t).edge_curve(cycle[0]) == before.edge_curve(cycle[0]).image(t));
        assert(before.image(t).ends_at(cycle, 0) == before.ends_at(cycle, 0));
        match before.ends_at(cycle, 0) {
            Ends::Two(a, b) => {
                lemma_chain_moved(before, t, cycle, a, cycle.len());
                lemma_chain_moved(before, t, cycle, b, cycle.len());
            },
            _ => {},
        }
    }
}

/// A vertex that is added lies at least the minimum distance from every vertex
/// that the shape held: the square of its distance to each of them is at least
/// the square of the minimum distance.
pub proof fn law_added_vertex_keeps_distance(before: ShapeView, vertex: Vertex, other: int)
    requires
        before.vertex_verdict(vertex).is_none(),
        0 <= other < before.vertices.len(),
    ensures
        before.vertex_point_at(other).distance_squared(before.points[vertex.point.index as int])
            >= before.min_distance * before.min_distance,
{
    assert(!before.vertex_near(before.points[vertex.point.index as int], other));
}

/// Where a vertex is refused as a geometric duplicate, the shape holds a
/// vertex that lies closer to it than the minimum distance.
pub proof fn law_refused_vertex_has_neighbour(before: ShapeView, vertex: Vertex)
    requires
        before.vertex_verdict(vertex) == Some(ValidationError::GeometricDuplicate),
    ensures
        exists|other: int|
            0 <= other < before.vertices.len() && (#[trigger] before.vertex_point_at(
                other,
            )).distance_squared(before.points[vertex.point.index as int]) < before.min_distance
                * before.min_distance,
{
    let p = before.points[vertex.point.index as int];
    let other = choose|i: int| 0 <= i < before.vertices.len() && #[trigger] before.vertex_near(p, i);
    assert(before.vertex_point_at(other).distance_squared(p) < before.min_distance
        * before.min_distance);
}

/// The two vertices of an edge that is added lie on its curve: each is closer
/// to the curve than the minimum distance.
pub proof fn law_added_edge_is_carried(before: ShapeView, edge: Edge)
    requires
        before.edge_verdict(edge).is_none(),
    ensures
        match edge.vertices {
            Ends::Two(a, b) => {
                &&& before.edge_curve_of(edge).holds(before.vertex_point(a), before.min_distance)
                &&& before.edge_curve_of(edge).holds(before.vertex_point(b), before.min_distance)
            },
            _ => true,
        },
{
}

/// Handles are stable: a handle that a shape has issued is one that the shape
/// has issued after any additions and a move, and a handle of geometry then
/// addresses the image of the payload that it addressed.
pub proof fn law_handles_stay(
    before: ShapeView,
    grown: ShapeView,
    t: Transform,
    kind: Kind,
    handle: Handle,
)
    requires
        grown.extends(before),
        before.has(kind, handle),
    ensures
        grown.has(kind, handle),
        grown.image(t).has(kind, handle),
        kind == Kind::Point ==> grown.image(t).points[handle.index as int] == t.point_image(
            before.points[handle.index as int],
        ),
        kind == Kind::Curve ==> grown.image(t).curves[handle.index as int]
            == before.curves[handle.index as int].image(t),
        kind == Kind::Surface ==> grown.image(t).surfaces[handle.index as int]
            == before.surfaces[handle.index as int].image(t),
        kind == Kind::Vertex ==> grown.image(t).vertices[handle.index as int]
            == before.vertices[handle.index as int],
        kind == Kind::Edge ==> grown.image(t).edges[handle.index as int]
            == before.edges[handle.index as int],
        kind == Kind::Cycle ==> grown.image(t).cycles[handle.index as int]
            == before.cycles[handle.index as int],
        kind == Kind::Face ==> grown.image(t).faces[handle.index as int]
            == before.faces[handle.index as int].image(t),
{
}

/// An edge that was added is refused as a duplicate when it is submitted again.
pub proof fn law_edge_added_once(before: ShapeView, edge: Edge)
    requires
        before.sound(),
        before.edge_verdict(edge).is_none(),
    ensures
        before.with_edge(edge).edge_verdict(edge) == Some(ValidationError::TopologicalDuplicate),
{
    let after = before.with_edge(edge);
    assert(after.edges[before.edges.len() as int].same(edge));
}

/// A cycle that was added is refused as a duplicate when it is submitted
/// again, from whichever edge and in whichever direction.
pub proof fn law_cycle_added_once(before: ShapeView, cycle: Seq<Handle>, again: Seq<Handle>)
    requires
        before.sound(),
        before.cycle_verdict(cycle).is_none(),
        same_cycle(cycle, again),
    ensures
        before.with_cycle(cycle).cycle_verdict(again) == Some(
            ValidationError::TopologicalDuplicate,
        ),
{
    let after = before.with_cycle(cycle);
    lemma_extension(before, after);
    lemma_normalized(before, cycle);
    lemma_same_cycle_transitive(before.normalized(cycle), cycle, again);
    assert(same_cycle(after.cycles[before.cycles.len() as int], again));
    assert(before.cycle_sound(again)) by {
        lemma_same_handles(cycle, again);
        assert forall|i: int| 0 <= i < again.len() implies before.has(
            Kind::Edge,
            #[trigger] again[i],
        ) by {
            let j = choose|j: int| 0 <= j < cycle.len() && cycle[j] == again[i];
            assert(before.has(Kind::Edge, cycle[j]));
        }
    }
    before.lemma_closed_same(cycle, again);
}

/// A face bounded by cycles that was added is refused as a duplicate when it
/// is submitted again.
pub proof fn law_face_added_once(before: ShapeView, face: FaceView)
    requires
        before.sound(),
        face is Face,
        before.face_verdict(face).is_none(),
    ensures
        before.with_face(face).face_verdict(face) == Some(ValidationError::TopologicalDuplicate),
{
    let after = before.with_face(face);
    lemma_extension(before, after);
    assert(after.faces[before.faces.len() as int].same(face));
}

/// Moving a shape and then moving it back leaves every payload as it was.
pub proof fn law_moved_there_and_back(before: ShapeView, t: Transform)
    requires
        before.admits(t),
        t.invertible(),
    ensures
        before.image(t).admits(t.spec_inverse()),
        before.image(t).image(t.spec_inverse()) == before,
{
    let there = before.image(t);
    let u = t.spec_inverse();
    assert forall|i: int| 0 <= i < there.points.len() implies u.maps_point(
        #[trigger] there.points[i],
    ) && u.point_image(there.points[i]) == before.points[i] by {
        t.lemma_inverse_restores_point(before.points[i]);
    }
    assert forall|i: int| 0 <= i < there.curves.len() implies (#[trigger] there.curves[i]).maps(u)
        && there.curves[i].image(u) == before.curves[i] by {
        lemma_curve_restored(before.curves[i], t);
    }
    assert forall|i: int| 0 <= i < there.surfaces.len() implies (
    #[trigger] there.surfaces[i]).maps(u) && there.surfaces[i].image(u) == before.surfaces[i] by {
        lemma_surface_restored(before.surfaces[i], t);
    }
    assert forall|i: int| 0 <= i < there.faces.len() implies (#[trigger] there.faces[i]).maps(u)
        && there.faces[i].image(u) == before.faces[i] by {
        lemma_face_restored(before.faces[i], t);
    }
    let back = there.image(u);
    assert(back.points =~= before.points);
    assert(back.curves =~= before.curves);
    assert(back.surfaces =~= before.surfaces);
    assert(back.faces =~= before.faces);
}

/// The inverse of a transform takes the image of a curve back to the curve.
proof fn lemma_curve_restored(curve: Curve, t: Transform)
    requires
        curve.maps(t),
        t.invertible(),
    ensures
        curve.image(t).maps(t.spec_inverse()),
        curve.image(t).image(t.spec_inverse()) == curve,
{
    match curve {
        Curve::Line(line) => {
            t.lemma_inverse_restores_point(line.origin);
            t.lemma_inverse_restores_vector(line.direction);
        },
        Curve::Circle(circle) => {
            t.lemma_inverse_restores_point(circle.center);
            t.lemma_inverse_restores_axis(circle.normal);
        },
    }
}

/// The inverse of a transform takes the image of a surface back to the surface.
proof fn lemma_surface_restored(surface: Surface, t: Transform)
    requires
        surface.maps(t),
        t.invertible(),
    ensures
        surface.image(t).maps(t.spec_inverse()),
        surface.image(t).image(t.spec_inverse()) == surface,
{
    match surface {
        Surface::Plane(plane) => {
            t.lemma_inverse_restores_point(plane.origin);
            t.lemma_inverse_restores_vector(plane.normal);
        },
    }
}

/// The inverse of a transform takes the image of a face back to the face.
proof fn lemma_face_restored(face: FaceView, t: Transform)
    requires
        face.maps(t),
        t.invertible(),
    ensures
        face.image(t).maps(t.spec_inverse()),
        face.image(t).image(t.spec_inverse()) == face,
{
    match face {
        FaceView::Face { .. } => {},
        FaceView::Triangles(triangles) => {
            let there = face.image(t)->Triangles_0;
            assert forall|i: int| 0 <= i < there.len() implies (#[trigger] there[i]).maps(
                t.spec_inverse(),
            ) && there[i].image(t.spec_inverse()) == triangles[i] by {
                assert(triangles[i].maps(t));
                t.lemma_inverse_restores_point(triangles[i].a);
                t.lemma_inverse_restores_point(triangles[i].b);
                t.lemma_inverse_restores_point(triangles[i].c);
            }
            assert(face.image(t).image(t.spec_inverse())->Triangles_0 =~= triangles);
        },
    }
}

/// The point of a vertex of a moved shape is the image of the point.
proof fn lemma_vertex_point_moved(before: ShapeView, t: Transform, vertex: Handle)
    requires
        before.sound(),
        before.admits(t),
        before.has(Kind::Vertex, vertex),
    ensures
        t.maps_point(before.vertex_point(vertex)),
        before.image(t).vertex_point(vertex) == t.point_image(before.vertex_point(vertex)),
{
    assert(before.vertex_sound(before.vertices[vertex.index as int]));
    assert(t.maps_point(before.points[before.vertices[vertex.index as int].point.index as int]));
}

/// The curve of an edge of a moved shape is the image of the curve.
proof fn lemma_edge_curve_moved(before: ShapeView, t: Transform, edge: Handle)
    requires
        before.sound(),
        before.admits(t),
        before.has(Kind::Edge, edge),
    ensures
        before.edge_curve(edge).maps(t),
        before.image(t).edge_curve(edge) == before.edge_curve(edge).image(t),
{
    assert(before.edge_sound(before.edges[edge.index as int]));
    assert(before.curves[before.edges[edge.index as int].curve.index as int].maps(t));
}

/// Moving a shape keeps every edge on its curve and every face on its surface.
proof fn lemma_moved_carried(before: ShapeView, t: Transform)
    requires
        before.sound(),
        before.admits(t),
        before.carried(),
    ensures
        before.image(t).carried(),
{
    let after = before.image(t);
    let eps = before.min_distance;
    assert forall|i: int| 0 <= i < after.edges.len() implies after.edge_carried(
        #[trigger] after.edges[i],
    ) by {
        let edge = before.edges[i];
        assert(before.edge_sound(edge));
        assert(before.edge_carried(edge));
        match edge.vertices {
            Ends::Two(a, b) => {
                let curve = before.curves[edge.curve.index as int];
                assert(curve.maps(t));
                lemma_vertex_point_moved(before, t, a);
                lemma_vertex_point_moved(before, t, b);
                curve.lemma_moved(t, before.vertex_point(a), eps);
                curve.lemma_moved(t, before.vertex_point(b), eps);
            },
            _ => {},
        }
    }
    assert forall|i: int| 0 <= i < after.faces.len() implies after.face_carried(
        #[trigger] after.faces[i],
    ) by {
        let face = before.faces[i];
        assert(before.face_sound(face));
        assert(before.face_carried(face));
        match face {
            FaceView::Face { surface, cycles } => {
                let carrier = before.surfaces[surface.index as int];
                assert(carrier.maps(t));
                assert forall|j: int| 0 <= j < cycles.len() implies after.cycle_carried(
                    after.surfaces[surface.index as int],
                    after.cycles[(#[trigger] cycles[j]).index as int],
                ) by {
                    assert(before.has(Kind::Cycle, cycles[j]));
                    let cycle = before.cycles[cycles[j].index as int];
                    assert(before.cycle_sound(cycle));
                    assert(before.cycle_carried(carrier, cycle));
                    assert forall|k: int| 0 <= k < cycle.len() implies carrier.image(
                        t,
                    ).holds_curve(after.edge_curve(#[trigger] cycle[k]), eps) by {
                        assert(before.has(Kind::Edge, cycle[k]));
                        lemma_edge_curve_moved(before, t, cycle[k]);
                        carrier.lemma_moved_curve(t, before.edge_curve(cycle[k]), eps);
                    }
                }
            },
            FaceView::Triangles(_) => {},
        }
    }
}

} // verus!
