//! The scene that the canvas shows: nodes with ports, edges between ports, and
//! what is selected.
use crate::fixed::Fixed;
use crate::geometry::{PortDir, Pos, Rect};
use crate::model::{FlowVarMeta, PortKind, Rgb};
use vstd::prelude::*;

verus! {

/// A port of a node: a name, a place relative to the node's corner and the
/// shape it is drawn with.
#[derive(Debug, PartialEq, Eq)]
pub struct ScenePort {
    pub id: String,
    pub local_offset: Pos,
    pub kind: PortKind,
}

/// What a port's connector class is, and how large and how turned its icon is
/// drawn.
#[derive(Debug, PartialEq, Eq)]
pub struct PortConnector {
    pub port: String,
    pub path: String,
    pub size_x: Fixed,
    pub size_y: Fixed,
    pub rotation_deg: Fixed,
}

/// What an icon node shows.
#[derive(Debug, PartialEq, Eq)]
pub struct IconNodeData {
    pub qualified_type: String,
    pub icon_only: bool,
    pub expandable_connector: bool,
    pub icon_graphics: Option<u64>,
    pub diagram_graphics: Option<u64>,
    pub rotation_deg: Fixed,
    pub mirror_x: bool,
    pub mirror_y: bool,
    pub instance_name: String,
    /// The name and the shown value of each parameter.
    pub parameters: Vec<(String, String)>,
    pub port_connector_paths: Vec<PortConnector>,
    pub is_conditional: bool,
}

/// What an edge shows.
#[derive(Debug, PartialEq, Eq)]
pub struct ConnectionEdgeData {
    pub connector_type: String,
    pub from_dir: PortDir,
    pub to_dir: PortDir,
    /// The bends between the two ports, on the canvas.
    pub waypoints_world: Vec<Pos>,
    pub icon_color: Option<Rgb>,
    pub source_path: String,
    pub target_path: String,
    pub kind: PortKind,
    pub flow_vars: Vec<FlowVarMeta>,
}

/// What a plot node shows. The entity is the host's number for the simulation
/// that the signal belongs to; zero stands for none.
#[derive(Debug, PartialEq, Eq)]
pub struct PlotNodeData {
    pub entity: u64,
    pub signal_path: String,
    pub title: String,
}

/// What a text node shows.
#[derive(Debug, PartialEq, Eq)]
pub struct TextNodeData {
    pub text: String,
    pub font_size: Fixed,
    pub color: Option<Rgb>,
}

#[derive(Debug, PartialEq, Eq)]
pub enum NodeData {
    Icon(IconNodeData),
    Plot(PlotNodeData),
    Text(TextNodeData),
}

#[derive(Debug, PartialEq, Eq)]
pub struct SceneNode {
    pub id: u64,
    pub rect: Rect,
    pub data: NodeData,
    pub ports: Vec<ScenePort>,
    pub label: String,
    /// What in the source the node stands for.
    pub origin: Option<String>,
    pub resizable: bool,
    pub visual_rect: Option<Rect>,
}

/// One end of an edge.
#[derive(Debug, PartialEq, Eq)]
pub struct PortRef {
    pub node: u64,
    pub port: String,
}

#[derive(Debug, PartialEq, Eq)]
pub struct SceneEdge {
    pub id: u64,
    pub from: PortRef,
    pub to: PortRef,
    pub data: ConnectionEdgeData,
    pub origin: Option<String>,
}

#[derive(Debug, PartialEq, Eq)]
pub struct Scene {
    pub nodes: Vec<SceneNode>,
    pub edges: Vec<SceneEdge>,
    pub next_node: u64,
    pub next_edge: u64,
}

impl Scene {
    /// Every id was given out once.
    pub open spec fn wf(self) -> bool {
        &&& forall|i: int| 0 <= i < self.nodes@.len() ==> (#[trigger] self.nodes@[i]).id < self.next_node
        &&& forall|i: int| 0 <= i < self.edges@.len() ==> (#[trigger] self.edges@[i]).id < self.next_edge
        &&& forall|i: int, j: int|
            0 <= i < j < self.nodes@.len() ==> (#[trigger] self.nodes@[i]).id != (
            #[trigger] self.nodes@[j]).id
        &&& forall|i: int, j: int|
            0 <= i < j < self.edges@.len() ==> (#[trigger] self.edges@[i]).id != (
            #[trigger] self.edges@[j]).id
    }

    /// The place of the node `id`, where the scene has it.
    pub open spec fn node_place(self, id: u64) -> Option<int> {
        if exists|i: int| 0 <= i < self.nodes@.len() && (#[trigger] self.nodes@[i]).id == id {
            Some(choose|i: int| 0 <= i < self.nodes@.len() && (#[trigger] self.nodes@[i]).id == id)
        } else {
            None
        }
    }

    /// The place of the edge `id`, where the scene has it.
    pub open spec fn edge_place(self, id: u64) -> Option<int> {
        if exists|i: int| 0 <= i < self.edges@.len() && (#[trigger] self.edges@[i]).id == id {
            Some(choose|i: int| 0 <= i < self.edges@.len() && (#[trigger] self.edges@[i]).id == id)
        } else {
            None
        }
    }

    /// The node `id`, where the scene has it.
    pub open spec fn node_spec(self, id: u64) -> Option<SceneNode> {
        match self.node_place(id) {
            Some(i) => Some(self.nodes@[i]),
            None => None,
        }
    }

    /// The edge `id`, where the scene has it.
    pub open spec fn edge_spec(self, id: u64) -> Option<SceneEdge> {
        match self.edge_place(id) {
            Some(i) => Some(self.edges@[i]),
            None => None,
        }
    }

    /// The node `id`.
    pub fn node(&self, id: u64) -> (r: Option<&SceneNode>)
        requires
            self.wf(),
        ensures
            match r {
                Some(n) => self.node_spec(id) == Some(*n),
                None => self.node_spec(id) is None,
            },
    {
        match self.find_node(id) {
            Some(i) => Some(&self.nodes[i]),
            None => None,
        }
    }

    /// The edge `id`.
    pub fn edge(&self, id: u64) -> (r: Option<&SceneEdge>)
        requires
            self.wf(),
        ensures
            match r {
                Some(e) => self.edge_spec(id) == Some(*e),
                None => self.edge_spec(id) is None,
            },
    {
        match self.find_edge(id) {
            Some(i) => Some(&self.edges[i]),
            None => None,
        }
    }

    /// Whether the scene shows neither nodes nor edges.
    pub fn is_empty(&self) -> (r: bool)
        ensures
            r == (self.nodes@.len() == 0 && self.edges@.len() == 0),
    {
        self.nodes.len() == 0 && self.edges.len() == 0
    }

    /// Adds a node under a fresh id, which the node's own is replaced with.
    pub fn insert_node(&mut self, node: SceneNode) -> (id: u64)
        requires
            old(self).wf(),
            old(self).next_node < u64::MAX,
        ensures
            final(self).wf(),
            id == old(self).next_node,
            final(self).nodes@ == old(self).nodes@.push((SceneNode { id, ..node })),
            final(self).edges == old(self).edges,
            final(self).next_node == id + 1,
            final(self).next_edge == old(self).next_edge,
    {
        let id: u64 = self.next_node;
        let mut n = node;
        n.id = id;
        self.nodes.push(n);
        self.next_node = id + 1;
        id
    }

    /// Removes the node `id` and the edges that end at it, and tells which
    /// edges those were.
    pub fn remove_node(&mut self, id: u64) -> (orphaned: Vec<u64>)
        requires
            old(self).wf(),
        ensures
            final(self).wf(),
            final(self).next_node == old(self).next_node,
            final(self).next_edge == old(self).next_edge,
            match old(self).node_place(id) {
                Some(i) => {
                    &&& final(self).nodes@ == old(self).nodes@.remove(i)
                    &&& final(self).edges@ == edges_apart_from(old(self).edges@, id)
                    &&& orphaned@ == orphaned_by(old(self).edges@, id)
                },
                None => {
                    &&& final(self).nodes == old(self).nodes
                    &&& final(self).edges == old(self).edges
                    &&& orphaned@.len() == 0
                },
            },
    {
        let mut orphaned: Vec<u64> = Vec::new();
        let i = match self.find_node(id) {
            Some(i) => i,
            None => {
                return orphaned;
            },
        };
        let ghost nodes0 = self.nodes@;
        let ghost edges0 = self.edges@;
        let _ = self.nodes.remove(i);
        let ghost mut done: int = 0;
        let mut k: usize = 0;
        assert(edges_apart_from(edges0.take(0), id) + edges0.skip(0) =~= edges0);
        while k < self.edges.len()
            invariant
                0 <= done <= edges0.len(),
                k == edges_apart_from(edges0.take(done), id).len(),
                self.edges@ == edges_apart_from(edges0.take(done), id) + edges0.skip(done),
                orphaned@ == orphaned_by(edges0.take(done), id),
                self.nodes@ == nodes0.remove(i as int),
                self.next_node == old(self).next_node,
                self.next_edge == old(self).next_edge,
            decreases edges0.len() - done,
        {
            let ghost kept = edges_apart_from(edges0.take(done), id);
            let ghost rest = edges0.skip(done);
            assert(self.edges@[k as int] == rest[0]);
            assert(rest[0] == edges0[done]);
            assert(edges0.take(done + 1).drop_last() =~= edges0.take(done));
            assert(edges0.take(done + 1).last() == edges0[done]);
            if self.edges[k].from.node == id || self.edges[k].to.node == id {
                orphaned.push(self.edges[k].id);
                let _ = self.edges.remove(k);
                assert(self.edges@ =~= kept + edges0.skip(done + 1));
            } else {
                k += 1;
                assert(self.edges@ =~= kept.push(edges0[done]) + edges0.skip(done + 1));
            }
            proof {
                done = done + 1;
            }
        }
        assert(edges0.take(done) =~= edges0);
        assert(edges0.skip(done) =~= Seq::empty());
        assert(self.edges@ =~= edges_apart_from(edges0, id));
        proof {
            lemma_edges_apart(edges0, id);
            assert forall|j: int| 0 <= j < self.nodes@.len() implies (
            #[trigger] self.nodes@[j]).id < self.next_node by {
                assert(self.nodes@[j] == nodes0[if j < i {
                    j
                } else {
                    j + 1
                }]);
            }
            assert forall|j: int, m: int| 0 <= j < m < self.nodes@.len() implies (
            #[trigger] self.nodes@[j]).id != (#[trigger] self.nodes@[m]).id by {
                let jj = if j < i {
                    j
                } else {
                    j + 1
                };
                let mm = if m < i {
                    m
                } else {
                    m + 1
                };
                assert(self.nodes@[j] == nodes0[jj]);
                assert(self.nodes@[m] == nodes0[mm]);
            }
        }
        orphaned
    }

    /// The scene without the edge `id`.
    pub fn remove_edge(&mut self, id: u64)
        requires
            old(self).wf(),
        ensures
            final(self).wf(),
            final(self).nodes == old(self).nodes,
            final(self).next_node == old(self).next_node,
            final(self).next_edge == old(self).next_edge,
            final(self).edges@ == (match old(self).edge_place(id) {
                Some(i) => old(self).edges@.remove(i),
                None => old(self).edges@,
            }),
    {
        if let Some(i) = self.find_edge(id) {
            let ghost before = self.edges@;
            let _ = self.edges.remove(i);
            assert forall|j: int| 0 <= j < self.edges@.len() implies (
            #[trigger] self.edges@[j]).id < self.next_edge by {
                assert(self.edges@[j] == before[if j < i {
                    j
                } else {
                    j + 1
                }]);
            }
            assert forall|j: int, k: int| 0 <= j < k < self.edges@.len() implies (
            #[trigger] self.edges@[j]).id != (#[trigger] self.edges@[k]).id by {
                let jj = if j < i {
                    j
                } else {
                    j + 1
                };
                let kk = if k < i {
                    k
                } else {
                    k + 1
                };
                assert(self.edges@[j] == before[jj]);
                assert(self.edges@[k] == before[kk]);
            }
        }
    }

    pub fn new() -> (r: Scene)
        ensures
            r.wf(),
            r.nodes@.len() == 0,
            r.edges@.len() == 0,
            r.next_node == 0,
            r.next_edge == 0,
    {
        Scene { nodes: Vec::new(), edges: Vec::new(), next_node: 0, next_edge: 0 }
    }

    /// The place of the node `id`.
    pub fn find_node(&self, id: u64) -> (r: Option<usize>)
        requires
            self.wf(),
        ensures
            match r {
                Some(i) => self.node_place(id) == Some(i as int) && i < self.nodes@.len()
                    && self.nodes@[i as int].id == id,
                None => self.node_place(id) is None,
            },
    {
        let mut i: usize = 0;
        while i < self.nodes.len()
            invariant
                self.wf(),
                i <= self.nodes@.len(),
                forall|j: int| 0 <= j < i ==> (#[trigger] self.nodes@[j]).id != id,
            decreases self.nodes@.len() - i,
        {
            if self.nodes[i].id == id {
                proof {
                    let k = choose|k: int|
                        0 <= k < self.nodes@.len() && (#[trigger] self.nodes@[k]).id == id;
                    assert(self.nodes@[i as int].id == id);
                    assert(k == i);
                }
                return Some(i);
            }
            i += 1;
        }
        None
    }

    /// The place of the edge `id`.
    pub fn find_edge(&self, id: u64) -> (r: Option<usize>)
        requires
            self.wf(),
        ensures
            match r {
                Some(i) => self.edge_place(id) == Some(i as int) && i < self.edges@.len()
                    && self.edges@[i as int].id == id,
                None => self.edge_place(id) is None,
            },
    {
        let mut i: usize = 0;
        while i < self.edges.len()
            invariant
                self.wf(),
                i <= self.edges@.len(),
                forall|j: int| 0 <= j < i ==> (#[trigger] self.edges@[j]).id != id,
            decreases self.edges@.len() - i,
        {
            if self.edges[i].id == id {
                proof {
                    let k = choose|k: int|
                        0 <= k < self.edges@.len() && (#[trigger] self.edges@[k]).id == id;
                    assert(self.edges@[i as int].id == id);
                    assert(k == i);
                }
                return Some(i);
            }
            i += 1;
        }
        None
    }
}

/// The edges that do not end at the node `id`.
pub open spec fn edges_apart_from(edges: Seq<SceneEdge>, id: u64) -> Seq<SceneEdge>
    decreases edges.len(),
{
    if edges.len() == 0 {
        Seq::empty()
    } else {
        let rest = edges_apart_from(edges.drop_last(), id);
        if edges.last().from.node == id || edges.last().to.node == id {
            rest
        } else {
            rest.push(edges.last())
        }
    }
}

/// The ids of the edges that end at the node `id`.
pub open spec fn orphaned_by(edges: Seq<SceneEdge>, id: u64) -> Seq<u64>
    decreases edges.len(),
{
    if edges.len() == 0 {
        Seq::empty()
    } else {
        let rest = orphaned_by(edges.drop_last(), id);
        if edges.last().from.node == id || edges.last().to.node == id {
            rest.push(edges.last().id)
        } else {
            rest
        }
    }
}

/// The edges kept are edges of the scene, in the order they had, and none of
/// them ends at the node.
proof fn lemma_edges_apart(edges: Seq<SceneEdge>, id: u64)
    ensures
        forall|i: int|
            0 <= i < edges_apart_from(edges, id).len() ==> exists|k: int|
                0 <= k < edges.len() && #[trigger] edges[k] == #[trigger] edges_apart_from(
                    edges,
                    id,
                )[i],
        (forall|i: int, j: int|
            0 <= i < j < edges.len() ==> (#[trigger] edges[i]).id != (#[trigger] edges[j]).id) ==> (
        forall|i: int, j: int|
            0 <= i < j < edges_apart_from(edges, id).len() ==> (#[trigger] edges_apart_from(
                edges,
                id,
            )[i]).id != (#[trigger] edges_apart_from(edges, id)[j]).id),
    decreases edges.len(),
{
    if edges.len() > 0 {
        let rest = edges.drop_last();
        lemma_edges_apart(rest, id);
        let kept = edges_apart_from(edges, id);
        let before = edges_apart_from(rest, id);
        assert forall|i: int| 0 <= i < kept.len() implies exists|k: int|
            0 <= k < edges.len() && #[trigger] edges[k] == #[trigger] kept[i] by {
            if i < before.len() {
                assert(kept[i] == before[i]);
                let k = choose|k: int|
                    0 <= k < rest.len() && #[trigger] rest[k] == #[trigger] before[i];
                assert(edges[k] == rest[k]);
            } else {
                assert(kept[i] == edges[edges.len() - 1]);
            }
        }
        if forall|i: int, j: int|
            0 <= i < j < edges.len() ==> (#[trigger] edges[i]).id != (#[trigger] edges[j]).id {
            assert forall|i: int, j: int| 0 <= i < j < rest.len() implies (
            #[trigger] rest[i]).id != (#[trigger] rest[j]).id by {
                assert(edges[i].id != edges[j].id);
            }
            assert forall|i: int, j: int| 0 <= i < j < kept.len() implies (
            #[trigger] kept[i]).id != (#[trigger] kept[j]).id by {
                assert(kept[i] == before[i]);
                if j < before.len() {
                    assert(kept[j] == before[j]);
                } else {
                    let k = choose|k: int|
                        0 <= k < rest.len() && #[trigger] rest[k] == #[trigger] before[i];
                    assert(edges[k].id != edges[edges.len() - 1].id);
                }
            }
        }
    }
}

/// No edge that is kept when a node goes ends at that node.
pub proof fn law_no_edge_is_left_dangling(edges: Seq<SceneEdge>, id: u64)
    ensures
        forall|i: int|
            0 <= i < edges_apart_from(edges, id).len() ==> (#[trigger] edges_apart_from(
                edges,
                id,
            )[i]).from.node != id && edges_apart_from(edges, id)[i].to.node != id,
    decreases edges.len(),
{
    if edges.len() > 0 {
        law_no_edge_is_left_dangling(edges.drop_last(), id);
    }
}

/// An id finds the node that bears it, and nothing where none does.
pub proof fn law_ids_find_their_nodes(s: Scene, i: int, id: u64)
    requires
        s.wf(),
    ensures
        0 <= i < s.nodes@.len() ==> s.node_spec(s.nodes@[i].id) == Some(s.nodes@[i]),
        0 <= i < s.nodes@.len() ==> s.node_place(s.nodes@[i].id) == Some(i),
        s.node_spec(id) matches Some(n) ==> n.id == id && s.nodes@.contains(n),
        s.node_spec(id) is None ==> forall|j: int|
            0 <= j < s.nodes@.len() ==> (#[trigger] s.nodes@[j]).id != id,
{
}

/// An id finds the edge that bears it, and nothing where none does.
pub proof fn law_ids_find_their_edges(s: Scene, i: int, id: u64)
    requires
        s.wf(),
    ensures
        0 <= i < s.edges@.len() ==> s.edge_spec(s.edges@[i].id) == Some(s.edges@[i]),
        0 <= i < s.edges@.len() ==> s.edge_place(s.edges@[i].id) == Some(i),
        s.edge_spec(id) matches Some(e) ==> e.id == id && s.edges@.contains(e),
        s.edge_spec(id) is None ==> forall|j: int|
            0 <= j < s.edges@.len() ==> (#[trigger] s.edges@[j]).id != id,
{
}

/// Where a node goes, exactly the edges that end at it go with it: every other
/// edge stays, in order, and each that goes is told by its id, in order. There are
/// places `stay` and `go`, increasing, that between them are all places of the
/// edges.
pub proof fn law_edges_go_with_their_node(edges: Seq<SceneEdge>, id: u64) -> (r: (
    Seq<int>,
    Seq<int>,
))
    ensures
        r.0.len() == edges_apart_from(edges, id).len(),
        r.1.len() == orphaned_by(edges, id).len(),
        r.0.len() + r.1.len() == edges.len(),
        forall|a: int, b: int| 0 <= a < b < r.0.len() ==> r.0[a] < r.0[b],
        forall|a: int, b: int| 0 <= a < b < r.1.len() ==> r.1[a] < r.1[b],
        forall|k: int|
            0 <= k < r.0.len() ==> {
                &&& 0 <= #[trigger] r.0[k] < edges.len()
                &&& edges_apart_from(edges, id)[k] == edges[r.0[k]]
                &&& edges[r.0[k]].from.node != id
                &&& edges[r.0[k]].to.node != id
            },
        forall|k: int|
            0 <= k < r.1.len() ==> {
                &&& 0 <= #[trigger] r.1[k] < edges.len()
                &&& orphaned_by(edges, id)[k] == edges[r.1[k]].id
                &&& edges[r.1[k]].from.node == id || edges[r.1[k]].to.node == id
            },
    decreases edges.len(),
{
    if edges.len() == 0 {
        (Seq::empty(), Seq::empty())
    } else {
        let rest = edges.drop_last();
        let r = law_edges_go_with_their_node(rest, id);
        assert forall|k: int| 0 <= k < r.0.len() implies edges[#[trigger] r.0[k]] == rest[r.0[k]] by {
        }
        assert forall|k: int| 0 <= k < r.1.len() implies edges[#[trigger] r.1[k]] == rest[r.1[k]] by {
        }
        let n = edges.len() - 1;
        if edges.last().from.node == id || edges.last().to.node == id {
            (r.0, r.1.push(n))
        } else {
            (r.0.push(n), r.1)
        }
    }
}

} // verus!
