//! The diagram as the Modelica importer reports it, before it is laid out as a
//! scene.
use crate::coords::ModelicaPos;
use crate::fixed::Fixed;
use crate::geometry::{Pos, Rect};
use vstd::prelude::*;

verus! {

/// Whether a connector is an input, an output, or neither.
#[derive(Clone, Copy, Debug, PartialEq, Eq, Structural)]
pub enum PortKind {
    Input,
    Output,
    Acausal,
}

/// A colour without transparency.
#[derive(Clone, Copy, Debug, PartialEq, Eq, Structural)]
pub struct Rgb {
    pub r: u8,
    pub g: u8,
    pub b: u8,
}

/// A flow variable of a connector class.
#[derive(Debug, PartialEq, Eq)]
pub struct FlowVarMeta {
    pub name: String,
    pub unit: String,
}

/// A connector of a component class, as one instance of the class shows it.
#[derive(Debug, PartialEq, Eq)]
pub struct PortDef {
    pub name: String,
    pub connector_type: String,
    /// The connector class, by its full path where it is known.
    pub msl_path: String,
    pub kind: PortKind,
    /// Where the class places the port, as Modelica source writes it. The
    /// origin stands for a port without a placement.
    pub at: ModelicaPos,
    /// Where the instance's transform puts the port on the canvas.
    pub world: Pos,
    /// The direction from the icon's centre to the port under the linear part
    /// of the instance's transform.
    pub dir: Pos,
    pub size_x: Fixed,
    pub size_y: Fixed,
    pub rotation_deg: Fixed,
    /// The line colour of the connector's own icon.
    pub color: Option<Rgb>,
    pub flow_vars: Vec<FlowVarMeta>,
}

/// A parameter of a component class.
#[derive(Debug, PartialEq, Eq)]
pub struct ParamDef {
    pub name: String,
    pub param_type: String,
    pub default: String,
}

/// The class of a component, as far as the canvas shows it. Graphics are known
/// by the handles under which the host keeps them.
#[derive(Debug, PartialEq, Eq)]
pub struct ComponentDef {
    /// The last part of the class path.
    pub name: String,
    pub msl_path: String,
    pub description: Option<String>,
    /// A character that stands for the class in menus.
    pub icon_text: Option<String>,
    pub class_kind: String,
    pub is_icon_only: bool,
    pub is_expandable_connector: bool,
    pub icon_graphics: Option<u64>,
    pub diagram_graphics: Option<u64>,
    pub ports: Vec<PortDef>,
    pub parameters: Vec<ParamDef>,
}

/// One component instance of a diagram.
#[derive(Debug, PartialEq, Eq)]
pub struct DiagramNode {
    pub id: u64,
    pub instance_name: String,
    pub component_def: ComponentDef,
    /// The values that the instance's modifications give to parameters.
    pub parameter_values: Vec<(String, String)>,
    pub is_conditional: bool,
    /// The bounding box, on the canvas, of the icon's frame.
    pub frame: Rect,
    /// The bounding box, on the canvas, of the icon's graphics.
    pub visual: Option<Rect>,
    pub rotation_deg: Fixed,
    pub mirror_x: bool,
    pub mirror_y: bool,
}

/// One connection of a diagram.
#[derive(Debug, PartialEq, Eq)]
pub struct DiagramEdge {
    pub source_node: u64,
    pub source_port: String,
    pub target_node: u64,
    pub target_port: String,
    /// The points of the connection's `Line` annotation.
    pub waypoints: Vec<ModelicaPos>,
}

/// The components and connections of a class.
#[derive(Debug, PartialEq, Eq)]
pub struct VisualDiagram {
    pub nodes: Vec<DiagramNode>,
    pub edges: Vec<DiagramEdge>,
}

/// The first place of the component `id`, or the number of components.
pub open spec fn first_node(nodes: Seq<DiagramNode>, id: u64, from: int) -> int
    decreases nodes.len() - from,
{
    if from >= nodes.len() {
        nodes.len() as int
    } else if nodes[from].id == id {
        from
    } else {
        first_node(nodes, id, from + 1)
    }
}

/// The last place of the component `id`, or -1.
pub open spec fn last_node(nodes: Seq<DiagramNode>, id: u64) -> int
    decreases nodes.len(),
{
    if nodes.len() == 0 {
        -1
    } else if nodes.last().id == id {
        nodes.len() - 1
    } else {
        last_node(nodes.drop_last(), id)
    }
}

/// The component `id`, where the diagram has it.
pub open spec fn node_of(nodes: Seq<DiagramNode>, id: u64) -> Option<DiagramNode> {
    if first_node(nodes, id, 0) < nodes.len() {
        Some(nodes[first_node(nodes, id, 0)])
    } else {
        None
    }
}

pub proof fn lemma_first_node(nodes: Seq<DiagramNode>, id: u64, from: int)
    requires
        0 <= from <= nodes.len(),
    ensures
        from <= first_node(nodes, id, from) <= nodes.len(),
        first_node(nodes, id, from) < nodes.len() ==> nodes[first_node(nodes, id, from)].id == id,
        forall|j: int| from <= j < first_node(nodes, id, from) ==> (#[trigger] nodes[j]).id != id,
    decreases nodes.len() - from,
{
    if from < nodes.len() && nodes[from].id != id {
        lemma_first_node(nodes, id, from + 1);
    }
}

pub proof fn lemma_last_node(nodes: Seq<DiagramNode>, id: u64)
    ensures
        -1 <= last_node(nodes, id) < nodes.len(),
        last_node(nodes, id) >= 0 ==> nodes[last_node(nodes, id)].id == id,
        forall|j: int| last_node(nodes, id) < j < nodes.len() ==> (#[trigger] nodes[j]).id != id,
    decreases nodes.len(),
{
    if nodes.len() > 0 && nodes.last().id != id {
        lemma_last_node(nodes.drop_last(), id);
        assert forall|j: int| last_node(nodes, id) < j < nodes.len() implies (
        #[trigger] nodes[j]).id != id by {
            if j < nodes.len() - 1 {
                assert(nodes[j] == nodes.drop_last()[j]);
            }
        }
    }
}

impl VisualDiagram {
    /// The first place of the component `id`.
    pub fn find_first(&self, id: u64) -> (r: Option<usize>)
        ensures
            match r {
                Some(i) => i == first_node(self.nodes@, id, 0) && i < self.nodes@.len(),
                None => first_node(self.nodes@, id, 0) == self.nodes@.len(),
            },
    {
        let mut i: usize = 0;
        while i < self.nodes.len()
            invariant
                i <= self.nodes@.len(),
                first_node(self.nodes@, id, 0) == first_node(self.nodes@, id, i as int),
            decreases self.nodes@.len() - i,
        {
            if self.nodes[i].id == id {
                return Some(i);
            }
            i += 1;
        }
        None
    }

    /// The last place of the component `id`.
    pub fn find_last(&self, id: u64) -> (r: Option<usize>)
        ensures
            match r {
                Some(i) => i == last_node(self.nodes@, id) && i < self.nodes@.len(),
                None => last_node(self.nodes@, id) == -1,
            },
    {
        let mut i: usize = self.nodes.len();
        assert(self.nodes@.take(i as int) =~= self.nodes@);
        while i > 0
            invariant
                i <= self.nodes@.len(),
                last_node(self.nodes@, id) == last_node(self.nodes@.take(i as int), id),
            decreases i,
        {
            assert(self.nodes@.take(i as int).last() == self.nodes@[i - 1]);
            assert(self.nodes@.take(i as int).drop_last() =~= self.nodes@.take(i - 1));
            if self.nodes[i - 1].id == id {
                return Some(i - 1);
            }
            i -= 1;
        }
        None
    }
}

/// A copy of the flow variables.
pub fn copy_flow_vars(v: &Vec<FlowVarMeta>) -> (r: Vec<FlowVarMeta>)
    ensures
        r@ == v@,
{
    let mut out: Vec<FlowVarMeta> = Vec::new();
    let mut i: usize = 0;
    while i < v.len()
        invariant
            i <= v@.len(),
            out@ == v@.take(i as int),
        decreases v@.len() - i,
    {
        out.push(FlowVarMeta { name: v[i].name.clone(), unit: v[i].unit.clone() });
        assert(v@.take(i + 1) =~= v@.take(i as int).push(v@[i as int]));
        i += 1;
    }
    assert(v@.take(i as int) =~= v@);
    out
}

} // verus!
