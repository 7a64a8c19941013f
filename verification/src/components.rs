//! Adding components and plots to a diagram.
use crate::coords::{canvas_to_modelica, to_modelica};
use crate::fixed::{ratio_spec, Fixed, UNIT};
use crate::geometry::{fallback_offset, port_fallback_offset_for_size, Pos, Rect};
use crate::model::{ComponentDef, ParamDef, PortDef};
use crate::ops::{pair_views, ModelicaOp, OpView, Placement};
use crate::project::{is_connector_of, project_connectors};
use crate::scene::{IconNodeData, NodeData, PlotNodeData, Scene, SceneNode, ScenePort};
use crate::text::{chars_of, decimal, decimal_text, law_decimal_round_trip, same_text, text2};
use vstd::prelude::*;

verus! {

// ── Names ────────────────────────────────────────────────────────────────

/// The ASCII capital of a letter; any other character stays.
pub open spec fn ascii_capital(c: char) -> char {
    if 'a' <= c <= 'z' {
        ((c as u32) - 32) as char
    } else {
        c
    }
}

/// The letter that the names of instances of a class start with: the capital
/// of the class name's first letter.
pub open spec fn name_letter(class_name: Seq<char>) -> char {
    if class_name.len() > 0 {
        ascii_capital(class_name[0])
    } else {
        'X'
    }
}

/// The `n`th name of an instance whose class name starts with `letter`.
pub open spec fn numbered_name(letter: char, n: nat) -> Seq<char> {
    seq![letter] + decimal(n)
}

/// Whether a node of the scene stands for `name`.
pub open spec fn is_taken(scene: Scene, name: Seq<char>) -> bool {
    exists|i: int| 0 <= i < scene.nodes@.len() && stands_for(#[trigger] scene.nodes@[i], name)
}

/// Whether the node stands for `name` of the source.
pub open spec fn stands_for(n: SceneNode, name: Seq<char>) -> bool {
    n.origin matches Some(o) && o@ == name
}

/// Whether `name` is the first of the numbered names that is free.
pub open spec fn is_next_name(name: Seq<char>, letter: char, scene: Scene, n: nat) -> bool {
    &&& n >= 1
    &&& name == numbered_name(letter, n)
    &&& !is_taken(scene, name)
    &&& forall|m: nat| 1 <= m < n ==> is_taken(scene, #[trigger] numbered_name(letter, m))
}

fn capital_of(c: char) -> (r: char)
    ensures
        r == ascii_capital(c),
{
    if 'a' <= c && c <= 'z' {
        (c as u8 - 32) as char
    } else {
        c
    }
}

fn name_is_taken(scene: &Scene, name: &str) -> (r: bool)
    ensures
        r == is_taken(*scene, name@),
{
    let mut i: usize = 0;
    while i < scene.nodes.len()
        invariant
            i <= scene.nodes@.len(),
            forall|j: int| 0 <= j < i ==> !stands_for(#[trigger] scene.nodes@[j], name@),
        decreases scene.nodes@.len() - i,
    {
        if let Some(o) = &scene.nodes[i].origin {
            if same_text(o.as_str(), name) {
                assert(stands_for(scene.nodes@[i as int], name@));
                return true;
            }
        }
        i += 1;
    }
    false
}

proof fn lemma_numbered_names_differ(letter: char, m: nat, n: nat)
    requires
        numbered_name(letter, m) == numbered_name(letter, n),
    ensures
        m == n,
{
    let a = numbered_name(letter, m);
    let b = numbered_name(letter, n);
    assert(a.skip(1) =~= decimal(m));
    assert(b.skip(1) =~= decimal(n));
    law_decimal_round_trip(m);
    law_decimal_round_trip(n);
}

/// Each taken name has a node of its own, so there are no more taken names
/// than nodes.
proof fn lemma_taken_names_are_few(scene: Scene, letter: char, n: nat)
    requires
        forall|m: nat| 1 <= m <= n ==> is_taken(scene, #[trigger] numbered_name(letter, m)),
    ensures
        n <= scene.nodes@.len(),
{
    let holder = |m: int|
        choose|i: int|
            0 <= i < scene.nodes@.len() && stands_for(
                #[trigger] scene.nodes@[i],
                numbered_name(letter, m as nat),
            );
    let used = Seq::new(n, |k: int| holder(k + 1));
    assert forall|k: int| 0 <= k < n implies 0 <= #[trigger] used[k] < scene.nodes@.len()
        && stands_for(scene.nodes@[used[k]], numbered_name(letter, (k + 1) as nat)) by {
        assert(is_taken(scene, numbered_name(letter, (k + 1) as nat)));
    }
    assert forall|i: int, j: int| 0 <= i < used.len() && 0 <= j < used.len() && i
        != j implies used[i] != used[j] by {
        if used[i] == used[j] {
            lemma_numbered_names_differ(letter, (i + 1) as nat, (j + 1) as nat);
        }
    }
    let all = vstd::set_lib::set_int_range(0, scene.nodes@.len() as int);
    vstd::set_lib::lemma_int_range(0, scene.nodes@.len() as int);
    used.unique_seq_to_set();
    assert(used.to_set().subset_of(all));
    vstd::set_lib::lemma_len_subset(used.to_set(), all);
}

/// The name for the next instance of a class: the capital of the class name's
/// first letter and the smallest number, from one up, for which no node of the
/// scene stands.
pub fn pick_add_instance_name(comp: &ComponentDef, scene: &Scene) -> (r: String)
    requires
        scene.nodes@.len() < u64::MAX,
    ensures
        exists|n: nat| #[trigger] is_next_name(r@, name_letter(comp.name@), *scene, n),
{
    let chars = chars_of(comp.name.as_str());
    let letter: char = if chars.len() > 0 {
        capital_of(chars[0])
    } else {
        'X'
    };
    let mut prefix = String::new();
    prefix.push(letter);
    assert(prefix@ =~= seq![letter]);
    let mut n: u64 = 1;
    loop
        invariant
            1 <= n <= scene.nodes@.len() + 1,
            scene.nodes@.len() < u64::MAX,
            letter == name_letter(comp.name@),
            prefix@ == seq![letter],
            forall|m: nat| 1 <= m < n ==> is_taken(*scene, #[trigger] numbered_name(letter, m)),
        decreases scene.nodes@.len() + 1 - n,
    {
        let number = decimal_text(n);
        let candidate = text2(prefix.as_str(), number.as_str());
        if !name_is_taken(scene, candidate.as_str()) {
            assert(is_next_name(candidate@, letter, *scene, n as nat));
            return candidate;
        }
        proof {
            lemma_taken_names_are_few(*scene, letter, n as nat);
        }
        n += 1;
    }
}

/// What the menu of a node shows above its entries: the instance's name and
/// its class. Both are empty where the node is gone.
pub fn component_headers(scene: &Scene, id: u64) -> (r: (String, String))
    requires
        scene.wf(),
    ensures
        match scene.node_spec(id) {
            Some(n) => r.0@ == n.label@ && r.1@ == (match n.data {
                NodeData::Icon(d) => d.qualified_type@,
                _ => Seq::empty(),
            }),
            None => r.0@.len() == 0 && r.1@.len() == 0,
        },
{
    match scene.node(id) {
        Some(n) => {
            let class_path = match &n.data {
                NodeData::Icon(d) => d.qualified_type.clone(),
                _ => String::new(),
            };
            (n.label.clone(), class_path)
        },
        None => (String::new(), String::new()),
    }
}

// ── Components ───────────────────────────────────────────────────────────

/// The parameters that have a default, with it.
pub open spec fn default_modifications(params: Seq<ParamDef>) -> Seq<(Seq<char>, Seq<char>)>
    decreases params.len(),
{
    if params.len() == 0 {
        Seq::empty()
    } else {
        let rest = default_modifications(params.drop_last());
        let p = params.last();
        if p.default@.len() > 0 {
            rest.push((p.name@, p.default@))
        } else {
            rest
        }
    }
}

/// The edit that adds an instance of a class at a point of the canvas, twenty
/// by twenty around it, with the defaults of its parameters written out.
pub open spec fn add_component_op(
    comp: ComponentDef,
    instance_name: Seq<char>,
    at_world: Pos,
    class: Seq<char>,
) -> OpView {
    let m = to_modelica(at_world);
    OpView::AddComponent {
        class,
        class_path: comp.msl_path@,
        name: instance_name,
        modifications: default_modifications(comp.parameters@),
        placement: Placement {
            x: m.x,
            y: m.y,
            width: ratio_spec(20, 1),
            height: ratio_spec(20, 1),
        },
    }
}

fn modifications_of(params: &Vec<ParamDef>) -> (r: Vec<(String, String)>)
    ensures
        pair_views(r@) == default_modifications(params@),
{
    let mut out: Vec<(String, String)> = Vec::new();
    let mut i: usize = 0;
    assert(pair_views(out@) =~= default_modifications(params@.take(0)));
    while i < params.len()
        invariant
            i <= params@.len(),
            pair_views(out@) == default_modifications(params@.take(i as int)),
        decreases params@.len() - i,
    {
        let p = &params[i];
        assert(params@.take(i + 1).drop_last() =~= params@.take(i as int));
        assert(params@.take(i + 1).last() == params@[i as int]);
        if !p.default.as_str().is_empty() {
            let ghost before = out@;
            out.push((p.name.clone(), p.default.clone()));
            assert(pair_views(out@) =~= pair_views(before).push((p.name@, p.default@)));
        }
        i += 1;
    }
    assert(params@.take(i as int) =~= params@);
    out
}

/// The edit that adds an instance of a class at a point of the canvas.
pub fn op_add_component_with_name(
    comp: &ComponentDef,
    instance_name: &str,
    at_world: Pos,
    class: &str,
) -> (r: ModelicaOp)
    ensures
        r@ == add_component_op(*comp, instance_name@, at_world, class@),
{
    let m = canvas_to_modelica(at_world);
    ModelicaOp::AddComponent {
        class: class.to_owned(),
        class_path: comp.msl_path.clone(),
        name: instance_name.to_owned(),
        modifications: modifications_of(&comp.parameters),
        placement: Placement {
            x: m.x,
            y: m.y,
            width: Fixed::whole(20),
            height: Fixed::whole(20),
        },
    }
}

/// Where a port lies in the twenty by twenty box of a new instance: where the
/// class places it in its frame of two hundred by two hundred, scaled down, or
/// where ports without a placement go.
pub open spec fn new_port_offset(p: PortDef, i: int) -> Pos {
    let size = ratio_spec(20, 1);
    if p.at.x.steps == 0 && p.at.y.steps == 0 {
        fallback_offset(i as nat, size, size)
    } else {
        Pos {
            x: p.at.x.plus_spec(ratio_spec(100, 1)).over_spec(ratio_spec(10, 1)),
            y: ratio_spec(100, 1).minus_spec(p.at.y).over_spec(ratio_spec(10, 1)),
        }
    }
}

pub open spec fn is_new_port(s: ScenePort, p: PortDef, i: int) -> bool {
    &&& s.id@ == p.name@
    &&& s.local_offset == new_port_offset(p, i)
    &&& s.kind == p.kind
}

/// Whether `n` shows a new instance of a class at a point of the canvas.
pub open spec fn is_new_instance(
    n: SceneNode,
    comp: ComponentDef,
    instance_name: Seq<char>,
    at_world: Pos,
) -> bool {
    let size = ratio_spec(20, 1);
    let half = ratio_spec(10, 1);
    &&& n.rect == Rect::sized_spec(
        Pos { x: at_world.x.minus_spec(half), y: at_world.y.minus_spec(half) },
        size,
        size,
    )
    &&& n.label@ == instance_name
    &&& stands_for(n, instance_name)
    &&& !n.resizable
    &&& n.visual_rect is None
    &&& n.ports@.len() == comp.ports@.len()
    &&& forall|i: int|
        0 <= i < n.ports@.len() ==> is_new_port(#[trigger] n.ports@[i], comp.ports@[i], i)
    &&& n.data matches NodeData::Icon(d) && {
        &&& d.qualified_type@ == comp.msl_path@
        &&& d.icon_only == comp.is_icon_only
        &&& d.expandable_connector == comp.is_expandable_connector
        &&& d.icon_graphics == comp.icon_graphics
        &&& d.diagram_graphics == (if comp.class_kind@ == "connector"@ {
            comp.diagram_graphics
        } else {
            None
        })
        &&& d.rotation_deg == (Fixed { steps: 0 })
        &&& !d.mirror_x
        &&& !d.mirror_y
        &&& d.instance_name@ == instance_name
        &&& pair_views(d.parameters@) == comp.parameters@.map_values(
            |p: ParamDef| (p.name@, p.default@),
        )
        &&& d.port_connector_paths@.len() == comp.ports@.len()
        &&& forall|i: int|
            0 <= i < comp.ports@.len() ==> is_connector_of(
                #[trigger] d.port_connector_paths@[i],
                comp.ports@[i],
            )
        &&& !d.is_conditional
    }
}

fn new_ports(ports: &Vec<PortDef>) -> (r: Vec<ScenePort>)
    ensures
        r@.len() == ports@.len(),
        forall|i: int| 0 <= i < r@.len() ==> is_new_port(#[trigger] r@[i], ports@[i], i),
{
    let size = Fixed::whole(20);
    let mut out: Vec<ScenePort> = Vec::new();
    let mut i: usize = 0;
    while i < ports.len()
        invariant
            i <= ports@.len(),
            size == ratio_spec(20, 1),
            out@.len() == i,
            forall|j: int| 0 <= j < i ==> is_new_port(#[trigger] out@[j], ports@[j], j),
        decreases ports@.len() - i,
    {
        let p = &ports[i];
        let local_offset = if p.at.x.steps == 0 && p.at.y.steps == 0 {
            port_fallback_offset_for_size(i, ports.len(), size, size)
        } else {
            let ten = Fixed::whole(10);
            Pos {
                x: p.at.x.plus(Fixed::whole(100)).over(ten),
                y: Fixed::whole(100).minus(p.at.y).over(ten),
            }
        };
        out.push(ScenePort { id: p.name.clone(), local_offset, kind: p.kind });
        i += 1;
    }
    out
}

fn default_parameters(params: &Vec<ParamDef>) -> (r: Vec<(String, String)>)
    ensures
        pair_views(r@) == params@.map_values(|p: ParamDef| (p.name@, p.default@)),
{
    let mut out: Vec<(String, String)> = Vec::new();
    let mut i: usize = 0;
    while i < params.len()
        invariant
            i <= params@.len(),
            out@.len() == i,
            forall|j: int|
                0 <= j < i ==> (#[trigger] out@[j]).0@ == params@[j].name@ && out@[j].1@
                    == params@[j].default@,
        decreases params@.len() - i,
    {
        out.push((params[i].name.clone(), params[i].default.clone()));
        i += 1;
    }
    assert(pair_views(out@) =~= params@.map_values(|p: ParamDef| (p.name@, p.default@)));
    out
}

/// Shows a new instance of a class in the scene before the source has it, and
/// gives its id.
pub fn synthesize_msl_node(
    scene: &mut Scene,
    comp: &ComponentDef,
    instance_name: &str,
    at_world: Pos,
) -> (id: u64)
    requires
        old(scene).wf(),
        old(scene).next_node < u64::MAX,
    ensures
        final(scene).wf(),
        id == old(scene).next_node,
        final(scene).next_node == id + 1,
        final(scene).next_edge == old(scene).next_edge,
        final(scene).edges == old(scene).edges,
        final(scene).nodes@.len() == old(scene).nodes@.len() + 1,
        final(scene).nodes@.drop_last() == old(scene).nodes@,
        final(scene).nodes@.last().id == id,
        is_new_instance(final(scene).nodes@.last(), *comp, instance_name@, at_world),
{
    let half = Fixed::whole(10);
    let size = Fixed::whole(20);
    let min = Pos { x: at_world.x.minus(half), y: at_world.y.minus(half) };
    let diagram_graphics = if same_text(comp.class_kind.as_str(), "connector") {
        comp.diagram_graphics
    } else {
        None
    };
    let node = SceneNode {
        id: 0,
        rect: Rect::from_min_size(min, size, size),
        data: NodeData::Icon(
            IconNodeData {
                qualified_type: comp.msl_path.clone(),
                icon_only: comp.is_icon_only,
                expandable_connector: comp.is_expandable_connector,
                icon_graphics: comp.icon_graphics,
                diagram_graphics,
                rotation_deg: Fixed { steps: 0 },
                mirror_x: false,
                mirror_y: false,
                instance_name: instance_name.to_owned(),
                parameters: default_parameters(&comp.parameters),
                port_connector_paths: project_connectors(&comp.ports),
                is_conditional: false,
            },
        ),
        ports: new_ports(&comp.ports),
        label: instance_name.to_owned(),
        origin: Some(instance_name.to_owned()),
        resizable: false,
        visual_rect: None,
    };
    let ghost nodes0 = scene.nodes@;
    let id = scene.insert_node(node);
    assert(scene.nodes@.drop_last() =~= nodes0);
    id
}

// ── Plots ────────────────────────────────────────────────────────────────

/// Whether `n` is a plot of a signal with its corner at a point of the canvas,
/// sixty by forty, that the source does not have.
pub open spec fn is_new_plot(n: SceneNode, at: Pos, entity: u64, signal_path: Seq<char>) -> bool {
    &&& n.rect == (Rect {
        min: at,
        max: Pos { x: at.x.plus_spec(ratio_spec(60, 1)), y: at.y.plus_spec(ratio_spec(40, 1)) },
    })
    &&& n.data matches NodeData::Plot(d) && d.entity == entity && d.signal_path@ == signal_path
        && d.title@.len() == 0
    &&& n.ports@.len() == 0
    &&& n.label@.len() == 0
    &&& n.origin is None
    &&& n.resizable
    &&& n.visual_rect is None
}

/// Adds a plot at a point of the canvas. Entity zero with an empty signal is a
/// plot that is bound later.
pub fn insert_plot_node(scene: &mut Scene, click_world: Pos, entity: u64, signal_path: &str)
    requires
        old(scene).wf(),
        old(scene).next_node < u64::MAX,
    ensures
        final(scene).wf(),
        final(scene).next_node == old(scene).next_node + 1,
        final(scene).next_edge == old(scene).next_edge,
        final(scene).edges == old(scene).edges,
        final(scene).nodes@.len() == old(scene).nodes@.len() + 1,
        final(scene).nodes@.drop_last() == old(scene).nodes@,
        final(scene).nodes@.last().id == old(scene).next_node,
        is_new_plot(final(scene).nodes@.last(), click_world, entity, signal_path@),
{
    let max = Pos {
        x: click_world.x.plus(Fixed::whole(60)),
        y: click_world.y.plus(Fixed::whole(40)),
    };
    let node = SceneNode {
        id: 0,
        rect: Rect { min: click_world, max },
        data: NodeData::Plot(
            PlotNodeData { entity, signal_path: signal_path.to_owned(), title: String::new() },
        ),
        ports: Vec::new(),
        label: String::new(),
        origin: None,
        resizable: true,
        visual_rect: None,
    };
    let ghost nodes0 = scene.nodes@;
    let _ = scene.insert_node(node);
    assert(scene.nodes@.drop_last() =~= nodes0);
}

/// Binds the plot node `id` to a signal; its title is cleared. Nothing happens
/// where the node is gone.
pub fn rebind_plot_node(scene: &mut Scene, id: u64, entity: u64, signal_path: &str)
    requires
        old(scene).wf(),
    ensures
        final(scene).wf(),
        final(scene).edges == old(scene).edges,
        final(scene).next_node == old(scene).next_node,
        final(scene).next_edge == old(scene).next_edge,
        final(scene).nodes@.len() == old(scene).nodes@.len(),
        forall|i: int|
            0 <= i < old(scene).nodes@.len() && old(scene).node_place(id) != Some(i)
                ==> #[trigger] final(scene).nodes@[i] == old(scene).nodes@[i],
        old(scene).node_place(id) matches Some(i) ==> {
            let before = old(scene).nodes@[i];
            let after = final(scene).nodes@[i];
            &&& after == (SceneNode { data: after.data, ..before })
            &&& after.data matches NodeData::Plot(d) && d.entity == entity && d.signal_path@
                == signal_path@ && d.title@.len() == 0
        },
{
    if let Some(i) = scene.find_node(id) {
        scene.nodes[i].data = NodeData::Plot(
            PlotNodeData { entity, signal_path: signal_path.to_owned(), title: String::new() },
        );
    }
}

// ── Laws ─────────────────────────────────────────────────────────────────

/// The name of a new instance starts with the class name's first letter, made a
/// capital where it is a small letter of ASCII, and goes on with a number from
/// one up. No node of the scene stands for it.
pub proof fn law_new_names_are_the_first_free(
    name: Seq<char>,
    class_name: Seq<char>,
    scene: Scene,
    n: nat,
)
    requires
        is_next_name(name, name_letter(class_name), scene, n),
    ensures
        n >= 1,
        name.skip(1) == decimal(n),
        name.len() > 1,
        class_name.len() == 0 ==> name[0] == 'X',
        class_name.len() > 0 && 'a' <= class_name[0] <= 'z' ==> name[0] as u32
            == class_name[0] as u32 - 32,
        class_name.len() > 0 && !('a' <= class_name[0] <= 'z') ==> name[0] == class_name[0],
        forall|i: int|
            0 <= i < scene.nodes@.len() && (#[trigger] scene.nodes@[i]).origin is Some ==> (
            scene.nodes@[i].origin->0)@ != name,
{
    assert(name.skip(1) =~= decimal(n));
    crate::text::lemma_decimal_is_digits(n);
    let letter = name_letter(class_name);
    assert(name[0] == letter);
    if class_name.len() > 0 {
        lemma_capital(class_name[0]);
    }
    assert forall|i: int|
        0 <= i < scene.nodes@.len() && (#[trigger] scene.nodes@[i]).origin is Some implies (
    scene.nodes@[i].origin->0)@ != name by {
        assert(!stands_for(scene.nodes@[i], name));
    }
}

/// For every number under that of a new instance's name, a node of the scene
/// stands for the name that it would give.
pub proof fn law_smaller_names_are_taken(
    name: Seq<char>,
    class_name: Seq<char>,
    scene: Scene,
    n: nat,
    m: nat,
) -> (i: int)
    requires
        is_next_name(name, name_letter(class_name), scene, n),
        1 <= m < n,
    ensures
        0 <= i < scene.nodes@.len(),
        scene.nodes@[i].origin is Some,
        (scene.nodes@[i].origin->0)@ == seq![name[0]] + decimal(m),
{
    let letter = name_letter(class_name);
    assert(name[0] == letter);
    assert(is_taken(scene, numbered_name(letter, m)));
    let i = choose|i: int|
        0 <= i < scene.nodes@.len() && stands_for(
            #[trigger] scene.nodes@[i],
            numbered_name(letter, m),
        );
    assert(seq![name[0]] + decimal(m) =~= numbered_name(letter, m));
    i
}

proof fn lemma_capital(c: char)
    ensures
        'a' <= c <= 'z' ==> ascii_capital(c) as u32 == c as u32 - 32,
        !('a' <= c <= 'z') ==> ascii_capital(c) == c,
{
}

/// The defaults that a new instance writes out are those of its parameters, every
/// one that is not empty, under its name and in order: there are increasing places
/// of parameters, one for each.
pub proof fn law_defaults_are_written_out(params: Seq<ParamDef>) -> (at: Seq<int>)
    ensures
        at.len() == default_modifications(params).len(),
        forall|a: int, b: int| 0 <= a < b < at.len() ==> at[a] < at[b],
        forall|i: int|
            0 <= i < params.len() ==> (at.contains(i) <==> (#[trigger] params[i]).default@.len()
                > 0),
        forall|k: int|
            0 <= k < at.len() ==> {
                &&& 0 <= #[trigger] at[k] < params.len()
                &&& default_modifications(params)[k] == (
                params[at[k]].name@, params[at[k]].default@)
            },
    decreases params.len(),
{
    if params.len() == 0 {
        Seq::empty()
    } else {
        let rest = params.drop_last();
        let before = law_defaults_are_written_out(rest);
        let n = params.len() - 1;
        let at = if params.last().default@.len() > 0 {
            before.push(n)
        } else {
            before
        };
        assert forall|i: int| 0 <= i < params.len() implies (at.contains(i) <==> (
        #[trigger] params[i]).default@.len() > 0) by {
            if i < n {
                assert(rest[i] == params[i]);
                assert(before.contains(i) <==> rest[i].default@.len() > 0);
                if before.contains(i) {
                    let k = choose|k: int| 0 <= k < before.len() && before[k] == i;
                    assert(at[k] == i);
                }
                if at.contains(i) {
                    let k = choose|k: int| 0 <= k < at.len() && at[k] == i;
                    assert(before[k] == i);
                }
            } else {
                if params[i].default@.len() > 0 {
                    assert(at[before.len() as int] == i);
                }
                if at.contains(i) {
                    let k = choose|k: int| 0 <= k < at.len() && at[k] == i;
                    if k < before.len() {
                        assert(before[k] == i);
                    }
                }
            }
        }
        assert forall|k: int| 0 <= k < at.len() implies {
            &&& 0 <= #[trigger] at[k] < params.len()
            &&& default_modifications(params)[k] == (params[at[k]].name@, params[at[k]].default@)
        } by {
            if k < before.len() {
                assert(at[k] == before[k]);
                assert(rest[before[k]] == params[before[k]]);
            }
        }
        at
    }
}

/// The edit that adds an instance names the edited class, the class of the
/// instance and the instance, and puts it where the user pointed: there lies the
/// centre of its box of twenty by twenty.
pub proof fn law_new_instance_lands_where_the_user_pointed(
    comp: ComponentDef,
    name: Seq<char>,
    at: Pos,
    class: Seq<char>,
    n: SceneNode,
)
    requires
        is_new_instance(n, comp, name, at),
        -crate::fixed::MAX_STEPS + 20 * UNIT <= at.x.steps <= crate::fixed::MAX_STEPS - 20 * UNIT,
        -crate::fixed::MAX_STEPS + 20 * UNIT <= at.y.steps <= crate::fixed::MAX_STEPS - 20 * UNIT,
    ensures
        ({
            let op = add_component_op(comp, name, at, class);
            &&& op is AddComponent
            &&& op->AddComponent_class == class
            &&& op->AddComponent_class_path == comp.msl_path@
            &&& op->AddComponent_name == name
            &&& op->AddComponent_modifications == default_modifications(comp.parameters@)
            &&& op->AddComponent_placement.x == at.x
            &&& op->AddComponent_placement.y.steps == -at.y.steps
            &&& op->AddComponent_placement.width.steps == 20 * UNIT
            &&& op->AddComponent_placement.height.steps == 20 * UNIT
        }),
        n.rect.min.x.steps == at.x.steps - 10 * UNIT,
        n.rect.min.y.steps == at.y.steps - 10 * UNIT,
        n.rect.max.x.steps == at.x.steps + 10 * UNIT,
        n.rect.max.y.steps == at.y.steps + 10 * UNIT,
        n.label@ == name,
        n.origin is Some && (n.origin->0)@ == name,
        n.data is Icon,
        n.data->Icon_0.qualified_type@ == comp.msl_path@,
        n.data->Icon_0.instance_name@ == name,
        n.data->Icon_0.icon_graphics == comp.icon_graphics,
        n.data->Icon_0.rotation_deg.steps == 0,
        !n.data->Icon_0.mirror_x && !n.data->Icon_0.mirror_y,
        n.ports@.len() == comp.ports@.len(),
{
    crate::fixed::law_ratios_of_whole_numbers(20, 1);
    crate::fixed::law_ratios_of_whole_numbers(10, 1);
}

/// A placed port of a new instance lies in the box of twenty by twenty where the
/// class places it in its frame from minus a hundred to a hundred: a tenth of its
/// distance from the left edge, and of its distance from the upper edge, to within
/// a step. A port without a placement lies on the left edge or on the right one, by
/// turns, the first two half-way down. Ports keep their names and kinds.
pub proof fn law_new_ports_are_scaled_down(n: SceneNode, comp: ComponentDef, name: Seq<char>, at: Pos, i: int)
    requires
        is_new_instance(n, comp, name, at),
        0 <= i < comp.ports@.len(),
        -100 * UNIT <= comp.ports@[i].at.x.steps <= 100 * UNIT,
        -100 * UNIT <= comp.ports@[i].at.y.steps <= 100 * UNIT,
    ensures
        ({
            let p = comp.ports@[i];
            let o = n.ports@[i].local_offset;
            &&& n.ports@[i].id@ == p.name@
            &&& n.ports@[i].kind == p.kind
            &&& p.at.x.steps != 0 || p.at.y.steps != 0 ==> {
                &&& 0 <= p.at.x.steps + 100 * UNIT - 10 * o.x.steps < 10
                &&& 0 <= 100 * UNIT - p.at.y.steps - 10 * o.y.steps < 10
            }
            &&& p.at.x.steps == 0 && p.at.y.steps == 0 ==> {
                &&& i % 2 == 0 ==> o.x.steps == 0
                &&& i % 2 == 1 ==> o.x.steps == 20 * UNIT
                &&& 0 <= o.y.steps <= 20 * UNIT
                &&& i < 2 ==> o.y.steps == 10 * UNIT
            }
        }),
{
    let p = comp.ports@[i];
    assert(is_new_port(n.ports@[i], p, i));
    crate::fixed::law_ratios_of_whole_numbers(100, 1);
    crate::fixed::law_ratios_of_whole_numbers(10, 1);
    crate::fixed::law_ratios_of_whole_numbers(20, 1);
    crate::geometry::law_ports_without_placement(i as nat, ratio_spec(20, 1), ratio_spec(20, 1));
    lemma_tenth(Fixed { steps: (p.at.x.steps + 100 * UNIT) as i64 });
    lemma_tenth(Fixed { steps: (100 * UNIT - p.at.y.steps) as i64 });
}

proof fn lemma_tenth(a: Fixed)
    requires
        0 <= a.steps <= 200 * UNIT,
    ensures
        0 <= a.steps - 10 * a.over_spec(ratio_spec(10, 1)).steps < 10,
{
    crate::fixed::law_ratios_of_whole_numbers(10, 1);
    let n = a.steps * UNIT;
    let d = 10 * UNIT;
    assert(n / d == a.steps / 10) by (nonlinear_arith)
        requires
            n == a.steps * UNIT,
            d == 10 * UNIT,
            UNIT == 0x1_0000_0000,
            a.steps >= 0,
    ;
}

/// A new plot has its corner where the user pointed, is sixty wide and forty high,
/// and shows the signal that was picked.
pub proof fn law_new_plot_is_sixty_by_forty(n: SceneNode, at: Pos, entity: u64, signal: Seq<char>)
    requires
        is_new_plot(n, at, entity, signal),
        at.in_bounds(),
        at.x.steps <= crate::fixed::MAX_STEPS - 60 * UNIT,
        at.y.steps <= crate::fixed::MAX_STEPS - 60 * UNIT,
    ensures
        n.rect.min == at,
        n.rect.max.x.steps - n.rect.min.x.steps == 60 * UNIT,
        n.rect.max.y.steps - n.rect.min.y.steps == 40 * UNIT,
        n.data is Plot,
        n.data->Plot_0.entity == entity,
        n.data->Plot_0.signal_path@ == signal,
        n.origin is None,
{
    crate::fixed::law_ratios_of_whole_numbers(60, 1);
    crate::fixed::law_ratios_of_whole_numbers(40, 1);
}

/// A new instance shows its class: its graphics, those of the diagram annotation
/// for connectors alone, its parameters under their names with the defaults of the
/// class, and the connectors of its ports. It cannot be resized and is there without
/// condition.
pub proof fn law_new_instance_shows_its_class(
    n: SceneNode,
    comp: ComponentDef,
    name: Seq<char>,
    at: Pos,
    i: int,
)
    requires
        is_new_instance(n, comp, name, at),
        0 <= i,
    ensures
        !n.resizable,
        n.visual_rect is None,
        n.data matches NodeData::Icon(d) && {
            &&& d.icon_only == comp.is_icon_only
            &&& d.expandable_connector == comp.is_expandable_connector
            &&& comp.class_kind@ == "connector"@ ==> d.diagram_graphics == comp.diagram_graphics
            &&& comp.class_kind@ != "connector"@ ==> d.diagram_graphics is None
            &&& !d.is_conditional
            &&& d.parameters@.len() == comp.parameters@.len()
            &&& i < comp.parameters@.len() ==> d.parameters@[i].0@ == comp.parameters@[i].name@
                && d.parameters@[i].1@ == comp.parameters@[i].default@
            &&& d.port_connector_paths@.len() == comp.ports@.len()
            &&& i < comp.ports@.len() ==> {
                let c = d.port_connector_paths@[i];
                let p = comp.ports@[i];
                &&& c.port@ == p.name@
                &&& c.path@ == p.msl_path@
                &&& c.size_x == p.size_x && c.size_y == p.size_y
                &&& c.rotation_deg == p.rotation_deg
            }
        },
{
    if let NodeData::Icon(d) = n.data {
        let shown = pair_views(d.parameters@);
        let asked = comp.parameters@.map_values(|p: ParamDef| (p.name@, p.default@));
        assert(shown.len() == d.parameters@.len());
        if i < comp.parameters@.len() {
            assert(shown[i] == asked[i]);
        }
        if i < comp.ports@.len() {
            assert(is_connector_of(d.port_connector_paths@[i], comp.ports@[i]));
        }
    }
}

/// A new plot stands for nothing in the source, has no title and no ports, and can
/// be resized.
pub proof fn law_new_plot_is_free(n: SceneNode, at: Pos, entity: u64, signal: Seq<char>)
    requires
        is_new_plot(n, at, entity, signal),
    ensures
        n.origin is None,
        n.resizable,
        n.ports@.len() == 0,
        n.data matches NodeData::Plot(d) && d.title@.len() == 0,
{
}

} // verus!
