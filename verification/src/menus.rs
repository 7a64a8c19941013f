//! The menus of nodes, edges and the empty canvas.
use crate::components::{
    add_component_op, component_headers, is_new_instance, is_next_name, is_taken, name_letter,
    op_add_component_with_name, pick_add_instance_name, stands_for, synthesize_msl_node,
};
use crate::fixed::{ratio_spec, Fixed};
use crate::geometry::Pos;
use crate::model::ComponentDef;
use crate::ops::{
    is_only_op, op_remove_component, op_remove_edge, remove_edge_op, remove_node_op, ModelicaOp,
};
use crate::scene::{edges_apart_from, NodeData, Scene};
use crate::text::{is_name_order, name_order, places, same_text, views};
use vstd::prelude::*;

verus! {

// ── Nodes ────────────────────────────────────────────────────────────────

/// What the menu of a node shows.
#[derive(Debug, PartialEq, Eq)]
pub enum NodeMenu {
    /// A plot with its signal, which is empty where none is bound.
    Plot { signal_path: String },
    /// Anything else, with its name and its class.
    Component { instance: String, class_path: String },
}

/// What the menu of the node `id` shows.
pub fn node_menu(scene: &Scene, id: u64) -> (r: NodeMenu)
    requires
        scene.wf(),
    ensures
        match scene.node_spec(id) {
            Some(n) => match n.data {
                NodeData::Plot(d) => r matches NodeMenu::Plot { signal_path } && signal_path@
                    == d.signal_path@,
                NodeData::Icon(d) => r matches NodeMenu::Component { instance, class_path }
                    && instance@ == n.label@ && class_path@ == d.qualified_type@,
                NodeData::Text(_) => r matches NodeMenu::Component { instance, class_path }
                    && instance@ == n.label@ && class_path@.len() == 0,
            },
            None => r matches NodeMenu::Component { instance, class_path } && instance@.len() == 0
                && class_path@.len() == 0,
        },
{
    if let Some(n) = scene.node(id) {
        if let NodeData::Plot(d) = &n.data {
            return NodeMenu::Plot { signal_path: d.signal_path.clone() };
        }
    }
    let (instance, class_path) = component_headers(scene, id);
    NodeMenu::Component { instance, class_path }
}

/// The line below the heading of a plot's menu.
pub fn plot_subtitle(signal_path: &str) -> (r: String)
    ensures
        r@ == (if signal_path@.len() == 0 {
            "(unbound)"@
        } else {
            signal_path@
        }),
{
    if signal_path.is_empty() {
        "(unbound)".to_owned()
    } else {
        signal_path.to_owned()
    }
}

/// Whether `after` is `before` without the node `id` and the edges that end at
/// it.
pub open spec fn is_without_node(before: Scene, after: Scene, id: u64) -> bool {
    &&& after.next_node == before.next_node
    &&& after.next_edge == before.next_edge
    &&& match before.node_place(id) {
        Some(i) => after.nodes@ == before.nodes@.remove(i) && after.edges@ == edges_apart_from(
            before.edges@,
            id,
        ),
        None => after.nodes == before.nodes && after.edges == before.edges,
    }
}

/// Deletes the node `id` from its menu, and gives the edit of the source. The
/// node leaves the scene at once, where there is an edit for it.
pub fn delete_component(scene: &mut Scene, id: u64, class: Option<&str>) -> (r: Option<ModelicaOp>)
    requires
        old(scene).wf(),
    ensures
        final(scene).wf(),
        match class {
            Some(c) => is_only_op(r, remove_node_op(*old(scene), id, c@)),
            None => r is None,
        },
        r is Some ==> is_without_node(*old(scene), *final(scene), id),
        r is None ==> *final(scene) == *old(scene),
{
    match class {
        Some(c) => {
            let op = op_remove_component(scene, id, c);
            if op.is_some() {
                let _ = scene.remove_node(id);
            }
            op
        },
        None => None,
    }
}

/// Deletes the plot `id` from its menu. A plot is not written to the source
/// from there.
pub fn delete_plot(scene: &mut Scene, id: u64)
    requires
        old(scene).wf(),
    ensures
        final(scene).wf(),
        is_without_node(*old(scene), *final(scene), id),
{
    let _ = scene.remove_node(id);
}

/// Whether `after` is `before` without the edge `id`.
pub open spec fn is_without_edge(before: Scene, after: Scene, id: u64) -> bool {
    &&& after.nodes == before.nodes
    &&& after.edges@ == (match before.edge_place(id) {
        Some(i) => before.edges@.remove(i),
        None => before.edges@,
    })
}

/// Deletes the edge `id` from its menu, and gives the edit of the source. The
/// edge leaves the scene at once, where there is an edit for it.
pub fn delete_edge(scene: &mut Scene, id: u64, class: Option<&str>) -> (r: Option<ModelicaOp>)
    requires
        old(scene).wf(),
    ensures
        final(scene).wf(),
        match class {
            Some(c) => is_only_op(r, remove_edge_op(*old(scene), id, c@)),
            None => r is None,
        },
        r is Some ==> is_without_edge(*old(scene), *final(scene), id),
        r is None ==> final(scene).edges@ == old(scene).edges@,
        final(scene).nodes == old(scene).nodes,
        final(scene).next_node == old(scene).next_node,
        final(scene).next_edge == old(scene).next_edge,
{
    match class {
        Some(c) => {
            let op = op_remove_edge(scene, id, c);
            if op.is_some() {
                scene.remove_edge(id);
            }
            op
        },
        None => None,
    }
}

// ── Signals ──────────────────────────────────────────────────────────────

/// A signal that a plot can show: the host's number for the simulation, and the
/// name of the quantity.
#[derive(Debug, PartialEq, Eq)]
pub struct Signal {
    pub entity: u64,
    pub path: String,
}

/// An entry of the list of signals: the signal by its place, and whether the
/// plot shows it.
#[derive(Debug, PartialEq, Eq)]
pub struct SignalEntry {
    pub place: usize,
    pub is_current: bool,
}

pub open spec fn signal_paths(signals: Seq<Signal>) -> Seq<Seq<char>> {
    signals.map_values(|s: Signal| s.path@)
}

pub open spec fn entry_places(entries: Seq<SignalEntry>) -> Seq<int> {
    entries.map_values(|e: SignalEntry| e.place as int)
}

/// The signals in the order of their names, with the mark of the one that the
/// plot shows.
pub fn signal_menu(signals: &Vec<Signal>, entity: u64, signal_path: &str) -> (r: Vec<SignalEntry>)
    ensures
        is_name_order(entry_places(r@), signal_paths(signals@)),
        forall|i: int|
            0 <= i < r@.len() ==> {
                let s = signals@[(#[trigger] r@[i]).place as int];
                r@[i].is_current == (s.entity == entity && s.path@ == signal_path@)
            },
{
    let mut names: Vec<String> = Vec::new();
    let mut i: usize = 0;
    while i < signals.len()
        invariant
            i <= signals@.len(),
            names@.len() == i,
            forall|j: int| 0 <= j < i ==> (#[trigger] names@[j])@ == signals@[j].path@,
        decreases signals@.len() - i,
    {
        names.push(signals[i].path.clone());
        i += 1;
    }
    assert(views(names@) =~= signal_paths(signals@));
    let order = name_order(&names);
    let ghost ord = places(order@);
    let mut out: Vec<SignalEntry> = Vec::new();
    let mut k: usize = 0;
    while k < order.len()
        invariant
            k <= order@.len(),
            ord == places(order@),
            is_name_order(ord, signal_paths(signals@)),
            out@.len() == k,
            forall|j: int|
                0 <= j < k ==> {
                    let s = signals@[(#[trigger] out@[j]).place as int];
                    &&& out@[j].place == ord[j]
                    &&& out@[j].is_current == (s.entity == entity && s.path@ == signal_path@)
                },
        decreases order@.len() - k,
    {
        assert(ord[k as int] == order@[k as int]);
        let place: usize = order[k];
        let is_current = signals[place].entity == entity && same_text(
            signals[place].path.as_str(),
            signal_path,
        );
        out.push(SignalEntry { place, is_current });
        k += 1;
    }
    assert(entry_places(out@) =~= ord);
    out
}

/// The least height of the menu that lists signals: eighteen pixels a row with
/// three rows besides, at most seven tenths of the screen but never capped below
/// a hundred and eighty.
pub fn plot_menu_height(signals: usize, screen_height: Fixed) -> (r: Fixed)
    requires
        signals <= u64::MAX - 3,
    ensures
        r == ratio_spec(18, 1).many_spec((signals + 3) as nat).min_spec(
            screen_height.times_spec(ratio_spec(7, 10)).max_spec(ratio_spec(180, 1)),
        ),
{
    let most = screen_height.times(Fixed::ratio(7, 10)).larger(Fixed::whole(180));
    Fixed::whole(18).many(signals as u64 + 3).smaller(most)
}

// ── Adding classes ───────────────────────────────────────────────────────

/// Whether `after` is `before` with a new instance of a class under `name`.
pub open spec fn is_instance_added(
    before: Scene,
    after: Scene,
    comp: ComponentDef,
    name: Seq<char>,
    at: Pos,
) -> bool {
    &&& after.edges == before.edges
    &&& after.next_edge == before.next_edge
    &&& after.next_node == before.next_node + 1
    &&& after.nodes@.len() == before.nodes@.len() + 1
    &&& after.nodes@.drop_last() == before.nodes@
    &&& after.nodes@.last().id == before.next_node
    &&& is_new_instance(after.nodes@.last(), comp, name, at)
}

/// Whether `name` is the free name for the next instance of the class.
pub open spec fn is_free_name(name: Seq<char>, comp: ComponentDef, scene: Scene) -> bool {
    exists|n: nat| #[trigger] is_next_name(name, name_letter(comp.name@), scene, n)
}

/// Whether an instance of the class was added to the scene, under the next free
/// name, and `op` is the edit that adds it to the source.
pub open spec fn is_added(
    before: Scene,
    after: Scene,
    comp: ComponentDef,
    at: Pos,
    class: Seq<char>,
    op: ModelicaOp,
) -> bool {
    exists|name: Seq<char>|
        {
            &&& #[trigger] is_free_name(name, comp, before)
            &&& is_instance_added(before, after, comp, name, at)
            &&& op@ == add_component_op(comp, name, at, class)
        }
}

/// Adds an instance of a class at a point of the canvas: the scene shows it at
/// once, and the edit adds it to the source.
pub fn add_instance(scene: &mut Scene, comp: &ComponentDef, at: Pos, class: &str) -> (op: ModelicaOp)
    requires
        old(scene).wf(),
        old(scene).next_node < u64::MAX,
        old(scene).nodes@.len() < u64::MAX,
    ensures
        final(scene).wf(),
        is_added(*old(scene), *final(scene), *comp, at, class@, op),
{
    let name = pick_add_instance_name(comp, scene);
    let ghost before = *scene;
    assert(is_free_name(name@, *comp, before));
    let _ = synthesize_msl_node(scene, comp, name.as_str(), at);
    assert(is_instance_added(before, *scene, *comp, name@, at));
    op_add_component_with_name(comp, name.as_str(), at, class)
}

/// Adds the class that was picked from the menu of the empty canvas. Nothing
/// happens where no class is edited.
pub fn add_from_menu(scene: &mut Scene, comp: &ComponentDef, at: Pos, class: Option<&str>) -> (r:
    Option<ModelicaOp>)
    requires
        old(scene).wf(),
        old(scene).next_node < u64::MAX,
        old(scene).nodes@.len() < u64::MAX,
    ensures
        final(scene).wf(),
        match (class, r) {
            (Some(c), Some(op)) => is_added(*old(scene), *final(scene), *comp, at, c@, op),
            (None, None) => *final(scene) == *old(scene),
            _ => false,
        },
{
    match class {
        Some(c) => Some(add_instance(scene, comp, at, c)),
        None => None,
    }
}

// ── Laws ─────────────────────────────────────────────────────────────────

/// Two instances that are added one after the other have different names.
pub proof fn law_added_instances_differ(
    s0: Scene,
    s1: Scene,
    first: ComponentDef,
    name: Seq<char>,
    at: Pos,
    second: ComponentDef,
    next: Seq<char>,
)
    requires
        is_free_name(name, first, s0),
        is_instance_added(s0, s1, first, name, at),
        is_free_name(next, second, s1),
    ensures
        name != next,
{
    let last = s1.nodes@[s1.nodes@.len() - 1];
    assert(stands_for(last, name));
    assert(is_taken(s1, name));
}

/// An added instance leaves every node that was there as it was, and no node
/// stood for its name.
pub proof fn law_added_instance_disturbs_nothing(
    s0: Scene,
    s1: Scene,
    comp: ComponentDef,
    name: Seq<char>,
    at: Pos,
)
    requires
        is_free_name(name, comp, s0),
        is_instance_added(s0, s1, comp, name, at),
    ensures
        !is_taken(s0, name),
        forall|i: int| 0 <= i < s0.nodes@.len() ==> #[trigger] s1.nodes@[i] == s0.nodes@[i],
        s1.edges == s0.edges,
{
    assert forall|i: int| 0 <= i < s0.nodes@.len() implies #[trigger] s1.nodes@[i]
        == s0.nodes@[i] by {
        assert(s1.nodes@.drop_last()[i] == s1.nodes@[i]);
    }
}

/// A deleted node is gone, and so is every edge that ended at it; every other node
/// and every other edge stays as it was.
pub proof fn law_deleting_takes_the_node_and_its_edges(
    before: Scene,
    after: Scene,
    id: u64,
    i: int,
    e: int,
)
    requires
        before.wf(),
        is_without_node(before, after, id),
        exists|k: int| 0 <= k < before.nodes@.len() && (#[trigger] before.nodes@[k]).id == id,
        0 <= i < before.nodes@.len(),
        0 <= e < before.edges@.len(),
    ensures
        after.nodes@.len() == before.nodes@.len() - 1,
        forall|k: int| 0 <= k < after.nodes@.len() ==> (#[trigger] after.nodes@[k]).id != id,
        before.nodes@[i].id != id ==> after.nodes@.contains(before.nodes@[i]),
        before.edges@[e].from.node != id && before.edges@[e].to.node != id
            ==> after.edges@.contains(before.edges@[e]),
        forall|k: int|
            0 <= k < after.edges@.len() ==> (#[trigger] after.edges@[k]).from.node != id
                && after.edges@[k].to.node != id,
{
    let p = before.node_place(id)->0;
    crate::scene::law_ids_find_their_nodes(before, p, id);
    crate::scene::law_no_edge_is_left_dangling(before.edges@, id);
    assert forall|k: int| 0 <= k < after.nodes@.len() implies (#[trigger] after.nodes@[k]).id
        != id by {
        let m = if k < p {
            k
        } else {
            k + 1
        };
        assert(after.nodes@[k] == before.nodes@[m]);
    }
    if before.nodes@[i].id != id {
        let m = if i < p {
            i
        } else {
            i - 1
        };
        assert(after.nodes@[m] == before.nodes@[i]);
    }
    if before.edges@[e].from.node != id && before.edges@[e].to.node != id {
        lemma_other_edges_stay(before.edges@, id, e);
    }
}

proof fn lemma_other_edges_stay(edges: Seq<crate::scene::SceneEdge>, id: u64, e: int)
    requires
        0 <= e < edges.len(),
        edges[e].from.node != id,
        edges[e].to.node != id,
    ensures
        edges_apart_from(edges, id).contains(edges[e]),
    decreases edges.len(),
{
    let rest = edges.drop_last();
    let before = edges_apart_from(rest, id);
    let all = edges_apart_from(edges, id);
    if e < rest.len() {
        assert(rest[e] == edges[e]);
        lemma_other_edges_stay(rest, id, e);
        let k = choose|k: int| 0 <= k < before.len() && before[k] == edges[e];
        assert(all[k] == edges[e]);
    } else {
        assert(all[before.len() as int] == edges[e]);
    }
}

/// What is added from a menu and what the source is told agree: the new node
/// stands for the name that the edit gives the instance, no node stood for that
/// name before, and the placement's centre is the middle of the node.
pub proof fn law_scene_and_source_add_the_same(
    before: Scene,
    after: Scene,
    comp: ComponentDef,
    at: Pos,
    class: Seq<char>,
    op: ModelicaOp,
)
    requires
        is_added(before, after, comp, at, class, op),
        -crate::fixed::MAX_STEPS + 20 * crate::fixed::UNIT <= at.x.steps,
        at.x.steps <= crate::fixed::MAX_STEPS - 20 * crate::fixed::UNIT,
        -crate::fixed::MAX_STEPS + 20 * crate::fixed::UNIT <= at.y.steps,
        at.y.steps <= crate::fixed::MAX_STEPS - 20 * crate::fixed::UNIT,
    ensures
        op@ is AddComponent,
        after.nodes@.len() == before.nodes@.len() + 1,
        ({
            let n = after.nodes@.last();
            let p = op@->AddComponent_placement;
            &&& n.origin is Some
            &&& (n.origin->0)@ == op@->AddComponent_name
            &&& op@->AddComponent_class == class
            &&& op@->AddComponent_class_path == comp.msl_path@
            &&& n.rect.min.x.steps + n.rect.max.x.steps == 2 * p.x.steps
            &&& n.rect.min.y.steps + n.rect.max.y.steps == -2 * p.y.steps
            &&& n.rect.max.x.steps - n.rect.min.x.steps == p.width.steps
            &&& n.rect.max.y.steps - n.rect.min.y.steps == p.height.steps
        }),
        forall|i: int|
            0 <= i < before.nodes@.len() && (#[trigger] before.nodes@[i]).origin is Some ==> (
            before.nodes@[i].origin->0)@ != op@->AddComponent_name,
{
    let name = choose|name: Seq<char>|
        {
            &&& #[trigger] is_free_name(name, comp, before)
            &&& is_instance_added(before, after, comp, name, at)
            &&& op@ == add_component_op(comp, name, at, class)
        };
    crate::components::law_new_instance_lands_where_the_user_pointed(
        comp,
        name,
        at,
        class,
        after.nodes@.last(),
    );
    assert forall|i: int|
        0 <= i < before.nodes@.len() && (#[trigger] before.nodes@[i]).origin is Some implies (
    before.nodes@[i].origin->0)@ != op@->AddComponent_name by {
        assert(!is_taken(before, name));
        assert(!stands_for(before.nodes@[i], name));
    }
}

/// The list of signals shows each signal once, and a name never stands before one
/// that comes before it in the order of texts.
pub proof fn law_signals_are_listed_by_name(
    entries: Seq<SignalEntry>,
    signals: Seq<Signal>,
    i: int,
    j: int,
)
    requires
        is_name_order(entry_places(entries), signal_paths(signals)),
        0 <= i < j < entries.len(),
    ensures
        entries.len() == signals.len(),
        entries[i].place != entries[j].place,
        0 <= entries[i].place < signals.len(),
        0 <= entries[j].place < signals.len(),
        crate::text::lex_le(
            signals[entries[i].place as int].path@,
            signals[entries[j].place as int].path@,
        ),
{
    let order = entry_places(entries);
    let names = signal_paths(signals);
    assert(order[i] == entries[i].place);
    assert(order[j] == entries[j].place);
    assert(crate::text::name_before(names, order[i], order[j]));
    crate::text::law_name_order_has_no_repeats(order, names);
}

/// A deleted edge is gone; every other edge stays, in order, and so does every
/// node.
pub proof fn law_deleting_an_edge_takes_it_alone(before: Scene, after: Scene, e: int, k: int)
    requires
        before.wf(),
        0 <= e < before.edges@.len(),
        is_without_edge(before, after, before.edges@[e].id),
        0 <= k < before.edges@.len(),
    ensures
        after.nodes == before.nodes,
        after.edges@.len() == before.edges@.len() - 1,
        k < e ==> after.edges@[k] == before.edges@[k],
        k > e ==> after.edges@[k - 1] == before.edges@[k],
        k != e ==> before.edges@[k].id != before.edges@[e].id,
{
    crate::scene::law_ids_find_their_edges(before, e, before.edges@[e].id);
}

} // verus!
