//! When a diagram is projected, and how a finished projection replaces the
//! scene on the canvas.
use crate::classes::GraphicItem;
use crate::decorations::{
    are_decorations, decorations, emit_diagram_decorations, DecorationView,
};
use crate::fixed::Fixed;
use crate::geometry::Pos;
use crate::scene::{NodeData, Scene, SceneNode};
use crate::source_slice::{projection_relevant_source_hash, relevant_hash};
use crate::state::{
    drawn, is_drawn, lemma_place_of, with_canvas, Background, CanvasDiagramState, CanvasDocState,
    ProjectionTask, SelectItem, Viewport,
};
use crate::text::{opt_view, position_of, same_opt_text, same_text, views};
use vstd::prelude::*;
use vstd::string::StringSliceAdditionalSpecFns;

verus! {

// ── Settings ─────────────────────────────────────────────────────────────

/// How many components a diagram may have before it is not projected.
pub const DEFAULT_MAX_DIAGRAM_NODES: usize = 1000;

/// How long a projection may run before it is given up, in milliseconds.
pub const DEFAULT_MAX_DURATION_MS: u64 = 60_000;

/// The longest source that is projected, in bytes.
pub const PROJECTION_SOURCE_HARD_CEILING: usize = 10_000_000;

/// Guards against projecting more than the canvas can show.
#[derive(Clone, Copy, Debug, PartialEq, Eq, Structural)]
pub struct DiagramProjectionLimits {
    pub max_nodes: usize,
    pub max_duration_ms: u64,
}

impl Default for DiagramProjectionLimits {
    fn default() -> (r: DiagramProjectionLimits)
        ensures
            r.max_nodes == 1000,
            r.max_duration_ms == 60_000,
    {
        DiagramProjectionLimits {
            max_nodes: DEFAULT_MAX_DIAGRAM_NODES,
            max_duration_ms: DEFAULT_MAX_DURATION_MS,
        }
    }
}

// ── Whether to project ───────────────────────────────────────────────────

/// What a frame knows of the document that it shows.
#[derive(Debug, PartialEq, Eq)]
pub struct DocumentFacts<'a> {
    /// The generation of the source.
    pub generation: u64,
    /// The class that the tab points at, where it points at one.
    pub target: Option<String>,
    /// Whether the syntax tree is older than the source.
    pub ast_stale: bool,
    /// The source, where the document is installed.
    pub source: Option<&'a str>,
}

/// The hash of the relevant part of the source, zero where there is none.
pub open spec fn source_hash(source: Option<&str>) -> u64 {
    match source {
        Some(s) => relevant_hash(s@),
        None => 0,
    }
}

/// Whether the source has changed since the scene was projected, other than by
/// an edit that the canvas made itself.
pub open spec fn source_advanced(ds: CanvasDocState, generation: u64) -> bool {
    generation != ds.last_seen_gen && generation > ds.canvas_acked_gen
}

/// Whether the scene was projected for another class.
pub open spec fn target_changed(ds: CanvasDocState, target: Option<String>) -> bool {
    opt_view(target) != opt_view(ds.last_seen_target)
}

/// Whether the canvas is projected: when it is drawn for the first time, when
/// the class changes, and when the relevant part of the source changes other
/// than by the canvas itself. Never while the syntax tree is stale.
pub open spec fn must_project(
    st: CanvasDiagramState,
    tab: Option<u64>,
    doc: u64,
    facts: DocumentFacts,
) -> bool {
    let ds = drawn(st.canvases@, tab, doc);
    !facts.ast_stale && (!is_drawn(st.canvases@, tab, doc) || target_changed(ds, facts.target) || (
    source_advanced(ds, facts.generation) && source_hash(facts.source)
        != ds.last_seen_source_hash))
}

/// Whether only the irrelevant part of the source has changed.
pub open spec fn only_irrelevant_edit(
    st: CanvasDiagramState,
    tab: Option<u64>,
    doc: u64,
    facts: DocumentFacts,
) -> bool {
    let ds = drawn(st.canvases@, tab, doc);
    !facts.ast_stale && is_drawn(st.canvases@, tab, doc) && !target_changed(ds, facts.target)
        && source_advanced(ds, facts.generation) && source_hash(facts.source)
        == ds.last_seen_source_hash
}

/// Whether the canvas of the tab, or the first of the document where no tab is
/// drawn, is projected in this frame. An edit of the irrelevant part of the
/// source is marked as seen there, and in no other canvas.
pub fn needs_projection(
    st: &mut CanvasDiagramState,
    tab: Option<u64>,
    doc: u64,
    facts: &DocumentFacts,
) -> (r: bool)
    requires
        old(st).wf(),
    ensures
        final(st).wf(),
        r == must_project(*old(st), tab, doc, *facts),
        final(st).fallback == old(st).fallback,
        final(st).canvases@ == (if only_irrelevant_edit(*old(st), tab, doc, *facts) {
            with_canvas(
                old(st).canvases@,
                tab,
                doc,
                (CanvasDocState {
                    last_seen_gen: facts.generation,
                    ..drawn(old(st).canvases@, tab, doc)
                }),
            )
        } else {
            old(st).canvases@
        }),
{
    if facts.ast_stale {
        return false;
    }
    let entry = match tab {
        Some(t) => st.has_entry_for_tab(t),
        None => st.has_entry(doc),
    };
    if !entry {
        return true;
    }
    let ds = st.get_for_render(tab, Some(doc));
    if !same_opt_text(&facts.target, &ds.last_seen_target) {
        return true;
    }
    let generation = facts.generation;
    if !(generation != ds.last_seen_gen && generation > ds.canvas_acked_gen) {
        return false;
    }
    let new_hash: u64 = match facts.source {
        Some(s) => projection_relevant_source_hash(s),
        None => 0,
    };
    if new_hash != ds.last_seen_source_hash {
        return true;
    }
    proof {
        lemma_place_of(st.canvases@, tab, doc);
    }
    let ds = st.get_mut_for_render(tab, Some(doc));
    ds.last_seen_gen = generation;
    false
}

// ── Starting ─────────────────────────────────────────────────────────────

/// What the host does to start a projection.
#[derive(Clone, Copy, Debug, PartialEq, Eq, Structural)]
pub struct ProjectionStart {
    /// A task that is no longer of use; the host tells it to stop.
    pub cancel: Option<u64>,
    /// Whether the host starts a task under the number it offered.
    pub spawn: bool,
}

/// Whether the task that runs was started for another generation.
pub open spec fn is_stale(task: Option<ProjectionTask>, generation: u64) -> bool {
    task matches Some(t) && t.gen_at_spawn != generation
}

/// Whether a new task is called for: there is none, or it is stale.
pub open spec fn wants_task(ds: CanvasDocState, generation: u64) -> bool {
    ds.projection_task is None || is_stale(ds.projection_task, generation)
}

/// Whether a source is too long to be projected.
pub open spec fn is_too_long(source: &str) -> bool {
    source.spec_bytes().len() as usize > PROJECTION_SOURCE_HARD_CEILING
}

/// The generation that counts as seen once a projection has started. A change
/// of class makes the next scene the first one, which is framed anew. A source
/// that is too long counts as seen.
pub open spec fn gen_after_start(
    ds: CanvasDocState,
    generation: u64,
    target: Option<String>,
    source: &str,
) -> u64 {
    if wants_task(ds, generation) && is_too_long(source) {
        generation
    } else if target_changed(ds, target) {
        0
    } else {
        ds.last_seen_gen
    }
}

/// Whether the projection of a document was prepared: the canvas `was` became `after`,
/// with the diagram annotation of the class, and without a task that ran for an
/// older generation.
pub open spec fn is_begun(
    r: ProjectionStart,
    was: CanvasDocState,
    after: CanvasDocState,
    generation: u64,
    target: Option<String>,
    background: Option<Background>,
    source: &str,
    handle: u64,
    now: u64,
    limits: DiagramProjectionLimits,
) -> bool {
    &&& r.spawn == (wants_task(was, generation) && !is_too_long(source))
    &&& r.cancel == (if is_stale(was.projection_task, generation) {
        Some(was.projection_task->0.handle)
    } else {
        None
    })
    &&& after == (CanvasDocState {
        last_seen_gen: gen_after_start(was, generation, target, source),
        background,
        projection_task: after.projection_task,
        ..was
    })
    &&& r.spawn ==> after.projection_task == Some(
        ProjectionTask {
            handle,
            gen_at_spawn: generation,
            target_at_spawn: target,
            spawned_at: now,
            deadline: limits.max_duration_ms,
            source_hash: relevant_hash(source@),
        },
    )
    &&& !r.spawn ==> after.projection_task == (if wants_task(was, generation) {
        None
    } else {
        was.projection_task
    })
}

/// Prepares the projection of a document: takes over the diagram annotation of
/// the class, drops a task that runs for an older generation, and decides
/// whether a task is started.
pub fn begin_projection(
    ds: &mut CanvasDocState,
    facts_generation: u64,
    target: Option<String>,
    background: Option<Background>,
    source: &str,
    handle: u64,
    now: u64,
    limits: DiagramProjectionLimits,
) -> (r: ProjectionStart)
    ensures
        is_begun(
            r,
            *old(ds),
            *final(ds),
            facts_generation,
            target,
            background,
            source,
            handle,
            now,
            limits,
        ),
{
    if !same_opt_text(&target, &ds.last_seen_target) {
        ds.last_seen_gen = 0;
    }
    ds.background = background;
    let mut cancel: Option<u64> = None;
    if let Some(t) = &ds.projection_task {
        if t.gen_at_spawn != facts_generation {
            cancel = Some(t.handle);
        }
    }
    if cancel.is_some() {
        ds.projection_task = None;
    }
    let mut spawn = false;
    if ds.projection_task.is_none() {
        if source.len() > PROJECTION_SOURCE_HARD_CEILING {
            ds.last_seen_gen = facts_generation;
        } else {
            ds.projection_task = Some(
                ProjectionTask {
                    handle,
                    gen_at_spawn: facts_generation,
                    target_at_spawn: target,
                    spawned_at: now,
                    deadline: limits.max_duration_ms,
                    source_hash: projection_relevant_source_hash(source),
                },
            );
            spawn = true;
        }
    }
    ProjectionStart { cancel, spawn }
}

/// Whether a running task stops at the end of a phase: when it is told to, and
/// when its time is up.
pub fn should_stop(cancelled: bool, spawned_at: u64, deadline: u64, now: u64) -> (r: bool)
    ensures
        r == (cancelled || now - spawned_at > deadline),
{
    cancelled || (now > spawned_at && now - spawned_at > deadline)
}

// ── Giving up ────────────────────────────────────────────────────────────

/// Whether the task that runs has had its time.
pub open spec fn is_overdue(ds: CanvasDocState, now: u64) -> bool {
    ds.projection_task matches Some(t) && now - t.spawned_at > t.deadline
}

/// Drops a task that has had its time, and gives its number so that the host
/// tells it to stop. The generation then counts as seen, so the task is not
/// started again until the source changes.
pub fn give_up_when_overdue(ds: &mut CanvasDocState, now: u64, generation: Option<u64>) -> (r: Option<
    u64,
>)
    ensures
        match r {
            Some(handle) => is_overdue(*old(ds), now) && handle == old(ds).projection_task->0.handle
                && *final(ds) == (CanvasDocState {
                projection_task: None,
                last_seen_gen: match generation {
                    Some(g) => g,
                    None => old(ds).last_seen_gen,
                },
                ..*old(ds)
            }),
            None => !is_overdue(*old(ds), now) && *final(ds) == *old(ds),
        },
{
    let mut overdue: Option<u64> = None;
    if let Some(t) = &ds.projection_task {
        if should_stop(false, t.spawned_at, t.deadline, now) {
            overdue = Some(t.handle);
        }
    }
    if overdue.is_some() {
        ds.projection_task = None;
        if let Some(g) = generation {
            ds.last_seen_gen = g;
        }
    }
    overdue
}

// ── Finishing ────────────────────────────────────────────────────────────

/// What became of a finished projection.
#[derive(Debug, PartialEq, Eq)]
pub enum ProjectionResult {
    /// The canvas has moved on; the scene stays.
    Discarded,
    /// The projection shows nothing; the scene that shows something stays.
    KeptLastGood,
    /// The scene was replaced. `initial` tells that it is the first one, which
    /// is framed; `remap` gives the new ids of nodes that are still there.
    Swapped { initial: bool, remap: Vec<(u64, u64)> },
}

/// The last node that stands for `origin`, or -1.
pub open spec fn last_with_origin(nodes: Seq<SceneNode>, origin: Seq<char>) -> int
    decreases nodes.len(),
{
    if nodes.len() == 0 {
        -1
    } else if opt_view(nodes.last().origin) == Some(origin) {
        nodes.len() - 1
    } else {
        last_with_origin(nodes.drop_last(), origin)
    }
}

/// The new id of the old node at place `i`: that of the new node with the same
/// origin.
pub open spec fn new_id_of(old: Seq<SceneNode>, new: Seq<SceneNode>, i: int) -> Option<u64> {
    match opt_view(old[i].origin) {
        Some(o) => if last_with_origin(old, o) == i && last_with_origin(new, o) >= 0 {
            Some(new[last_with_origin(new, o)].id)
        } else {
            None
        },
        None => None,
    }
}

/// The old and new ids of the first `n` old nodes that are still there.
pub open spec fn remap_pairs(old: Seq<SceneNode>, new: Seq<SceneNode>, n: int) -> Seq<(u64, u64)>
    decreases n,
{
    if n <= 0 {
        Seq::empty()
    } else {
        match new_id_of(old, new, n - 1) {
            Some(id) => remap_pairs(old, new, n - 1).push((old[n - 1].id, id)),
            None => remap_pairs(old, new, n - 1),
        }
    }
}

/// Whether a selected node of the scene stands for `origin`.
pub open spec fn is_selected_origin(
    scene: Scene,
    selection: Seq<SelectItem>,
    origin: Seq<char>,
) -> bool {
    exists|k: int|
        0 <= k < selection.len() && selects_origin(scene, #[trigger] selection[k], origin)
}

/// Whether the selected item is a node that stands for `origin`.
pub open spec fn selects_origin(scene: Scene, item: SelectItem, origin: Seq<char>) -> bool {
    item matches SelectItem::Node(id) && scene.node_spec(id) matches Some(n) && opt_view(n.origin)
        == Some(origin)
}

/// The nodes that stand for a selected origin of the old scene, as a selection.
pub open spec fn carried_selection(
    nodes: Seq<SceneNode>,
    scene: Scene,
    selection: Seq<SelectItem>,
) -> Seq<SelectItem>
    decreases nodes.len(),
{
    if nodes.len() == 0 {
        Seq::empty()
    } else {
        let rest = carried_selection(nodes.drop_last(), scene, selection);
        match opt_view(nodes.last().origin) {
            Some(o) => if is_selected_origin(scene, selection, o) {
                rest.push(SelectItem::Node(nodes.last().id))
            } else {
                rest
            },
            None => rest,
        }
    }
}

/// Whether a node is a plot that the source does not have: one without an
/// origin, or with one that is not among `origins`.
pub open spec fn is_scratch_plot(n: SceneNode, origins: Seq<Seq<char>>) -> bool {
    n.data is Plot && (opt_view(n.origin) matches Some(o) ==> !origins.contains(o))
}

/// The scratch plots among the nodes, in order.
pub open spec fn scratch_plots(nodes: Seq<SceneNode>, origins: Seq<Seq<char>>) -> Seq<SceneNode>
    decreases nodes.len(),
{
    if nodes.len() == 0 {
        Seq::empty()
    } else {
        let rest = scratch_plots(nodes.drop_last(), origins);
        if is_scratch_plot(nodes.last(), origins) {
            rest.push(nodes.last())
        } else {
            rest
        }
    }
}

/// The graphics of the diagram annotation that is shown.
pub open spec fn background_graphics_of(ds: CanvasDocState) -> Seq<GraphicItem> {
    match ds.background {
        Some(b) => b.graphics@,
        None => Seq::empty(),
    }
}

/// Whether `s` is the projected scene with the texts and plots of the diagram
/// annotation, and behind them the scratch plots of the scene before, under
/// fresh ids.
pub open spec fn is_swapped_scene(
    s: Scene,
    projected: Scene,
    old_nodes: Seq<SceneNode>,
    graphics: Seq<GraphicItem>,
) -> bool {
    let ds = decorations(graphics, graphics.len() as int);
    let carried = scratch_plots(old_nodes, ds.map_values(|d: DecorationView| d.origin));
    let n = projected.nodes@.len() as int;
    let m = n + ds.len() as int;
    &&& s.edges == projected.edges
    &&& s.nodes@.len() == m + carried.len()
    &&& s.nodes@.take(n) == projected.nodes@
    &&& are_decorations(s.nodes@.take(m), n, projected.next_node as int, ds)
    &&& forall|k: int|
        0 <= k < carried.len() ==> #[trigger] s.nodes@[m + k] == (SceneNode {
            id: (projected.next_node + ds.len() + k) as u64,
            ..carried[k]
        })
}

fn find_last_origin(nodes: &Vec<SceneNode>, origin: &str) -> (r: Option<usize>)
    ensures
        match r {
            Some(i) => i == last_with_origin(nodes@, origin@) && i < nodes@.len(),
            None => last_with_origin(nodes@, origin@) == -1,
        },
{
    let mut i: usize = nodes.len();
    assert(nodes@.take(i as int) =~= nodes@);
    while i > 0
        invariant
            i <= nodes@.len(),
            last_with_origin(nodes@, origin@) == last_with_origin(nodes@.take(i as int), origin@),
        decreases i,
    {
        assert(nodes@.take(i as int).last() == nodes@[i - 1]);
        assert(nodes@.take(i as int).drop_last() =~= nodes@.take(i - 1));
        if let Some(o) = &nodes[i - 1].origin {
            if same_text(o.as_str(), origin) {
                return Some(i - 1);
            }
        }
        i -= 1;
    }
    None
}

fn remap_ids(old: &Vec<SceneNode>, new: &Vec<SceneNode>) -> (r: Vec<(u64, u64)>)
    ensures
        r@ == remap_pairs(old@, new@, old@.len() as int),
{
    let mut out: Vec<(u64, u64)> = Vec::new();
    let mut i: usize = 0;
    while i < old.len()
        invariant
            i <= old@.len(),
            out@ == remap_pairs(old@, new@, i as int),
        decreases old@.len() - i,
    {
        if let Some(o) = &old[i].origin {
            let is_last = match find_last_origin(old, o.as_str()) {
                Some(k) => k == i,
                None => false,
            };
            if is_last {
                if let Some(k) = find_last_origin(new, o.as_str()) {
                    out.push((old[i].id, new[k].id));
                }
            }
        }
        i += 1;
    }
    out
}

/// The origins of the selected nodes.
fn selected_origins(scene: &Scene, selection: &Vec<SelectItem>) -> (r: Vec<String>)
    requires
        scene.wf(),
    ensures
        forall|o: Seq<char>|
            #[trigger] views(r@).contains(o) <==> is_selected_origin(*scene, selection@, o),
{
    let mut out: Vec<String> = Vec::new();
    let mut i: usize = 0;
    while i < selection.len()
        invariant
            scene.wf(),
            i <= selection@.len(),
            forall|o: Seq<char>|
                #[trigger] views(out@).contains(o) <==> is_selected_origin(
                    *scene,
                    selection@.take(i as int),
                    o,
                ),
        decreases selection@.len() - i,
    {
        let ghost before = out@;
        let ghost taken = selection@.take(i as int);
        let ghost more = selection@.take(i + 1);
        let ghost item = selection@[i as int];
        if let SelectItem::Node(id) = selection[i] {
            if let Some(n) = scene.node(id) {
                if let Some(o) = &n.origin {
                    out.push(o.clone());
                    assert(views(out@) =~= views(before).push(o@));
                }
            }
        }
        assert forall|o: Seq<char>| #[trigger]
            views(out@).contains(o) <==> is_selected_origin(*scene, more, o) by {
            assert(more[i as int] == item);
            assert(forall|k: int| 0 <= k < i ==> more[k] == taken[k]);
            if views(out@).contains(o) {
                let k = choose|k: int| 0 <= k < views(out@).len() && views(out@)[k] == o;
                if k < before.len() {
                    assert(views(before)[k] == o);
                    assert(views(before).contains(o));
                    let j = choose|j: int|
                        0 <= j < taken.len() && selects_origin(*scene, #[trigger] taken[j], o);
                    assert(selects_origin(*scene, more[j], o));
                } else {
                    assert(selects_origin(*scene, more[i as int], o));
                }
            }
            if is_selected_origin(*scene, more, o) {
                let j = choose|j: int|
                    0 <= j < more.len() && selects_origin(*scene, #[trigger] more[j], o);
                if j < i {
                    assert(selects_origin(*scene, taken[j], o));
                    assert(is_selected_origin(*scene, taken, o));
                    assert(views(before).contains(o));
                    let k = choose|k: int| 0 <= k < views(before).len() && views(before)[k] == o;
                    assert(views(out@)[k] == o);
                } else {
                    assert(views(out@)[before.len() as int] == o);
                }
            }
        }
        i += 1;
    }
    assert(selection@.take(i as int) =~= selection@);
    out
}

fn select_carried(
    nodes: &Vec<SceneNode>,
    origins: &Vec<String>,
    Ghost(scene): Ghost<Scene>,
    Ghost(selection): Ghost<Seq<SelectItem>>,
) -> (r: Vec<SelectItem>)
    requires
        forall|o: Seq<char>|
            #[trigger] views(origins@).contains(o) <==> is_selected_origin(scene, selection, o),
    ensures
        r@ == carried_selection(nodes@, scene, selection),
{
    let mut out: Vec<SelectItem> = Vec::new();
    let mut i: usize = 0;
    while i < nodes.len()
        invariant
            i <= nodes@.len(),
            forall|o: Seq<char>|
                #[trigger] views(origins@).contains(o) <==> is_selected_origin(scene, selection, o),
            out@ == carried_selection(nodes@.take(i as int), scene, selection),
        decreases nodes@.len() - i,
    {
        assert(nodes@.take(i + 1).drop_last() =~= nodes@.take(i as int));
        assert(nodes@.take(i + 1).last() == nodes@[i as int]);
        if let Some(o) = &nodes[i].origin {
            let found = position_of(origins, o.as_str());
            proof {
                if found is Some {
                    assert(views(origins@)[found->0 as int] == o@);
                    assert(views(origins@).contains(o@));
                } else if views(origins@).contains(o@) {
                    let k = choose|k: int|
                        0 <= k < views(origins@).len() && views(origins@)[k] == o@;
                    assert(origins@[k]@ == o@);
                }
            }
            if found.is_some() {
                out.push(SelectItem::Node(nodes[i].id));
            }
        }
        i += 1;
    }
    assert(nodes@.take(i as int) =~= nodes@);
    out
}

fn plot_is_scratch(n: &SceneNode, origins: &Vec<String>) -> (r: bool)
    ensures
        r == is_scratch_plot(*n, views(origins@)),
{
    let is_plot = match &n.data {
        NodeData::Plot(_) => true,
        _ => false,
    };
    if !is_plot {
        return false;
    }
    match &n.origin {
        Some(o) => {
            let found = position_of(origins, o.as_str());
            proof {
                if found is Some {
                    assert(views(origins@)[found->0 as int] == o@);
                } else if views(origins@).contains(o@) {
                    let k = choose|k: int|
                        0 <= k < views(origins@).len() && views(origins@)[k] == o@;
                    assert(origins@[k]@ == o@);
                }
            }
            found.is_none()
        },
        None => true,
    }
}

/// Moves the scratch plots of the old nodes into the scene, under fresh ids.
fn carry_scratch_plots(scene: &mut Scene, old_nodes: Vec<SceneNode>, origins: &Vec<String>)
    requires
        old(scene).wf(),
        old(scene).next_node + old_nodes@.len() <= u64::MAX,
    ensures
        final(scene).wf(),
        final(scene).edges == old(scene).edges,
        final(scene).next_edge == old(scene).next_edge,
        ({
            let carried = scratch_plots(old_nodes@, views(origins@));
            let m = old(scene).nodes@.len() as int;
            &&& final(scene).nodes@.len() == m + carried.len()
            &&& final(scene).nodes@.take(m) == old(scene).nodes@
            &&& forall|k: int|
                0 <= k < carried.len() ==> #[trigger] final(scene).nodes@[m + k] == (SceneNode {
                    id: (old(scene).next_node + k) as u64,
                    ..carried[k]
                })
        }),
{
    let ghost all = old_nodes@;
    let ghost first = scene.next_node as int;
    let ghost m = scene.nodes@.len() as int;
    let ghost nodes0 = scene.nodes@;
    let ghost mut done: int = 0;
    let mut rest = old_nodes;
    assert(all.skip(0) =~= all);
    assert(scene.nodes@.take(m) =~= nodes0);
    while rest.len() > 0
        invariant
            scene.wf(),
            scene.edges == old(scene).edges,
            scene.next_edge == old(scene).next_edge,
            0 <= done <= all.len(),
            rest@ == all.skip(done),
            nodes0 == old(scene).nodes@,
            m == nodes0.len(),
            first + all.len() <= u64::MAX,
            scratch_plots(all.take(done), views(origins@)).len() <= done,
            scene.next_node == first + scratch_plots(all.take(done), views(origins@)).len(),
            scene.nodes@.len() == m + scratch_plots(all.take(done), views(origins@)).len(),
            scene.nodes@.take(m) == nodes0,
            forall|k: int|
                0 <= k < scratch_plots(all.take(done), views(origins@)).len()
                    ==> #[trigger] scene.nodes@[m + k] == (SceneNode {
                    id: (first + k) as u64,
                    ..scratch_plots(all.take(done), views(origins@))[k]
                }),
        decreases all.len() - done,
    {
        let ghost before = scene.nodes@;
        let ghost plots = scratch_plots(all.take(done), views(origins@));
        assert(rest@[0] == all[done]);
        assert(all.take(done + 1).drop_last() =~= all.take(done));
        assert(all.take(done + 1).last() == all[done]);
        let n = rest.remove(0);
        assert(rest@ =~= all.skip(done + 1));
        if plot_is_scratch(&n, origins) {
            let _ = scene.insert_node(n);
            assert(scene.nodes@.take(m) =~= before.take(m));
            let ghost more = scratch_plots(all.take(done + 1), views(origins@));
            assert(more == plots.push(all[done]));
            assert forall|k: int| 0 <= k < more.len() implies #[trigger] scene.nodes@[m + k] == (
            SceneNode { id: (first + k) as u64, ..more[k] }) by {
                if k < plots.len() {
                    assert(scene.nodes@[m + k] == before[m + k]);
                } else {
                    assert(scene.nodes@[m + k] == scene.nodes@.last());
                }
            }
        }
        proof {
            done = done + 1;
        }
    }
    assert(all.take(done) =~= all);
}

/// Whether a finished projection of the canvas `was` became `r` and left the canvas
/// `now`: it was discarded, it replaced nothing, or its scene was swapped in.
pub open spec fn is_finished(
    r: ProjectionResult,
    was: CanvasDocState,
    now: CanvasDocState,
    scene: Scene,
) -> bool {
    let t = was.projection_task->0;
    let keeps = scene.nodes@.len() == 0 && was.scene.nodes@.len() > 0;
    match r {
        ProjectionResult::Discarded => {
            &&& t.gen_at_spawn < was.canvas_acked_gen
            &&& now == (CanvasDocState { projection_task: None, ..was })
        },
        ProjectionResult::KeptLastGood => {
            &&& t.gen_at_spawn >= was.canvas_acked_gen
            &&& keeps
            &&& now == (CanvasDocState {
                projection_task: None,
                last_seen_gen: t.gen_at_spawn,
                last_seen_target: t.target_at_spawn,
                last_seen_source_hash: t.source_hash,
                ..was
            })
        },
        ProjectionResult::Swapped { initial, remap } => {
            &&& t.gen_at_spawn >= was.canvas_acked_gen
            &&& !keeps
            &&& initial == (was.last_seen_gen == 0)
            &&& remap@ == remap_pairs(
                was.scene.nodes@,
                scene.nodes@,
                was.scene.nodes@.len() as int,
            )
            &&& now == (CanvasDocState {
                projection_task: None,
                last_seen_gen: t.gen_at_spawn,
                last_seen_target: t.target_at_spawn,
                last_seen_source_hash: t.source_hash,
                scene: now.scene,
                selection: now.selection,
                ..was
            })
            &&& is_swapped_scene(
                now.scene,
                scene,
                was.scene.nodes@,
                background_graphics_of(was),
            )
            &&& now.selection@ == carried_selection(now.scene.nodes@, was.scene, was.selection@)
        },
    }
}

/// Hands a finished projection to the canvas.
///
/// A projection of a source that is older than what the canvas shows is
/// discarded, and one that shows nothing does not replace a scene that shows
/// something. Otherwise the projected scene replaces the scene, with the texts
/// and plots of the diagram annotation; plots that the source does not have
/// stay, and so does the selection, by what the nodes stand for.
pub fn finish_projection(ds: &mut CanvasDocState, scene: Scene) -> (r: ProjectionResult)
    requires
        old(ds).wf(),
        old(ds).projection_task is Some,
        scene.wf(),
        scene.next_node + background_graphics_of(*old(ds)).len() + old(ds).scene.nodes@.len()
            <= u64::MAX,
    ensures
        final(ds).wf(),
        final(ds).projection_task is None,
        is_finished(r, *old(ds), *final(ds), scene),
{
    let task = ds.projection_task.take().unwrap();
    if task.gen_at_spawn < ds.canvas_acked_gen {
        return ProjectionResult::Discarded;
    }
    let initial = ds.last_seen_gen == 0;
    ds.last_seen_gen = task.gen_at_spawn;
    ds.last_seen_target = task.target_at_spawn;
    ds.last_seen_source_hash = task.source_hash;
    if scene.nodes.len() == 0 && ds.scene.nodes.len() > 0 {
        return ProjectionResult::KeptLastGood;
    }
    let ghost old_scene = ds.scene;
    let ghost old_selection = ds.selection@;
    let origins = selected_origins(&ds.scene, &ds.selection);
    let remap = remap_ids(&ds.scene.nodes, &scene.nodes);
    let ghost projected = scene;
    let ghost graphics = background_graphics_of(*ds);
    let mut new_scene = scene;
    let emitted = match &ds.background {
        Some(b) => emit_diagram_decorations(&mut new_scene, &b.graphics),
        None => {
            let none: Vec<GraphicItem> = Vec::new();
            assert(none@ =~= graphics);
            emit_diagram_decorations(&mut new_scene, &none)
        },
    };
    let ghost decos = decorations(graphics, graphics.len() as int);
    let ghost n = projected.nodes@.len() as int;
    let ghost m = n + decos.len() as int;
    let ghost with_decos = new_scene.nodes@;
    proof {
        lemma_decorations_bound(graphics, graphics.len() as int);
        assert(with_decos.take(m) =~= with_decos);
    }
    let mut old = Scene::new();
    std::mem::swap(&mut old, &mut ds.scene);
    carry_scratch_plots(&mut new_scene, old.nodes, &emitted);
    proof {
        assert(new_scene.nodes@.take(m) == with_decos);
        assert(new_scene.nodes@.take(n) =~= with_decos.take(n));
    }
    ds.selection = select_carried(
        &new_scene.nodes,
        &origins,
        Ghost(old_scene),
        Ghost(old_selection),
    );
    ds.scene = new_scene;
    ProjectionResult::Swapped { initial, remap }
}

proof fn lemma_decorations_bound(graphics: Seq<GraphicItem>, n: int)
    requires
        0 <= n,
    ensures
        decorations(graphics, n).len() <= n,
    decreases n,
{
    if n > 0 {
        lemma_decorations_bound(graphics, n - 1);
    }
}

/// The zoom of the first frame: the one that fits, between half and twice the
/// zoom at which a millimetre is a millimetre.
pub open spec fn initial_zoom_spec(fit: Fixed, physical: Fixed) -> Fixed {
    fit.min_spec(physical.plus_spec(physical)).max_spec(physical.half_spec())
}

/// The zoom of the first frame.
pub fn initial_zoom(fit: Fixed, physical: Fixed) -> (r: Fixed)
    ensures
        r == initial_zoom_spec(fit, physical),
{
    fit.smaller(physical.plus(physical)).larger(physical.half())
}

/// The view of the first frame, where `fit` is the centre and the zoom at which
/// the scene fills the canvas: an empty scene is shown at its true size.
pub fn initial_view(fit: Option<(Pos, Fixed)>, physical: Fixed) -> (r: Viewport)
    ensures
        r == (match fit {
            Some((center, zoom)) => Viewport { center, zoom: initial_zoom_spec(zoom, physical) },
            None => Viewport {
                center: Pos { x: Fixed { steps: 0 }, y: Fixed { steps: 0 } },
                zoom: physical,
            },
        }),
{
    match fit {
        Some((center, zoom)) => Viewport { center, zoom: initial_zoom(zoom, physical) },
        None => Viewport {
            center: Pos { x: Fixed { steps: 0 }, y: Fixed { steps: 0 } },
            zoom: physical,
        },
    }
}

// ── Laws ─────────────────────────────────────────────────────────────────

/// An edit that the canvas made itself is not projected: the scene shows it
/// already.
pub proof fn law_own_edits_are_not_projected(
    st: CanvasDiagramState,
    tab: Option<u64>,
    doc: u64,
    facts: DocumentFacts,
)
    requires
        is_drawn(st.canvases@, tab, doc),
        !target_changed(drawn(st.canvases@, tab, doc), facts.target),
        facts.generation <= drawn(st.canvases@, tab, doc).canvas_acked_gen,
    ensures
        !must_project(st, tab, doc, facts),
{
}

/// A document whose generation and class are those of the last projection is
/// not projected again, whether the projection replaced the scene or not, or
/// was given up.
pub proof fn law_seen_generations_are_not_projected(
    st: CanvasDiagramState,
    tab: Option<u64>,
    doc: u64,
    facts: DocumentFacts,
)
    requires
        is_drawn(st.canvases@, tab, doc),
        !target_changed(drawn(st.canvases@, tab, doc), facts.target),
        facts.generation == drawn(st.canvases@, tab, doc).last_seen_gen,
    ensures
        !must_project(st, tab, doc, facts),
{
}

/// An edit of comments or blanks alone is not projected: where the relevant
/// parts of two sources agree, a document seen with the one needs no
/// projection for the other.
pub proof fn law_irrelevant_edits_are_not_projected(
    st: CanvasDiagramState,
    tab: Option<u64>,
    doc: u64,
    facts: DocumentFacts,
    before: Seq<char>,
)
    requires
        is_drawn(st.canvases@, tab, doc),
        !target_changed(drawn(st.canvases@, tab, doc), facts.target),
        drawn(st.canvases@, tab, doc).last_seen_source_hash == relevant_hash(before),
        facts.source is Some,
        crate::source_slice::relevant_slice(facts.source->0@)
            == crate::source_slice::relevant_slice(before),
    ensures
        !must_project(st, tab, doc, facts),
{
}

/// A document is projected the first time it is shown, and whenever the class
/// changes, once its syntax tree is up to date.
pub proof fn law_first_show_and_new_class_are_projected(
    st: CanvasDiagramState,
    tab: Option<u64>,
    doc: u64,
    facts: DocumentFacts,
)
    requires
        !facts.ast_stale,
        !is_drawn(st.canvases@, tab, doc) || target_changed(drawn(st.canvases@, tab, doc), facts.target),
    ensures
        must_project(st, tab, doc, facts),
{
}

/// After a swap a node is selected exactly when it stands for what a selected
/// node of the scene before stood for.
pub proof fn law_selection_survives_by_origin(
    nodes: Seq<SceneNode>,
    scene: Scene,
    selection: Seq<SelectItem>,
    id: u64,
)
    ensures
        carried_selection(nodes, scene, selection).contains(SelectItem::Node(id)) <==> (
        exists|i: int|
            0 <= i < nodes.len() && (#[trigger] nodes[i]).id == id && (opt_view(
                nodes[i].origin,
            ) matches Some(o) && is_selected_origin(scene, selection, o))),
    decreases nodes.len(),
{
    if nodes.len() > 0 {
        let rest = nodes.drop_last();
        law_selection_survives_by_origin(rest, scene, selection, id);
        let before = carried_selection(rest, scene, selection);
        let all = carried_selection(nodes, scene, selection);
        let item = SelectItem::Node(id);
        let last = nodes.len() - 1;
        if all.contains(item) {
            let k = choose|k: int| 0 <= k < all.len() && all[k] == item;
            if k < before.len() {
                assert(before[k] == item);
                assert(before.contains(item));
                let i = choose|i: int|
                    0 <= i < rest.len() && (#[trigger] rest[i]).id == id && (opt_view(
                        rest[i].origin,
                    ) matches Some(o) && is_selected_origin(scene, selection, o));
                assert(nodes[i] == rest[i]);
            } else {
                assert(nodes[last].id == id);
            }
        }
        if exists|i: int|
            0 <= i < nodes.len() && (#[trigger] nodes[i]).id == id && (opt_view(
                nodes[i].origin,
            ) matches Some(o) && is_selected_origin(scene, selection, o)) {
            let i = choose|i: int|
                0 <= i < nodes.len() && (#[trigger] nodes[i]).id == id && (opt_view(
                    nodes[i].origin,
                ) matches Some(o) && is_selected_origin(scene, selection, o));
            if i < last {
                assert(rest[i] == nodes[i]);
                assert(before.contains(item));
                let k = choose|k: int| 0 <= k < before.len() && before[k] == item;
                assert(all[k] == item);
            } else {
                assert(all[before.len() as int] == item);
            }
        }
    }
}

/// A canvas that was drawn before is projected exactly where its class has changed,
/// or where the source has a generation that it has neither seen nor made itself
/// and the hash of the relevant part differs from the one that it has seen. No
/// canvas is projected while the syntax tree is stale.
pub proof fn law_relevant_edits_are_projected(
    st: CanvasDiagramState,
    tab: Option<u64>,
    doc: u64,
    facts: DocumentFacts,
)
    requires
        facts.source is Some,
    ensures
        facts.ast_stale ==> !must_project(st, tab, doc, facts),
        !facts.ast_stale && is_drawn(st.canvases@, tab, doc) ==> {
            let ds = drawn(st.canvases@, tab, doc);
            let same_class = (facts.target is None && ds.last_seen_target is None) || (
            facts.target is Some && ds.last_seen_target is Some && facts.target->0@
                == ds.last_seen_target->0@);
            must_project(st, tab, doc, facts) <==> !same_class || (facts.generation
                != ds.last_seen_gen && facts.generation > ds.canvas_acked_gen && relevant_hash(
                facts.source->0@,
            ) != ds.last_seen_source_hash)
        },
        only_irrelevant_edit(st, tab, doc, facts) ==> !must_project(st, tab, doc, facts),
{
}

/// A projection is started where none runs, and in place of one that runs for
/// another generation; never beside one that runs for the same. A source of more
/// than ten million bytes is not projected, and counts as seen. A new class makes
/// the next scene the first one; otherwise the generation that was seen stays.
pub proof fn law_one_projection_at_a_time(
    ds: CanvasDocState,
    generation: u64,
    target: Option<String>,
    source: &str,
)
    ensures
        ds.projection_task is None ==> wants_task(ds, generation) && !is_stale(
            ds.projection_task,
            generation,
        ),
        ds.projection_task is Some ==> (wants_task(ds, generation) <==> is_stale(
            ds.projection_task,
            generation,
        )),
        ds.projection_task is Some ==> (is_stale(ds.projection_task, generation) <==> (
        ds.projection_task->0).gen_at_spawn != generation),
        source.spec_bytes().len() <= usize::MAX ==> (is_too_long(source)
            <==> source.spec_bytes().len() > 10_000_000),
        wants_task(ds, generation) && is_too_long(source) ==> gen_after_start(
            ds,
            generation,
            target,
            source,
        ) == generation,
        !is_too_long(source) && opt_view(target) != opt_view(ds.last_seen_target)
            ==> gen_after_start(ds, generation, target, source) == 0,
        !is_too_long(source) && opt_view(target) == opt_view(ds.last_seen_target)
            ==> gen_after_start(ds, generation, target, source) == ds.last_seen_gen,
{
}

/// A projection is overdue once more time than its own limit has passed since it
/// was started.
pub proof fn law_projections_have_a_time_limit(ds: CanvasDocState, now: u64)
    ensures
        is_overdue(ds, now) <==> ds.projection_task is Some && now > (
        ds.projection_task->0).spawned_at + (ds.projection_task->0).deadline,
{
}

proof fn lemma_last_with_origin(nodes: Seq<SceneNode>, origin: Seq<char>, i: int)
    requires
        0 <= i < nodes.len(),
        nodes[i].origin is Some,
        (nodes[i].origin->0)@ == origin,
        forall|j: int|
            i < j < nodes.len() ==> !((#[trigger] nodes[j]).origin is Some && (
            nodes[j].origin->0)@ == origin),
    ensures
        last_with_origin(nodes, origin) == i,
    decreases nodes.len(),
{
    if i < nodes.len() - 1 {
        assert(!(nodes[nodes.len() - 1].origin is Some && (nodes[nodes.len() - 1].origin->0)@
            == origin));
        lemma_last_with_origin(nodes.drop_last(), origin, i);
    }
}

proof fn lemma_last_with_origin_is(nodes: Seq<SceneNode>, origin: Seq<char>)
    ensures
        -1 <= last_with_origin(nodes, origin) < nodes.len(),
        last_with_origin(nodes, origin) >= 0 ==> opt_view(
            nodes[last_with_origin(nodes, origin)].origin,
        ) == Some(origin),
    decreases nodes.len(),
{
    if nodes.len() > 0 && opt_view(nodes.last().origin) != Some(origin) {
        lemma_last_with_origin_is(nodes.drop_last(), origin);
    }
}

proof fn lemma_remap_source(old: Seq<SceneNode>, new: Seq<SceneNode>, n: int, k: int) -> (i: int)
    requires
        0 <= n <= old.len(),
        0 <= k < remap_pairs(old, new, n).len(),
    ensures
        0 <= i < n,
        new_id_of(old, new, i) is Some,
        remap_pairs(old, new, n)[k] == (old[i].id, new_id_of(old, new, i)->0),
    decreases n,
{
    let before = remap_pairs(old, new, n - 1);
    if k < before.len() {
        lemma_remap_source(old, new, n - 1, k)
    } else {
        n - 1
    }
}

proof fn lemma_remap_pairs(old: Seq<SceneNode>, new: Seq<SceneNode>, n: int)
    requires
        0 <= n <= old.len(),
    ensures
        forall|i: int|
            0 <= i < n && (#[trigger] new_id_of(old, new, i)) is Some ==> remap_pairs(
                old,
                new,
                n,
            ).contains((old[i].id, new_id_of(old, new, i)->0)),
    decreases n,
{
    if n > 0 {
        lemma_remap_pairs(old, new, n - 1);
        let before = remap_pairs(old, new, n - 1);
        let all = remap_pairs(old, new, n);
        assert forall|i: int| 0 <= i < n && (#[trigger] new_id_of(
            old,
            new,
            i,
        )) is Some implies all.contains((old[i].id, new_id_of(old, new, i)->0)) by {
            let p = (old[i].id, new_id_of(old, new, i)->0);
            if i < n - 1 {
                let k = choose|k: int| 0 <= k < before.len() && before[k] == p;
                assert(all[k] == p);
            } else {
                assert(all[before.len() as int] == p);
            }
        }
    }
}

/// A node keeps its identity by what it stands for: where a node of the scene
/// before and one of the new scene stand for the same thing, each the last to do
/// so, the ids of the two are told as a pair.
pub proof fn law_nodes_are_remapped_by_origin(
    old: Seq<SceneNode>,
    new: Seq<SceneNode>,
    i: int,
    j: int,
)
    requires
        0 <= i < old.len(),
        0 <= j < new.len(),
        old[i].origin is Some,
        new[j].origin is Some,
        (old[i].origin->0)@ == (new[j].origin->0)@,
        forall|m: int|
            i < m < old.len() ==> !((#[trigger] old[m]).origin is Some && (old[m].origin->0)@ == (
            old[i].origin->0)@),
        forall|m: int|
            j < m < new.len() ==> !((#[trigger] new[m]).origin is Some && (new[m].origin->0)@ == (
            new[j].origin->0)@),
    ensures
        remap_pairs(old, new, old.len() as int).contains((old[i].id, new[j].id)),
{
    lemma_last_with_origin(old, (old[i].origin->0)@, i);
    lemma_last_with_origin(new, (old[i].origin->0)@, j);
    assert(new_id_of(old, new, i) == Some(new[j].id));
    lemma_remap_pairs(old, new, old.len() as int);
}

/// Only nodes that stand for the same thing are told as a pair.
pub proof fn law_remapped_nodes_stand_for_the_same(
    old: Seq<SceneNode>,
    new: Seq<SceneNode>,
    k: int,
) -> (at: (int, int))
    requires
        0 <= k < remap_pairs(old, new, old.len() as int).len(),
    ensures
        0 <= at.0 < old.len(),
        0 <= at.1 < new.len(),
        remap_pairs(old, new, old.len() as int)[k] == (old[at.0].id, new[at.1].id),
        old[at.0].origin is Some,
        new[at.1].origin is Some,
        (old[at.0].origin->0)@ == (new[at.1].origin->0)@,
{
    let i = lemma_remap_source(old, new, old.len() as int, k);
    let o = (old[i].origin->0)@;
    lemma_last_with_origin_is(new, o);
    (i, last_with_origin(new, o))
}

proof fn lemma_scratch_plots(nodes: Seq<SceneNode>, origins: Seq<Seq<char>>)
    ensures
        forall|i: int|
            0 <= i < nodes.len() && is_scratch_plot(#[trigger] nodes[i], origins)
                ==> scratch_plots(nodes, origins).contains(nodes[i]),
        forall|k: int|
            0 <= k < scratch_plots(nodes, origins).len() ==> nodes.contains(
                #[trigger] scratch_plots(nodes, origins)[k],
            ) && is_scratch_plot(scratch_plots(nodes, origins)[k], origins),
    decreases nodes.len(),
{
    if nodes.len() > 0 {
        let rest = nodes.drop_last();
        lemma_scratch_plots(rest, origins);
        let before = scratch_plots(rest, origins);
        let all = scratch_plots(nodes, origins);
        assert forall|i: int| 0 <= i < nodes.len() && is_scratch_plot(
            #[trigger] nodes[i],
            origins,
        ) implies all.contains(nodes[i]) by {
            if i < rest.len() {
                assert(rest[i] == nodes[i]);
                let k = choose|k: int| 0 <= k < before.len() && before[k] == nodes[i];
                assert(all[k] == nodes[i]);
            } else {
                assert(all[before.len() as int] == nodes[i]);
            }
        }
        assert forall|k: int| 0 <= k < all.len() implies nodes.contains(#[trigger] all[k])
            && is_scratch_plot(all[k], origins) by {
            if k < before.len() {
                assert(all[k] == before[k]);
                let i = choose|i: int| 0 <= i < rest.len() && rest[i] == before[k];
                assert(nodes[i] == rest[i]);
            } else {
                assert(nodes[nodes.len() - 1] == all[k]);
            }
        }
    }
}

/// A swap shows the projected scene, with the nodes in their places and all the
/// edges. Behind them come the texts and plots of the diagram annotation. A plot
/// of the scene before that stands for nothing in the annotation stays: the new
/// scene has it under another id, at the same place and with the same signal.
pub proof fn law_swap_keeps_plots_of_the_user(
    s: Scene,
    projected: Scene,
    old_nodes: Seq<SceneNode>,
    graphics: Seq<GraphicItem>,
    i: int,
) -> (at: int)
    requires
        is_swapped_scene(s, projected, old_nodes, graphics),
        0 <= i < old_nodes.len(),
        old_nodes[i].data is Plot,
        old_nodes[i].origin matches Some(o) ==> forall|d: int|
            0 <= d < decorations(graphics, graphics.len() as int).len() ==> (
            #[trigger] decorations(graphics, graphics.len() as int)[d]).origin != o@,
    ensures
        projected.nodes@.len() <= at < s.nodes@.len(),
        s.nodes@[at] == (SceneNode { id: s.nodes@[at].id, ..old_nodes[i] }),
        s.edges == projected.edges,
        forall|k: int|
            0 <= k < projected.nodes@.len() ==> #[trigger] s.nodes@[k] == projected.nodes@[k],
{
    let ds = decorations(graphics, graphics.len() as int);
    let origins = ds.map_values(|d: DecorationView| d.origin);
    let carried = scratch_plots(old_nodes, origins);
    let n = projected.nodes@.len() as int;
    let m = n + ds.len() as int;
    lemma_scratch_plots(old_nodes, origins);
    if let Some(o) = old_nodes[i].origin {
        if origins.contains(o@) {
            let d = choose|d: int| 0 <= d < origins.len() && origins[d] == o@;
            assert(ds[d].origin == o@);
        }
    }
    assert(is_scratch_plot(old_nodes[i], origins));
    let k = choose|k: int| 0 <= k < carried.len() && carried[k] == old_nodes[i];
    assert(s.nodes@[m + k] == (SceneNode {
        id: (projected.next_node + ds.len() + k) as u64,
        ..carried[k]
    }));
    assert forall|k: int| 0 <= k < projected.nodes@.len() implies #[trigger] s.nodes@[k]
        == projected.nodes@[k] by {
        assert(s.nodes@.take(n)[k] == s.nodes@[k]);
    }
    m + k
}

/// What a swap adds to the projected scene and to the annotation is only plots
/// that the scene before had and that the annotation does not show.
pub proof fn law_swap_carries_plots_only(
    s: Scene,
    projected: Scene,
    old_nodes: Seq<SceneNode>,
    graphics: Seq<GraphicItem>,
    at: int,
) -> (i: int)
    requires
        is_swapped_scene(s, projected, old_nodes, graphics),
        projected.nodes@.len() + decorations(graphics, graphics.len() as int).len() <= at
            < s.nodes@.len(),
    ensures
        0 <= i < old_nodes.len(),
        old_nodes[i].data is Plot,
        s.nodes@[at] == (SceneNode { id: s.nodes@[at].id, ..old_nodes[i] }),
        forall|d: int|
            0 <= d < decorations(graphics, graphics.len() as int).len() && old_nodes[i].origin is Some
                ==> (#[trigger] decorations(graphics, graphics.len() as int)[d]).origin != (
            old_nodes[i].origin->0)@,
{
    let ds = decorations(graphics, graphics.len() as int);
    let origins = ds.map_values(|d: DecorationView| d.origin);
    let carried = scratch_plots(old_nodes, origins);
    let m = projected.nodes@.len() + ds.len();
    let k = at - m;
    assert(s.nodes@[m + k] == (SceneNode {
        id: (projected.next_node + ds.len() + k) as u64,
        ..carried[k]
    }));
    lemma_scratch_plots(old_nodes, origins);
    assert(old_nodes.contains(carried[k]));
    let i = choose|i: int| 0 <= i < old_nodes.len() && old_nodes[i] == carried[k];
    assert forall|d: int| 0 <= d < ds.len() && old_nodes[i].origin is Some implies (
    #[trigger] ds[d]).origin != (old_nodes[i].origin->0)@ by {
        assert(origins[d] == ds[d].origin);
    }
    i
}

/// A node is selected after a swap exactly where a node with the same origin was
/// selected before it, and nothing but nodes is.
pub proof fn law_carried_selection_is_of_nodes(
    nodes: Seq<SceneNode>,
    scene: Scene,
    selection: Seq<SelectItem>,
    i: int,
    j: int,
)
    requires
        scene.wf(),
        0 <= i < nodes.len(),
        0 <= j < scene.nodes@.len(),
        nodes[i].origin is Some,
        scene.nodes@[j].origin is Some,
        (nodes[i].origin->0)@ == (scene.nodes@[j].origin->0)@,
        selection.contains(SelectItem::Node(scene.nodes@[j].id)),
    ensures
        carried_selection(nodes, scene, selection).contains(SelectItem::Node(nodes[i].id)),
{
    crate::scene::law_ids_find_their_nodes(scene, j, 0);
    let item = SelectItem::Node(scene.nodes@[j].id);
    let k = choose|k: int| 0 <= k < selection.len() && selection[k] == item;
    assert(selects_origin(scene, selection[k], (nodes[i].origin->0)@));
    law_selection_survives_by_origin(nodes, scene, selection, nodes[i].id);
}

/// The first view is never closer than twice the true size, nor farther than half
/// of it, and shows the whole scene where that lies between.
pub proof fn law_first_view_stays_near_true_size(fit: Fixed, physical: Fixed)
    requires
        physical.steps > 0,
        2 * physical.steps <= crate::fixed::MAX_STEPS,
    ensures
        ({
            let z = initial_zoom_spec(fit, physical);
            &&& 2 * z.steps >= physical.steps - 1
            &&& z.steps <= 2 * physical.steps
            &&& physical.steps <= 2 * fit.steps && fit.steps <= 2 * physical.steps ==> z == fit
            &&& fit.steps > 2 * physical.steps ==> z.steps == 2 * physical.steps
        }),
{
}

/// A projection that is older than an edit that the canvas has made itself is
/// discarded and changes nothing. Any other is taken as seen, with its generation,
/// its class and the hash of its source; it replaces the scene unless it shows
/// nothing where the scene shows something. The first scene of a canvas is told
/// apart.
pub proof fn law_finished_projections_are_taken_as_seen(
    r: ProjectionResult,
    was: CanvasDocState,
    now: CanvasDocState,
    scene: Scene,
)
    requires
        was.projection_task is Some,
        is_finished(r, was, now, scene),
    ensures
        ({
            let t = was.projection_task->0;
            &&& now.projection_task is None
            &&& r is Discarded <==> t.gen_at_spawn < was.canvas_acked_gen
            &&& r is Discarded ==> now.scene == was.scene && now.last_seen_gen == was.last_seen_gen
            &&& !(r is Discarded) ==> {
                &&& now.last_seen_gen == t.gen_at_spawn
                &&& now.last_seen_target == t.target_at_spawn
                &&& now.last_seen_source_hash == t.source_hash
            }
            &&& r is KeptLastGood <==> t.gen_at_spawn >= was.canvas_acked_gen && scene.nodes@.len()
                == 0 && was.scene.nodes@.len() > 0
            &&& r is KeptLastGood ==> now.scene == was.scene && now.selection == was.selection
            &&& r matches ProjectionResult::Swapped { initial, .. } ==> {
                &&& initial <==> was.last_seen_gen == 0
                &&& now.scene.edges == scene.edges
                &&& now.scene.nodes@.len() >= scene.nodes@.len()
            }
            &&& now.viewport == was.viewport && now.canvas_acked_gen == was.canvas_acked_gen
            &&& now.background == was.background
        }),
{
}

/// A task that is started knows the generation, the class and the source that it
/// is for, when it was started and how long it may take. A task for another
/// generation is told to stop, and no task is told to stop that runs for this one.
pub proof fn law_started_projections_know_their_source(
    r: ProjectionStart,
    was: CanvasDocState,
    after: CanvasDocState,
    generation: u64,
    target: Option<String>,
    background: Option<Background>,
    source: &str,
    handle: u64,
    now: u64,
    limits: DiagramProjectionLimits,
)
    requires
        is_begun(
            r,
            was,
            after,
            generation,
            target,
            background,
            source,
            handle,
            now,
            limits,
        ),
    ensures
        after.scene == was.scene && after.selection == was.selection,
        after.background == background,
        r.spawn ==> (after.projection_task matches Some(t) && {
            &&& t.handle == handle
            &&& t.gen_at_spawn == generation
            &&& t.target_at_spawn == target
            &&& t.spawned_at == now
            &&& t.deadline == limits.max_duration_ms
            &&& t.source_hash == relevant_hash(source@)
        }),
        was.projection_task is None ==> r.cancel is None,
        was.projection_task matches Some(t) ==> {
            &&& t.gen_at_spawn != generation ==> r.cancel == Some(t.handle)
            &&& t.gen_at_spawn == generation ==> r.cancel is None && !r.spawn
                && after.projection_task == was.projection_task
        },
        r.spawn || r.cancel is Some ==> (after.projection_task matches Some(t) ==> t.gen_at_spawn
            == generation),
{
}

/// A projection of the current generation that is under way is left alone, however
/// long the source is: nothing is started or stopped, and the generation last seen
/// stays, unless another class is shown.
pub proof fn law_a_running_projection_is_left_alone(
    r: ProjectionStart,
    was: CanvasDocState,
    after: CanvasDocState,
    generation: u64,
    target: Option<String>,
    background: Option<Background>,
    source: &str,
    handle: u64,
    now: u64,
    limits: DiagramProjectionLimits,
)
    requires
        is_begun(r, was, after, generation, target, background, source, handle, now, limits),
        was.projection_task is Some,
        was.projection_task->0.gen_at_spawn == generation,
    ensures
        !r.spawn,
        r.cancel is None,
        after.projection_task == was.projection_task,
        opt_view(target) == opt_view(was.last_seen_target) ==> after.last_seen_gen
            == was.last_seen_gen,
        opt_view(target) != opt_view(was.last_seen_target) ==> after.last_seen_gen == 0,
{
}

} // verus!
