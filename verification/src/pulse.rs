//! Highlights of what was just added, and the queues of additions that wait
//! for the scene to show them.
use crate::camera::{visible_region, world_view_rect};
use crate::fixed::{ratio_spec, Fixed, UNIT};
use crate::geometry::{
    contains_with_margin, rect_contains_rect, rect_union, union_spec, Pos, Rect,
};
use crate::scene::{PortRef, Scene, SceneEdge, SceneNode, ScenePort};
use crate::state::{CanvasDiagramState, CanvasDocState, PulseEntry, TabCanvas};
use crate::text::{opt_view, same_text};
use vstd::prelude::*;

verus! {

/// How long the newest addition must be old before a batch is taken as
/// complete, in milliseconds.
pub const BATCH_WINDOW_MS: u64 = 200;

/// How long an addition may wait for the scene to show it, in milliseconds.
pub const FOCUS_TIMEOUT_MS: u64 = 5000;

/// How long the highlight of a node lasts by default, in milliseconds.
pub const DEFAULT_PULSE_MS: u32 = 2000;

/// How long the highlight of an edge lasts by default, in milliseconds.
pub const DEFAULT_EDGE_FLASH_MS: u32 = 1500;

/// How long after each other the highlights of a batch start, in milliseconds.
pub const PULSE_STAGGER_MS: u64 = 250;

// ── Fading ───────────────────────────────────────────────────────────────

/// Whether a highlight is still to be shown, now or later.
pub open spec fn is_live(e: PulseEntry, now: u64) -> bool {
    now < e.started || now - e.started < e.duration_ms
}

/// How strong a highlight is: not at all before it starts, then falling from
/// full strength, slowly at first.
pub open spec fn strength(e: PulseEntry, now: u64) -> Fixed {
    if now < e.started {
        Fixed { steps: 0 }
    } else {
        let total = if e.duration_ms < 1 {
            1
        } else {
            e.duration_ms as int
        };
        let t = ratio_spec(now - e.started, total).clamp_spec(
            Fixed { steps: 0 },
            Fixed { steps: UNIT },
        );
        let sq = t.times_spec(t);
        Fixed { steps: UNIT }.minus_spec(sq.times_spec(sq))
    }
}

/// Whether a highlight is strong enough to be drawn.
pub open spec fn is_visible(e: PulseEntry, now: u64) -> bool {
    strength(e, now).steps > ratio_spec(1, 1000).steps
}

/// The highlights that are still to be shown, in order.
pub open spec fn live_entries(es: Seq<PulseEntry>, now: u64) -> Seq<PulseEntry> {
    es.filter(|e: PulseEntry| is_live(e, now))
}

/// The highlights to draw, with their strengths.
pub open spec fn drawn_entries(es: Seq<PulseEntry>, now: u64) -> Seq<(u64, Fixed)> {
    es.filter(|e: PulseEntry| is_visible(e, now)).map_values(
        |e: PulseEntry| (e.id, strength(e, now)),
    )
}

fn pulse_strength(e: &PulseEntry, now: u64) -> (r: Fixed)
    ensures
        r == strength(*e, now),
{
    if now < e.started {
        return Fixed { steps: 0 };
    }
    let total: u64 = if e.duration_ms < 1 {
        1
    } else {
        e.duration_ms as u64
    };
    let t = Fixed::fraction(now - e.started, total).clamped(
        Fixed { steps: 0 },
        Fixed { steps: UNIT },
    );
    let sq = t.times(t);
    Fixed { steps: UNIT }.minus(sq.times(sq))
}

/// Forgets the highlights that are over, and gives those to draw with their
/// strengths.
pub fn fade_pulses(entries: &mut Vec<PulseEntry>, now: u64) -> (drawn: Vec<(u64, Fixed)>)
    ensures
        final(entries)@ == live_entries(old(entries)@, now),
        drawn@ == drawn_entries(live_entries(old(entries)@, now), now),
{
    let ghost all = entries@;
    let ghost keep = |e: PulseEntry| is_live(e, now);
    let ghost see = |e: PulseEntry| is_visible(e, now);
    let ghost show = |e: PulseEntry| (e.id, strength(e, now));
    let mut kept: Vec<PulseEntry> = Vec::new();
    let mut drawn: Vec<(u64, Fixed)> = Vec::new();
    let mut i: usize = 0;
    proof {
        reveal_with_fuel(Seq::filter, 1);
        assert(all.take(0) =~= Seq::empty());
        assert(kept@ =~= all.take(0).filter(keep));
        assert(drawn@ =~= kept@.filter(see).map_values(show));
    }
    while i < entries.len()
        invariant
            i <= entries@.len(),
            entries@ == all,
            keep == (|e: PulseEntry| is_live(e, now)),
            see == (|e: PulseEntry| is_visible(e, now)),
            show == (|e: PulseEntry| (e.id, strength(e, now))),
            kept@ == all.take(i as int).filter(keep),
            drawn@ == kept@.filter(see).map_values(show),
        decreases entries@.len() - i,
    {
        let e = entries[i];
        let ghost kept0 = kept@;
        proof {
            reveal_with_fuel(Seq::filter, 2);
            assert(all.take(i + 1).drop_last() =~= all.take(i as int));
            assert(all.take(i + 1).last() == e);
        }
        if now < e.started || now - e.started < e.duration_ms as u64 {
            kept.push(e);
            assert(kept@.drop_last() =~= kept0);
            assert(kept@.last() == e);
            let s = pulse_strength(&e, now);
            if s.steps > Fixed::ratio(1, 1000).steps {
                drawn.push((e.id, s));
                assert(kept@.filter(see) =~= kept0.filter(see).push(e));
            } else {
                assert(kept@.filter(see) =~= kept0.filter(see));
            }
            assert(drawn@ =~= kept@.filter(see).map_values(show));
        }
        i += 1;
    }
    assert(all.take(i as int) =~= all);
    *entries = kept;
    drawn
}

// ── Wires ────────────────────────────────────────────────────────────────

/// The first port named `id`, or the number of ports.
pub open spec fn port_place(ports: Seq<ScenePort>, id: Seq<char>, from: int) -> int
    decreases ports.len() - from,
{
    if from >= ports.len() {
        ports.len() as int
    } else if ports[from].id@ == id {
        from
    } else {
        port_place(ports, id, from + 1)
    }
}

/// Where a port of a node lies on the canvas: at its offset from the node's
/// corner, or in the node's middle where the node has no such port.
pub open spec fn port_position(node: SceneNode, id: Seq<char>) -> Pos {
    let i = port_place(node.ports@, id, 0);
    if i < node.ports@.len() {
        let o = node.ports@[i].local_offset;
        Pos { x: node.rect.min.x.plus_spec(o.x), y: node.rect.min.y.plus_spec(o.y) }
    } else {
        node.rect.center_spec()
    }
}

fn find_scene_port(ports: &Vec<ScenePort>, id: &str) -> (r: Option<usize>)
    ensures
        match r {
            Some(i) => i == port_place(ports@, id@, 0) && i < ports@.len(),
            None => port_place(ports@, id@, 0) == ports@.len(),
        },
{
    let mut i: usize = 0;
    while i < ports.len()
        invariant
            i <= ports@.len(),
            port_place(ports@, id@, 0) == port_place(ports@, id@, i as int),
        decreases ports@.len() - i,
    {
        if same_text(ports[i].id.as_str(), id) {
            return Some(i);
        }
        i += 1;
    }
    None
}

/// Where a port of a node lies on the canvas.
pub fn port_world_pos(node: &SceneNode, id: &str) -> (r: Pos)
    ensures
        r == port_position(*node, id@),
{
    match find_scene_port(&node.ports, id) {
        Some(i) => {
            let o = node.ports[i].local_offset;
            Pos { x: node.rect.min.x.plus(o.x), y: node.rect.min.y.plus(o.y) }
        },
        None => node.rect.center(),
    }
}

/// The ends, on the canvas, of an edge that is highlighted: none where the edge
/// or one of its nodes is gone.
pub open spec fn flash_ends_spec(scene: Scene, id: u64) -> Option<(Pos, Pos)> {
    match scene.edge_spec(id) {
        Some(e) => match (scene.node_spec(e.from.node), scene.node_spec(e.to.node)) {
            (Some(f), Some(t)) => Some(
                (port_position(f, e.from.port@), port_position(t, e.to.port@)),
            ),
            _ => None,
        },
        None => None,
    }
}

/// The ends, on the canvas, of an edge that is highlighted.
pub fn flash_ends(scene: &Scene, id: u64) -> (r: Option<(Pos, Pos)>)
    requires
        scene.wf(),
    ensures
        r == flash_ends_spec(*scene, id),
{
    let e = match scene.edge(id) {
        Some(e) => e,
        None => {
            return None;
        },
    };
    match (scene.node(e.from.node), scene.node(e.to.node)) {
        (Some(f), Some(t)) => Some(
            (port_world_pos(f, e.from.port.as_str()), port_world_pos(t, e.to.port.as_str())),
        ),
        _ => None,
    }
}

// ── Added connections ────────────────────────────────────────────────────

/// A connection that was added and waits for the scene to show it.
#[derive(Debug, PartialEq, Eq)]
pub struct PendingApiConnection {
    pub doc: u64,
    pub from_component: String,
    pub from_port: String,
    pub to_component: String,
    pub to_port: String,
    pub queued_at: u64,
    /// How long its highlight lasts; none where zero.
    pub animation_ms: u32,
}

/// Connections that wait, in the order in which they were added.
#[derive(Debug, PartialEq, Eq)]
pub struct PendingApiConnectionQueue {
    pub items: Vec<PendingApiConnection>,
}

impl PendingApiConnectionQueue {
    pub fn push(&mut self, entry: PendingApiConnection)
        ensures
            final(self).items@ == old(self).items@.push(entry),
    {
        self.items.push(entry);
    }
}

/// Whether an end of an edge is the port of the component.
pub open spec fn is_end(scene: Scene, end: PortRef, component: Seq<char>, port: Seq<char>) -> bool {
    match scene.node_spec(end.node) {
        Some(n) => {
            &&& opt_view(n.origin) == Some(component)
            &&& end.port@ == port
            &&& port_place(n.ports@, port, 0) < n.ports@.len()
        },
        None => false,
    }
}

/// Whether an edge of the scene shows the connection.
pub open spec fn shows(scene: Scene, e: SceneEdge, c: PendingApiConnection) -> bool {
    is_end(scene, e.from, c.from_component@, c.from_port@) && is_end(
        scene,
        e.to,
        c.to_component@,
        c.to_port@,
    )
}

/// The first edge, at or after place `from`, that shows the connection.
pub open spec fn shown_edge(scene: Scene, c: PendingApiConnection, from: int) -> Option<u64>
    decreases scene.edges@.len() - from,
{
    if from >= scene.edges@.len() {
        None
    } else if shows(scene, scene.edges@[from], c) {
        Some(scene.edges@[from].id)
    } else {
        shown_edge(scene, c, from + 1)
    }
}

/// Whether an addition has waited too long.
pub open spec fn is_expired(queued_at: u64, now: u64) -> bool {
    now - queued_at > FOCUS_TIMEOUT_MS
}

/// Whether the canvas shows the document of the connection, with an edge for the
/// connection.
pub open spec fn is_shown_in(c: TabCanvas, e: PendingApiConnection) -> bool {
    c.doc == e.doc && shown_edge(c.state.scene, e, 0) is Some
}

/// Whether the connection goes on waiting: it has not waited too long, and no
/// canvas shows it.
pub open spec fn keeps_waiting(cs: Seq<TabCanvas>, e: PendingApiConnection, now: u64) -> bool {
    !is_expired(e.queued_at, now) && forall|i: int|
        0 <= i < cs.len() ==> !is_shown_in(#[trigger] cs[i], e)
}

/// The highlight that the connection gets in a canvas: one of that canvas's own
/// edge where it is shown there, and none where its animation takes no time.
pub open spec fn flash_of(c: TabCanvas, e: PendingApiConnection, now: u64) -> Seq<PulseEntry> {
    if !is_expired(e.queued_at, now) && is_shown_in(c, e) && e.animation_ms > 0 {
        seq![
            PulseEntry {
                id: shown_edge(c.state.scene, e, 0)->0,
                started: now,
                duration_ms: e.animation_ms,
            },
        ]
    } else {
        Seq::empty()
    }
}

/// The highlights that the first `n` connections get in a canvas, in order.
pub open spec fn flashes_of(
    c: TabCanvas,
    items: Seq<PendingApiConnection>,
    n: int,
    now: u64,
) -> Seq<PulseEntry>
    decreases n,
{
    if n <= 0 {
        Seq::empty()
    } else {
        flashes_of(c, items, n - 1, now) + flash_of(c, items[n - 1], now)
    }
}

/// Whether `after` is the canvas `base` with the highlights of edges added.
pub open spec fn is_flashed(base: TabCanvas, after: TabCanvas, added: Seq<PulseEntry>) -> bool {
    if added.len() == 0 {
        after == base
    } else {
        &&& after == (TabCanvas {
            state: CanvasDocState { edge_pulses: after.state.edge_pulses, ..base.state },
            ..base
        })
        &&& after.state.edge_pulses@ == base.state.edge_pulses@ + added
    }
}

fn end_matches(scene: &Scene, end: &PortRef, component: &str, port: &str) -> (r: bool)
    requires
        scene.wf(),
    ensures
        r == is_end(*scene, *end, component@, port@),
{
    match scene.node(end.node) {
        Some(n) => {
            let named = match &n.origin {
                Some(o) => same_text(o.as_str(), component),
                None => false,
            };
            named && same_text(end.port.as_str(), port) && find_scene_port(
                &n.ports,
                port,
            ).is_some()
        },
        None => false,
    }
}

fn find_shown_edge(scene: &Scene, c: &PendingApiConnection) -> (r: Option<u64>)
    requires
        scene.wf(),
    ensures
        r == shown_edge(*scene, *c, 0),
{
    let mut i: usize = 0;
    while i < scene.edges.len()
        invariant
            scene.wf(),
            i <= scene.edges@.len(),
            shown_edge(*scene, *c, 0) == shown_edge(*scene, *c, i as int),
        decreases scene.edges@.len() - i,
    {
        let e = &scene.edges[i];
        if end_matches(scene, &e.from, c.from_component.as_str(), c.from_port.as_str())
            && end_matches(scene, &e.to, c.to_component.as_str(), c.to_port.as_str()) {
            return Some(e.id);
        }
        i += 1;
    }
    None
}

/// Handles one waiting connection: every canvas that shows it highlights its own
/// edge. Gives whether the connection goes on waiting.
pub fn flash_connection(st: &mut CanvasDiagramState, c: &PendingApiConnection, now: u64) -> (waits:
    bool)
    requires
        old(st).wf(),
    ensures
        final(st).wf(),
        final(st).fallback == old(st).fallback,
        waits == keeps_waiting(old(st).canvases@, *c, now),
        final(st).canvases@.len() == old(st).canvases@.len(),
        forall|i: int|
            0 <= i < old(st).canvases@.len() ==> is_flashed(
                old(st).canvases@[i],
                #[trigger] final(st).canvases@[i],
                flash_of(old(st).canvases@[i], *c, now),
            ),
{
    if now > c.queued_at && now - c.queued_at > FOCUS_TIMEOUT_MS {
        return false;
    }
    let ghost cs0 = st.canvases@;
    let mut shown = false;
    let mut i: usize = 0;
    while i < st.canvases.len()
        invariant
            st.wf(),
            st.fallback == old(st).fallback,
            !is_expired(c.queued_at, now),
            cs0 == old(st).canvases@,
            i <= cs0.len(),
            st.canvases@.len() == cs0.len(),
            shown == (exists|k: int| 0 <= k < i && is_shown_in(#[trigger] cs0[k], *c)),
            forall|k: int|
                0 <= k < i ==> is_flashed(
                    cs0[k],
                    #[trigger] st.canvases@[k],
                    flash_of(cs0[k], *c, now),
                ),
            forall|k: int| i <= k < cs0.len() ==> #[trigger] st.canvases@[k] == cs0[k],
        decreases cs0.len() - i,
    {
        assert(st.canvases@[i as int] == cs0[i as int]);
        if st.canvases[i].doc == c.doc {
            if let Some(edge) = find_shown_edge(&st.canvases[i].state.scene, c) {
                assert(is_shown_in(cs0[i as int], *c));
                shown = true;
                if c.animation_ms > 0 {
                    let canvas = &mut st.canvases[i];
                    canvas.state.edge_pulses.push(
                        PulseEntry { id: edge, started: now, duration_ms: c.animation_ms },
                    );
                    assert(st.canvases@[i as int].state.edge_pulses@
                        =~= cs0[i as int].state.edge_pulses@ + flash_of(
                        cs0[i as int],
                        *c,
                        now,
                    ));
                }
            }
        }
        i += 1;
    }
    !shown
}

/// The connections among the first `n` that go on waiting, in order.
pub open spec fn still_waiting(
    cs: Seq<TabCanvas>,
    items: Seq<PendingApiConnection>,
    n: int,
    now: u64,
) -> Seq<PendingApiConnection>
    decreases n,
{
    if n <= 0 {
        Seq::empty()
    } else if keeps_waiting(cs, items[n - 1], now) {
        still_waiting(cs, items, n - 1, now).push(items[n - 1])
    } else {
        still_waiting(cs, items, n - 1, now)
    }
}

/// Handles the waiting connections in order. Each is highlighted once a canvas of
/// its document shows it, in every canvas that does, under that canvas's own
/// edge; all other canvases stay as they are. A connection that has waited too
/// long is dropped, and one that no canvas shows yet is kept.
pub fn drive_pending_api_connections(
    queue: &mut PendingApiConnectionQueue,
    st: &mut CanvasDiagramState,
    now: u64,
)
    requires
        old(st).wf(),
    ensures
        final(st).wf(),
        final(st).fallback == old(st).fallback,
        final(queue).items@ == still_waiting(
            old(st).canvases@,
            old(queue).items@,
            old(queue).items@.len() as int,
            now,
        ),
        final(st).canvases@.len() == old(st).canvases@.len(),
        forall|i: int|
            0 <= i < old(st).canvases@.len() ==> is_flashed(
                old(st).canvases@[i],
                #[trigger] final(st).canvases@[i],
                flashes_of(
                    old(st).canvases@[i],
                    old(queue).items@,
                    old(queue).items@.len() as int,
                    now,
                ),
            ),
{
    let ghost items = queue.items@;
    let ghost cs0 = st.canvases@;
    let ghost mut done: int = 0;
    let mut rest: Vec<PendingApiConnection> = Vec::new();
    std::mem::swap(&mut rest, &mut queue.items);
    let mut kept: Vec<PendingApiConnection> = Vec::new();
    assert(items.skip(0) =~= items);
    while rest.len() > 0
        invariant
            st.wf(),
            st.fallback == old(st).fallback,
            cs0 == old(st).canvases@,
            0 <= done <= items.len(),
            rest@ == items.skip(done),
            kept@ == still_waiting(cs0, items, done, now),
            st.canvases@.len() == cs0.len(),
            forall|k: int|
                0 <= k < cs0.len() ==> is_flashed(
                    cs0[k],
                    #[trigger] st.canvases@[k],
                    flashes_of(cs0[k], items, done, now),
                ),
        decreases items.len() - done,
    {
        assert(rest@[0] == items[done]);
        let c = rest.remove(0);
        assert(rest@ =~= items.skip(done + 1));
        let ghost before = st.canvases@;
        let waits = flash_connection(st, &c, now);
        proof {
            assert forall|k: int| 0 <= k < cs0.len() implies is_shown_in(
                #[trigger] before[k],
                c,
            ) == is_shown_in(cs0[k], c) by {}
            if waits {
                assert forall|k: int| 0 <= k < cs0.len() implies !is_shown_in(
                    #[trigger] cs0[k],
                    c,
                ) by {
                    assert(!is_shown_in(before[k], c));
                }
            } else if !is_expired(c.queued_at, now) {
                let k = choose|k: int| 0 <= k < before.len() && is_shown_in(#[trigger] before[k], c);
                assert(is_shown_in(cs0[k], c));
            }
            assert(waits == keeps_waiting(cs0, c, now));
            assert forall|k: int| 0 <= k < cs0.len() implies is_flashed(
                cs0[k],
                #[trigger] st.canvases@[k],
                flashes_of(cs0[k], items, done + 1, now),
            ) by {
                assert(is_flashed(before[k], st.canvases@[k], flash_of(before[k], c, now)));
                assert(is_flashed(cs0[k], before[k], flashes_of(cs0[k], items, done, now)));
                let one = flash_of(cs0[k], c, now);
                let all = flashes_of(cs0[k], items, done, now);
                assert(flash_of(before[k], c, now) == one);
                assert(cs0[k].state.edge_pulses@ + (all + one) =~= (cs0[k].state.edge_pulses@
                    + all) + one);
                if one.len() == 0 {
                    assert(all + one =~= all);
                }
                if all.len() == 0 {
                    assert(all + one =~= one);
                }
            }
        }
        if waits {
            kept.push(c);
        }
        proof {
            done = done + 1;
        }
    }
    queue.items = kept;
}

// ── Added components ─────────────────────────────────────────────────────

/// A component that was added and waits for the scene to show it.
#[derive(Debug, PartialEq, Eq)]
pub struct PendingApiFocus {
    pub doc: u64,
    pub name: String,
    pub queued_at: u64,
    /// How long its highlight lasts; none where zero.
    pub animation_ms: u32,
}

/// Components that wait, in the order in which they were added.
#[derive(Debug, PartialEq, Eq)]
pub struct PendingApiFocusQueue {
    pub items: Vec<PendingApiFocus>,
}

impl PendingApiFocusQueue {
    pub fn push(&mut self, focus: PendingApiFocus)
        ensures
            final(self).items@ == old(self).items@.push(focus),
    {
        self.items.push(focus);
    }
}

/// The first node, at or after place `from`, that stands for `name`, or the
/// number of nodes.
pub open spec fn named_place(nodes: Seq<SceneNode>, name: Seq<char>, from: int) -> int
    decreases nodes.len() - from,
{
    if from >= nodes.len() {
        nodes.len() as int
    } else if opt_view(nodes[from].origin) == Some(name) {
        from
    } else {
        named_place(nodes, name, from + 1)
    }
}

/// A node that shows an added component.
#[derive(Clone, Copy, Debug, PartialEq, Eq, Structural)]
pub struct Landed {
    pub node: u64,
    pub rect: Rect,
    pub animation_ms: u32,
}

/// The node of the scene that shows the component, where there is one.
pub open spec fn landed(scene: Scene, f: PendingApiFocus) -> Option<Landed> {
    let nodes = scene.nodes@;
    let i = named_place(nodes, f.name@, 0);
    if i < nodes.len() {
        Some(Landed { node: nodes[i].id, rect: nodes[i].rect, animation_ms: f.animation_ms })
    } else {
        None
    }
}

/// Whether the component has appeared: the first canvas of its document shows it.
pub open spec fn is_resolved(st: CanvasDiagramState, f: PendingApiFocus) -> bool {
    landed(st.state_of(Some(f.doc)).scene, f) is Some
}

/// Whether the batch is held back: it may still grow, or a component of it may
/// still appear.
pub open spec fn is_held_back(st: CanvasDiagramState, items: Seq<PendingApiFocus>, now: u64) -> bool {
    items.len() > 0 && (now - items.last().queued_at < BATCH_WINDOW_MS || exists|i: int|
        0 <= i < items.len() && !is_resolved(st, #[trigger] items[i]) && !is_expired(
            items[i].queued_at,
            now,
        ))
}

/// For each component of the batch that has appeared in the document, in order,
/// the node of the scene that shows it.
pub open spec fn landed_in(
    st: CanvasDiagramState,
    items: Seq<PendingApiFocus>,
    doc: u64,
    scene: Scene,
) -> Seq<Option<Landed>>
    decreases items.len(),
{
    if items.len() == 0 {
        Seq::empty()
    } else {
        let rest = landed_in(st, items.drop_last(), doc, scene);
        let f = items.last();
        if f.doc == doc && is_resolved(st, f) {
            rest.push(landed(scene, f))
        } else {
            rest
        }
    }
}

/// The highlights of the first `n` components: each starts a while after the one
/// before. A component that the scene does not show gets none, and keeps its
/// turn.
pub open spec fn staggered_pulses(ls: Seq<Option<Landed>>, n: int, now: u64) -> Seq<PulseEntry>
    decreases n,
{
    if n <= 0 {
        Seq::empty()
    } else {
        let rest = staggered_pulses(ls, n - 1, now);
        match ls[n - 1] {
            Some(l) => if l.animation_ms == 0 {
                rest
            } else {
                rest.push(
                    PulseEntry {
                        id: l.node,
                        started: (now + PULSE_STAGGER_MS * (n - 1)) as u64,
                        duration_ms: l.animation_ms,
                    },
                )
            },
            None => rest,
        }
    }
}

/// Whether all the nodes lie inside the region.
pub open spec fn all_inside(region: Rect, ls: Seq<Option<Landed>>) -> bool {
    forall|i: int|
        0 <= i < ls.len() ==> (#[trigger] ls[i] matches Some(l) ==> contains_with_margin(
            region,
            l.rect,
        ))
}

/// The region together with the nodes of the first `n` components.
pub open spec fn region_with(region: Rect, ls: Seq<Option<Landed>>, n: int) -> Rect
    decreases n,
{
    if n <= 0 {
        region
    } else {
        match ls[n - 1] {
            Some(l) => union_spec(region_with(region, ls, n - 1), l.rect),
            None => region_with(region, ls, n - 1),
        }
    }
}

/// Whether `after` is `base` with the nodes highlighted. Where they do not all
/// lie inside what is visible, the next frame shows what is visible together
/// with them; otherwise the camera stays.
pub open spec fn is_focused(
    base: CanvasDocState,
    after: CanvasDocState,
    ls: Seq<Option<Landed>>,
    now: u64,
) -> bool {
    let visible = visible_region(base.viewport, base.screen);
    let moves = !all_inside(visible, ls);
    &&& after == (CanvasDocState {
        pulses: after.pulses,
        pending_fit: base.pending_fit || moves,
        fit_region: if moves {
            Some(region_with(visible, ls, ls.len() as int))
        } else {
            base.fit_region
        },
        ..base
    })
    &&& after.pulses@ == base.pulses@ + staggered_pulses(ls, ls.len() as int, now)
}

/// Whether the canvas shows that the batch has landed in its document: by its own
/// nodes, seen from its own camera. Where nothing of the batch has, it is as it
/// was.
pub open spec fn canvas_is_focused(
    st: CanvasDiagramState,
    items: Seq<PendingApiFocus>,
    base: TabCanvas,
    after: TabCanvas,
    now: u64,
) -> bool {
    let ls = landed_in(st, items, base.doc, base.state.scene);
    if ls.len() > 0 {
        &&& after == (TabCanvas { state: after.state, ..base })
        &&& is_focused(base.state, after.state, ls, now)
    } else {
        after == base
    }
}

fn find_landed(scene: &Scene, f: &PendingApiFocus) -> (r: Option<Landed>)
    ensures
        r == landed(*scene, *f),
{
    let nodes = &scene.nodes;
    let mut i: usize = 0;
    while i < nodes.len()
        invariant
            i <= nodes@.len(),
            nodes@ == scene.nodes@,
            named_place(nodes@, f.name@, 0) == named_place(nodes@, f.name@, i as int),
        decreases nodes@.len() - i,
    {
        if let Some(o) = &nodes[i].origin {
            if same_text(o.as_str(), f.name.as_str()) {
                return Some(
                    Landed {
                        node: nodes[i].id,
                        rect: nodes[i].rect,
                        animation_ms: f.animation_ms,
                    },
                );
            }
        }
        i += 1;
    }
    None
}

/// Which components of the batch have appeared.
fn resolve(st: &CanvasDiagramState, items: &Vec<PendingApiFocus>) -> (r: Vec<bool>)
    ensures
        r@.len() == items@.len(),
        forall|i: int| 0 <= i < items@.len() ==> r@[i] == is_resolved(*st, #[trigger] items@[i]),
{
    let mut out: Vec<bool> = Vec::new();
    let mut i: usize = 0;
    while i < items.len()
        invariant
            i <= items@.len(),
            out@.len() == i,
            forall|k: int| 0 <= k < i ==> out@[k] == is_resolved(*st, #[trigger] items@[k]),
        decreases items@.len() - i,
    {
        let f = &items[i];
        out.push(find_landed(&st.get(Some(f.doc)).scene, f).is_some());
        i += 1;
    }
    out
}

fn held_back(
    st: &CanvasDiagramState,
    items: &Vec<PendingApiFocus>,
    resolved: &Vec<bool>,
    now: u64,
) -> (r: bool)
    requires
        resolved@.len() == items@.len(),
        forall|i: int|
            0 <= i < items@.len() ==> resolved@[i] == is_resolved(*st, #[trigger] items@[i]),
    ensures
        r == is_held_back(*st, items@, now),
{
    if items.len() == 0 {
        return false;
    }
    let latest: u64 = items[items.len() - 1].queued_at;
    if now < latest || now - latest < BATCH_WINDOW_MS {
        return true;
    }
    let mut i: usize = 0;
    while i < items.len()
        invariant
            i <= items@.len(),
            resolved@.len() == items@.len(),
            forall|j: int|
                0 <= j < items@.len() ==> resolved@[j] == is_resolved(*st, #[trigger] items@[j]),
            forall|j: int|
                0 <= j < i ==> !(!is_resolved(*st, #[trigger] items@[j]) && !is_expired(
                    items@[j].queued_at,
                    now,
                )),
        decreases items@.len() - i,
    {
        let f = &items[i];
        let expired = now > f.queued_at && now - f.queued_at > FOCUS_TIMEOUT_MS;
        assert(resolved@[i as int] == is_resolved(*st, items@[i as int]));
        if !expired && !resolved[i] {
            return true;
        }
        i += 1;
    }
    false
}

fn collect_landed(
    Ghost(st): Ghost<CanvasDiagramState>,
    items: &Vec<PendingApiFocus>,
    resolved: &Vec<bool>,
    doc: u64,
    scene: &Scene,
) -> (r: Vec<Option<Landed>>)
    requires
        resolved@.len() == items@.len(),
        forall|i: int|
            0 <= i < items@.len() ==> resolved@[i] == is_resolved(st, #[trigger] items@[i]),
    ensures
        r@ == landed_in(st, items@, doc, *scene),
        r@.len() <= items@.len(),
{
    let mut out: Vec<Option<Landed>> = Vec::new();
    let mut i: usize = 0;
    while i < items.len()
        invariant
            i <= items@.len(),
            resolved@.len() == items@.len(),
            forall|k: int|
                0 <= k < items@.len() ==> resolved@[k] == is_resolved(st, #[trigger] items@[k]),
            out@ == landed_in(st, items@.take(i as int), doc, *scene),
            out@.len() <= i,
        decreases items@.len() - i,
    {
        assert(items@.take(i + 1).drop_last() =~= items@.take(i as int));
        assert(items@.take(i + 1).last() == items@[i as int]);
        assert(resolved@[i as int] == is_resolved(st, items@[i as int]));
        if items[i].doc == doc && resolved[i] {
            out.push(find_landed(scene, &items[i]));
        }
        i += 1;
    }
    assert(items@.take(i as int) =~= items@);
    out
}

fn focus_doc(ds: &mut CanvasDocState, ls: &Vec<Option<Landed>>, now: u64)
    requires
        old(ds).wf(),
        now + PULSE_STAGGER_MS * ls@.len() <= u64::MAX,
    ensures
        final(ds).wf(),
        is_focused(*old(ds), *final(ds), ls@, now),
{
    let visible = world_view_rect(ds.viewport, ds.screen);
    let mut region = visible;
    let mut inside = true;
    let ghost pulses0 = ds.pulses@;
    let mut i: usize = 0;
    assert(pulses0 + staggered_pulses(ls@, 0, now) =~= pulses0);
    while i < ls.len()
        invariant
            i <= ls@.len(),
            now + PULSE_STAGGER_MS * ls@.len() <= u64::MAX,
            ds.scene == old(ds).scene,
            *ds == (CanvasDocState { pulses: ds.pulses, ..*old(ds) }),
            ds.pulses@ == pulses0 + staggered_pulses(ls@, i as int, now),
            region == region_with(visible, ls@, i as int),
            inside == (forall|j: int|
                0 <= j < i ==> (#[trigger] ls@[j] matches Some(l) ==> contains_with_margin(
                    visible,
                    l.rect,
                ))),
        decreases ls@.len() - i,
    {
        if let Some(l) = ls[i] {
            region = rect_union(region, l.rect);
            if !rect_contains_rect(visible, l.rect) {
                assert(ls@[i as int] == Some(l));
                inside = false;
            }
            if l.animation_ms > 0 {
                assert(PULSE_STAGGER_MS * i <= PULSE_STAGGER_MS * ls@.len()) by (nonlinear_arith)
                    requires
                        i <= ls@.len(),
                ;
                ds.pulses.push(
                    PulseEntry {
                        id: l.node,
                        started: now + PULSE_STAGGER_MS * (i as u64),
                        duration_ms: l.animation_ms,
                    },
                );
                assert(ds.pulses@ =~= pulses0 + staggered_pulses(ls@, i + 1, now));
            }
        }
        i += 1;
    }
    if !inside {
        ds.pending_fit = true;
        ds.fit_region = Some(region);
    }
}

/// Acts once for a whole batch of added components: nothing while the batch may
/// grow or a component of it may still appear. The queue is then emptied, and
/// every canvas of a document in which a component has appeared highlights its
/// own nodes one after the other. The camera of a canvas moves only where its
/// nodes do not all lie inside what it shows; no canvas moves that of another.
pub fn drive_pending_api_focus(
    queue: &mut PendingApiFocusQueue,
    st: &mut CanvasDiagramState,
    now: u64,
)
    requires
        old(st).wf(),
        now + PULSE_STAGGER_MS * old(queue).items@.len() <= u64::MAX,
    ensures
        final(st).wf(),
        final(st).fallback == old(st).fallback,
        is_held_back(*old(st), old(queue).items@, now) ==> *final(st) == *old(st)
            && final(queue).items == old(queue).items,
        !is_held_back(*old(st), old(queue).items@, now) ==> {
            &&& final(queue).items@.len() == 0
            &&& final(st).canvases@.len() == old(st).canvases@.len()
            &&& forall|i: int|
                0 <= i < old(st).canvases@.len() ==> canvas_is_focused(
                    *old(st),
                    old(queue).items@,
                    old(st).canvases@[i],
                    #[trigger] final(st).canvases@[i],
                    now,
                )
        },
{
    let resolved = resolve(st, &queue.items);
    if held_back(st, &queue.items, &resolved, now) {
        return;
    }
    let ghost st0 = *st;
    let ghost items = queue.items@;
    let mut i: usize = 0;
    while i < st.canvases.len()
        invariant
            queue.items@ == items,
            resolved@.len() == items.len(),
            forall|k: int|
                0 <= k < items.len() ==> resolved@[k] == is_resolved(st0, #[trigger] items[k]),
            now + PULSE_STAGGER_MS * items.len() <= u64::MAX,
            st.wf(),
            st0 == *old(st),
            st.fallback == st0.fallback,
            i <= st0.canvases@.len(),
            st.canvases@.len() == st0.canvases@.len(),
            forall|k: int|
                0 <= k < i ==> canvas_is_focused(
                    st0,
                    items,
                    st0.canvases@[k],
                    #[trigger] st.canvases@[k],
                    now,
                ),
            forall|k: int|
                i <= k < st0.canvases@.len() ==> #[trigger] st.canvases@[k] == st0.canvases@[k],
        decreases st0.canvases@.len() - i,
    {
        assert(st.canvases@[i as int] == st0.canvases@[i as int]);
        let ls = collect_landed(
            Ghost(st0),
            &queue.items,
            &resolved,
            st.canvases[i].doc,
            &st.canvases[i].state.scene,
        );
        if ls.len() > 0 {
            assert(PULSE_STAGGER_MS * ls@.len() <= PULSE_STAGGER_MS * items.len())
                by (nonlinear_arith)
                requires
                    ls@.len() <= items.len(),
            ;
            let canvas = &mut st.canvases[i];
            focus_doc(&mut canvas.state, &ls, now);
        }
        i += 1;
    }
    queue.items.clear();
}

// ── Laws ─────────────────────────────────────────────────────────────────

/// An added connection is highlighted once in every canvas that shows it, under
/// that canvas's own edge, and it no longer waits. In a canvas of another
/// document it is not highlighted.
pub proof fn law_every_tab_flashes_once(
    cs: Seq<TabCanvas>,
    e: PendingApiConnection,
    i: int,
    j: int,
    now: u64,
)
    requires
        !is_expired(e.queued_at, now),
        0 <= i < cs.len(),
        is_shown_in(cs[i], e),
        0 <= j < cs.len(),
        cs[j].doc != e.doc,
    ensures
        still_waiting(cs, seq![e], 1, now).len() == 0,
        flashes_of(cs[i], seq![e], 1, now) == (if e.animation_ms > 0 {
            seq![
                PulseEntry {
                    id: shown_edge(cs[i].state.scene, e, 0)->0,
                    started: now,
                    duration_ms: e.animation_ms,
                },
            ]
        } else {
            Seq::empty()
        }),
        flashes_of(cs[j], seq![e], 1, now).len() == 0,
{
    reveal_with_fuel(flashes_of, 2);
    reveal_with_fuel(still_waiting, 2);
    assert(flashes_of(cs[i], seq![e], 1, now) =~= flash_of(cs[i], e, now));
}

/// A canvas in which every node of a batch is well inside what it shows keeps
/// its camera, whatever the other canvases do.
pub proof fn law_a_camera_moves_for_its_own_nodes(
    st: CanvasDiagramState,
    items: Seq<PendingApiFocus>,
    base: TabCanvas,
    after: TabCanvas,
    now: u64,
)
    requires
        canvas_is_focused(st, items, base, after, now),
        all_inside(
            visible_region(base.state.viewport, base.state.screen),
            landed_in(st, items, base.doc, base.state.scene),
        ),
    ensures
        after.state.viewport == base.state.viewport,
        after.state.pending_fit == base.state.pending_fit,
        after.state.fit_region == base.state.fit_region,
{
}

/// Highlights are forgotten only once they can no longer be seen.
pub proof fn law_forgotten_pulses_are_invisible(e: PulseEntry, now: u64)
    requires
        e.duration_ms >= 1,
        !is_live(e, now),
    ensures
        !is_visible(e, now),
{
    let total = e.duration_ms as int;
    let age = now - e.started;
    assert((age * UNIT) / total >= UNIT) by (nonlinear_arith)
        requires
            age >= total,
            total >= 1,
            UNIT == 0x1_0000_0000,
    ;
    assert(age * UNIT >= 0) by (nonlinear_arith)
        requires
            age >= 0,
            UNIT == 0x1_0000_0000,
    ;
    let t = ratio_spec(age, total).clamp_spec(Fixed { steps: 0 }, Fixed { steps: UNIT });
    assert(t.steps == UNIT);
    lemma_one_squared();
}

proof fn lemma_one_squared()
    ensures
        ({
            let one = Fixed { steps: UNIT };
            one.times_spec(one) == one
        }),
{
    assert(UNIT * UNIT == 0x1_0000_0000_0000_0000) by (nonlinear_arith)
        requires
            UNIT == 0x1_0000_0000,
    ;
}

/// A highlight lasts from its start for its duration, and is drawn only while
/// more than a thousandth of its strength is left.
pub proof fn law_highlights_last_their_duration(e: PulseEntry, now: u64)
    ensures
        is_live(e, now) <==> now < e.started + e.duration_ms || now < e.started,
        strength(e, now).steps * 999 >= UNIT ==> is_visible(e, now),
        strength(e, now).steps * 1001 <= UNIT ==> !is_visible(e, now),
        now < e.started ==> !is_visible(e, now),
{
    crate::fixed::law_ratios_of_whole_numbers(1, 1000);
}

/// A highlight starts at full strength and has lost, by each time, the fourth
/// power of the part of its duration that is gone.
pub proof fn law_highlights_fade_by_the_fourth_power(e: PulseEntry, now: u64) -> (t: Fixed)
    requires
        e.started <= now,
        now - e.started < e.duration_ms,
    ensures
        ({
            let x = t.steps;
            let s = strength(e, now).steps;
            &&& 0 <= x < UNIT
            &&& 0 <= (now - e.started) * UNIT - x * e.duration_ms < e.duration_ms
            &&& 0 <= x * x * x * x - (UNIT - s) * UNIT * UNIT * UNIT < 3 * UNIT * UNIT * UNIT
            &&& now == e.started ==> s == UNIT
        }),
{
    let n = now - e.started;
    let d = e.duration_ms as int;
    let q = (n * UNIT) / d;
    assert(0 <= n * UNIT - q * d < d && 0 <= q < UNIT && n * UNIT >= 0) by (nonlinear_arith)
        requires
            0 <= n < d,
            q == (n * UNIT) / d,
            UNIT == 0x1_0000_0000,
    ;
    let t = ratio_spec(n, d);
    let x = t.steps as int;
    assert(0 <= x * x <= UNIT * UNIT) by (nonlinear_arith)
        requires
            0 <= x <= UNIT,
    ;
    crate::fixed::law_products_round_toward_zero(t, t);
    let sq = t.times_spec(t);
    let y = sq.steps as int;
    assert(y <= UNIT) by (nonlinear_arith)
        requires
            y * UNIT <= x * x,
            x * x <= UNIT * UNIT,
            UNIT == 0x1_0000_0000,
    ;
    assert(0 <= y * y <= UNIT * UNIT) by (nonlinear_arith)
        requires
            0 <= y <= UNIT,
    ;
    crate::fixed::law_products_round_toward_zero(sq, sq);
    let c = sq.times_spec(sq).steps as int;
    assert(c <= UNIT) by (nonlinear_arith)
        requires
            c * UNIT <= y * y,
            y * y <= UNIT * UNIT,
            UNIT == 0x1_0000_0000,
    ;
    assert(0 <= x * x * x * x - c * UNIT * UNIT * UNIT < 3 * UNIT * UNIT * UNIT)
        by (nonlinear_arith)
        requires
            0 <= x <= UNIT,
            0 <= y <= UNIT,
            0 <= x * x - y * UNIT < UNIT,
            0 <= y * y - c * UNIT < UNIT,
            UNIT == 0x1_0000_0000,
    {
        let f = x * x - y * UNIT;
        let g = y * y - c * UNIT;
        assert(x * x * x * x == (x * x) * (x * x));
        assert((x * x) * (x * x) == (y * UNIT + f) * (y * UNIT + f));
        assert((y * UNIT + f) * (y * UNIT + f) == y * y * UNIT * UNIT + 2 * y * UNIT * f + f * f);
        assert(y * y * UNIT * UNIT == c * UNIT * UNIT * UNIT + g * UNIT * UNIT);
        assert(0 <= g * UNIT * UNIT < UNIT * UNIT * UNIT);
        assert(0 <= 2 * y * UNIT * f + f * f < 2 * UNIT * UNIT * UNIT) by {
            assert(2 * y * UNIT * f + f * f == f * (2 * y * UNIT + f));
            assert(2 * y * UNIT + f <= 2 * UNIT * UNIT) by {
                assert(2 * y * UNIT + f == y * UNIT + x * x);
                assert(y * UNIT <= UNIT * UNIT);
            }
            assert(0 <= f * (2 * y * UNIT + f));
            assert(f * (2 * y * UNIT + f) <= (UNIT - 1) * (2 * UNIT * UNIT));
        }
    }
    if n == 0 {
        assert(x == 0) by (nonlinear_arith)
            requires
                q == x,
                0 <= n * UNIT - q * d < d,
                n == 0,
                0 <= q,
        ;
    }
    t
}

/// The highlights that still last are kept as they are, and in order: there are
/// increasing places of highlights, one for each that is kept, and they are the
/// places of those whose time is not over.
pub proof fn law_lasting_highlights_are_kept(es: Seq<PulseEntry>, now: u64) -> (at: Seq<int>)
    ensures
        at.len() == live_entries(es, now).len(),
        forall|a: int, b: int| 0 <= a < b < at.len() ==> at[a] < at[b],
        forall|i: int|
            0 <= i < es.len() ==> (at.contains(i) <==> now < (#[trigger] es[i]).started || now
                - es[i].started < es[i].duration_ms),
        forall|k: int|
            0 <= k < at.len() ==> 0 <= #[trigger] at[k] < es.len() && live_entries(es, now)[k]
                == es[at[k]],
{
    crate::text::law_picked_items_stay_in_order(es, |e: PulseEntry| is_live(e, now))
}

/// The highlights that can be seen are drawn in order, each with its strength:
/// there are increasing places of highlights, one for each that is drawn.
pub proof fn law_visible_highlights_are_drawn(es: Seq<PulseEntry>, now: u64) -> (at: Seq<int>)
    ensures
        at.len() == drawn_entries(es, now).len(),
        forall|a: int, b: int| 0 <= a < b < at.len() ==> at[a] < at[b],
        forall|i: int|
            0 <= i < es.len() ==> (at.contains(i) <==> is_visible(#[trigger] es[i], now)),
        forall|k: int|
            0 <= k < at.len() ==> {
                &&& 0 <= #[trigger] at[k] < es.len()
                &&& drawn_entries(es, now)[k].0 == es[at[k]].id
                &&& drawn_entries(es, now)[k].1 == strength(es[at[k]], now)
            },
{
    crate::text::law_picked_items_stay_in_order(es, |e: PulseEntry| is_visible(e, now))
}

proof fn lemma_port_place(ports: Seq<ScenePort>, id: Seq<char>, from: int)
    requires
        0 <= from <= ports.len(),
    ensures
        ({
            let p = port_place(ports, id, from);
            &&& from <= p <= ports.len()
            &&& p < ports.len() ==> ports[p].id@ == id
            &&& forall|k: int| from <= k < p ==> (#[trigger] ports[k]).id@ != id
        }),
    decreases ports.len() - from,
{
    if from < ports.len() && ports[from].id@ != id {
        lemma_port_place(ports, id, from + 1);
    }
}

/// A port that comes first under its name lies at its offset from its node's
/// corner; where no port of the node has the name, the middle of the node stands
/// in for it.
pub proof fn law_ports_lie_at_their_offsets(node: SceneNode, id: Seq<char>, i: int)
    requires
        0 <= i < node.ports@.len(),
        node.ports@[i].id@ == id,
        forall|k: int| 0 <= k < i ==> (#[trigger] node.ports@[k]).id@ != id,
        ({
            let x = node.rect.min.x.steps + node.ports@[i].local_offset.x.steps;
            let y = node.rect.min.y.steps + node.ports@[i].local_offset.y.steps;
            &&& -crate::fixed::MAX_STEPS <= x <= crate::fixed::MAX_STEPS
            &&& -crate::fixed::MAX_STEPS <= y <= crate::fixed::MAX_STEPS
        }),
    ensures
        port_position(node, id).x.steps == node.rect.min.x.steps
            + node.ports@[i].local_offset.x.steps,
        port_position(node, id).y.steps == node.rect.min.y.steps
            + node.ports@[i].local_offset.y.steps,
{
    lemma_port_place(node.ports@, id, 0);
}

/// A highlighted edge is drawn from the port that it starts at to the port that
/// it ends at.
pub proof fn law_flashes_run_along_their_edge(scene: Scene, e: int, f: int, t: int)
    requires
        scene.wf(),
        0 <= e < scene.edges@.len(),
        0 <= f < scene.nodes@.len(),
        0 <= t < scene.nodes@.len(),
        scene.edges@[e].from.node == scene.nodes@[f].id,
        scene.edges@[e].to.node == scene.nodes@[t].id,
    ensures
        flash_ends_spec(scene, scene.edges@[e].id) matches Some((a, b)) && {
            &&& a == port_position(scene.nodes@[f], scene.edges@[e].from.port@)
            &&& b == port_position(scene.nodes@[t], scene.edges@[e].to.port@)
        },
{
    crate::scene::law_ids_find_their_edges(scene, e, scene.edges@[e].id);
    crate::scene::law_ids_find_their_nodes(scene, f, scene.nodes@[f].id);
    crate::scene::law_ids_find_their_nodes(scene, t, scene.nodes@[t].id);
}

proof fn lemma_shown_edge(scene: Scene, c: PendingApiConnection, from: int) -> (e: int)
    requires
        0 <= from,
        shown_edge(scene, c, from) is Some,
    ensures
        from <= e < scene.edges@.len(),
        shown_edge(scene, c, from) == Some(scene.edges@[e].id),
        shows(scene, scene.edges@[e], c),
    decreases scene.edges@.len() - from,
{
    if shows(scene, scene.edges@[from], c) {
        from
    } else {
        lemma_shown_edge(scene, c, from + 1)
    }
}

/// The edge that shows an added connection starts at the node that stands for the
/// first component, under the first port's name, and ends at the node that stands
/// for the second, under the second's; both nodes have the port.
pub proof fn law_shown_edges_join_the_named_ports(
    scene: Scene,
    c: PendingApiConnection,
) -> (r: (int, int, int, int, int))
    requires
        scene.wf(),
        shown_edge(scene, c, 0) is Some,
    ensures
        ({
            let (e, f, t, p, q) = r;
            &&& 0 <= e < scene.edges@.len()
            &&& shown_edge(scene, c, 0) == Some(scene.edges@[e].id)
            &&& 0 <= f < scene.nodes@.len() && 0 <= t < scene.nodes@.len()
            &&& scene.edges@[e].from.node == scene.nodes@[f].id
            &&& scene.edges@[e].to.node == scene.nodes@[t].id
            &&& scene.nodes@[f].origin is Some
            &&& (scene.nodes@[f].origin->0)@ == c.from_component@
            &&& scene.nodes@[t].origin is Some
            &&& (scene.nodes@[t].origin->0)@ == c.to_component@
            &&& scene.edges@[e].from.port@ == c.from_port@
            &&& scene.edges@[e].to.port@ == c.to_port@
            &&& 0 <= p < scene.nodes@[f].ports@.len()
            &&& scene.nodes@[f].ports@[p].id@ == c.from_port@
            &&& 0 <= q < scene.nodes@[t].ports@.len()
            &&& scene.nodes@[t].ports@[q].id@ == c.to_port@
        }),
{
    let e = lemma_shown_edge(scene, c, 0);
    let edge = scene.edges@[e];
    let f = scene.node_place(edge.from.node)->0;
    let t = scene.node_place(edge.to.node)->0;
    lemma_port_place(scene.nodes@[f].ports@, c.from_port@, 0);
    lemma_port_place(scene.nodes@[t].ports@, c.to_port@, 0);
    (
        e,
        f,
        t,
        port_place(scene.nodes@[f].ports@, c.from_port@, 0),
        port_place(scene.nodes@[t].ports@, c.to_port@, 0),
    )
}

/// The connections that go on waiting are those that have waited five seconds at
/// most and that no canvas shows, in the order in which they came: there are
/// increasing places of connections, one for each that is kept.
pub proof fn law_unseen_connections_wait(
    cs: Seq<TabCanvas>,
    items: Seq<PendingApiConnection>,
    n: int,
    now: u64,
) -> (at: Seq<int>)
    requires
        0 <= n <= items.len(),
    ensures
        at.len() == still_waiting(cs, items, n, now).len(),
        forall|a: int, b: int| 0 <= a < b < at.len() ==> at[a] < at[b],
        forall|i: int|
            0 <= i < n ==> (at.contains(i) <==> now - (#[trigger] items[i]).queued_at <= 5000
                && forall|k: int| 0 <= k < cs.len() ==> !is_shown_in(#[trigger] cs[k], items[i])),
        forall|k: int|
            0 <= k < at.len() ==> 0 <= #[trigger] at[k] < n && still_waiting(
                cs,
                items,
                n,
                now,
            )[k] == items[at[k]],
    decreases n,
{
    if n == 0 {
        Seq::empty()
    } else {
        let before = law_unseen_connections_wait(cs, items, n - 1, now);
        let waits = keeps_waiting(cs, items[n - 1], now);
        let at = if waits {
            before.push(n - 1)
        } else {
            before
        };
        assert forall|i: int| 0 <= i < n implies (at.contains(i) <==> keeps_waiting(
            cs,
            #[trigger] items[i],
            now,
        )) by {
            if i < n - 1 {
                assert(before.contains(i) <==> keeps_waiting(cs, items[i], now));
                if before.contains(i) {
                    let k = choose|k: int| 0 <= k < before.len() && before[k] == i;
                    assert(at[k] == i);
                }
                if at.contains(i) {
                    let k = choose|k: int| 0 <= k < at.len() && at[k] == i;
                    assert(before[k] == i);
                }
            } else {
                if waits {
                    assert(at[before.len() as int] == i);
                }
                if at.contains(i) {
                    let k = choose|k: int| 0 <= k < at.len() && at[k] == i;
                    if k < before.len() {
                        assert(before[k] == i);
                    }
                }
            }
        }
        assert forall|k: int| 0 <= k < at.len() implies 0 <= #[trigger] at[k] < n && still_waiting(
            cs,
            items,
            n,
            now,
        )[k] == items[at[k]] by {
            if k < before.len() {
                assert(at[k] == before[k]);
            }
        }
        at
    }
}

/// Each connection that a canvas shows in time, and whose highlight takes time,
/// is highlighted there, under that canvas's own edge and from now on; and
/// nothing else is: there are increasing places of connections, one for each
/// highlight.
pub proof fn law_flashes_are_of_shown_connections(
    c: TabCanvas,
    items: Seq<PendingApiConnection>,
    n: int,
    now: u64,
) -> (at: Seq<int>)
    requires
        0 <= n <= items.len(),
    ensures
        at.len() == flashes_of(c, items, n, now).len(),
        forall|a: int, b: int| 0 <= a < b < at.len() ==> at[a] < at[b],
        forall|i: int|
            0 <= i < n ==> (at.contains(i) <==> {
                &&& now - (#[trigger] items[i]).queued_at <= 5000
                &&& items[i].doc == c.doc
                &&& shown_edge(c.state.scene, items[i], 0) is Some
                &&& items[i].animation_ms > 0
            }),
        forall|k: int|
            0 <= k < at.len() ==> {
                let p = flashes_of(c, items, n, now)[k];
                &&& 0 <= #[trigger] at[k] < n
                &&& Some(p.id) == shown_edge(c.state.scene, items[at[k]], 0)
                &&& p.started == now
                &&& p.duration_ms == items[at[k]].animation_ms
            },
    decreases n,
{
    if n == 0 {
        Seq::empty()
    } else {
        let before = law_flashes_are_of_shown_connections(c, items, n - 1, now);
        let x = items[n - 1];
        let lit = !is_expired(x.queued_at, now) && is_shown_in(c, x) && x.animation_ms > 0;
        let at = if lit {
            before.push(n - 1)
        } else {
            before
        };
        assert forall|i: int| 0 <= i < n implies (at.contains(i) <==> {
            &&& now - (#[trigger] items[i]).queued_at <= 5000
            &&& items[i].doc == c.doc
            &&& shown_edge(c.state.scene, items[i], 0) is Some
            &&& items[i].animation_ms > 0
        }) by {
            if i < n - 1 {
                if before.contains(i) {
                    let k = choose|k: int| 0 <= k < before.len() && before[k] == i;
                    assert(at[k] == i);
                }
                if at.contains(i) {
                    let k = choose|k: int| 0 <= k < at.len() && at[k] == i;
                    assert(before[k] == i);
                }
            } else {
                if lit {
                    assert(at[before.len() as int] == i);
                }
                if at.contains(i) {
                    let k = choose|k: int| 0 <= k < at.len() && at[k] == i;
                    if k < before.len() {
                        assert(before[k] == i);
                    }
                }
            }
        }
        assert forall|k: int| 0 <= k < at.len() implies {
            let p = flashes_of(c, items, n, now)[k];
            &&& 0 <= #[trigger] at[k] < n
            &&& Some(p.id) == shown_edge(c.state.scene, items[at[k]], 0)
            &&& p.started == now
            &&& p.duration_ms == items[at[k]].animation_ms
        } by {
            if k < before.len() {
                assert(at[k] == before[k]);
            }
        }
        at
    }
}

/// A batch is taken a fifth of a second after its last component was added at the
/// earliest, and then waits only for components that have not appeared and were
/// added five seconds ago at most.
pub proof fn law_batches_wait_for_their_components(
    st: CanvasDiagramState,
    items: Seq<PendingApiFocus>,
    now: u64,
    i: int,
)
    requires
        0 <= i < items.len(),
    ensures
        now - items.last().queued_at < 200 ==> is_held_back(st, items, now),
        now - items[i].queued_at <= 5000 && landed(st.state_of(Some(items[i].doc)).scene, items[i])
            is None ==> is_held_back(st, items, now),
        now - items.last().queued_at >= 200 && (forall|k: int|
            0 <= k < items.len() ==> now - (#[trigger] items[k]).queued_at > 5000 || landed(
                st.state_of(Some(items[k].doc)).scene,
                items[k],
            ) is Some) ==> !is_held_back(st, items, now),
{
    if now - items[i].queued_at <= 5000 && landed(st.state_of(Some(items[i].doc)).scene, items[i])
        is None {
        assert(!is_resolved(st, items[i]));
    }
}

proof fn lemma_named_place(nodes: Seq<SceneNode>, name: Seq<char>, from: int)
    requires
        0 <= from <= nodes.len(),
    ensures
        ({
            let p = named_place(nodes, name, from);
            &&& from <= p <= nodes.len()
            &&& p < nodes.len() ==> nodes[p].origin is Some && (nodes[p].origin->0)@ == name
            &&& forall|k: int|
                from <= k < p ==> !((#[trigger] nodes[k]).origin is Some && (nodes[k].origin->0)@
                    == name)
        }),
    decreases nodes.len() - from,
{
    if from < nodes.len() && opt_view(nodes[from].origin) != Some(name) {
        lemma_named_place(nodes, name, from + 1);
    }
}

/// A component has appeared where the first node that stands for its name is, and
/// only where some node does.
pub proof fn law_components_land_on_their_node(scene: Scene, f: PendingApiFocus, i: int)
    requires
        0 <= i < scene.nodes@.len(),
        scene.nodes@[i].origin is Some,
        (scene.nodes@[i].origin->0)@ == f.name@,
        forall|k: int|
            0 <= k < i ==> !((#[trigger] scene.nodes@[k]).origin is Some && (
            scene.nodes@[k].origin->0)@ == f.name@),
    ensures
        landed(scene, f) matches Some(l) && {
            &&& l.node == scene.nodes@[i].id
            &&& l.rect == scene.nodes@[i].rect
            &&& l.animation_ms == f.animation_ms
        },
{
    lemma_named_place(scene.nodes@, f.name@, 0);
}

/// The components of a batch light up one after the other, a quarter of a second
/// apart, in the order in which they were added: there are increasing places of
/// components, one for each highlight, those of the components that are shown and
/// whose highlight takes time.
pub proof fn law_highlights_follow_each_other(
    ls: Seq<Option<Landed>>,
    n: int,
    now: u64,
) -> (at: Seq<int>)
    requires
        0 <= n <= ls.len(),
        now + 250 * n <= u64::MAX,
    ensures
        at.len() == staggered_pulses(ls, n, now).len(),
        forall|a: int, b: int| 0 <= a < b < at.len() ==> at[a] < at[b],
        forall|i: int|
            0 <= i < n ==> (at.contains(i) <==> (#[trigger] ls[i] matches Some(l)
                && l.animation_ms > 0)),
        forall|k: int|
            0 <= k < at.len() ==> {
                let p = staggered_pulses(ls, n, now)[k];
                &&& 0 <= #[trigger] at[k] < n
                &&& p.started == now + 250 * at[k]
                &&& ls[at[k]] matches Some(l) && p.id == l.node && p.duration_ms == l.animation_ms
            },
    decreases n,
{
    if n == 0 {
        Seq::empty()
    } else {
        let before = law_highlights_follow_each_other(ls, n - 1, now);
        let lit = ls[n - 1] matches Some(l) && l.animation_ms > 0;
        let at = if lit {
            before.push(n - 1)
        } else {
            before
        };
        assert forall|i: int| 0 <= i < n implies (at.contains(i) <==> (
        #[trigger] ls[i] matches Some(l) && l.animation_ms > 0)) by {
            if i < n - 1 {
                if before.contains(i) {
                    let k = choose|k: int| 0 <= k < before.len() && before[k] == i;
                    assert(at[k] == i);
                }
                if at.contains(i) {
                    let k = choose|k: int| 0 <= k < at.len() && at[k] == i;
                    assert(before[k] == i);
                }
            } else {
                if lit {
                    assert(at[before.len() as int] == i);
                }
                if at.contains(i) {
                    let k = choose|k: int| 0 <= k < at.len() && at[k] == i;
                    if k < before.len() {
                        assert(before[k] == i);
                    }
                }
            }
        }
        assert forall|k: int| 0 <= k < at.len() implies {
            let p = staggered_pulses(ls, n, now)[k];
            &&& 0 <= #[trigger] at[k] < n
            &&& p.started == now + 250 * at[k]
            &&& ls[at[k]] matches Some(l) && p.id == l.node && p.duration_ms == l.animation_ms
        } by {
            if k < before.len() {
                assert(at[k] == before[k]);
            }
        }
        at
    }
}

/// The region that is shown after a batch holds what was shown before and every
/// node of the batch.
pub proof fn law_region_holds_the_batch(region: Rect, ls: Seq<Option<Landed>>, n: int, i: int)
    requires
        0 <= i < n <= ls.len(),
    ensures
        ({
            let r = region_with(region, ls, n);
            &&& r.min.x.steps <= region.min.x.steps && r.max.x.steps >= region.max.x.steps
            &&& r.min.y.steps <= region.min.y.steps && r.max.y.steps >= region.max.y.steps
            &&& ls[i] matches Some(l) ==> {
                &&& r.min.x.steps <= l.rect.min.x.steps && r.max.x.steps >= l.rect.max.x.steps
                &&& r.min.y.steps <= l.rect.min.y.steps && r.max.y.steps >= l.rect.max.y.steps
            }
        }),
    decreases n,
{
    if n > 1 {
        if i < n - 1 {
            law_region_holds_the_batch(region, ls, n - 1, i);
        } else {
            law_region_holds_the_batch(region, ls, n - 1, 0);
        }
    }
    reveal_with_fuel(region_with, 2);
}

/// Highlights are added to a canvas behind those that it has, and nothing else of
/// it changes.
pub proof fn law_flashes_are_added_behind(
    base: TabCanvas,
    after: TabCanvas,
    added: Seq<PulseEntry>,
    i: int,
)
    requires
        is_flashed(base, after, added),
        0 <= i,
    ensures
        after.tab == base.tab && after.doc == base.doc,
        after.state.scene == base.state.scene,
        after.state.viewport == base.state.viewport,
        after.state.pulses == base.state.pulses,
        after.state.edge_pulses@.len() == base.state.edge_pulses@.len() + added.len(),
        i < base.state.edge_pulses@.len() ==> after.state.edge_pulses@[i]
            == base.state.edge_pulses@[i],
        i < added.len() ==> after.state.edge_pulses@[base.state.edge_pulses@.len() + i] == added[i],
{
}

/// Where a node of a batch does not lie well inside what its canvas shows, the
/// next frame shows what was shown and that node too; where all of them do, the
/// camera and what it was asked to show stay as they are. The highlights come
/// behind those that the canvas has.
pub proof fn law_the_camera_follows_a_batch(
    base: CanvasDocState,
    after: CanvasDocState,
    ls: Seq<Option<Landed>>,
    now: u64,
    i: int,
)
    requires
        is_focused(base, after, ls, now),
        0 <= i < ls.len(),
        ls[i] is Some,
    ensures
        after.scene == base.scene && after.viewport == base.viewport,
        ({
            let l = ls[i]->0;
            let shown = visible_region(base.viewport, base.screen);
            !contains_with_margin(shown, l.rect) ==> {
                &&& after.pending_fit
                &&& after.fit_region matches Some(r) && {
                    &&& r.min.x.steps <= l.rect.min.x.steps && r.min.x.steps <= shown.min.x.steps
                    &&& r.min.y.steps <= l.rect.min.y.steps && r.min.y.steps <= shown.min.y.steps
                    &&& r.max.x.steps >= l.rect.max.x.steps && r.max.x.steps >= shown.max.x.steps
                    &&& r.max.y.steps >= l.rect.max.y.steps && r.max.y.steps >= shown.max.y.steps
                }
            }
        }),
        after.pulses@.len() >= base.pulses@.len(),
        after.pulses@.take(base.pulses@.len() as int) == base.pulses@,
{
    let shown = visible_region(base.viewport, base.screen);
    law_region_holds_the_batch(shown, ls, ls.len() as int, i);
    assert(after.pulses@.take(base.pulses@.len() as int) =~= base.pulses@);
}

/// The components of a batch that a canvas highlights are those of its own
/// document that have appeared, in order: there are increasing places of
/// components, one for each.
pub proof fn law_batches_land_by_document(
    st: CanvasDiagramState,
    items: Seq<PendingApiFocus>,
    doc: u64,
    scene: Scene,
) -> (at: Seq<int>)
    ensures
        at.len() == landed_in(st, items, doc, scene).len(),
        forall|a: int, b: int| 0 <= a < b < at.len() ==> at[a] < at[b],
        forall|i: int|
            0 <= i < items.len() ==> (at.contains(i) <==> (#[trigger] items[i]).doc == doc
                && is_resolved(st, items[i])),
        forall|k: int|
            0 <= k < at.len() ==> 0 <= #[trigger] at[k] < items.len() && landed_in(
                st,
                items,
                doc,
                scene,
            )[k] == landed(scene, items[at[k]]),
    decreases items.len(),
{
    if items.len() == 0 {
        Seq::empty()
    } else {
        let rest = items.drop_last();
        let before = law_batches_land_by_document(st, rest, doc, scene);
        let n = items.len() - 1;
        let has = items.last().doc == doc && is_resolved(st, items.last());
        let at = if has {
            before.push(n)
        } else {
            before
        };
        assert forall|i: int| 0 <= i < items.len() implies (at.contains(i) <==> (
        #[trigger] items[i]).doc == doc && is_resolved(st, items[i])) by {
            if i < n {
                assert(rest[i] == items[i]);
                if before.contains(i) {
                    let k = choose|k: int| 0 <= k < before.len() && before[k] == i;
                    assert(at[k] == i);
                }
                if at.contains(i) {
                    let k = choose|k: int| 0 <= k < at.len() && at[k] == i;
                    assert(before[k] == i);
                }
            } else {
                if has {
                    assert(at[before.len() as int] == i);
                }
                if at.contains(i) {
                    let k = choose|k: int| 0 <= k < at.len() && at[k] == i;
                    if k < before.len() {
                        assert(before[k] == i);
                    }
                }
            }
        }
        assert forall|k: int| 0 <= k < at.len() implies 0 <= #[trigger] at[k] < items.len()
            && landed_in(st, items, doc, scene)[k] == landed(scene, items[at[k]]) by {
            if k < before.len() {
                assert(at[k] == before[k]);
                assert(rest[before[k]] == items[before[k]]);
            }
        }
        at
    }
}

} // verus!
