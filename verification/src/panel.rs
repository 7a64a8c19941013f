//! One frame of the diagram panel: what the host does before, between and after
//! drawing the canvas.
use crate::fixed::{ratio_spec, Fixed, UNIT};
use crate::framing::{fit_of, fit_target, take_fit, FitRequest};
use crate::geometry::{Pos, Rect};
use crate::loads::{since, DrillInLoads, DuplicateLoads};
use crate::menus::{add_instance, is_added};
use crate::model::ComponentDef;
use crate::ops::{build_ops_from_events, events_ops, op_views, ModelicaOp, SceneEvent};
use crate::overlay::{choose_overlay, overlay_spec, Overlay};
use crate::scene::{NodeData, Scene};
use crate::state::{
    CanvasDiagramState, CanvasDocState, ContextMenuTarget, PendingContextMenu,
};
use crate::text::views;
use vstd::prelude::*;

verus! {

// ── Before the canvas is drawn ───────────────────────────────────────────

/// Which document the frame may have to project: the active one, where a model
/// is open. Without an active document the shared canvas is cleared.
pub fn begin_frame(st: &mut CanvasDiagramState, active: Option<u64>, model_open: bool) -> (r: Option<
    u64,
>)
    requires
        old(st).wf(),
    ensures
        final(st).wf(),
        r == (if model_open {
            active
        } else {
            None
        }),
        final(st).canvases == old(st).canvases,
        match active {
            Some(_) => final(st).fallback == old(st).fallback,
            None => {
                &&& final(st).fallback == (CanvasDocState {
                    scene: final(st).fallback.scene,
                    ..old(st).fallback
                })
                &&& final(st).fallback.scene.nodes@.len() == 0
                &&& final(st).fallback.scene.edges@.len() == 0
                &&& final(st).fallback.scene.next_node == 0
                &&& final(st).fallback.scene.next_edge == 0
            },
        },
{
    match active {
        Some(d) => if model_open {
            Some(d)
        } else {
            None
        },
        None => {
            st.fallback.scene = Scene::new();
            None
        },
    }
}

// ── Dropping classes from the palette ────────────────────────────────────

/// Whether a point lies in a rectangle or on its edge.
pub open spec fn is_inside(r: Rect, p: Pos) -> bool {
    &&& r.min.x.steps <= p.x.steps <= r.max.x.steps
    &&& r.min.y.steps <= p.y.steps <= r.max.y.steps
}

fn inside(r: Rect, p: Pos) -> (b: bool)
    ensures
        b == is_inside(r, p),
{
    r.min.x.steps <= p.x.steps && p.x.steps <= r.max.x.steps && r.min.y.steps <= p.y.steps
        && p.y.steps <= r.max.y.steps
}

/// The box that follows the pointer while a class is dragged: as large as its
/// icon of twenty units, at least twenty-four pixels.
pub open spec fn ghost_box_spec(pointer: Pos, zoom: Fixed) -> Rect {
    let half = ratio_spec(20, 1).times_spec(zoom).half_spec().max_spec(ratio_spec(12, 1));
    Rect {
        min: Pos { x: pointer.x.minus_spec(half), y: pointer.y.minus_spec(half) },
        max: Pos { x: pointer.x.plus_spec(half), y: pointer.y.plus_spec(half) },
    }
}

/// The box that follows the pointer while a class is dragged.
pub fn ghost_box(pointer: Pos, zoom: Fixed) -> (r: Rect)
    ensures
        r == ghost_box_spec(pointer, zoom),
{
    let half = Fixed::whole(20).times(zoom).half().larger(Fixed::whole(12));
    Rect {
        min: Pos { x: pointer.x.minus(half), y: pointer.y.minus(half) },
        max: Pos { x: pointer.x.plus(half), y: pointer.y.plus(half) },
    }
}

/// The class that a dropped component is added to: the edited one, else the one
/// that the tab shows, else the first of the document; empty where there is
/// none.
pub fn drop_class(editing: &Option<String>, drilled: &Option<String>, first: &Option<String>) -> (r:
    String)
    ensures
        r@ == (match (*editing, *drilled, *first) {
            (Some(c), _, _) => c@,
            (None, Some(c), _) => c@,
            (None, None, Some(c)) => c@,
            (None, None, None) => Seq::empty(),
        }),
{
    match editing {
        Some(c) => c.clone(),
        None => match drilled {
            Some(c) => c.clone(),
            None => match first {
                Some(c) => c.clone(),
                None => String::new(),
            },
        },
    }
}

/// The pointer while a class is dragged: whether it was released, where it is on
/// the screen, and which point of the canvas lies under it.
#[derive(Clone, Copy, Debug, PartialEq, Eq, Structural)]
pub struct DragPointer {
    pub released: bool,
    pub hover: Option<Pos>,
    pub world: Pos,
}

/// Whether a drag ends in a component: the pointer is released over the canvas
/// of a document that can be edited, and there is a class to add to.
pub open spec fn is_dropped(
    drag: DragPointer,
    widget: Rect,
    has_document: bool,
    read_only: bool,
    class: Seq<char>,
) -> bool {
    &&& drag.released
    &&& drag.hover matches Some(p) && is_inside(widget, p)
    &&& has_document
    &&& !read_only
    &&& class.len() > 0
}

/// Ends or continues a drag of a class from the palette. A drop adds an
/// instance. The payload of the drag is to be cleared whenever the pointer was
/// released, wherever that was.
pub fn drop_component(
    ds: &mut CanvasDocState,
    comp: &ComponentDef,
    drag: DragPointer,
    widget: Rect,
    has_document: bool,
    read_only: bool,
    class: &str,
) -> (r: (bool, Option<ModelicaOp>))
    requires
        old(ds).wf(),
        old(ds).scene.next_node < u64::MAX,
        old(ds).scene.nodes@.len() < u64::MAX,
    ensures
        final(ds).wf(),
        r.0 == drag.released,
        r.1 is Some <==> is_dropped(drag, widget, has_document, read_only, class@),
        match r.1 {
            Some(op) => {
                &&& *final(ds) == (CanvasDocState { scene: final(ds).scene, ..*old(ds) })
                &&& is_added(old(ds).scene, final(ds).scene, *comp, drag.world, class@, op)
            },
            None => *final(ds) == *old(ds),
        },
{
    if !drag.released || !has_document || read_only || class.is_empty() {
        return (drag.released, None);
    }
    match drag.hover {
        Some(p) => if inside(widget, p) {
            let op = add_instance(&mut ds.scene, comp, drag.world, class);
            (true, Some(op))
        } else {
            (true, None)
        },
        None => (true, None),
    }
}

// ── Loading ──────────────────────────────────────────────────────────────

/// What is loading into a document, and for how many milliseconds: a class that
/// was drilled into, or else a copy.
pub open spec fn loading_spec(
    drills: DrillInLoads,
    copies: DuplicateLoads,
    doc: Option<u64>,
    now: u64,
) -> Option<(Seq<char>, u64)> {
    match doc {
        Some(d) => if drills.pending@.contains_key(d) {
            Some((drills.pending@[d].qualified@, since(drills.pending@[d].started, now)))
        } else if copies.pending@.contains_key(d) {
            Some((copies.pending@[d].display_name@, since(copies.pending@[d].started, now)))
        } else {
            None
        },
        None => None,
    }
}

/// What is loading into a document, and for how many milliseconds.
pub fn loading_progress(
    drills: &DrillInLoads,
    copies: &DuplicateLoads,
    doc: Option<u64>,
    now: u64,
) -> (r: Option<(String, u64)>)
    ensures
        match r {
            Some((name, ms)) => loading_spec(*drills, *copies, doc, now) == Some((name@, ms)),
            None => loading_spec(*drills, *copies, doc, now) is None,
        },
{
    match doc {
        Some(d) => match drills.progress(d, now) {
            Some((name, ms)) => Some((name.to_owned(), ms)),
            None => match copies.progress(d, now) {
                Some((name, ms)) => Some((name.to_owned(), ms)),
                None => None,
            },
        },
        None => None,
    }
}

// ── Context menus ────────────────────────────────────────────────────────

/// What a right-click aims at: a node before an edge.
pub open spec fn target_spec(node: Option<u64>, edge: Option<u64>) -> ContextMenuTarget {
    match (node, edge) {
        (Some(id), _) => ContextMenuTarget::Node(id),
        (None, Some(id)) => ContextMenuTarget::Edge(id),
        (None, None) => ContextMenuTarget::Empty,
    }
}

/// What a right-click aims at.
pub fn menu_target(node: Option<u64>, edge: Option<u64>) -> (r: ContextMenuTarget)
    ensures
        r == target_spec(node, edge),
{
    match node {
        Some(id) => ContextMenuTarget::Node(id),
        None => match edge {
            Some(id) => ContextMenuTarget::Edge(id),
            None => ContextMenuTarget::Empty,
        },
    }
}

/// The pointer and the popups of a frame: whether the right button was clicked,
/// where it went down, where the pointer is, which point of the canvas lies
/// there, what was hit, and whether any popup of the host is open.
#[derive(Clone, Copy, Debug, PartialEq, Eq, Structural)]
pub struct MenuPointer {
    pub secondary_clicked: bool,
    pub press: Option<Pos>,
    pub pointer: Option<Pos>,
    pub world: Pos,
    pub hit_node: Option<u64>,
    pub hit_edge: Option<u64>,
    pub popup_open: bool,
}

/// What the host does about popups: close all that are open, and then offer the
/// menu or not.
#[derive(Clone, Copy, Debug, PartialEq, Eq, Structural)]
pub struct MenuStep {
    pub close_popups: bool,
    pub offer_menu: bool,
}

/// Where a right-click happened: where the button went down, or else where the
/// pointer is.
pub open spec fn click_place(m: MenuPointer) -> Option<Pos> {
    match m.press {
        Some(p) => Some(p),
        None => m.pointer,
    }
}

/// The open menu after a frame's pointer was looked at, and what the host does.
///
/// A document that cannot be edited has no menu; one that is left over from
/// before goes. A right-click opens the menu where it happened, unless this
/// document's own menu is up: then it closes it. A popup that belongs to
/// something else is closed and does not count as this document's menu.
pub open spec fn menu_step_spec(
    menu: Option<PendingContextMenu>,
    read_only: bool,
    m: MenuPointer,
) -> (Option<PendingContextMenu>, MenuStep) {
    if read_only {
        (None, MenuStep { close_popups: menu is Some, offer_menu: false })
    } else if m.secondary_clicked && click_place(m) is Some {
        if m.popup_open && menu is Some {
            (None, MenuStep { close_popups: true, offer_menu: false })
        } else {
            (
                Some(
                    PendingContextMenu {
                        screen_pos: click_place(m)->0,
                        world_pos: m.world,
                        target: target_spec(m.hit_node, m.hit_edge),
                    },
                ),
                MenuStep { close_popups: m.popup_open, offer_menu: true },
            )
        }
    } else {
        (menu, MenuStep { close_popups: false, offer_menu: true })
    }
}

/// Opens or closes the context menu of a document.
pub fn step_context_menu(ds: &mut CanvasDocState, read_only: bool, m: MenuPointer) -> (r: MenuStep)
    ensures
        *final(ds) == (CanvasDocState {
            context_menu: menu_step_spec(old(ds).context_menu, read_only, m).0,
            ..*old(ds)
        }),
        r == menu_step_spec(old(ds).context_menu, read_only, m).1,
{
    if read_only {
        let close_popups = ds.context_menu.is_some();
        ds.context_menu = None;
        return MenuStep { close_popups, offer_menu: false };
    }
    if m.secondary_clicked {
        let place = match m.press {
            Some(p) => Some(p),
            None => m.pointer,
        };
        if let Some(p) = place {
            if m.popup_open && ds.context_menu.is_some() {
                ds.context_menu = None;
                return MenuStep { close_popups: true, offer_menu: false };
            }
            ds.context_menu = Some(
                PendingContextMenu {
                    screen_pos: p,
                    world_pos: m.world,
                    target: menu_target(m.hit_node, m.hit_edge),
                },
            );
            return MenuStep { close_popups: m.popup_open, offer_menu: true };
        }
    }
    MenuStep { close_popups: false, offer_menu: true }
}

/// Forgets the menu where the host has closed it.
pub fn sync_context_menu(ds: &mut CanvasDocState, popup_open: bool)
    ensures
        *final(ds) == (CanvasDocState {
            context_menu: if popup_open {
                old(ds).context_menu
            } else {
                None
            },
            ..*old(ds)
        }),
{
    if !popup_open {
        ds.context_menu = None;
    }
}

// ── After the canvas is drawn ────────────────────────────────────────────

/// What the host knows once the canvas widget was drawn.
#[derive(Clone, Copy, Debug, PartialEq, Eq, Structural)]
pub struct CanvasFrame {
    /// The widget's rectangle on the screen.
    pub widget: Rect,
    pub has_document: bool,
    pub read_only: bool,
    pub menu: MenuPointer,
    pub load_failed: bool,
    pub loading: bool,
    /// Whether the source is newer than what was parsed.
    pub parsing: bool,
}

/// What the host does next.
#[derive(Debug, PartialEq, Eq)]
pub struct FrameOutcome {
    /// Whether the payload of a drag is to be cleared.
    pub clear_drag: bool,
    /// The edit of a dropped class.
    pub dropped: Option<ModelicaOp>,
    pub fit: Option<FitRequest>,
    pub overlay: Overlay,
    pub menu: MenuStep,
}

/// Whether what follows the drawing of the canvas was done: the canvas `was` became
/// `now`, and `r` is what the host does next.
pub open spec fn is_served(
    r: FrameOutcome,
    was: CanvasDocState,
    now: CanvasDocState,
    frame: CanvasFrame,
    dragged: Option<(&ComponentDef, DragPointer)>,
    class: Seq<char>,
) -> bool {
    &&& match (dragged, r.dropped) {
        (Some((comp, drag)), Some(op)) => is_dropped(
            drag,
            frame.widget,
            frame.has_document,
            frame.read_only,
            class,
        ) && is_added(was.scene, now.scene, *comp, drag.world, class, op),
        (Some((_, drag)), None) => !is_dropped(
            drag,
            frame.widget,
            frame.has_document,
            frame.read_only,
            class,
        ) && now.scene == was.scene,
        (None, None) => now.scene == was.scene,
        (None, Some(_)) => false,
    }
    &&& r.clear_drag == (dragged matches Some((_, drag)) && drag.released)
    &&& r.fit == (if was.pending_fit {
        fit_of(fit_target((CanvasDocState { scene: now.scene, ..was })), frame.widget)
    } else {
        None
    })
    &&& r.overlay == overlay_spec(
        frame.load_failed,
        frame.loading,
        frame.parsing,
        was.projection_task is Some,
        now.scene.nodes@.len() > 0,
    )
    &&& r.menu == menu_step_spec(was.context_menu, frame.read_only, frame.menu).1
    &&& now == (CanvasDocState {
        scene: now.scene,
        pending_fit: false,
        fit_region: if was.pending_fit {
            None
        } else {
            was.fit_region
        },
        context_menu: menu_step_spec(was.context_menu, frame.read_only, frame.menu).0,
        ..was
    })
}

/// What follows the drawing of the canvas: a drag of a class ends, a fit that
/// was asked for is served, the card over the canvas is chosen, and the context
/// menu opens or closes.
pub fn after_canvas(
    ds: &mut CanvasDocState,
    frame: CanvasFrame,
    dragged: Option<(&ComponentDef, DragPointer)>,
    class: &str,
) -> (r: FrameOutcome)
    requires
        old(ds).wf(),
        old(ds).scene.next_node < u64::MAX,
        old(ds).scene.nodes@.len() < u64::MAX,
    ensures
        final(ds).wf(),
        is_served(r, *old(ds), *final(ds), frame, dragged, class@),
{
    let (clear_drag, dropped) = match dragged {
        Some((comp, drag)) => drop_component(
            ds,
            comp,
            drag,
            frame.widget,
            frame.has_document,
            frame.read_only,
            class,
        ),
        None => (false, None),
    };
    let fit = take_fit(ds, frame.widget);
    let overlay = choose_overlay(
        frame.load_failed,
        frame.loading,
        frame.parsing,
        ds.projection_task.is_some(),
        ds.scene.nodes.len() > 0,
    );
    let menu = step_context_menu(ds, frame.read_only, frame.menu);
    FrameOutcome { clear_drag, dropped, fit, overlay, menu }
}

// ── Events ───────────────────────────────────────────────────────────────

/// The class that a double-click opens: that of the node, where it shows one.
pub open spec fn opened_by(scene: Scene, ev: SceneEvent) -> Seq<Seq<char>> {
    match ev {
        SceneEvent::NodeDoubleClicked { id } => match scene.node_spec(id) {
            Some(n) => match n.data {
                NodeData::Icon(d) => seq![d.qualified_type@],
                _ => Seq::empty(),
            },
            None => Seq::empty(),
        },
        _ => Seq::empty(),
    }
}

/// The classes that a run of events opens, in order.
pub open spec fn opened_classes(scene: Scene, events: Seq<SceneEvent>) -> Seq<Seq<char>>
    decreases events.len(),
{
    if events.len() == 0 {
        Seq::empty()
    } else {
        opened_classes(scene, events.drop_last()) + opened_by(scene, events.last())
    }
}

/// The classes that double-clicks on nodes open, in order.
pub fn drilled_classes(scene: &Scene, events: &Vec<SceneEvent>) -> (r: Vec<String>)
    requires
        scene.wf(),
    ensures
        views(r@) == opened_classes(*scene, events@),
{
    let mut out: Vec<String> = Vec::new();
    let mut i: usize = 0;
    assert(views(out@) =~= opened_classes(*scene, events@.take(0)));
    while i < events.len()
        invariant
            scene.wf(),
            i <= events@.len(),
            views(out@) == opened_classes(*scene, events@.take(i as int)),
        decreases events@.len() - i,
    {
        let ghost taken = events@.take(i + 1);
        assert(taken.drop_last() =~= events@.take(i as int));
        assert(taken.last() == events@[i as int]);
        let ghost before = views(out@);
        if let SceneEvent::NodeDoubleClicked { id } = &events[i] {
            if let Some(n) = scene.node(*id) {
                if let NodeData::Icon(d) = &n.data {
                    out.push(d.qualified_type.clone());
                    assert(views(out@) =~= before + seq![d.qualified_type@]);
                }
            }
        }
        assert(views(out@) =~= before + opened_by(*scene, events@[i as int]));
        i += 1;
    }
    assert(events@.take(i as int) =~= events@);
    out
}

/// The edits of a frame: those that events call for, and then those of the
/// menu. Without a document or a class to edit there are none, and what the
/// menu gave is discarded.
#[derive(Debug, PartialEq, Eq)]
pub struct FrameEdits {
    pub ops: Vec<ModelicaOp>,
    pub discarded: usize,
}

/// Whether `r` are the edits of a frame.
pub open spec fn are_frame_edits(
    r: FrameEdits,
    scene: Scene,
    events: Seq<SceneEvent>,
    has_document: bool,
    class: Option<Seq<char>>,
    menu_ops: Seq<ModelicaOp>,
) -> bool {
    if class is Some && has_document {
        op_views(r.ops@) == events_ops(scene, events, class->0) + op_views(menu_ops) && r.discarded
            == 0
    } else {
        r.ops@.len() == 0 && r.discarded == menu_ops.len()
    }
}

/// The edits of a frame.
pub fn frame_edits(
    scene: &Scene,
    events: &Vec<SceneEvent>,
    has_document: bool,
    class: Option<&str>,
    menu_ops: Vec<ModelicaOp>,
) -> (r: FrameEdits)
    requires
        scene.wf(),
    ensures
        are_frame_edits(
            r,
            *scene,
            events@,
            has_document,
            match class {
                Some(c) => Some(c@),
                None => None,
            },
            menu_ops@,
        ),
{
    if let Some(c) = class {
        if has_document {
            let mut ops = build_ops_from_events(scene, events, c);
            let ghost first = ops@;
            let mut rest = menu_ops;
            ops.append(&mut rest);
            assert(op_views(ops@) =~= op_views(first) + op_views(menu_ops@));
            return FrameEdits { ops, discarded: 0 };
        }
    }
    FrameEdits { ops: Vec::new(), discarded: menu_ops.len() }
}

/// What follows the drawing of the menu: it is forgotten where it was closed,
/// and the host gets the classes to open and the edits to apply.
pub fn after_menu(
    ds: &mut CanvasDocState,
    popup_open: bool,
    events: &Vec<SceneEvent>,
    has_document: bool,
    class: Option<&str>,
    menu_ops: Vec<ModelicaOp>,
) -> (r: (Vec<String>, FrameEdits))
    requires
        old(ds).wf(),
    ensures
        final(ds).wf(),
        *final(ds) == (CanvasDocState {
            context_menu: if popup_open {
                old(ds).context_menu
            } else {
                None
            },
            ..*old(ds)
        }),
        views(r.0@) == opened_classes(old(ds).scene, events@),
        are_frame_edits(
            r.1,
            old(ds).scene,
            events@,
            has_document,
            match class {
                Some(c) => Some(c@),
                None => None,
            },
            menu_ops@,
        ),
{
    sync_context_menu(ds, popup_open);
    let opened = drilled_classes(&ds.scene, events);
    let edits = frame_edits(&ds.scene, events, has_document, class, menu_ops);
    (opened, edits)
}

// ── Laws ─────────────────────────────────────────────────────────────────

/// A second right-click while the menu is up closes it, and the next one opens
/// it again.
pub proof fn law_second_right_click_closes_menu(
    m1: MenuPointer,
    m2: MenuPointer,
    m3: MenuPointer,
)
    requires
        m1.secondary_clicked && click_place(m1) is Some,
        m2.secondary_clicked && click_place(m2) is Some && m2.popup_open,
        m3.secondary_clicked && click_place(m3) is Some,
    ensures
        ({
            let opened = menu_step_spec(None, false, m1);
            let closed = menu_step_spec(opened.0, false, m2);
            let again = menu_step_spec(closed.0, false, m3);
            &&& opened.0 is Some && opened.1.offer_menu
            &&& closed.0 is None && closed.1.close_popups && !closed.1.offer_menu
            &&& again.0 is Some && again.1.offer_menu
        }),
{
}

/// A popup of something else does not swallow a right-click: the menu opens at
/// once.
pub proof fn law_foreign_popup_does_not_swallow_click(m: MenuPointer)
    requires
        m.secondary_clicked,
        click_place(m) is Some,
    ensures
        menu_step_spec(None, false, m).0 is Some,
        menu_step_spec(None, false, m).1.offer_menu,
{
}

/// A document that cannot be edited never has a menu, and popups of something
/// else stay open over it.
pub proof fn law_read_only_has_no_menu(menu: Option<PendingContextMenu>, m: MenuPointer)
    ensures
        menu_step_spec(menu, true, m).0 is None,
        !menu_step_spec(menu, true, m).1.offer_menu,
        menu is None ==> !menu_step_spec(menu, true, m).1.close_popups,
{
}

/// Nothing is dropped into a document that cannot be edited.
pub proof fn law_read_only_takes_no_drops(
    drag: DragPointer,
    widget: Rect,
    has_document: bool,
    class: Seq<char>,
)
    ensures
        !is_dropped(drag, widget, has_document, true, class),
{
}

/// A drag ends in a component exactly where the pointer was released between the
/// edges of the canvas, over a document that can be edited, with a class to add
/// to.
pub proof fn law_drops_happen_between_the_edges(
    drag: DragPointer,
    widget: Rect,
    has_document: bool,
    read_only: bool,
    class: Seq<char>,
    p: Pos,
)
    requires
        drag.hover == Some(p),
    ensures
        is_dropped(drag, widget, has_document, read_only, class) ==> {
            &&& p.x.steps >= widget.min.x.steps && p.x.steps <= widget.max.x.steps
            &&& p.y.steps >= widget.min.y.steps && p.y.steps <= widget.max.y.steps
        },
        drag.released && has_document && !read_only && class.len() > 0 && p.x.steps
            >= widget.min.x.steps && p.x.steps <= widget.max.x.steps && p.y.steps
            >= widget.min.y.steps && p.y.steps <= widget.max.y.steps ==> is_dropped(
            drag,
            widget,
            has_document,
            read_only,
            class,
        ),
        !drag.released || !has_document || class.len() == 0 ==> !is_dropped(
            drag,
            widget,
            has_document,
            read_only,
            class,
        ),
{
}

/// The box that follows the pointer has the pointer in its middle. It is as large
/// as an icon of twenty units on the screen, but never smaller than twenty-four
/// pixels.
pub proof fn law_ghost_boxes_lie_around_the_pointer(pointer: Pos, zoom: Fixed)
    requires
        -0x1000_0000 * UNIT <= pointer.x.steps <= 0x1000_0000 * UNIT,
        -0x1000_0000 * UNIT <= pointer.y.steps <= 0x1000_0000 * UNIT,
        0 < zoom.steps <= 0x1_0000 * UNIT,
    ensures
        ({
            let r = ghost_box_spec(pointer, zoom);
            let half = r.max.x.steps - pointer.x.steps;
            &&& pointer.x.steps - r.min.x.steps == half
            &&& r.max.y.steps - pointer.y.steps == half
            &&& pointer.y.steps - r.min.y.steps == half
            &&& 10 * zoom.steps >= 12 * UNIT ==> half == 10 * zoom.steps
            &&& 10 * zoom.steps < 12 * UNIT ==> half == 12 * UNIT
        }),
{
    crate::fixed::law_ratios_of_whole_numbers(20, 1);
    crate::fixed::law_ratios_of_whole_numbers(12, 1);
    let s = zoom.steps as int;
    assert((20 * UNIT) * s == (20 * s) * UNIT) by (nonlinear_arith);
    assert(((20 * s) * UNIT) / (UNIT as int) == 20 * s) by (nonlinear_arith)
        requires
            UNIT == 0x1_0000_0000,
    ;
}

/// What is loading is the class that was drilled into, and a copy only where there
/// is no such class; it is told with the time since it started.
pub proof fn law_drilled_classes_are_told_before_copies(
    drills: DrillInLoads,
    copies: DuplicateLoads,
    d: u64,
    now: u64,
)
    ensures
        loading_spec(drills, copies, None, now) is None,
        drills.pending@.contains_key(d) ==> (loading_spec(drills, copies, Some(d), now) matches Some(
            (name, ms),
        ) && name == drills.pending@[d].qualified@ && (now >= drills.pending@[d].started ==> ms
            == now - drills.pending@[d].started)),
        !drills.pending@.contains_key(d) && copies.pending@.contains_key(d) ==> (loading_spec(
            drills,
            copies,
            Some(d),
            now,
        ) matches Some((name, ms)) && name == copies.pending@[d].display_name@ && (now
            >= copies.pending@[d].started ==> ms == now - copies.pending@[d].started)),
        !drills.pending@.contains_key(d) && !copies.pending@.contains_key(d) ==> loading_spec(
            drills,
            copies,
            Some(d),
            now,
        ) is None,
{
}

/// A right-click that opens the menu opens it where the button went down, or where
/// the pointer is where that is not known, for the node that was hit, else the
/// edge, else the empty canvas. Without a right-click the menu stays as it is.
pub proof fn law_menus_open_where_the_click_was(menu: Option<PendingContextMenu>, m: MenuPointer)
    ensures
        ({
            let r = menu_step_spec(menu, false, m);
            let clicked = m.secondary_clicked && (m.press is Some || m.pointer is Some);
            &&& clicked && (menu is None || !m.popup_open) ==> (r.0 matches Some(open) && {
                &&& m.press matches Some(p) ==> open.screen_pos == p
                &&& m.press is None ==> (m.pointer matches Some(p) && open.screen_pos == p)
                &&& open.world_pos == m.world
                &&& m.hit_node matches Some(id) ==> open.target == ContextMenuTarget::Node(id)
                &&& m.hit_node is None ==> (m.hit_edge matches Some(id) ==> open.target
                    == ContextMenuTarget::Edge(id))
                &&& m.hit_node is None && m.hit_edge is None ==> open.target
                    == ContextMenuTarget::Empty
            })
            &&& !clicked ==> r.0 == menu && !r.1.close_popups && r.1.offer_menu
            &&& clicked && (menu is None || !m.popup_open) ==> r.1.close_popups == m.popup_open
        }),
{
}

/// The classes that two runs of events open, one after the other, are those of the
/// first run followed by those of the second.
pub proof fn law_double_clicks_open_in_turn(
    scene: Scene,
    a: Seq<SceneEvent>,
    b: Seq<SceneEvent>,
)
    ensures
        opened_classes(scene, a + b) == opened_classes(scene, a) + opened_classes(scene, b),
    decreases b.len(),
{
    if b.len() == 0 {
        assert(a + b =~= a);
    } else {
        assert((a + b).drop_last() =~= a + b.drop_last());
        law_double_clicks_open_in_turn(scene, a, b.drop_last());
        assert(opened_classes(scene, a) + (opened_classes(scene, b.drop_last()) + opened_by(
            scene,
            b.last(),
        )) =~= (opened_classes(scene, a) + opened_classes(scene, b.drop_last())) + opened_by(
            scene,
            b.last(),
        ));
    }
}

/// A double-click on an icon opens the class of its component; one on any other
/// node, and any other event, opens nothing.
pub proof fn law_double_clicks_open_the_class_of_an_icon(scene: Scene, ev: SceneEvent, i: int)
    requires
        scene.wf(),
        0 <= i < scene.nodes@.len(),
    ensures
        ev == (SceneEvent::NodeDoubleClicked { id: scene.nodes@[i].id }) ==> {
            &&& scene.nodes@[i].data matches NodeData::Icon(d) ==> opened_classes(scene, seq![ev])
                == seq![d.qualified_type@]
            &&& !(scene.nodes@[i].data is Icon) ==> opened_classes(scene, seq![ev]).len() == 0
        },
        !(ev is NodeDoubleClicked) ==> opened_classes(scene, seq![ev]).len() == 0,
{
    crate::scene::law_ids_find_their_nodes(scene, i, scene.nodes@[i].id);
    assert(seq![ev].drop_last() =~= Seq::empty());
    reveal_with_fuel(opened_classes, 2);
    assert(opened_classes(scene, seq![ev]) =~= opened_by(scene, ev));
}

/// No edit of the menu gets lost unseen: each is applied, behind those that events
/// call for and in order, or it is counted as discarded. Without a document or a
/// class nothing is applied.
pub proof fn law_menu_edits_are_applied_or_counted(
    r: FrameEdits,
    scene: Scene,
    events: Seq<SceneEvent>,
    has_document: bool,
    class: Option<Seq<char>>,
    menu_ops: Seq<ModelicaOp>,
    i: int,
)
    requires
        are_frame_edits(r, scene, events, has_document, class, menu_ops),
        0 <= i < menu_ops.len(),
    ensures
        !has_document || class is None ==> r.ops@.len() == 0 && r.discarded == menu_ops.len(),
        has_document && class is Some ==> {
            let n = events_ops(scene, events, class->0).len();
            &&& r.discarded == 0
            &&& r.ops@.len() == n + menu_ops.len()
            &&& r.ops@[n + i]@ == menu_ops[i]@
        },
        forall|k: int|
            has_document && class is Some && 0 <= k < events_ops(scene, events, class->0).len()
                ==> (#[trigger] r.ops@[k])@ == events_ops(scene, events, class->0)[k],
{
    if has_document && class is Some {
        let first = events_ops(scene, events, class->0);
        let all = op_views(r.ops@);
        assert(all.len() == r.ops@.len());
        assert(op_views(menu_ops).len() == menu_ops.len());
        assert(all[first.len() + i] == op_views(menu_ops)[i]);
        assert(all[first.len() + i] == r.ops@[first.len() + i]@);
        assert forall|k: int| 0 <= k < first.len() implies (#[trigger] r.ops@[k])@ == first[k] by {
            assert(all[k] == first[k]);
        }
    }
}

/// A frame serves a fit once: what was asked for is given and forgotten, and
/// nothing is given that was not asked for. The scene changes by a drop alone, and
/// the payload of a drag is cleared exactly where the pointer was released. Over a
/// document that cannot be edited nothing is dropped and no menu is open.
pub proof fn law_frames_serve_what_was_asked_for(
    r: FrameOutcome,
    was: CanvasDocState,
    now: CanvasDocState,
    frame: CanvasFrame,
    dragged: Option<(&ComponentDef, DragPointer)>,
    class: Seq<char>,
)
    requires
        is_served(r, was, now, frame, dragged, class),
    ensures
        !now.pending_fit,
        !was.pending_fit ==> r.fit is None && now.fit_region == was.fit_region,
        was.pending_fit ==> now.fit_region is None,
        was.pending_fit && was.fit_region is Some ==> (r.fit matches Some(f) && Some(f.bounds)
            == was.fit_region && f.screen == frame.widget),
        was.pending_fit && now.scene.nodes@.len() > 0 ==> r.fit is Some,
        r.dropped is None ==> now.scene == was.scene,
        r.dropped is Some ==> now.scene.nodes@.len() == was.scene.nodes@.len() + 1,
        dragged is None ==> r.dropped is None && !r.clear_drag,
        dragged matches Some((_, drag)) ==> r.clear_drag == drag.released,
        frame.read_only ==> r.dropped is None && now.context_menu is None,
        r.overlay == Overlay::Nothing <==> !frame.load_failed && now.scene.nodes@.len() > 0,
        r.overlay == Overlay::LoadFailed <==> frame.load_failed,
        now.viewport == was.viewport && now.selection == was.selection && now.pulses == was.pulses,
{
}

} // verus!
