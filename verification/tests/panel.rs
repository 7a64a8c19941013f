use canvas_diagram::fixed::Fixed;
use canvas_diagram::geometry::{Pos, Rect};
use canvas_diagram::loads::{
    active_class_for_doc, drill_into_class, drive_drill_in_loads, drive_duplicate_loads,
    on_auto_arrange_diagram, open_drill_in_tab, pin_all_for_doc, projection_target,
    resolve_doc_context, snap_step, CanvasSnapSettings, DrillInBinding, DrillInLoads, DrillInResult, DrillTarget,
    DrilledInClassNames, DuplicateBinding, DuplicateLoads, IndexedClass, LoadedClass, ModelTab,
    ModelViewMode, OpenDocument, TabDocument,
};
use canvas_diagram::model::ComponentDef;
use canvas_diagram::ops::{ModelicaOp, Placement, SceneEvent};
use canvas_diagram::overlay::Overlay;
use canvas_diagram::panel::{
    after_canvas, after_menu, begin_frame, drop_class, drop_component, frame_edits, ghost_box,
    loading_progress, step_context_menu, CanvasFrame, DragPointer, MenuPointer, MenuStep,
};
use canvas_diagram::scene::{IconNodeData, NodeData, SceneNode};
use canvas_diagram::state::{
    CanvasDiagramState, CanvasDocState, ContextMenuTarget, PendingContextMenu,
};
use std::collections::HashMap;

fn f(n: i32) -> Fixed {
    Fixed::whole(n)
}

fn at(x: i32, y: i32) -> Pos {
    Pos::new(f(x), f(y))
}

fn rect(x1: i32, y1: i32, x2: i32, y2: i32) -> Rect {
    Rect { min: at(x1, y1), max: at(x2, y2) }
}

fn some(s: &str) -> Option<String> {
    Some(s.to_string())
}

fn gain() -> ComponentDef {
    ComponentDef {
        name: "Gain".to_string(),
        msl_path: "Lib.Gain".to_string(),
        description: None,
        icon_text: None,
        class_kind: "block".to_string(),
        is_icon_only: false,
        is_expandable_connector: false,
        icon_graphics: None,
        diagram_graphics: None,
        ports: vec![],
        parameters: vec![],
    }
}

fn icon_node(name: &str) -> SceneNode {
    SceneNode {
        id: 0,
        rect: rect(0, 0, 20, 20),
        data: NodeData::Icon(IconNodeData {
            qualified_type: "Lib.Gain".to_string(),
            icon_only: false,
            expandable_connector: false,
            icon_graphics: None,
            diagram_graphics: None,
            rotation_deg: f(0),
            mirror_x: false,
            mirror_y: false,
            instance_name: name.to_string(),
            parameters: vec![],
            port_connector_paths: vec![],
            is_conditional: false,
        }),
        ports: vec![],
        label: name.to_string(),
        origin: some(name),
        resizable: false,
        visual_rect: None,
    }
}

fn pointer(clicked: bool, popup_open: bool) -> MenuPointer {
    MenuPointer {
        secondary_clicked: clicked,
        press: Some(at(5, 6)),
        pointer: None,
        world: at(1, 2),
        hit_node: Some(3),
        hit_edge: Some(4),
        popup_open,
    }
}

#[test]
fn without_a_document_the_shared_canvas_is_cleared() {
    let mut st = CanvasDiagramState::new();
    st.get_mut(None).scene.insert_node(icon_node("G1"));
    assert_eq!(begin_frame(&mut st, Some(1), false), None);
    assert_eq!(st.get(None).scene.nodes.len(), 1);
    assert_eq!(begin_frame(&mut st, Some(1), true), Some(1));
    assert_eq!(begin_frame(&mut st, None, true), None);
    assert!(st.get(None).scene.nodes.is_empty());
}

#[test]
fn a_class_is_dropped_over_an_editable_canvas() {
    let widget = rect(0, 0, 100, 100);
    let drag = DragPointer { released: true, hover: Some(at(50, 50)), world: at(7, 8) };
    let mut ds = CanvasDocState::default();
    let (clear, op) = drop_component(&mut ds, &gain(), drag, widget, true, false, "M");
    assert!(clear);
    assert_eq!(
        op,
        Some(ModelicaOp::AddComponent {
            class: "M".to_string(),
            class_path: "Lib.Gain".to_string(),
            name: "G1".to_string(),
            modifications: vec![],
            placement: Placement { x: f(7), y: f(-8), width: f(20), height: f(20) },
        })
    );
    assert_eq!(ds.scene.nodes.len(), 1);
}

#[test]
fn other_drops_are_ignored_but_cleared() {
    let widget = rect(0, 0, 100, 100);
    let over = DragPointer { released: true, hover: Some(at(50, 50)), world: at(7, 8) };
    let outside = DragPointer { hover: Some(at(101, 50)), ..over };
    let gone = DragPointer { hover: None, ..over };
    let held = DragPointer { released: false, ..over };
    let mut ds = CanvasDocState::default();
    assert_eq!(drop_component(&mut ds, &gain(), outside, widget, true, false, "M"), (true, None));
    assert_eq!(drop_component(&mut ds, &gain(), gone, widget, true, false, "M"), (true, None));
    assert_eq!(drop_component(&mut ds, &gain(), held, widget, true, false, "M"), (false, None));
    assert_eq!(drop_component(&mut ds, &gain(), over, widget, false, false, "M"), (true, None));
    assert_eq!(drop_component(&mut ds, &gain(), over, widget, true, true, "M"), (true, None));
    assert_eq!(drop_component(&mut ds, &gain(), over, widget, true, false, ""), (true, None));
    assert!(ds.scene.nodes.is_empty());
    assert_eq!(ghost_box(at(0, 0), f(2)), rect(-20, -20, 20, 20));
    assert_eq!(ghost_box(at(0, 0), f(1)), rect(-12, -12, 12, 12));
    assert_eq!(drop_class(&some("a"), &some("b"), &some("c")), "a");
    assert_eq!(drop_class(&None, &some("b"), &some("c")), "b");
    assert_eq!(drop_class(&None, &None, &some("c")), "c");
    assert_eq!(drop_class(&None, &None, &None), "");
}

#[test]
fn a_right_click_opens_and_closes_the_menu() {
    let mut ds = CanvasDocState::default();
    let open = step_context_menu(&mut ds, false, pointer(true, false));
    assert_eq!(open, MenuStep { close_popups: false, offer_menu: true });
    assert_eq!(
        ds.context_menu,
        Some(PendingContextMenu {
            screen_pos: at(5, 6),
            world_pos: at(1, 2),
            target: ContextMenuTarget::Node(3),
        })
    );
    let idle = step_context_menu(&mut ds, false, pointer(false, true));
    assert_eq!(idle, MenuStep { close_popups: false, offer_menu: true });
    assert!(ds.context_menu.is_some());
    let close = step_context_menu(&mut ds, false, pointer(true, true));
    assert_eq!(close, MenuStep { close_popups: true, offer_menu: false });
    assert_eq!(ds.context_menu, None);
}

#[test]
fn popups_of_others_do_not_swallow_a_click() {
    let mut ds = CanvasDocState::default();
    let mut m = pointer(true, true);
    m.hit_node = None;
    let r = step_context_menu(&mut ds, false, m);
    assert_eq!(r, MenuStep { close_popups: true, offer_menu: true });
    assert_eq!(ds.context_menu.unwrap().target, ContextMenuTarget::Edge(4));
    m.hit_edge = None;
    m.press = None;
    m.popup_open = false;
    m.pointer = Some(at(9, 9));
    step_context_menu(&mut ds, false, m);
    assert_eq!(ds.context_menu.unwrap().screen_pos, at(9, 9));
    assert_eq!(ds.context_menu.unwrap().target, ContextMenuTarget::Empty);
}

#[test]
fn read_only_documents_have_no_menu() {
    let mut ds = CanvasDocState::default();
    let r = step_context_menu(&mut ds, true, pointer(true, true));
    assert_eq!(r, MenuStep { close_popups: false, offer_menu: false });
    step_context_menu(&mut ds, false, pointer(true, false));
    let r = step_context_menu(&mut ds, true, pointer(false, true));
    assert_eq!(r, MenuStep { close_popups: true, offer_menu: false });
    assert_eq!(ds.context_menu, None);
}

#[test]
fn a_frame_drops_fits_covers_and_opens() {
    let mut ds = CanvasDocState::default();
    ds.pending_fit = true;
    let frame = CanvasFrame {
        widget: rect(0, 0, 100, 100),
        has_document: true,
        read_only: false,
        menu: pointer(true, false),
        load_failed: false,
        loading: false,
        parsing: true,
    };
    let comp = gain();
    let drag = DragPointer { released: true, hover: Some(at(50, 50)), world: at(10, 10) };
    let r = after_canvas(&mut ds, frame, Some((&comp, drag)), "M");
    assert!(r.clear_drag && r.dropped.is_some());
    assert_eq!(r.fit.unwrap().bounds, rect(0, 0, 20, 20));
    assert_eq!(r.overlay, Overlay::Nothing);
    assert!(r.menu.offer_menu && ds.context_menu.is_some());
    assert!(!ds.pending_fit);
    let mut empty = CanvasDocState::default();
    let s = after_canvas(&mut empty, frame, None, "M");
    assert_eq!(s.overlay, Overlay::Parsing);
    assert!(!s.clear_drag && s.dropped.is_none() && s.fit.is_none());
}

#[test]
fn a_frame_ends_with_classes_to_open_and_edits() {
    let mut ds = CanvasDocState::default();
    ds.scene.insert_node(icon_node("G1"));
    step_context_menu(&mut ds, false, pointer(true, false));
    let events = vec![
        SceneEvent::NodeDoubleClicked { id: 0 },
        SceneEvent::NodeDoubleClicked { id: 9 },
        SceneEvent::NodeMoved { id: 0, new_min: at(0, 0) },
    ];
    let menu_op = || {
        vec![ModelicaOp::RemoveComponent { class: "M".to_string(), name: "G1".to_string() }]
    };
    let (opened, edits) = after_menu(&mut ds, true, &events, true, Some("M"), menu_op());
    assert_eq!(opened, vec!["Lib.Gain".to_string()]);
    assert_eq!(edits.ops.len(), 2);
    assert!(matches!(edits.ops[0], ModelicaOp::SetPlacement { .. }));
    assert_eq!(edits.discarded, 0);
    assert!(ds.context_menu.is_some());
    let none = frame_edits(&ds.scene, &events, true, None, menu_op());
    assert!(none.ops.is_empty());
    assert_eq!(none.discarded, 1);
    let (_, nothing) = after_menu(&mut ds, false, &events, false, Some("M"), vec![]);
    assert!(nothing.ops.is_empty() && ds.context_menu.is_none());
}

// ── Loads ────────────────────────────────────────────────────────────────

fn drills() -> DrillInLoads {
    let mut pending = HashMap::new();
    pending.insert(
        1,
        DrillInBinding { qualified: "Modelica.Blocks.Gain".to_string(), started: 100, task: 5 },
    );
    DrillInLoads { pending }
}

fn copies() -> DuplicateLoads {
    let mut loads = DuplicateLoads { pending: HashMap::new() };
    for (doc, inner) in [(1, None), (2, some("Inner")), (3, None)] {
        loads.insert(
            doc,
            DuplicateBinding {
                display_name: "GainCopy".to_string(),
                origin_short: "Gain".to_string(),
                inner_drill: inner,
                started: 50,
                task: 6,
            },
        );
    }
    loads
}

#[test]
fn drills_are_shown_before_copies() {
    let (d, c) = (drills(), copies());
    assert_eq!(
        loading_progress(&d, &c, Some(1), 350),
        Some(("Modelica.Blocks.Gain".to_string(), 250))
    );
    assert_eq!(loading_progress(&d, &c, Some(2), 350), Some(("GainCopy".to_string(), 300)));
    assert_eq!(loading_progress(&d, &c, Some(9), 350), None);
    assert_eq!(loading_progress(&d, &c, None, 350), None);
    assert!(d.is_loading(1) && !d.is_loading(2));
    assert_eq!(d.detail(1), Some("Modelica.Blocks.Gain"));
    assert_eq!(c.detail(2), Some("GainCopy"));
    assert_eq!(c.progress(2, 0), Some(("GainCopy", 0)));
}

#[test]
fn a_copy_shows_the_class_that_was_shown_before() {
    let mut loads = copies();
    let mut names = DrilledInClassNames::new();
    let class = |name: &str, is_package| IndexedClass { name: name.to_string(), is_package };
    let classes = vec![class("Pkg", true), class("Pkg.A", false)];
    assert_eq!(drive_duplicate_loads(&mut loads, &mut names, 2, &classes), some("GainCopy.Inner"));
    assert_eq!(drive_duplicate_loads(&mut loads, &mut names, 3, &classes), some("Pkg.A"));
    assert_eq!(drive_duplicate_loads(&mut loads, &mut names, 3, &classes), None);
    assert_eq!(names.get(2), Some("GainCopy.Inner"));
    assert!(!loads.is_loading(2));
    assert_eq!(names.remove(2), some("GainCopy.Inner"));
    assert_eq!(names.get(2), None);
}

#[test]
fn each_tab_shows_the_class_it_was_opened_for() {
    let mut names = DrilledInClassNames::new();
    names.set(1, "A.B".to_string());
    let own = tab(1, Some("A.C"));
    assert_eq!(projection_target(&names, Some(&own), 1).as_deref(), Some("A.C"));
    assert_eq!(projection_target(&names, Some(&tab(1, None)), 1).as_deref(), Some("A.B"));
    assert_eq!(projection_target(&names, Some(&own), 2), None);
    assert_eq!(projection_target(&names, None, 1).as_deref(), Some("A.B"));
}

fn tab(doc: u64, class: Option<&str>) -> ModelTab {
    ModelTab {
        doc,
        drilled_class: class.map(|s| s.to_string()),
        view_mode: ModelViewMode::Canvas,
        load_error: None,
        pinned: false,
    }
}

#[test]
fn a_loaded_class_lands_in_its_view() {
    let mut names = DrilledInClassNames::new();
    let mut loads = drills();
    let mut tabs = vec![tab(1, Some("Modelica.Blocks.Gain")), tab(1, Some("Other"))];
    let loaded = Ok(LoadedClass { is_icon_only: false, has_components: Some(false) });
    let r = drive_drill_in_loads(&mut loads, &mut names, &mut tabs, 1, loaded);
    assert!(matches!(r, DrillInResult::Installed { icon_view: true }));
    assert_eq!(tabs[0].view_mode, ModelViewMode::Icon);
    assert_eq!(tabs[1].view_mode, ModelViewMode::Canvas);
    assert!(!loads.is_loading(1));
    let again = Ok(LoadedClass { is_icon_only: false, has_components: None });
    let r = drive_drill_in_loads(&mut loads, &mut names, &mut tabs, 1, again);
    assert!(matches!(r, DrillInResult::NotLoading));
}

#[test]
fn a_failed_load_is_told_in_its_tab() {
    let mut names = DrilledInClassNames::new();
    let mut loads = drills();
    let mut tabs = vec![tab(1, Some("Modelica.Blocks.Gain")), tab(1, None)];
    let r = drive_drill_in_loads(&mut loads, &mut names, &mut tabs, 1, Err("no file".to_string()));
    assert!(matches!(r, DrillInResult::Failed));
    assert_eq!(tabs[0].load_error, some("no file"));
    assert_eq!(tabs[1].load_error, None);
}

#[test]
fn classes_are_opened_from_files_or_open_documents() {
    let mut names = DrilledInClassNames::new();
    let docs = vec![
        OpenDocument { doc: 4, has_class: false },
        OpenDocument { doc: 5, has_class: true },
    ];
    assert_eq!(drill_into_class(&mut names, "A.B", true, &docs), DrillTarget::LibraryFile);
    assert_eq!(drill_into_class(&mut names, "A.B", false, &docs), DrillTarget::OpenDocument(5));
    assert_eq!(names.get(5), Some("A.B"));
    assert_eq!(
        drill_into_class(&mut names, "A.B", false, &docs[..1].to_vec()),
        DrillTarget::NotFound
    );
}

#[test]
fn a_file_that_is_open_is_not_opened_twice() {
    let mut names = DrilledInClassNames::new();
    let mut loads = DrillInLoads { pending: HashMap::new() };
    let mut docs = vec![];
    let first = open_drill_in_tab(&docs, &mut names, &mut loads, "A.B", "a.mo", 7, 70, 5);
    assert_eq!(first, (7, true));
    assert_eq!(loads.progress(7, 15), Some(("A.B", 10)));
    docs.push(TabDocument { doc: 7, file: some("a.mo") });
    let again = open_drill_in_tab(&docs, &mut names, &mut loads, "A.B", "a.mo", 8, 80, 6);
    assert_eq!(again, (7, false));
    // A sibling class of the same file takes the tab over.
    let sibling = open_drill_in_tab(&docs, &mut names, &mut loads, "A.C", "a.mo", 9, 90, 6);
    assert_eq!(sibling, (7, false));
    assert_eq!(names.get(7), Some("A.C"));
    assert!(!loads.is_loading(9));
    let other = open_drill_in_tab(&docs, &mut names, &mut loads, "B.C", "b.mo", 9, 90, 6);
    assert_eq!(other, (9, true));
    // A tab that was not drilled into does not count.
    docs.push(TabDocument { doc: 20, file: some("c.mo") });
    let own = open_drill_in_tab(&docs, &mut names, &mut loads, "C.D", "c.mo", 10, 91, 6);
    assert_eq!(own, (10, true));
}

#[test]
fn an_edit_pins_the_tabs_of_its_document() {
    let mut tabs = vec![tab(1, None), tab(2, None), tab(1, Some("A"))];
    pin_all_for_doc(&mut tabs, 1);
    assert_eq!(tabs.iter().map(|t| t.pinned).collect::<Vec<_>>(), vec![true, false, true]);
    assert_eq!(tabs[2].drilled_class, some("A"));
}

#[test]
fn the_edited_class_is_the_drilled_one_first() {
    let mut names = DrilledInClassNames::new();
    assert_eq!(
        resolve_doc_context(&names, Some(1), &some("S"), &some("D")),
        (Some(1), some("S"))
    );
    assert_eq!(resolve_doc_context(&names, Some(1), &None, &some("D")), (Some(1), some("D")));
    names.set(1, "Drilled".to_string());
    assert_eq!(
        resolve_doc_context(&names, Some(1), &some("S"), &some("D")),
        (Some(1), some("Drilled"))
    );
    assert_eq!(resolve_doc_context(&names, None, &some("S"), &some("D")), (None, None));
    assert_eq!(active_class_for_doc(&names, 1, &some("D")), some("Drilled"));
    assert_eq!(active_class_for_doc(&names, 2, &some("D")), some("D"));
    assert_eq!(on_auto_arrange_diagram(0, Some(3)), Some(3));
    assert_eq!(on_auto_arrange_diagram(8, Some(3)), Some(8));
}

#[test]
fn snapping_is_off_until_it_is_asked_for() {
    let mut s = CanvasSnapSettings::default();
    assert_eq!(snap_step(&s), None);
    s.enabled = true;
    assert_eq!(snap_step(&s), Some(f(5)));
}
