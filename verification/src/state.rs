//! What the canvas keeps of each open document.
use crate::classes::{Extent, GraphicItem};
use crate::fixed::{Fixed, UNIT};
use crate::geometry::{Pos, Rect};
use crate::scene::Scene;
use crate::text::{same_text, views};
use vstd::prelude::*;

verus! {

/// A selected item of the scene.
#[derive(Clone, Copy, Debug, PartialEq, Eq, Structural)]
pub enum SelectItem {
    Node(u64),
    Edge(u64),
}

/// The point that the canvas shows in its middle, and how many pixels a unit
/// takes.
#[derive(Clone, Copy, Debug, PartialEq, Eq, Structural)]
pub struct Viewport {
    pub center: Pos,
    pub zoom: Fixed,
}

/// What a right-click was aimed at.
#[derive(Clone, Copy, Debug, PartialEq, Eq, Structural)]
pub enum ContextMenuTarget {
    Node(u64),
    Edge(u64),
    Empty,
}

/// An open context menu: where it is anchored on the screen, the point of the
/// canvas that was clicked, and what was clicked.
#[derive(Clone, Copy, Debug, PartialEq, Eq, Structural)]
pub struct PendingContextMenu {
    pub screen_pos: Pos,
    pub world_pos: Pos,
    pub target: ContextMenuTarget,
}

/// A projection that the host runs in the background. Times are milliseconds
/// of the host's clock.
#[derive(Debug, PartialEq, Eq)]
pub struct ProjectionTask {
    /// The host's number for the task.
    pub handle: u64,
    pub gen_at_spawn: u64,
    pub target_at_spawn: Option<String>,
    pub spawned_at: u64,
    pub deadline: u64,
    pub source_hash: u64,
}

/// The diagram annotation of the class that is shown.
#[derive(Debug, PartialEq, Eq)]
pub struct Background {
    pub extent: Extent,
    pub graphics: Vec<GraphicItem>,
}

/// A highlight of a node or an edge that was just added: when it starts and
/// how long it lasts, in milliseconds.
#[derive(Clone, Copy, Debug, PartialEq, Eq, Structural)]
pub struct PulseEntry {
    pub id: u64,
    pub started: u64,
    pub duration_ms: u32,
}

/// What the canvas keeps of one document.
#[derive(Debug, PartialEq, Eq)]
pub struct CanvasDocState {
    pub scene: Scene,
    pub selection: Vec<SelectItem>,
    pub viewport: Viewport,
    /// The widget's rectangle in the last frame.
    pub screen: Rect,
    /// The generation of the source that the scene was projected from.
    pub last_seen_gen: u64,
    /// The generation that the scene already shows because the canvas itself
    /// made the edit.
    pub canvas_acked_gen: u64,
    /// The hash of the relevant part of the source that the scene was
    /// projected from.
    pub last_seen_source_hash: u64,
    /// Whether the next frame frames the scene.
    pub pending_fit: bool,
    /// The region that the next frame frames; all of the scene where there is
    /// none.
    pub fit_region: Option<Rect>,
    /// The class that the scene was projected for.
    pub last_seen_target: Option<String>,
    pub context_menu: Option<PendingContextMenu>,
    pub projection_task: Option<ProjectionTask>,
    pub background: Option<Background>,
    pub pulses: Vec<PulseEntry>,
    pub edge_pulses: Vec<PulseEntry>,
}

impl CanvasDocState {
    pub open spec fn wf(self) -> bool {
        self.scene.wf()
    }

    /// The state of a document that was not shown yet: an empty scene, seen at
    /// normal zoom around its origin.
    pub open spec fn is_fresh(self) -> bool {
        let origin = Pos { x: Fixed { steps: 0 }, y: Fixed { steps: 0 } };
        &&& self.scene.nodes@.len() == 0
        &&& self.scene.edges@.len() == 0
        &&& self.scene.next_node == 0
        &&& self.scene.next_edge == 0
        &&& self.selection@.len() == 0
        &&& self.viewport.center == origin
        &&& self.viewport.zoom.steps == UNIT
        &&& self.screen.min == origin
        &&& self.screen.max == origin
        &&& self.last_seen_gen == 0
        &&& self.canvas_acked_gen == 0
        &&& self.last_seen_source_hash == 0
        &&& !self.pending_fit
        &&& self.fit_region is None
        &&& self.last_seen_target is None
        &&& self.context_menu is None
        &&& self.projection_task is None
        &&& self.background is None
        &&& self.pulses@.len() == 0
        &&& self.edge_pulses@.len() == 0
    }
}

impl Default for CanvasDocState {
    fn default() -> (r: CanvasDocState)
        ensures
            r.is_fresh(),
            r.wf(),
    {
        let origin = Pos { x: Fixed { steps: 0 }, y: Fixed { steps: 0 } };
        CanvasDocState {
            scene: Scene::new(),
            selection: Vec::new(),
            viewport: Viewport { center: origin, zoom: Fixed { steps: UNIT } },
            screen: Rect { min: origin, max: origin },
            last_seen_gen: 0,
            canvas_acked_gen: 0,
            last_seen_source_hash: 0,
            pending_fit: false,
            fit_region: None,
            last_seen_target: None,
            context_menu: None,
            projection_task: None,
            background: None,
            pulses: Vec::new(),
            edge_pulses: Vec::new(),
        }
    }
}

// ── Layers ───────────────────────────────────────────────────────────────

/// The layers without the selection outline.
pub open spec fn without_selection(layers: Seq<Seq<char>>) -> Seq<Seq<char>> {
    layers.filter(|l: Seq<char>| l != "selection"@)
}

/// The first layer that is not the grid, or the number of layers.
pub open spec fn above_grid(layers: Seq<Seq<char>>, from: int) -> int
    decreases layers.len() - from,
{
    if from >= layers.len() {
        layers.len() as int
    } else if layers[from] != "grid"@ {
        from
    } else {
        above_grid(layers, from + 1)
    }
}

/// The layers of a diagram canvas: the graphics of the diagram annotation
/// right above the grid, highlights above everything else.
pub open spec fn diagram_layers(base: Seq<Seq<char>>) -> Seq<Seq<char>> {
    let kept = without_selection(base);
    kept.insert(above_grid(kept, 0), "modelica.diagram_decoration"@).push(
        "modelica.pulse_glow"@,
    ).push("modelica.edge_pulse"@)
}

/// The layers of a diagram canvas, from those of a plain one.
pub fn arrange_layers(base: &Vec<String>) -> (r: Vec<String>)
    ensures
        views(r@) == diagram_layers(views(base@)),
{
    let ghost pick = |l: Seq<char>| l != "selection"@;
    let mut kept: Vec<String> = Vec::new();
    let mut i: usize = 0;
    proof {
        reveal_with_fuel(Seq::filter, 1);
        assert(views(base@).take(0) =~= Seq::empty());
        assert(views(kept@) =~= views(base@).take(0).filter(pick));
    }
    while i < base.len()
        invariant
            i <= base@.len(),
            pick == (|l: Seq<char>| l != "selection"@),
            views(kept@) == views(base@).take(i as int).filter(pick),
        decreases base@.len() - i,
    {
        let ghost taken = views(base@).take(i + 1);
        proof {
            reveal_with_fuel(Seq::filter, 2);
            assert(taken.drop_last() =~= views(base@).take(i as int));
            assert(taken.last() == base@[i as int]@);
        }
        let ghost before = kept@;
        if !same_text(base[i].as_str(), "selection") {
            kept.push(base[i].clone());
            assert(views(kept@) =~= views(before).push(base@[i as int]@));
        }
        i += 1;
    }
    assert(views(base@).take(i as int) =~= views(base@));
    let mut at: usize = 0;
    while at < kept.len() && same_text(kept[at].as_str(), "grid")
        invariant
            at <= kept@.len(),
            above_grid(views(kept@), 0) == above_grid(views(kept@), at as int),
        decreases kept@.len() - at,
    {
        at += 1;
    }
    let ghost names = views(kept@);
    let deco = "modelica.diagram_decoration".to_owned();
    kept.insert(at, deco);
    assert(views(kept@) =~= names.insert(at as int, "modelica.diagram_decoration"@));
    let ghost n1 = views(kept@);
    let glow = "modelica.pulse_glow".to_owned();
    kept.push(glow);
    assert(views(kept@) =~= n1.push("modelica.pulse_glow"@));
    let ghost n2 = views(kept@);
    let flash = "modelica.edge_pulse".to_owned();
    kept.push(flash);
    assert(views(kept@) =~= n2.push("modelica.edge_pulse"@));
    kept
}

// ── All canvases ─────────────────────────────────────────────────────────

/// A canvas that shows a document: that of a tab, or one that belongs to no tab.
/// Tabs on one document have a scene, a camera and a selection each.
pub struct TabCanvas {
    pub tab: Option<u64>,
    pub doc: u64,
    pub state: CanvasDocState,
}

/// The first canvas, at or after place `from`, that shows the document, or the
/// number of canvases.
pub open spec fn doc_place(cs: Seq<TabCanvas>, doc: u64, from: int) -> int
    decreases cs.len() - from,
{
    if from >= cs.len() {
        cs.len() as int
    } else if cs[from].doc == doc {
        from
    } else {
        doc_place(cs, doc, from + 1)
    }
}

/// The first canvas, at or after place `from`, that is the tab's, or the number
/// of canvases.
pub open spec fn tab_place(cs: Seq<TabCanvas>, tab: u64, from: int) -> int
    decreases cs.len() - from,
{
    if from >= cs.len() {
        cs.len() as int
    } else if cs[from].tab == Some(tab) {
        from
    } else {
        tab_place(cs, tab, from + 1)
    }
}

/// The canvas that is meant: that of the tab, or the first of the document where
/// no tab is drawn. The number of canvases where there is none yet.
pub open spec fn place_of(cs: Seq<TabCanvas>, tab: Option<u64>, doc: u64) -> int {
    match tab {
        Some(t) => tab_place(cs, t, 0),
        None => doc_place(cs, doc, 0),
    }
}

/// Whether the canvas that is meant was drawn before.
pub open spec fn is_drawn(cs: Seq<TabCanvas>, tab: Option<u64>, doc: u64) -> bool {
    place_of(cs, tab, doc) < cs.len()
}

/// The state of the canvas that is meant, where it was drawn before.
pub open spec fn drawn(cs: Seq<TabCanvas>, tab: Option<u64>, doc: u64) -> CanvasDocState {
    cs[place_of(cs, tab, doc)].state
}

/// The canvases once the one that is meant has the given state. One that was not
/// drawn yet comes last.
pub open spec fn with_canvas(
    cs: Seq<TabCanvas>,
    tab: Option<u64>,
    doc: u64,
    state: CanvasDocState,
) -> Seq<TabCanvas> {
    let i = place_of(cs, tab, doc);
    if i < cs.len() {
        cs.update(i, TabCanvas { state, ..cs[i] })
    } else {
        cs.push(TabCanvas { tab, doc, state })
    }
}

/// Whether `base` is the state that the canvas is changed from: its own, or a
/// fresh one where it was not drawn yet.
pub open spec fn is_base_of(
    cs: Seq<TabCanvas>,
    tab: Option<u64>,
    doc: u64,
    base: CanvasDocState,
) -> bool {
    if is_drawn(cs, tab, doc) {
        base == drawn(cs, tab, doc)
    } else {
        base.is_fresh() && base.wf()
    }
}

/// The canvases that show other documents.
pub open spec fn without_doc(cs: Seq<TabCanvas>, doc: u64) -> Seq<TabCanvas>
    decreases cs.len(),
{
    if cs.len() == 0 {
        cs
    } else if cs.last().doc == doc {
        without_doc(cs.drop_last(), doc)
    } else {
        without_doc(cs.drop_last(), doc).push(cs.last())
    }
}

pub proof fn lemma_doc_place(cs: Seq<TabCanvas>, doc: u64, from: int)
    requires
        0 <= from <= cs.len(),
    ensures
        from <= doc_place(cs, doc, from) <= cs.len(),
        forall|k: int| from <= k < doc_place(cs, doc, from) ==> (#[trigger] cs[k]).doc != doc,
        doc_place(cs, doc, from) < cs.len() ==> cs[doc_place(cs, doc, from)].doc == doc,
    decreases cs.len() - from,
{
    if from < cs.len() && cs[from].doc != doc {
        lemma_doc_place(cs, doc, from + 1);
    }
}

pub proof fn lemma_tab_place(cs: Seq<TabCanvas>, tab: u64, from: int)
    requires
        0 <= from <= cs.len(),
    ensures
        from <= tab_place(cs, tab, from) <= cs.len(),
        forall|k: int|
            from <= k < tab_place(cs, tab, from) ==> (#[trigger] cs[k]).tab != Some(tab),
        tab_place(cs, tab, from) < cs.len() ==> cs[tab_place(cs, tab, from)].tab == Some(tab),
    decreases cs.len() - from,
{
    if from < cs.len() && cs[from].tab != Some(tab) {
        lemma_tab_place(cs, tab, from + 1);
    }
}

pub proof fn lemma_place_of(cs: Seq<TabCanvas>, tab: Option<u64>, doc: u64)
    ensures
        0 <= place_of(cs, tab, doc) <= cs.len(),
{
    match tab {
        Some(t) => lemma_tab_place(cs, t, 0),
        None => lemma_doc_place(cs, doc, 0),
    }
}

/// A canvas that was given a state is drawn with it.
pub proof fn lemma_given_is_drawn(
    cs: Seq<TabCanvas>,
    tab: Option<u64>,
    doc: u64,
    state: CanvasDocState,
)
    ensures
        is_drawn(with_canvas(cs, tab, doc, state), tab, doc),
        drawn(with_canvas(cs, tab, doc, state), tab, doc) == state,
        is_drawn(cs, tab, doc) ==> place_of(with_canvas(cs, tab, doc, state), tab, doc)
            == place_of(cs, tab, doc),
{
    let new = with_canvas(cs, tab, doc, state);
    let i = place_of(cs, tab, doc);
    match tab {
        Some(t) => {
            lemma_tab_place(cs, t, 0);
            lemma_tab_place(new, t, 0);
            assert(new[i].tab == tab);
        },
        None => {
            lemma_doc_place(cs, doc, 0);
            lemma_doc_place(new, doc, 0);
            assert(new[i].doc == doc);
        },
    }
}

/// What the canvases keep, in the order in which they were drawn first, and
/// what is shown while no document is bound.
pub struct CanvasDiagramState {
    pub canvases: Vec<TabCanvas>,
    pub fallback: CanvasDocState,
}

impl CanvasDiagramState {
    pub open spec fn wf(self) -> bool {
        &&& self.fallback.wf()
        &&& forall|i: int|
            0 <= i < self.canvases@.len() ==> (#[trigger] self.canvases@[i]).state.wf()
    }

    /// The state of the first canvas of a document: the shared one where there
    /// is no document or it was not drawn yet.
    pub open spec fn state_of(self, doc: Option<u64>) -> CanvasDocState {
        self.state_for(None, doc)
    }

    /// The state that is shown for a tab, or for a document where no tab is
    /// drawn: the shared one where there is neither, or nothing was drawn yet.
    pub open spec fn state_for(self, tab: Option<u64>, doc: Option<u64>) -> CanvasDocState {
        let cs = self.canvases@;
        let i = match tab {
            Some(t) => tab_place(cs, t, 0),
            None => match doc {
                Some(d) => doc_place(cs, d, 0),
                None => cs.len() as int,
            },
        };
        if i < cs.len() {
            cs[i].state
        } else {
            self.fallback
        }
    }

    pub fn new() -> (r: CanvasDiagramState)
        ensures
            r.wf(),
            r.fallback.is_fresh(),
            r.canvases@ == Seq::<TabCanvas>::empty(),
    {
        CanvasDiagramState { canvases: Vec::new(), fallback: CanvasDocState::default() }
    }

    fn find_doc(&self, doc: u64) -> (r: usize)
        ensures
            r == doc_place(self.canvases@, doc, 0),
            r <= self.canvases@.len(),
    {
        let mut i: usize = 0;
        while i < self.canvases.len() && self.canvases[i].doc != doc
            invariant
                i <= self.canvases@.len(),
                doc_place(self.canvases@, doc, 0) == doc_place(self.canvases@, doc, i as int),
            decreases self.canvases@.len() - i,
        {
            i += 1;
        }
        i
    }

    fn find_tab(&self, tab: u64) -> (r: usize)
        ensures
            r == tab_place(self.canvases@, tab, 0),
            r <= self.canvases@.len(),
    {
        let mut i: usize = 0;
        while i < self.canvases.len()
            invariant
                i <= self.canvases@.len(),
                tab_place(self.canvases@, tab, 0) == tab_place(self.canvases@, tab, i as int),
            decreases self.canvases@.len() - i,
        {
            if let Some(t) = self.canvases[i].tab {
                if t == tab {
                    return i;
                }
            }
            i += 1;
        }
        i
    }

    /// The state of the first canvas of a document: the shared one where there
    /// is no document or it was not drawn yet.
    pub fn get(&self, doc: Option<u64>) -> (r: &CanvasDocState)
        ensures
            *r == self.state_of(doc),
    {
        self.get_for_render(None, doc)
    }

    /// The state of a tab's canvas: the shared one where it was not drawn yet.
    pub fn get_for_tab(&self, tab: u64) -> (r: &CanvasDocState)
        ensures
            *r == self.state_for(Some(tab), None),
    {
        self.get_for_render(Some(tab), None)
    }

    /// The state that is shown for a tab, or for a document where no tab is
    /// drawn: the shared one where there is neither, or nothing was drawn yet.
    pub fn get_for_render(&self, tab: Option<u64>, doc: Option<u64>) -> (r: &CanvasDocState)
        ensures
            *r == self.state_for(tab, doc),
    {
        let i: usize = match tab {
            Some(t) => self.find_tab(t),
            None => match doc {
                Some(d) => self.find_doc(d),
                None => self.canvases.len(),
            },
        };
        if i < self.canvases.len() {
            &self.canvases[i].state
        } else {
            &self.fallback
        }
    }

    /// The state of the first canvas of a document for changing it. A document
    /// that was not drawn yet gets a fresh canvas, of no tab.
    pub fn get_mut(&mut self, doc: Option<u64>) -> (r: &mut CanvasDocState)
        requires
            old(self).wf(),
        ensures
            r.wf(),
            match doc {
                Some(d) => {
                    &&& is_base_of(old(self).canvases@, None, d, *r)
                    &&& final(self).canvases@ == with_canvas(
                        old(self).canvases@,
                        None,
                        d,
                        *final(r),
                    )
                    &&& final(self).fallback == old(self).fallback
                },
                None => {
                    &&& *r == old(self).fallback
                    &&& final(self).fallback == *final(r)
                    &&& final(self).canvases == old(self).canvases
                },
            },
    {
        match doc {
            Some(d) => self.canvas_mut(None, d),
            None => &mut self.fallback,
        }
    }

    /// The state of a tab's canvas for changing it. A tab that was not drawn yet
    /// gets a fresh canvas on the document.
    pub fn get_mut_for_tab(&mut self, tab: u64, doc: u64) -> (r: &mut CanvasDocState)
        requires
            old(self).wf(),
        ensures
            r.wf(),
            is_base_of(old(self).canvases@, Some(tab), doc, *r),
            final(self).canvases@ == with_canvas(
                old(self).canvases@,
                Some(tab),
                doc,
                *final(r),
            ),
            final(self).fallback == old(self).fallback,
    {
        self.canvas_mut(Some(tab), doc)
    }

    /// The state that is shown for a tab and a document, for changing it: that
    /// of the tab, the first of the document where no tab is drawn, and the
    /// shared one without a document.
    pub fn get_mut_for_render(&mut self, tab: Option<u64>, doc: Option<u64>) -> (r:
        &mut CanvasDocState)
        requires
            old(self).wf(),
        ensures
            r.wf(),
            match doc {
                Some(d) => {
                    &&& is_base_of(old(self).canvases@, tab, d, *r)
                    &&& final(self).canvases@ == with_canvas(
                        old(self).canvases@,
                        tab,
                        d,
                        *final(r),
                    )
                    &&& final(self).fallback == old(self).fallback
                },
                None => {
                    &&& *r == old(self).fallback
                    &&& final(self).fallback == *final(r)
                    &&& final(self).canvases == old(self).canvases
                },
            },
    {
        match doc {
            Some(d) => self.canvas_mut(tab, d),
            None => &mut self.fallback,
        }
    }

    fn canvas_mut(&mut self, tab: Option<u64>, doc: u64) -> (r: &mut CanvasDocState)
        requires
            old(self).wf(),
        ensures
            r.wf(),
            is_base_of(old(self).canvases@, tab, doc, *r),
            final(self).canvases@ == with_canvas(old(self).canvases@, tab, doc, *final(r)),
            final(self).fallback == old(self).fallback,
    {
        let i: usize = match tab {
            Some(t) => self.find_tab(t),
            None => self.find_doc(doc),
        };
        if i == self.canvases.len() {
            self.canvases.push(TabCanvas { tab, doc, state: CanvasDocState::default() });
        }
        &mut self.canvases[i].state
    }

    /// Forgets a document, in every tab.
    pub fn drop_doc(&mut self, doc: u64)
        requires
            old(self).wf(),
        ensures
            final(self).wf(),
            final(self).canvases@ == without_doc(old(self).canvases@, doc),
            final(self).fallback == old(self).fallback,
    {
        let ghost all = self.canvases@;
        let ghost mut done: int = 0;
        let mut rest: Vec<TabCanvas> = Vec::new();
        std::mem::swap(&mut rest, &mut self.canvases);
        assert(all.skip(0) =~= all);
        assert(all.take(0) =~= Seq::empty());
        while rest.len() > 0
            invariant
                0 <= done <= all.len(),
                rest@ == all.skip(done),
                self.canvases@ == without_doc(all.take(done), doc),
                self.fallback == old(self).fallback,
                self.wf(),
                forall|i: int| 0 <= i < all.len() ==> (#[trigger] all[i]).state.wf(),
            decreases all.len() - done,
        {
            assert(rest@[0] == all[done]);
            let c = rest.remove(0);
            assert(rest@ =~= all.skip(done + 1));
            assert(all.take(done + 1).drop_last() =~= all.take(done));
            assert(all.take(done + 1).last() == all[done]);
            if c.doc != doc {
                self.canvases.push(c);
            }
            proof {
                done = done + 1;
            }
        }
        assert(all.take(done) =~= all);
    }

    /// The state of the first canvas of a document, where it was drawn.
    pub fn get_for_doc(&self, doc: u64) -> (r: Option<&CanvasDocState>)
        ensures
            match r {
                Some(s) => is_drawn(self.canvases@, None, doc) && *s == drawn(
                    self.canvases@,
                    None,
                    doc,
                ),
                None => !is_drawn(self.canvases@, None, doc),
            },
    {
        let i: usize = self.find_doc(doc);
        if i < self.canvases.len() {
            Some(&self.canvases[i].state)
        } else {
            None
        }
    }

    /// Whether the document was drawn.
    pub fn has_entry(&self, doc: u64) -> (r: bool)
        ensures
            r == is_drawn(self.canvases@, None, doc),
    {
        self.find_doc(doc) < self.canvases.len()
    }

    /// Whether the tab was drawn.
    pub fn has_entry_for_tab(&self, tab: u64) -> (r: bool)
        ensures
            r == (tab_place(self.canvases@, tab, 0) < self.canvases@.len()),
    {
        self.find_tab(tab) < self.canvases.len()
    }

    /// The documents that were drawn, each once, in the order in which they were
    /// drawn first.
    pub fn iter_doc_ids(&self) -> (r: Vec<u64>)
        ensures
            r@.no_duplicates(),
            forall|d: u64| r@.contains(d) == #[trigger] is_drawn(self.canvases@, None, d),
            forall|a: int, b: int|
                0 <= a < b < r@.len() ==> doc_place(self.canvases@, #[trigger] r@[a], 0)
                    < doc_place(self.canvases@, #[trigger] r@[b], 0),
    {
        let mut out: Vec<u64> = Vec::new();
        let mut i: usize = 0;
        while i < self.canvases.len()
            invariant
                i <= self.canvases@.len(),
                forall|k: int|
                    0 <= k < out@.len() ==> doc_place(self.canvases@, #[trigger] out@[k], 0) < i,
                forall|a: int, b: int|
                    0 <= a < b < out@.len() ==> doc_place(self.canvases@, #[trigger] out@[a], 0)
                        < doc_place(self.canvases@, #[trigger] out@[b], 0),
                forall|k: int|
                    0 <= k < i ==> out@.contains((#[trigger] self.canvases@[k]).doc),
            decreases self.canvases@.len() - i,
        {
            let d: u64 = self.canvases[i].doc;
            let first: usize = self.find_doc(d);
            let ghost before = out@;
            proof {
                lemma_doc_place(self.canvases@, d, 0);
            }
            if first == i {
                out.push(d);
                assert(out@.last() == d);
            } else {
                assert(self.canvases@[first as int].doc == d);
            }
            assert forall|k: int| 0 <= k < i + 1 implies out@.contains(
                (#[trigger] self.canvases@[k]).doc,
            ) by {
                if k < i {
                    let j = choose|j: int|
                        0 <= j < before.len() && before[j] == self.canvases@[k].doc;
                    assert(out@[j] == self.canvases@[k].doc);
                } else if first < i {
                    assert(before.contains(self.canvases@[first as int].doc));
                }
            }
            i += 1;
        }
        assert forall|d: u64| out@.contains(d) == #[trigger] is_drawn(
            self.canvases@,
            None,
            d,
        ) by {
            lemma_doc_place(self.canvases@, d, 0);
        }
        out
    }
}

// ── Laws ─────────────────────────────────────────────────────────────────

/// Documents are apart: what the first canvas of one is given is what it shows
/// next, and leaves the first canvas of every other as it is.
pub proof fn law_documents_are_apart(cs: Seq<TabCanvas>, doc: u64, state: CanvasDocState)
    ensures
        is_drawn(with_canvas(cs, None, doc, state), None, doc),
        drawn(with_canvas(cs, None, doc, state), None, doc) == state,
        forall|d: u64|
            d != doc ==> {
                &&& #[trigger] is_drawn(with_canvas(cs, None, doc, state), None, d) == is_drawn(
                    cs,
                    None,
                    d,
                )
                &&& is_drawn(cs, None, d) ==> drawn(with_canvas(cs, None, doc, state), None, d)
                    == drawn(cs, None, d)
            },
{
    let new = with_canvas(cs, None, doc, state);
    lemma_doc_place(cs, doc, 0);
    lemma_doc_place(new, doc, 0);
    let i = doc_place(cs, doc, 0);
    assert(new[i].doc == doc);
    assert forall|d: u64| d != doc implies {
        &&& #[trigger] is_drawn(new, None, d) == is_drawn(cs, None, d)
        &&& is_drawn(cs, None, d) ==> drawn(new, None, d) == drawn(cs, None, d)
    } by {
        lemma_doc_place(cs, d, 0);
        lemma_doc_place(new, d, 0);
        let a = doc_place(cs, d, 0);
        let b = doc_place(new, d, 0);
        if a < cs.len() {
            assert(new[a].doc == d);
        }
        if b < new.len() {
            assert(b < cs.len());
            assert(cs[b].doc == d);
        }
    }
}

/// Tabs are apart: changing the canvas of one leaves that of every other tab as
/// it is, whatever documents they show.
pub proof fn law_tabs_are_apart(
    cs: Seq<TabCanvas>,
    tab: u64,
    doc: u64,
    state: CanvasDocState,
    other: u64,
)
    requires
        tab != other,
    ensures
        ({
            let new = with_canvas(cs, Some(tab), doc, state);
            &&& (tab_place(new, other, 0) < new.len()) == (tab_place(cs, other, 0) < cs.len())
            &&& tab_place(cs, other, 0) < cs.len() ==> new[tab_place(new, other, 0)]
                == cs[tab_place(cs, other, 0)]
        }),
{
    let new = with_canvas(cs, Some(tab), doc, state);
    lemma_tab_place(cs, tab, 0);
    lemma_tab_place(cs, other, 0);
    lemma_tab_place(new, other, 0);
    let i = tab_place(cs, tab, 0);
    let a = tab_place(cs, other, 0);
    let b = tab_place(new, other, 0);
    assert(new[i].tab == Some(tab));
    if a < cs.len() {
        assert(new[a].tab == Some(other));
    }
    if b < new.len() {
        assert(b < cs.len());
        assert(cs[b].tab == Some(other));
    }
}

/// What a tab's canvas is given is what it shows next.
pub proof fn law_a_tab_shows_what_it_was_given(
    st: CanvasDiagramState,
    after: CanvasDiagramState,
    tab: u64,
    doc: u64,
    state: CanvasDocState,
)
    requires
        after.canvases@ == with_canvas(st.canvases@, Some(tab), doc, state),
    ensures
        after.state_for(Some(tab), Some(doc)) == state,
{
    lemma_tab_place(st.canvases@, tab, 0);
    lemma_tab_place(after.canvases@, tab, 0);
    let i = tab_place(st.canvases@, tab, 0);
    assert(after.canvases@[i].tab == Some(tab));
}

/// A tab shows its own canvas, the first that is the tab's; a document that no tab
/// draws shows the first of its canvases; and the shared state is shown where
/// there is no such canvas.
pub proof fn law_the_canvas_that_is_meant_is_shown(
    st: CanvasDiagramState,
    tab: u64,
    doc: u64,
    i: int,
)
    requires
        0 <= i <= st.canvases@.len(),
    ensures
        (forall|k: int| 0 <= k < i ==> (#[trigger] st.canvases@[k]).tab != Some(tab)) ==> {
            &&& i < st.canvases@.len() && st.canvases@[i].tab == Some(tab) ==> st.state_for(
                Some(tab),
                Some(doc),
            ) == st.canvases@[i].state
            &&& i == st.canvases@.len() ==> st.state_for(Some(tab), Some(doc)) == st.fallback
        },
        (forall|k: int| 0 <= k < i ==> (#[trigger] st.canvases@[k]).doc != doc) ==> {
            &&& i < st.canvases@.len() && st.canvases@[i].doc == doc ==> st.state_of(Some(doc))
                == st.canvases@[i].state
            &&& i == st.canvases@.len() ==> st.state_of(Some(doc)) == st.fallback
        },
        st.state_of(None) == st.fallback,
{
    let cs = st.canvases@;
    lemma_tab_place(cs, tab, 0);
    lemma_doc_place(cs, doc, 0);
    let a = tab_place(cs, tab, 0);
    let b = doc_place(cs, doc, 0);
    if a < i && a < cs.len() {
        assert(cs[a].tab == Some(tab));
    }
    if i < a {
        assert(cs[i].tab != Some(tab));
    }
    if b < i && b < cs.len() {
        assert(cs[b].doc == doc);
    }
    if i < b {
        assert(cs[i].doc != doc);
    }
}

/// Changing a canvas changes its state alone: every canvas keeps its tab and its
/// document, and only the one that is meant its place in the list with a new
/// state. One that was not drawn yet is added for the tab and the document.
pub proof fn law_changes_stay_in_their_canvas(
    cs: Seq<TabCanvas>,
    tab: Option<u64>,
    doc: u64,
    state: CanvasDocState,
    k: int,
)
    requires
        0 <= k < cs.len(),
    ensures
        ({
            let new = with_canvas(cs, tab, doc, state);
            &&& new[k].tab == cs[k].tab && new[k].doc == cs[k].doc
            &&& tab matches Some(t) ==> (cs[k].tab != Some(t) ==> new[k] == cs[k])
            &&& tab is None && cs[k].doc != doc ==> new[k] == cs[k]
            &&& new.len() == cs.len() || new.len() == cs.len() + 1 && new.last().tab == tab
                && new.last().doc == doc && new.last().state == state
        }),
{
    lemma_place_of(cs, tab, doc);
    match tab {
        Some(t) => lemma_tab_place(cs, t, 0),
        None => lemma_doc_place(cs, doc, 0),
    }
}

/// Forgetting a document takes away its canvases, in every tab, and leaves all
/// others as they are and in order: there are increasing places of canvases, one
/// for each that is left.
pub proof fn law_only_the_documents_own_canvases_go(cs: Seq<TabCanvas>, doc: u64) -> (at: Seq<int>)
    ensures
        at.len() == without_doc(cs, doc).len(),
        forall|a: int, b: int| 0 <= a < b < at.len() ==> at[a] < at[b],
        forall|i: int| 0 <= i < cs.len() ==> (at.contains(i) <==> (#[trigger] cs[i]).doc != doc),
        forall|k: int|
            0 <= k < at.len() ==> 0 <= #[trigger] at[k] < cs.len() && without_doc(cs, doc)[k]
                == cs[at[k]],
    decreases cs.len(),
{
    if cs.len() == 0 {
        Seq::empty()
    } else {
        let rest = cs.drop_last();
        let before = law_only_the_documents_own_canvases_go(rest, doc);
        let n = cs.len() - 1;
        let stays = cs.last().doc != doc;
        let at = if stays {
            before.push(n)
        } else {
            before
        };
        assert forall|i: int| 0 <= i < cs.len() implies (at.contains(i) <==> (
        #[trigger] cs[i]).doc != doc) by {
            if i < n {
                assert(rest[i] == cs[i]);
                if before.contains(i) {
                    let k = choose|k: int| 0 <= k < before.len() && before[k] == i;
                    assert(at[k] == i);
                }
                if at.contains(i) {
                    let k = choose|k: int| 0 <= k < at.len() && at[k] == i;
                    assert(before[k] == i);
                }
            } else {
                if stays {
                    assert(at[before.len() as int] == i);
                }
                if at.contains(i) {
                    let k = choose|k: int| 0 <= k < at.len() && at[k] == i;
                    if k < before.len() {
                        assert(before[k] == i);
                    }
                }
            }
        }
        assert forall|k: int| 0 <= k < at.len() implies 0 <= #[trigger] at[k] < cs.len()
            && without_doc(cs, doc)[k] == cs[at[k]] by {
            if k < before.len() {
                assert(at[k] == before[k]);
                assert(rest[before[k]] == cs[before[k]]);
            }
        }
        at
    }
}

proof fn lemma_above_grid(layers: Seq<Seq<char>>, from: int)
    requires
        0 <= from <= layers.len(),
    ensures
        ({
            let p = above_grid(layers, from);
            &&& from <= p <= layers.len()
            &&& p < layers.len() ==> layers[p] != "grid"@
            &&& forall|k: int| from <= k < p ==> #[trigger] layers[k] == "grid"@
        }),
    decreases layers.len() - from,
{
    if from < layers.len() && layers[from] == "grid"@ {
        lemma_above_grid(layers, from + 1);
    }
}

/// A diagram canvas draws the graphics of the diagram right above the grid, and
/// highlights above everything else, those of nodes before those of edges. It has
/// no selection outline; of all other layers it has every one, in order.
pub proof fn law_diagrams_lie_right_above_the_grid(base: Seq<Seq<char>>) -> (r: (Seq<int>, int))
    ensures
        ({
            let (at, p) = r;
            let layers = diagram_layers(base);
            &&& layers.len() == at.len() + 3
            &&& 0 <= p <= at.len()
            &&& layers[p] == "modelica.diagram_decoration"@
            &&& layers[at.len() as int + 1] == "modelica.pulse_glow"@
            &&& layers.last() == "modelica.edge_pulse"@
            &&& forall|a: int, b: int| 0 <= a < b < at.len() ==> at[a] < at[b]
            &&& forall|i: int|
                0 <= i < base.len() ==> (at.contains(i) <==> #[trigger] base[i] != "selection"@)
            &&& forall|k: int|
                0 <= k < at.len() ==> {
                    &&& 0 <= #[trigger] at[k] < base.len()
                    &&& k < p ==> layers[k] == base[at[k]] && layers[k] == "grid"@
                    &&& k >= p ==> layers[k + 1] == base[at[k]]
                    &&& k == p ==> layers[k + 1] != "grid"@
                }
        }),
{
    let pick = |l: Seq<char>| l != "selection"@;
    let at = crate::text::law_picked_items_stay_in_order(base, pick);
    let kept = without_selection(base);
    lemma_above_grid(kept, 0);
    let p = above_grid(kept, 0);
    let layers = diagram_layers(base);
    assert forall|k: int| 0 <= k < at.len() implies {
        &&& 0 <= #[trigger] at[k] < base.len()
        &&& k < p ==> layers[k] == base[at[k]] && layers[k] == "grid"@
        &&& k >= p ==> layers[k + 1] == base[at[k]]
        &&& k == p ==> layers[k + 1] != "grid"@
    } by {
        assert(kept[k] == base[at[k]]);
        if k < p {
            assert(layers[k] == kept[k]);
        } else {
            assert(layers[k + 1] == kept[k]);
        }
    }
    (at, p)
}

} // verus!
