//! Texts and plots of a diagram annotation, which the scene shows as nodes,
//! and the graphics behind the nodes.
use crate::classes::{Extent, GraphicItem, PlotItem, TextItem};
use crate::fixed::Fixed;
use crate::geometry::{Pos, Rect};
use crate::model::Rgb;
use crate::ops::{plot_origin, text_corners, text_origin};
use crate::scene::{NodeData, PlotNodeData, Scene, SceneNode, TextNodeData};
use crate::text::{
    chars_of, decimal_text, text2, text3, trim_char, trimmed, views,
};
use vstd::prelude::*;

verus! {

/// What a decoration node shows.
pub enum ContentView {
    Text { text: Seq<char>, font_size: Fixed, color: Option<Rgb> },
    Plot { signal: Seq<char>, title: Seq<char> },
}

/// A decoration node by its contents.
pub struct DecorationView {
    pub rect: Rect,
    pub origin: Seq<char>,
    pub content: ContentView,
}

/// The box, on the canvas, of a graphic whose corners are given in any order.
pub open spec fn extent_box(e: Extent) -> Rect {
    let y1 = e.p1.y.neg_spec();
    let y2 = e.p2.y.neg_spec();
    Rect {
        min: Pos { x: e.p1.x.min_spec(e.p2.x), y: y1.min_spec(y2) },
        max: Pos { x: e.p1.x.max_spec(e.p2.x), y: y1.max_spec(y2) },
    }
}

/// Whether a text is shown: not when it is empty, nor when it is one of the
/// substitutions that icons use.
pub open spec fn is_shown_text(text: Seq<char>) -> bool {
    text.len() > 0 && text[0] != '%'
}

/// How many of the first `n` graphics are texts.
pub open spec fn texts_before(graphics: Seq<GraphicItem>, n: int) -> nat
    decreases n,
{
    if n <= 0 {
        0
    } else if graphics[n - 1] is Text {
        texts_before(graphics, n - 1) + 1
    } else {
        texts_before(graphics, n - 1)
    }
}

/// The node for the graphic at place `i`, where it has one. Texts are numbered
/// among the texts, plots among all graphics.
pub open spec fn decoration_of(graphics: Seq<GraphicItem>, i: int) -> Option<DecorationView> {
    match graphics[i] {
        GraphicItem::Text(t) => {
            let text = trimmed(t.text_string@, '"');
            if is_shown_text(text) {
                Some(
                    DecorationView {
                        rect: extent_box(t.extent),
                        origin: text_origin(texts_before(graphics, i)),
                        content: ContentView::Text {
                            text,
                            font_size: t.font_size,
                            color: t.text_color,
                        },
                    },
                )
            } else {
                None
            }
        },
        GraphicItem::Plot(p) => Some(
            DecorationView {
                rect: extent_box(p.extent),
                origin: plot_origin(i as nat, p.signal@),
                content: ContentView::Plot { signal: p.signal@, title: p.title@ },
            },
        ),
        GraphicItem::Shape(_) => None,
    }
}

/// The nodes for the first `n` graphics, in order.
pub open spec fn decorations(graphics: Seq<GraphicItem>, n: int) -> Seq<DecorationView>
    decreases n,
{
    if n <= 0 {
        Seq::empty()
    } else {
        match decoration_of(graphics, n - 1) {
            Some(d) => decorations(graphics, n - 1).push(d),
            None => decorations(graphics, n - 1),
        }
    }
}

/// Whether `n` is the node `id` for the decoration `d`. The source backs it,
/// and it can be resized.
pub open spec fn is_decoration(n: SceneNode, d: DecorationView, id: int) -> bool {
    &&& n.id == id
    &&& n.rect == d.rect
    &&& n.origin matches Some(o) && o@ == d.origin
    &&& n.ports@.len() == 0
    &&& n.label@.len() == 0
    &&& n.resizable
    &&& n.visual_rect is None
    &&& match (n.data, d.content) {
        (NodeData::Text(t), ContentView::Text { text, font_size, color }) => t.text@ == text
            && t.font_size == font_size && t.color == color,
        (NodeData::Plot(p), ContentView::Plot { signal, title }) => p.entity == 0
            && p.signal_path@ == signal && p.title@ == title,
        _ => false,
    }
}

fn box_of(e: &Extent) -> (r: Rect)
    ensures
        r == extent_box(*e),
{
    let y1 = e.p1.y.negated();
    let y2 = e.p2.y.negated();
    Rect {
        min: Pos { x: e.p1.x.smaller(e.p2.x), y: y1.smaller(y2) },
        max: Pos { x: e.p1.x.larger(e.p2.x), y: y1.larger(y2) },
    }
}

fn starts_with_percent(s: &String) -> (r: bool)
    ensures
        r == (s@.len() > 0 && s@[0] == '%'),
{
    let v = chars_of(s.as_str());
    v.len() > 0 && v[0] == '%'
}

fn decoration_node(rect: Rect, data: NodeData, origin: &String) -> (n: SceneNode)
    ensures
        n.rect == rect,
        n.data == data,
        n.origin == Some(*origin),
        n.ports@.len() == 0,
        n.label@.len() == 0,
        n.resizable,
        n.visual_rect is None,
{
    SceneNode {
        id: 0,
        rect,
        data,
        ports: Vec::new(),
        label: String::new(),
        origin: Some(origin.clone()),
        resizable: true,
        visual_rect: None,
    }
}

fn text_decoration(t: &TextItem, text: String, place: u64) -> (r: (SceneNode, String))
    ensures
        r.1@ == text_origin(place as nat),
        r.0.origin == Some(r.1),
        r.0.rect == extent_box(t.extent),
        r.0.ports@.len() == 0,
        r.0.label@.len() == 0,
        r.0.resizable,
        r.0.visual_rect is None,
        r.0.data matches NodeData::Text(d) && d.text@ == text@ && d.font_size == t.font_size
            && d.color == t.text_color,
{
    let number = decimal_text(place);
    let origin = text2("text:", number.as_str());
    let data = NodeData::Text(
        TextNodeData { text, font_size: t.font_size, color: t.text_color },
    );
    (decoration_node(box_of(&t.extent), data, &origin), origin)
}

fn plot_decoration(p: &PlotItem, place: u64) -> (r: (SceneNode, String))
    ensures
        r.1@ == plot_origin(place as nat, p.signal@),
        r.0.origin == Some(r.1),
        r.0.rect == extent_box(p.extent),
        r.0.ports@.len() == 0,
        r.0.label@.len() == 0,
        r.0.resizable,
        r.0.visual_rect is None,
        r.0.data matches NodeData::Plot(d) && d.entity == 0 && d.signal_path@ == p.signal@
            && d.title@ == p.title@,
{
    let number = decimal_text(place);
    let head = text3("plot:", number.as_str(), ":");
    let origin = text2(head.as_str(), p.signal.as_str());
    let data = NodeData::Plot(
        PlotNodeData { entity: 0, signal_path: p.signal.clone(), title: p.title.clone() },
    );
    (decoration_node(box_of(&p.extent), data, &origin), origin)
}

/// Whether the nodes from place `first` on are those of `ds`, with ids from
/// `first_id` on.
pub open spec fn are_decorations(
    nodes: Seq<SceneNode>,
    first: int,
    first_id: int,
    ds: Seq<DecorationView>,
) -> bool {
    &&& nodes.len() == first + ds.len()
    &&& forall|j: int|
        0 <= j < ds.len() ==> is_decoration(#[trigger] nodes[first + j], ds[j], first_id + j)
}

/// Adds to the scene a node for each text and each plot of a diagram
/// annotation, and tells their origins.
///
/// Quotes around a text are dropped. Empty texts and substitutions are not
/// shown, but count when texts are numbered.
pub fn emit_diagram_decorations(scene: &mut Scene, graphics: &Vec<GraphicItem>) -> (origins: Vec<
    String,
>)
    requires
        old(scene).wf(),
        old(scene).next_node + graphics@.len() <= u64::MAX,
    ensures
        final(scene).wf(),
        final(scene).edges == old(scene).edges,
        final(scene).next_edge == old(scene).next_edge,
        ({
            let ds = decorations(graphics@, graphics@.len() as int);
            let first = old(scene).nodes@.len() as int;
            &&& final(scene).nodes@.take(first) == old(scene).nodes@
            &&& are_decorations(final(scene).nodes@, first, old(scene).next_node as int, ds)
            &&& final(scene).next_node == old(scene).next_node + ds.len()
            &&& views(origins@) == ds.map_values(|d: DecorationView| d.origin)
        }),
{
    let mut origins: Vec<String> = Vec::new();
    let mut text_idx: u64 = 0;
    let mut i: usize = 0;
    let ghost nodes0 = scene.nodes@;
    let ghost first = nodes0.len() as int;
    let ghost first_id = scene.next_node as int;
    assert(scene.nodes@.take(first) =~= nodes0);
    assert(views(origins@) =~= decorations(graphics@, 0).map_values(|d: DecorationView| d.origin));
    while i < graphics.len()
        invariant
            i <= graphics@.len(),
            scene.wf(),
            scene.edges == old(scene).edges,
            scene.next_edge == old(scene).next_edge,
            first == nodes0.len(),
            nodes0 == old(scene).nodes@,
            first_id == old(scene).next_node,
            first_id + graphics@.len() <= u64::MAX,
            text_idx == texts_before(graphics@, i as int),
            text_idx <= i,
            decorations(graphics@, i as int).len() <= i,
            scene.next_node == first_id + decorations(graphics@, i as int).len(),
            scene.nodes@.len() >= first,
            scene.nodes@.take(first) == nodes0,
            are_decorations(scene.nodes@, first, first_id, decorations(graphics@, i as int)),
            views(origins@) == decorations(graphics@, i as int).map_values(
                |d: DecorationView| d.origin,
            ),
        decreases graphics@.len() - i,
    {
        let ghost ds = decorations(graphics@, i as int);
        let ghost before = scene.nodes@;
        let ghost origins0 = origins@;
        let mut added: Option<(SceneNode, String)> = None;
        match &graphics[i] {
            GraphicItem::Text(t) => {
                let raw = trim_char(t.text_string.as_str(), '"');
                if !raw.as_str().is_empty() && !starts_with_percent(&raw) {
                    added = Some(text_decoration(t, raw, text_idx));
                }
                text_idx += 1;
            },
            GraphicItem::Plot(p) => {
                added = Some(plot_decoration(p, i as u64));
            },
            GraphicItem::Shape(_) => {},
        }
        if let Some((node, origin)) = added {
            let ghost d = decoration_of(graphics@, i as int)->0;
            let _ = scene.insert_node(node);
            origins.push(origin);
            assert(decorations(graphics@, i + 1) == ds.push(d));
            assert(scene.nodes@.take(first) =~= before.take(first));
            assert forall|j: int| 0 <= j < ds.len() + 1 implies is_decoration(
                #[trigger] scene.nodes@[first + j],
                ds.push(d)[j],
                first_id + j,
            ) by {
                if j < ds.len() {
                    assert(scene.nodes@[first + j] == before[first + j]);
                } else {
                    assert(scene.nodes@[first + j] == scene.nodes@.last());
                }
            }
            assert(views(origins@) =~= views(origins0).push(origin@));
            assert(ds.push(d).map_values(|d: DecorationView| d.origin) =~= ds.map_values(
                |d: DecorationView| d.origin,
            ).push(d.origin));
        }
        i += 1;
    }
    origins
}

// ── Background graphics ──────────────────────────────────────────────────

/// The shapes among the graphics, which are drawn behind the nodes. Texts and
/// plots have nodes of their own.
pub open spec fn background_shapes(graphics: Seq<GraphicItem>) -> Seq<u64>
    decreases graphics.len(),
{
    if graphics.len() == 0 {
        Seq::empty()
    } else {
        match graphics.last() {
            GraphicItem::Shape(h) => background_shapes(graphics.drop_last()).push(h),
            _ => background_shapes(graphics.drop_last()),
        }
    }
}

/// The shapes that are drawn behind the nodes.
pub fn background_graphics(graphics: &Vec<GraphicItem>) -> (r: Vec<u64>)
    ensures
        r@ == background_shapes(graphics@),
{
    let mut out: Vec<u64> = Vec::new();
    let mut i: usize = 0;
    while i < graphics.len()
        invariant
            i <= graphics@.len(),
            out@ == background_shapes(graphics@.take(i as int)),
        decreases graphics@.len() - i,
    {
        assert(graphics@.take(i + 1).drop_last() =~= graphics@.take(i as int));
        assert(graphics@.take(i + 1).last() == graphics@[i as int]);
        if let GraphicItem::Shape(h) = &graphics[i] {
            out.push(*h);
        }
        i += 1;
    }
    assert(graphics@.take(i as int) =~= graphics@);
    out
}

/// The box, on the canvas, that a coordinate system covers.
pub fn background_box(extent: &Extent) -> (r: Rect)
    ensures
        r == extent_box(*extent),
{
    box_of(extent)
}

// ── Laws ─────────────────────────────────────────────────────────────────

/// A text that is moved or resized is shown where it was put: the corners
/// that its edit writes make up the same box again.
pub proof fn law_moved_text_stays_put(min: Pos, max: Pos)
    requires
        min.in_bounds(),
        max.in_bounds(),
        min.x.steps <= max.x.steps,
        min.y.steps <= max.y.steps,
    ensures
        ({
            let c = text_corners(min, max);
            extent_box(
                Extent {
                    p1: crate::coords::ModelicaPos { x: c.x1, y: c.y1 },
                    p2: crate::coords::ModelicaPos { x: c.x2, y: c.y2 },
                },
            ) == (Rect { min, max })
        }),
{
    crate::fixed::lemma_negation_undoes_itself(min.y);
    crate::fixed::lemma_negation_undoes_itself(max.y);
}

/// No two decorations of a diagram have the same origin.
pub proof fn law_decoration_origins_differ(graphics: Seq<GraphicItem>, i: int, j: int)
    requires
        0 <= i < j < graphics.len(),
        decoration_of(graphics, i) is Some,
        decoration_of(graphics, j) is Some,
        j < u64::MAX,
    ensures
        decoration_of(graphics, i)->0.origin != decoration_of(graphics, j)->0.origin,
{
    let a = decoration_of(graphics, i)->0.origin;
    let b = decoration_of(graphics, j)->0.origin;
    lemma_texts_before_bounds(graphics, i, j);
    reveal_strlit("text:");
    reveal_strlit("plot:");
    reveal_strlit(":");
    if graphics[i] is Text && graphics[j] is Text {
        let m = texts_before(graphics, i);
        let n = texts_before(graphics, j);
        if a == b {
            assert(a.skip(5) =~= crate::text::decimal(m));
            assert(b.skip(5) =~= crate::text::decimal(n));
            crate::text::law_decimal_round_trip(m);
            crate::text::law_decimal_round_trip(n);
        }
    } else if graphics[i] is Plot && graphics[j] is Plot {
        if a == b {
            let si = graphics[i]->Plot_0.signal@;
            let sj = graphics[j]->Plot_0.signal@;
            let di = crate::text::decimal(i as nat);
            let dj = crate::text::decimal(j as nat);
            let ri = di + ":"@ + si;
            let rj = dj + ":"@ + sj;
            assert(a.skip(5) =~= ri);
            assert(b.skip(5) =~= rj);
            lemma_number_before_colon(i as nat, si);
            lemma_number_before_colon(j as nat, sj);
            assert(ri.take(di.len() as int) =~= di);
            assert(rj.take(dj.len() as int) =~= dj);
            crate::text::law_decimal_round_trip(i as nat);
            crate::text::law_decimal_round_trip(j as nat);
        }
    } else {
        assert(a[0] != b[0]);
    }
}

proof fn lemma_number_before_colon(n: nat, rest: Seq<char>)
    ensures
        crate::text::first_index(crate::text::decimal(n) + ":"@ + rest, ':', 0)
            == crate::text::decimal(n).len(),
{
    reveal_strlit(":");
    let d = crate::text::decimal(n);
    let s = d + ":"@ + rest;
    crate::text::lemma_decimal_is_digits(n);
    assert forall|k: int| 0 <= k < d.len() implies s[k] != ':' by {
        assert(s[k] == d[k]);
        assert(crate::text::is_digit(d[k]));
    }
    crate::text::lemma_first_index_unique(s, ':', 0, d.len() as int);
}

proof fn lemma_texts_before_bounds(graphics: Seq<GraphicItem>, i: int, j: int)
    requires
        0 <= i <= j <= graphics.len(),
    ensures
        texts_before(graphics, i) <= texts_before(graphics, j) <= j,
        i < j && graphics[i] is Text ==> texts_before(graphics, i) < texts_before(graphics, j),
    decreases j,
{
    if i < j {
        lemma_texts_before_bounds(graphics, i, j - 1);
    } else if j > 0 {
        lemma_texts_before_bounds(graphics, i - 1, j - 1);
    }
}

/// Whether a rectangle is the box of two corners in any order, with y turned
/// around.
pub open spec fn is_box_of(r: Rect, e: Extent) -> bool {
    &&& r.min.x.steps == (if e.p1.x.steps <= e.p2.x.steps {
        e.p1.x.steps
    } else {
        e.p2.x.steps
    })
    &&& r.max.x.steps == (if e.p1.x.steps <= e.p2.x.steps {
        e.p2.x.steps
    } else {
        e.p1.x.steps
    })
    &&& r.min.y.steps == -(if e.p1.y.steps >= e.p2.y.steps {
        e.p1.y.steps
    } else {
        e.p2.y.steps
    })
    &&& r.max.y.steps == -(if e.p1.y.steps >= e.p2.y.steps {
        e.p2.y.steps
    } else {
        e.p1.y.steps
    })
}

/// The box of a graphic spans its two corners, whichever way round they are
/// given; what is up in the source is up on the canvas.
pub proof fn law_boxes_span_their_corners(e: Extent)
    requires
        e.p1.y.in_bounds(),
        e.p2.y.in_bounds(),
    ensures
        is_box_of(extent_box(e), e),
{
}

/// The places of the graphics that have nodes, in order.
spec fn shown_places(graphics: Seq<GraphicItem>, n: int) -> Seq<int>
    decreases n,
{
    if n <= 0 {
        Seq::empty()
    } else if decoration_of(graphics, n - 1) is Some {
        shown_places(graphics, n - 1).push(n - 1)
    } else {
        shown_places(graphics, n - 1)
    }
}

proof fn lemma_shown_places(graphics: Seq<GraphicItem>, n: int)
    requires
        0 <= n <= graphics.len(),
    ensures
        shown_places(graphics, n).len() == decorations(graphics, n).len(),
        forall|a: int, b: int|
            0 <= a < b < shown_places(graphics, n).len() ==> shown_places(graphics, n)[a]
                < shown_places(graphics, n)[b],
        forall|k: int|
            0 <= k < shown_places(graphics, n).len() ==> {
                let i = #[trigger] shown_places(graphics, n)[k];
                0 <= i < n && decoration_of(graphics, i) == Some(decorations(graphics, n)[k])
            },
        forall|i: int|
            0 <= i < n && (#[trigger] decoration_of(graphics, i)) is Some ==> shown_places(
                graphics,
                n,
            ).contains(i),
    decreases n,
{
    if n > 0 {
        lemma_shown_places(graphics, n - 1);
        let before = shown_places(graphics, n - 1);
        let all = shown_places(graphics, n);
        assert forall|i: int|
            0 <= i < n && (#[trigger] decoration_of(graphics, i)) is Some implies all.contains(
            i,
        ) by {
            if i < n - 1 {
                let k = choose|k: int| 0 <= k < before.len() && before[k] == i;
                assert(all[k] == i);
            } else {
                assert(all[before.len() as int] == i);
            }
        }
    }
}

/// The nodes behind the first `first` are those of the annotation's texts and
/// plots, in order: there are increasing places of graphics, one for each node,
/// and every plot is among them, and every text that is neither empty nor a
/// substitution once its quotes are off. Each node spans the corners of its
/// graphic and shows what the graphic says.
pub proof fn law_every_text_and_plot_is_shown(
    nodes: Seq<SceneNode>,
    first: int,
    first_id: int,
    graphics: Seq<GraphicItem>,
) -> (at: Seq<int>)
    requires
        first >= 0,
        are_decorations(
            nodes,
            first,
            first_id,
            decorations(graphics, graphics.len() as int),
        ),
    ensures
        nodes.len() == first + at.len(),
        forall|a: int, b: int| 0 <= a < b < at.len() ==> at[a] < at[b],
        forall|i: int|
            0 <= i < graphics.len() && #[trigger] graphics[i] is Plot ==> at.contains(i),
        forall|i: int|
            0 <= i < graphics.len() && #[trigger] graphics[i] is Text ==> {
                let t = trimmed((graphics[i]->Text_0).text_string@, '"');
                at.contains(i) <==> t.len() > 0 && t[0] != '%'
            },
        forall|k: int|
            0 <= k < at.len() ==> {
                let g = graphics[#[trigger] at[k]];
                let n = nodes[first + k];
                &&& 0 <= at[k] < graphics.len()
                &&& n.resizable && n.ports@.len() == 0 && n.origin is Some
                &&& g is Text || g is Plot
                &&& g is Text ==> {
                    &&& n.data is Text
                    &&& n.data->Text_0.text@ == trimmed(g->Text_0.text_string@, '"')
                    &&& n.data->Text_0.font_size == g->Text_0.font_size
                    &&& n.data->Text_0.color == g->Text_0.text_color
                    &&& n.rect == extent_box(g->Text_0.extent)
                    &&& (n.origin->0)@ == "text:"@ + crate::text::decimal(
                        graphics.take(at[k]).filter(|x: GraphicItem| x is Text).len(),
                    )
                }
                &&& g is Plot ==> {
                    &&& n.data is Plot
                    &&& n.data->Plot_0.entity == 0
                    &&& n.data->Plot_0.signal_path@ == g->Plot_0.signal@
                    &&& n.data->Plot_0.title@ == g->Plot_0.title@
                    &&& n.rect == extent_box(g->Plot_0.extent)
                    &&& (n.origin->0)@ == "plot:"@ + crate::text::decimal(at[k] as nat) + ":"@
                        + g->Plot_0.signal@
                }
            },
{
    let at = shown_places(graphics, graphics.len() as int);
    let ds = decorations(graphics, graphics.len() as int);
    lemma_shown_places(graphics, graphics.len() as int);
    assert forall|i: int|
        0 <= i < graphics.len() && #[trigger] graphics[i] is Plot implies at.contains(i) by {
        assert(decoration_of(graphics, i) is Some);
    }
    assert forall|i: int| 0 <= i < graphics.len() && #[trigger] graphics[i] is Text implies {
        let t = trimmed((graphics[i]->Text_0).text_string@, '"');
        at.contains(i) <==> t.len() > 0 && t[0] != '%'
    } by {
        if at.contains(i) {
            let k = choose|k: int| 0 <= k < at.len() && at[k] == i;
            assert(decoration_of(graphics, at[k]) == Some(ds[k]));
        } else {
            assert(decoration_of(graphics, i) is None);
        }
    }
    assert forall|k: int| 0 <= k < at.len() implies {
        let g = graphics[#[trigger] at[k]];
        let n = nodes[first + k];
        &&& 0 <= at[k] < graphics.len()
        &&& n.resizable && n.ports@.len() == 0 && n.origin is Some
        &&& g is Text || g is Plot
        &&& g is Text ==> {
            &&& n.data is Text
            &&& n.data->Text_0.text@ == trimmed(g->Text_0.text_string@, '"')
            &&& n.data->Text_0.font_size == g->Text_0.font_size
            &&& n.data->Text_0.color == g->Text_0.text_color
            &&& n.rect == extent_box(g->Text_0.extent)
            &&& (n.origin->0)@ == "text:"@ + crate::text::decimal(
                graphics.take(at[k]).filter(|x: GraphicItem| x is Text).len(),
            )
        }
        &&& g is Plot ==> {
            &&& n.data is Plot
            &&& n.data->Plot_0.entity == 0
            &&& n.data->Plot_0.signal_path@ == g->Plot_0.signal@
            &&& n.data->Plot_0.title@ == g->Plot_0.title@
            &&& n.rect == extent_box(g->Plot_0.extent)
            &&& (n.origin->0)@ == "plot:"@ + crate::text::decimal(at[k] as nat) + ":"@
                + g->Plot_0.signal@
        }
    } by {
        assert(is_decoration(nodes[first + k], ds[k], first_id + k));
        assert(decoration_of(graphics, at[k]) == Some(ds[k]));
        lemma_texts_before_counts(graphics, at[k]);
    }
    at
}

proof fn lemma_texts_before_counts(graphics: Seq<GraphicItem>, n: int)
    requires
        0 <= n <= graphics.len(),
    ensures
        texts_before(graphics, n) == graphics.take(n).filter(|x: GraphicItem| x is Text).len(),
    decreases n,
{
    reveal_with_fuel(Seq::filter, 1);
    if n > 0 {
        lemma_texts_before_counts(graphics, n - 1);
        assert(graphics.take(n).drop_last() =~= graphics.take(n - 1));
        assert(graphics.take(n).last() == graphics[n - 1]);
    }
}

/// The shapes of an annotation are drawn behind the nodes, every one and in order,
/// and nothing else is.
pub proof fn law_every_shape_is_drawn(a: Seq<GraphicItem>, b: Seq<GraphicItem>, h: u64)
    ensures
        background_shapes(a + b) == background_shapes(a) + background_shapes(b),
        background_shapes(seq![GraphicItem::Shape(h)]) == seq![h],
        forall|g: GraphicItem| !(g is Shape) ==> #[trigger] background_shapes(seq![g]).len() == 0,
        background_shapes(Seq::empty()).len() == 0,
    decreases b.len(),
{
    reveal_with_fuel(background_shapes, 2);
    assert forall|g: GraphicItem| seq![g].drop_last() =~= Seq::<GraphicItem>::empty() by {}
    assert(seq![GraphicItem::Shape(h)].drop_last() =~= Seq::<GraphicItem>::empty());
    assert(background_shapes(seq![GraphicItem::Shape(h)]) =~= seq![h]);
    assert forall|g: GraphicItem| !(g is Shape) implies #[trigger] background_shapes(
        seq![g],
    ).len() == 0 by {
        assert(seq![g].drop_last() =~= Seq::<GraphicItem>::empty());
    }
    if b.len() == 0 {
        assert(a + b =~= a);
        assert(background_shapes(a) + Seq::<u64>::empty() =~= background_shapes(a));
    } else {
        law_every_shape_is_drawn(a, b.drop_last(), h);
        assert((a + b).drop_last() =~= a + b.drop_last());
        assert((a + b).last() == b.last());
        assert(background_shapes(a + b) =~= background_shapes(a) + background_shapes(b));
    }
}

} // verus!
