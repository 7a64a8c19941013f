//! Arranging the components of a diagram on a grid.
use crate::coords::canvas_min_to_modelica_center;
use crate::fixed::{Fixed, UNIT};
use crate::geometry::Pos;
use crate::ops::{op_views, placement_spec, size_at_least_one, ModelicaOp, OpView, Placement};
use crate::scene::{NodeData, Scene, SceneNode};
use crate::text::{opt_view, same_text};
use vstd::prelude::*;

verus! {

/// The grid of automatic layout.
#[derive(Clone, Copy, Debug, PartialEq, Eq, Structural)]
pub struct DiagramAutoLayoutSettings {
    pub cols: usize,
    pub spacing_x: Fixed,
    pub spacing_y: Fixed,
    /// How far every other row is shifted, as a part of the column spacing.
    pub row_stagger: Fixed,
}

/// What is placed: the name of a component and its size.
pub type Item = (Seq<char>, Fixed, Fixed);

/// The names of the items.
pub open spec fn item_names(items: Seq<Item>) -> Seq<Seq<char>> {
    items.map_values(|i: Item| i.0)
}

/// The components of a scene with their sizes, in the order of the scene. A
/// name that occurs twice counts where it comes first. Texts and plots are no
/// components.
pub open spec fn items_of(nodes: Seq<SceneNode>) -> Seq<Item>
    decreases nodes.len(),
{
    if nodes.len() == 0 {
        Seq::empty()
    } else {
        let rest = items_of(nodes.drop_last());
        match component_name(nodes.last()) {
            Some(o) => if item_names(rest).contains(o) {
                rest
            } else {
                let (w, h) = size_at_least_one(nodes.last().rect);
                rest.push((o, w, h))
            },
            None => rest,
        }
    }
}

/// The name of the component that a node shows, where it shows one.
pub open spec fn component_name(n: SceneNode) -> Option<Seq<char>> {
    if n.data is Icon {
        opt_view(n.origin)
    } else {
        None
    }
}

/// The corner of the cell at place `idx` of the grid. Odd rows are shifted.
pub open spec fn cell_corner(layout: DiagramAutoLayoutSettings, idx: int) -> Pos {
    let cols = if layout.cols < 1 {
        1
    } else {
        layout.cols as int
    };
    let row = idx / cols;
    let col = idx % cols;
    let shift = if row % 2 == 1 {
        layout.spacing_x.times_spec(layout.row_stagger)
    } else {
        Fixed { steps: 0 }
    };
    Pos {
        x: layout.spacing_x.many_spec(col as nat).plus_spec(shift),
        y: layout.spacing_y.many_spec(row as nat),
    }
}

/// The edit that puts an item into the cell at place `idx`.
pub open spec fn cell_op(
    item: Item,
    layout: DiagramAutoLayoutSettings,
    idx: int,
    class: Seq<char>,
) -> OpView {
    OpView::SetPlacement {
        class,
        name: item.0,
        placement: placement_spec(cell_corner(layout, idx), item.1, item.2),
    }
}

/// The edits that put the components of a scene on the grid, in the order of
/// the scene, each name once.
pub open spec fn arrangement(
    scene: Scene,
    layout: DiagramAutoLayoutSettings,
    class: Seq<char>,
) -> Seq<OpView> {
    let items = items_of(scene.nodes@);
    Seq::new(items.len(), |i: int| cell_op(items[i], layout, i, class))
}

/// A component to place: its name and its size.
struct Sizing {
    name: String,
    w: Fixed,
    h: Fixed,
}

spec fn sized_views(v: Seq<Sizing>) -> Seq<Item> {
    v.map_values(|s: Sizing| (s.name@, s.w, s.h))
}

fn has_item(items: &Vec<Sizing>, name: &str) -> (r: bool)
    ensures
        r == item_names(sized_views(items@)).contains(name@),
{
    let ghost names = item_names(sized_views(items@));
    let mut i: usize = 0;
    while i < items.len()
        invariant
            i <= items@.len(),
            names == item_names(sized_views(items@)),
            forall|j: int| 0 <= j < i ==> #[trigger] names[j] != name@,
        decreases items@.len() - i,
    {
        assert(names[i as int] == items@[i as int].name@);
        if same_text(items[i].name.as_str(), name) {
            return true;
        }
        i += 1;
    }
    false
}

fn collect_items(nodes: &Vec<SceneNode>) -> (r: Vec<Sizing>)
    ensures
        sized_views(r@) == items_of(nodes@),
{
    let mut out: Vec<Sizing> = Vec::new();
    let mut i: usize = 0;
    assert(sized_views(out@) =~= items_of(nodes@.take(0)));
    while i < nodes.len()
        invariant
            i <= nodes@.len(),
            sized_views(out@) == items_of(nodes@.take(i as int)),
        decreases nodes@.len() - i,
    {
        let n = &nodes[i];
        assert(nodes@.take(i + 1).drop_last() =~= nodes@.take(i as int));
        assert(nodes@.take(i + 1).last() == nodes@[i as int]);
        if let NodeData::Icon(_) = &n.data {
            if let Some(o) = &n.origin {
                if !has_item(&out, o.as_str()) {
                    let w = n.rect.width().larger(Fixed::whole(1));
                    let h = n.rect.height().larger(Fixed::whole(1));
                    let ghost before = out@;
                    out.push(Sizing { name: o.clone(), w, h });
                    assert(sized_views(out@) =~= sized_views(before).push((o@, w, h)));
                }
            }
        }
        i += 1;
    }
    assert(nodes@.take(i as int) =~= nodes@);
    out
}

fn corner_of(layout: &DiagramAutoLayoutSettings, idx: usize) -> (r: Pos)
    ensures
        r == cell_corner(*layout, idx as int),
{
    let cols: usize = if layout.cols < 1 {
        1
    } else {
        layout.cols
    };
    let row: usize = idx / cols;
    let col: usize = idx % cols;
    let shift = if row % 2 == 1 {
        layout.spacing_x.times(layout.row_stagger)
    } else {
        Fixed { steps: 0 }
    };
    Pos {
        x: layout.spacing_x.many(col as u64).plus(shift),
        y: layout.spacing_y.many(row as u64),
    }
}

/// The edits that put the components of a scene on a grid: in the order of the
/// scene, each name once, with the sizes they have.
pub fn auto_arrange_now(scene: &Scene, layout: &DiagramAutoLayoutSettings, class: &str) -> (r: Vec<
    ModelicaOp,
>)
    ensures
        op_views(r@) == arrangement(*scene, *layout, class@),
{
    let items = collect_items(&scene.nodes);
    let ghost all = items_of(scene.nodes@);
    let mut ops: Vec<ModelicaOp> = Vec::new();
    let mut i: usize = 0;
    while i < items.len()
        invariant
            i <= items@.len(),
            all == sized_views(items@),
            ops@.len() == i,
            forall|j: int|
                0 <= j < i ==> (#[trigger] ops@[j])@ == cell_op(all[j], *layout, j, class@),
        decreases items@.len() - i,
    {
        let it = &items[i];
        assert(all[i as int] == (it.name@, it.w, it.h));
        let min = corner_of(layout, i);
        let m = canvas_min_to_modelica_center(min, it.w, it.h);
        ops.push(
            ModelicaOp::SetPlacement {
                class: class.to_owned(),
                name: it.name.clone(),
                placement: Placement { x: m.x, y: m.y, width: it.w, height: it.h },
            },
        );
        i += 1;
    }
    assert(op_views(ops@) =~= arrangement(*scene, *layout, class@));
    ops
}

// ── Laws ─────────────────────────────────────────────────────────────────

/// Every component of the scene gets a cell, and nothing else does: the names
/// that are placed are those of the scene's components.
pub proof fn law_components_are_placed(nodes: Seq<SceneNode>, name: Seq<char>)
    ensures
        item_names(items_of(nodes)).contains(name) <==> exists|i: int|
            0 <= i < nodes.len() && component_name(#[trigger] nodes[i]) == Some(name),
    decreases nodes.len(),
{
    if nodes.len() > 0 {
        let before = nodes.drop_last();
        law_components_are_placed(before, name);
        let rest = item_names(items_of(before));
        let names = item_names(items_of(nodes));
        let n = nodes.len() - 1;
        if rest.contains(name) {
            let i = choose|i: int|
                0 <= i < before.len() && component_name(#[trigger] before[i]) == Some(name);
            assert(nodes[i] == before[i]);
            let k = choose|k: int| 0 <= k < rest.len() && rest[k] == name;
            assert(names[k] == name);
        } else if component_name(nodes[n]) == Some(name) {
            assert(names[rest.len() as int] == name);
        } else {
            assert forall|k: int| 0 <= k < names.len() implies names[k] != name by {
                if k < rest.len() {
                    assert(names[k] == rest[k]);
                }
            }
            if exists|i: int| 0 <= i < nodes.len() && component_name(#[trigger] nodes[i]) == Some(name) {
                let i = choose|i: int|
                    0 <= i < nodes.len() && component_name(#[trigger] nodes[i]) == Some(name);
                assert(before[i] == nodes[i]);
            }
        }
    }
}

/// Each component gets one cell: no two edits of an arrangement place the same
/// name.
pub proof fn law_each_name_is_placed_once(nodes: Seq<SceneNode>, i: int, j: int)
    requires
        0 <= i < j < items_of(nodes).len(),
    ensures
        items_of(nodes)[i].0 != items_of(nodes)[j].0,
    decreases nodes.len(),
{
    let rest = items_of(nodes.drop_last());
    if j < rest.len() {
        law_each_name_is_placed_once(nodes.drop_last(), i, j);
    } else {
        assert(item_names(rest)[i] == rest[i].0);
    }
}

/// The cells follow the scene: the components of a part of the scene keep their
/// cells whatever comes behind them.
pub proof fn law_cells_follow_the_scene(nodes: Seq<SceneNode>, n: int, i: int)
    requires
        0 <= n <= nodes.len(),
        0 <= i < items_of(nodes.take(n)).len(),
    ensures
        i < items_of(nodes).len(),
        items_of(nodes)[i] == items_of(nodes.take(n))[i],
    decreases nodes.len() - n,
{
    if n == nodes.len() {
        assert(nodes.take(n) =~= nodes);
    } else {
        assert(nodes.take(n + 1).drop_last() =~= nodes.take(n));
        law_cells_follow_the_scene(nodes, n + 1, i);
    }
}

/// The cells of the grid lie in rows of as many as the layout has columns, one at
/// least: each cell lies a column spacing to the right of the one before it in its
/// row, each row a row spacing below the one before, and every other row is
/// shifted as a whole. The first cell lies at the origin.
pub proof fn law_cells_form_a_grid(layout: DiagramAutoLayoutSettings, row: nat, col: nat, cols: nat)
    requires
        cols == (if layout.cols < 1 {
            1nat
        } else {
            layout.cols as nat
        }),
        col < cols,
        -crate::fixed::MAX_STEPS <= layout.spacing_x.steps * col <= crate::fixed::MAX_STEPS,
        -crate::fixed::MAX_STEPS <= layout.spacing_y.steps * row <= crate::fixed::MAX_STEPS,
        ({
            let shift = layout.spacing_x.times_spec(layout.row_stagger).steps;
            -crate::fixed::MAX_STEPS <= layout.spacing_x.steps * col + shift
                <= crate::fixed::MAX_STEPS
        }),
    ensures
        ({
            let c = cell_corner(layout, (row * cols + col) as int);
            let shift = layout.spacing_x.times_spec(layout.row_stagger).steps;
            &&& row % 2 == 0 ==> c.x.steps == layout.spacing_x.steps * col
            &&& row % 2 == 1 ==> c.x.steps == layout.spacing_x.steps * col + shift
            &&& c.y.steps == layout.spacing_y.steps * row
        }),
{
    let idx = (row * cols + col) as int;
    assert(idx / cols as int == row && idx % cols as int == col) by (nonlinear_arith)
        requires
            idx == row * cols + col,
            col < cols,
            cols > 0,
    ;
}

/// An arrangement places each component, in the order of the scene, into the next
/// cell of the grid: the edit names it, keeps its size, and puts its corner into
/// the cell's, to within a step.
pub proof fn law_components_fill_the_cells(
    scene: Scene,
    layout: DiagramAutoLayoutSettings,
    class: Seq<char>,
    i: int,
)
    requires
        0 <= i < items_of(scene.nodes@).len(),
        ({
            let c = cell_corner(layout, i);
            let item = items_of(scene.nodes@)[i];
            &&& 0 <= item.1.steps <= crate::fixed::MAX_STEPS
            &&& 0 <= item.2.steps <= crate::fixed::MAX_STEPS
            &&& c.in_bounds()
            &&& c.x.steps + item.1.steps <= crate::fixed::MAX_STEPS
            &&& c.y.steps + item.2.steps <= crate::fixed::MAX_STEPS
        }),
    ensures
        arrangement(scene, layout, class).len() == items_of(scene.nodes@).len(),
        ({
            let op = arrangement(scene, layout, class)[i];
            let item = items_of(scene.nodes@)[i];
            let c = cell_corner(layout, i);
            &&& op is SetPlacement
            &&& op->SetPlacement_class == class
            &&& op->SetPlacement_name == item.0
            &&& op->SetPlacement_placement.width == item.1
            &&& op->SetPlacement_placement.height == item.2
            &&& -1 <= 2 * op->SetPlacement_placement.x.steps - (2 * c.x.steps + item.1.steps) <= 1
            &&& -1 <= -2 * op->SetPlacement_placement.y.steps - (2 * c.y.steps + item.2.steps) <= 1
        }),
{
    assert(arrangement(scene, layout, class)[i] == cell_op(
        items_of(scene.nodes@)[i],
        layout,
        i,
        class,
    ));
}

/// A component that is placed has the size that its icon has where its name comes
/// first in the scene, a unit at least on each axis; and only icons that stand for
/// something are placed.
pub proof fn law_placed_components_keep_their_size(nodes: Seq<SceneNode>, k: int) -> (i: int)
    requires
        0 <= k < items_of(nodes).len(),
    ensures
        0 <= i < nodes.len(),
        nodes[i].data is Icon,
        nodes[i].origin is Some,
        (nodes[i].origin->0)@ == items_of(nodes)[k].0,
        ({
            let r = nodes[i].rect;
            let w = r.max.x.steps - r.min.x.steps;
            let h = r.max.y.steps - r.min.y.steps;
            &&& UNIT <= w <= crate::fixed::MAX_STEPS ==> items_of(nodes)[k].1.steps == w
            &&& UNIT <= h <= crate::fixed::MAX_STEPS ==> items_of(nodes)[k].2.steps == h
            &&& -crate::fixed::MAX_STEPS <= w < UNIT ==> items_of(nodes)[k].1.steps == UNIT
            &&& -crate::fixed::MAX_STEPS <= h < UNIT ==> items_of(nodes)[k].2.steps == UNIT
        }),
        forall|j: int|
            0 <= j < i ==> !((#[trigger] nodes[j]).data is Icon && nodes[j].origin is Some && (
            nodes[j].origin->0)@ == items_of(nodes)[k].0),
    decreases nodes.len(),
{
    let rest = nodes.drop_last();
    let before = items_of(rest);
    crate::fixed::law_ratios_of_whole_numbers(1, 1);
    if k < before.len() {
        let i = law_placed_components_keep_their_size(rest, k);
        assert(rest[i] == nodes[i]);
        assert forall|j: int| 0 <= j < i implies !((#[trigger] nodes[j]).data is Icon
            && nodes[j].origin is Some && (nodes[j].origin->0)@ == items_of(nodes)[k].0) by {
            assert(rest[j] == nodes[j]);
        }
        i
    } else {
        let name = items_of(nodes)[k].0;
        assert forall|j: int| 0 <= j < nodes.len() - 1 implies !((#[trigger] nodes[j]).data is Icon
            && nodes[j].origin is Some && (nodes[j].origin->0)@ == name) by {
            assert(rest[j] == nodes[j]);
            law_components_are_placed(rest, name);
            if nodes[j].data is Icon && nodes[j].origin is Some && (nodes[j].origin->0)@ == name {
                assert(component_name(rest[j]) == Some(name));
            }
        }
        nodes.len() - 1
    }
}

} // verus!
