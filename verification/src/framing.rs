//! Framing the scene: which region the view is fitted to.
use crate::fixed::{ratio_spec, Fixed, UNIT};
use crate::geometry::{rect_union, union_spec, Pos, Rect};
use crate::scene::{Scene, SceneNode};
use crate::state::{CanvasDocState, Viewport};
use vstd::prelude::*;

verus! {

/// The smallest rectangle around the first `n` nodes.
pub open spec fn bounds_of(nodes: Seq<SceneNode>, n: int) -> Rect
    decreases n,
{
    if n <= 1 {
        nodes[0].rect
    } else {
        union_spec(bounds_of(nodes, n - 1), nodes[n - 1].rect)
    }
}

/// The smallest rectangle around the nodes of the scene, where it has any.
pub open spec fn scene_bounds_spec(scene: Scene) -> Option<Rect> {
    if scene.nodes@.len() == 0 {
        None
    } else {
        Some(bounds_of(scene.nodes@, scene.nodes@.len() as int))
    }
}

/// The smallest rectangle around the nodes of the scene, where it has any.
pub fn scene_bounds(scene: &Scene) -> (r: Option<Rect>)
    ensures
        r == scene_bounds_spec(*scene),
{
    if scene.nodes.len() == 0 {
        return None;
    }
    let mut region = scene.nodes[0].rect;
    let mut i: usize = 1;
    while i < scene.nodes.len()
        invariant
            1 <= i <= scene.nodes@.len(),
            region == bounds_of(scene.nodes@, i as int),
        decreases scene.nodes@.len() - i,
    {
        region = rect_union(region, scene.nodes[i].rect);
        i += 1;
    }
    Some(region)
}

/// A region of the canvas that is to fill a rectangle of the screen, up to a
/// margin in pixels.
#[derive(Clone, Copy, Debug, PartialEq, Eq, Structural)]
pub struct FitRequest {
    pub bounds: Rect,
    pub screen: Rect,
    pub margin: Fixed,
}

/// The request to fit a region, where there is one.
pub open spec fn fit_of(bounds: Option<Rect>, screen: Rect) -> Option<FitRequest> {
    match bounds {
        Some(bounds) => Some(FitRequest { bounds, screen, margin: ratio_spec(40, 1) }),
        None => None,
    }
}

/// The region that the next frame is fitted to: the one that was asked for, or
/// else all of the scene.
pub open spec fn fit_target(ds: CanvasDocState) -> Option<Rect> {
    match ds.fit_region {
        Some(r) => Some(r),
        None => scene_bounds_spec(ds.scene),
    }
}

/// Serves a fit that was asked for, now that the widget's rectangle is known,
/// and forgets that it was asked for.
pub fn take_fit(ds: &mut CanvasDocState, screen: Rect) -> (r: Option<FitRequest>)
    ensures
        *final(ds) == (if old(ds).pending_fit {
            CanvasDocState { pending_fit: false, fit_region: None, ..*old(ds) }
        } else {
            *old(ds)
        }),
        r == (if old(ds).pending_fit {
            fit_of(fit_target(*old(ds)), screen)
        } else {
            None
        }),
{
    if !ds.pending_fit {
        return None;
    }
    let target = match ds.fit_region {
        Some(region) => Some(region),
        None => scene_bounds(&ds.scene),
    };
    ds.pending_fit = false;
    ds.fit_region = None;
    match target {
        Some(bounds) => Some(FitRequest { bounds, screen, margin: Fixed::whole(40) }),
        None => None,
    }
}

/// The rectangle that the menu fits the scene to: eight hundred by six hundred
/// pixels.
pub open spec fn menu_screen() -> Rect {
    let zero = Fixed { steps: 0 };
    Rect {
        min: Pos { x: zero, y: zero },
        max: Pos { x: ratio_spec(800, 1), y: ratio_spec(600, 1) },
    }
}

/// The fit that the menu's "fit all" asks for.
pub fn fit_all(scene: &Scene) -> (r: Option<FitRequest>)
    ensures
        r == fit_of(scene_bounds_spec(*scene), menu_screen()),
{
    let zero = Fixed { steps: 0 };
    let screen = Rect {
        min: Pos { x: zero, y: zero },
        max: Pos { x: Fixed::whole(800), y: Fixed::whole(600) },
    };
    match scene_bounds(scene) {
        Some(bounds) => Some(FitRequest { bounds, screen, margin: Fixed::whole(40) }),
        None => None,
    }
}

/// The view that the menu's "reset zoom" moves to: the same centre, one pixel
/// for each unit.
pub fn reset_zoom(v: Viewport) -> (r: Viewport)
    ensures
        r.center == v.center,
        r.zoom.steps == UNIT,
{
    Viewport { center: v.center, zoom: Fixed { steps: UNIT } }
}

/// Whether `outer` contains `inner`.
pub open spec fn encloses(outer: Rect, inner: Rect) -> bool {
    &&& outer.min.x.steps <= inner.min.x.steps
    &&& outer.min.y.steps <= inner.min.y.steps
    &&& inner.max.x.steps <= outer.max.x.steps
    &&& inner.max.y.steps <= outer.max.y.steps
}

/// Fitting the scene leaves no node out.
pub proof fn law_bounds_enclose_every_node(nodes: Seq<SceneNode>, n: int, i: int)
    requires
        0 <= i < n <= nodes.len(),
    ensures
        encloses(bounds_of(nodes, n), nodes[i].rect),
    decreases n,
{
    if i < n - 1 {
        law_bounds_enclose_every_node(nodes, n - 1, i);
    }
}

/// The rectangle around the nodes is no larger than they ask for: each of its four
/// sides is a side of one of the nodes.
pub proof fn law_bounds_touch_a_node_on_every_side(
    nodes: Seq<SceneNode>,
    n: int,
) -> (r: (int, int, int, int))
    requires
        0 < n <= nodes.len(),
    ensures
        ({
            let b = bounds_of(nodes, n);
            &&& 0 <= r.0 < n && nodes[r.0].rect.min.x == b.min.x
            &&& 0 <= r.1 < n && nodes[r.1].rect.min.y == b.min.y
            &&& 0 <= r.2 < n && nodes[r.2].rect.max.x == b.max.x
            &&& 0 <= r.3 < n && nodes[r.3].rect.max.y == b.max.y
        }),
    decreases n,
{
    if n == 1 {
        (0, 0, 0, 0)
    } else {
        let r = law_bounds_touch_a_node_on_every_side(nodes, n - 1);
        let a = bounds_of(nodes, n - 1);
        let b = bounds_of(nodes, n);
        (
            if b.min.x == a.min.x {
                r.0
            } else {
                n - 1
            },
            if b.min.y == a.min.y {
                r.1
            } else {
                n - 1
            },
            if b.max.x == a.max.x {
                r.2
            } else {
                n - 1
            },
            if b.max.y == a.max.y {
                r.3
            } else {
                n - 1
            },
        )
    }
}

/// A fit shows the region that was asked for, and all of the scene where none was;
/// it leaves forty pixels free around it, and there is none without a region and
/// a node.
pub proof fn law_fits_show_what_was_asked_for(ds: CanvasDocState, screen: Rect)
    ensures
        ds.fit_region matches Some(r) ==> (fit_of(fit_target(ds), screen) matches Some(f)
            && f.bounds == r),
        ds.fit_region is None && ds.scene.nodes@.len() > 0 ==> (fit_of(
            fit_target(ds),
            screen,
        ) matches Some(f) && f.bounds == bounds_of(ds.scene.nodes@, ds.scene.nodes@.len() as int)),
        ds.fit_region is None && ds.scene.nodes@.len() == 0 ==> fit_of(fit_target(ds), screen) is None,
        fit_of(fit_target(ds), screen) matches Some(f) ==> f.screen == screen && f.margin.steps == 40
            * UNIT,
        menu_screen().max.x.steps - menu_screen().min.x.steps == 800 * UNIT,
        menu_screen().max.y.steps - menu_screen().min.y.steps == 600 * UNIT,
{
    crate::fixed::law_ratios_of_whole_numbers(40, 1);
    crate::fixed::law_ratios_of_whole_numbers(800, 1);
    crate::fixed::law_ratios_of_whole_numbers(600, 1);
}

} // verus!
