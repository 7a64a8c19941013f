//! The two coordinate systems of a diagram.
//!
//! A [`ModelicaPos`] is a point as Modelica source writes it, with y growing
//! upwards; a [`Pos`] is a point of the canvas, with y growing downwards. The
//! two differ in the sign of y.
use crate::fixed::{lemma_negation_undoes_itself, Fixed};
use crate::geometry::Pos;
use vstd::prelude::*;

verus! {

/// A point as Modelica source writes it; y grows upwards.
#[derive(Clone, Copy, Debug, PartialEq, Eq, Structural)]
pub struct ModelicaPos {
    pub x: Fixed,
    pub y: Fixed,
}

impl ModelicaPos {
    pub fn new(x: Fixed, y: Fixed) -> (r: ModelicaPos)
        ensures
            r == (ModelicaPos { x, y }),
    {
        ModelicaPos { x, y }
    }
}

/// The canvas point `c` as Modelica source writes it.
pub open spec fn to_modelica(c: Pos) -> ModelicaPos {
    ModelicaPos { x: c.x, y: c.y.neg_spec() }
}

/// The Modelica point `m` on the canvas.
pub open spec fn to_canvas(m: ModelicaPos) -> Pos {
    Pos { x: m.x, y: m.y.neg_spec() }
}

/// The centre, as Modelica source writes it, of an icon whose top left corner
/// lies at `min`.
pub open spec fn min_to_center(min: Pos, icon_w: Fixed, icon_h: Fixed) -> ModelicaPos {
    to_modelica(
        Pos {
            x: min.x.plus_spec(icon_w.half_spec()),
            y: min.y.plus_spec(icon_h.half_spec()),
        },
    )
}

/// The canvas point `c` as Modelica source writes it.
pub fn canvas_to_modelica(c: Pos) -> (r: ModelicaPos)
    ensures
        r == to_modelica(c),
{
    ModelicaPos { x: c.x, y: c.y.negated() }
}

/// The Modelica point `m` on the canvas.
pub fn modelica_to_canvas(m: ModelicaPos) -> (r: Pos)
    ensures
        r == to_canvas(m),
{
    Pos { x: m.x, y: m.y.negated() }
}

/// The centre, as Modelica source writes it, of an icon whose top left corner
/// lies at `min`. Placements are anchored at the centre, dragged icons at
/// their corner.
pub fn canvas_min_to_modelica_center(min: Pos, icon_w: Fixed, icon_h: Fixed) -> (r: ModelicaPos)
    ensures
        r == min_to_center(min, icon_w, icon_h),
{
    canvas_to_modelica(Pos { x: min.x.plus(icon_w.half()), y: min.y.plus(icon_h.half()) })
}

/// Crossing between the coordinate systems and back gives the point back,
/// from either side.
pub proof fn law_coordinate_systems_mirror(c: Pos, m: ModelicaPos)
    requires
        c.in_bounds(),
        m.x.in_bounds(),
        m.y.in_bounds(),
    ensures
        to_canvas(to_modelica(c)) == c,
        to_modelica(to_canvas(m)) == m,
{
    lemma_negation_undoes_itself(c.y);
    lemma_negation_undoes_itself(m.y);
}

/// Between the two systems x stays and y changes its sign; the centre of an icon
/// lies half its width to the right of its corner and half its height below it.
pub proof fn law_y_is_turned_around(c: Pos, m: ModelicaPos, w: Fixed, h: Fixed)
    requires
        c.in_bounds(),
        m.y.in_bounds(),
        0 <= w.steps,
        0 <= h.steps,
        c.x.steps + w.steps <= crate::fixed::MAX_STEPS,
        c.y.steps + h.steps <= crate::fixed::MAX_STEPS,
        w.in_bounds(),
        h.in_bounds(),
    ensures
        to_modelica(c).x == c.x,
        to_modelica(c).y.steps == -c.y.steps,
        to_canvas(m).x == m.x,
        to_canvas(m).y.steps == -m.y.steps,
        -1 <= 2 * (min_to_center(c, w, h).x.steps - c.x.steps) - w.steps <= 1,
        -1 <= 2 * (-min_to_center(c, w, h).y.steps - c.y.steps) - h.steps <= 1,
{
}

} // verus!
