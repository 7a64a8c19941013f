//! Sliders for the bounded inputs of an instance, drawn on its icon.
use crate::fixed::{ratio_spec, Fixed};
use crate::geometry::{Pos, Rect};
use crate::icon_view::picked;
use crate::text::{
    is_name_order, leaf, leaf_of, name_order, places, starts_with, text2, text3, views,
};
use vstd::prelude::*;
use vstd::string::StringExecFns;

verus! {

/// An input of a simulation.
#[derive(Debug, PartialEq, Eq)]
pub struct InputControl {
    pub name: String,
    /// Whether both bounds are declared and the upper one is the larger.
    pub has_range: bool,
}

/// Whether the input gets a slider on the icon of the instance: its name lies
/// in the instance, and it has a range.
pub open spec fn gets_slider(c: InputControl, instance: Seq<char>) -> bool {
    c.has_range && (instance + "."@).is_prefix_of(c.name@)
}

/// The places of the inputs that get a slider, in order.
pub open spec fn slider_places(inputs: Seq<InputControl>, instance: Seq<char>, n: int) -> Seq<int>
    decreases n,
{
    if n <= 0 {
        Seq::empty()
    } else if gets_slider(inputs[n - 1], instance) {
        slider_places(inputs, instance, n - 1).push(n - 1)
    } else {
        slider_places(inputs, instance, n - 1)
    }
}

pub open spec fn input_names(inputs: Seq<InputControl>) -> Seq<Seq<char>> {
    inputs.map_values(|c: InputControl| c.name@)
}

/// Whether `rows` lists the places of the inputs that get a slider, in the
/// order of their names.
pub open spec fn are_sliders(
    rows: Seq<int>,
    inputs: Seq<InputControl>,
    instance: Seq<char>,
) -> bool {
    let chosen = slider_places(inputs, instance, inputs.len() as int);
    exists|order: Seq<int>|
        {
            &&& #[trigger] is_name_order(order, picked(input_names(inputs), chosen))
            &&& rows == Seq::new(order.len(), |i: int| chosen[order[i]])
        }
}

/// Whether an icon shows sliders at all: it stands for an instance, and is
/// high enough.
pub open spec fn shows_sliders(instance: Seq<char>, icon: Rect) -> bool {
    instance.len() > 0 && icon.height_spec().steps >= ratio_spec(24, 1).steps
}

/// The places of the inputs that get a slider on the icon of an instance, in
/// the order of their names.
pub fn slider_inputs(inputs: &Vec<InputControl>, instance: &str, icon: Rect) -> (r: Vec<usize>)
    ensures
        shows_sliders(instance@, icon) ==> are_sliders(places(r@), inputs@, instance@),
        !shows_sliders(instance@, icon) ==> r@.len() == 0,
{
    let mut rows: Vec<usize> = Vec::new();
    if instance.is_empty() || icon.height().steps < Fixed::whole(24).steps {
        return rows;
    }
    let prefix = text2(instance, ".");
    let ghost all = input_names(inputs@);
    let mut chosen: Vec<usize> = Vec::new();
    let mut names: Vec<String> = Vec::new();
    let mut i: usize = 0;
    assert(places(chosen@) =~= slider_places(inputs@, instance@, 0));
    while i < inputs.len()
        invariant
            i <= inputs@.len(),
            prefix@ == instance@ + "."@,
            all == input_names(inputs@),
            places(chosen@) == slider_places(inputs@, instance@, i as int),
            names@.len() == chosen@.len(),
            forall|j: int|
                0 <= j < chosen@.len() ==> (#[trigger] chosen@[j]) < i && names@[j]@
                    == all[chosen@[j] as int],
        decreases inputs@.len() - i,
    {
        if inputs[i].has_range && starts_with(inputs[i].name.as_str(), prefix.as_str()) {
            let ghost before = chosen@;
            chosen.push(i);
            names.push(inputs[i].name.clone());
            assert(places(chosen@) =~= places(before).push(i as int));
        }
        i += 1;
    }
    let order = name_order(&names);
    let ghost rows_at = places(chosen@);
    let ghost ord = places(order@);
    assert(views(names@) =~= picked(all, rows_at));
    let mut k: usize = 0;
    while k < order.len()
        invariant
            k <= order@.len(),
            ord == places(order@),
            rows_at == places(chosen@),
            is_name_order(ord, views(names@)),
            names@.len() == chosen@.len(),
            rows@.len() == k,
            forall|j: int| 0 <= j < k ==> (#[trigger] rows@[j]) as int == rows_at[ord[j]],
        decreases order@.len() - k,
    {
        assert(ord[k as int] == order@[k as int]);
        rows.push(chosen[order[k]]);
        k += 1;
    }
    assert(places(rows@) =~= Seq::new(ord.len(), |i: int| rows_at[ord[i]]));
    assert(is_name_order(ord, picked(all, rows_at)));
    rows
}

/// The width of a slider: eight hundredths of the icon's height, at least four.
pub open spec fn slider_width(icon: Rect) -> Fixed {
    icon.height_spec().times_spec(ratio_spec(8, 100)).max_spec(ratio_spec(4, 1))
}

/// The box of the slider at place `idx`: sliders stand side by side from the
/// right edge of the icon, seven tenths of its height, in its middle.
pub open spec fn slider_box_spec(icon: Rect, idx: nat) -> Rect {
    let w = slider_width(icon);
    let gap = w.times_spec(ratio_spec(4, 10));
    let h = icon.height_spec().times_spec(ratio_spec(7, 10));
    let x = icon.max.x.minus_spec(w.half_spec()).minus_spec(w).minus_spec(
        w.plus_spec(gap).many_spec(idx),
    );
    let y = icon.center_spec().y.minus_spec(h.half_spec());
    Rect::sized_spec(Pos { x, y }, w, h)
}

/// The box of the slider at place `idx` of an icon.
pub fn slider_box(icon: Rect, idx: usize) -> (r: Rect)
    ensures
        r == slider_box_spec(icon, idx as nat),
{
    let w = icon.height().times(Fixed::ratio(8, 100)).larger(Fixed::whole(4));
    let gap = w.times(Fixed::ratio(4, 10));
    let h = icon.height().times(Fixed::ratio(7, 10));
    let x = icon.max.x.minus(w.half()).minus(w).minus(w.plus(gap).many(idx as u64));
    let y = icon.center().y.minus(h.half());
    Rect::from_min_size(Pos { x, y }, w, h)
}

/// The part of a slider's range that a pointer at `y` picks: the top is all of
/// it, the bottom none.
pub open spec fn picked_part_spec(slider: Rect, y: Fixed) -> Fixed {
    let one = ratio_spec(1, 1);
    one.minus_spec(y.minus_spec(slider.min.y).over_spec(slider.height_spec())).clamp_spec(
        Fixed { steps: 0 },
        one,
    )
}

/// The part of a slider's range that a pointer at `y` picks.
pub fn picked_part(slider: Rect, y: Fixed) -> (r: Fixed)
    requires
        slider.height_spec().steps > 0,
    ensures
        r == picked_part_spec(slider, y),
{
    let one = Fixed::whole(1);
    one.minus(y.minus(slider.min.y).over(slider.height())).clamped(Fixed { steps: 0 }, one)
}

/// The tooltip of a slider: the input's last name part and its value, in per
/// cent where the range is that, else with the range. The numbers come as
/// text, the value with one digit for per cent and three otherwise, the bounds
/// with two.
pub open spec fn tooltip_spec(
    name: Seq<char>,
    percent: bool,
    value: Seq<char>,
    min: Seq<char>,
    max: Seq<char>,
) -> Seq<char> {
    let head = leaf(name) + ": "@ + value;
    if percent {
        head + " %"@
    } else {
        head + " (range "@ + (min + " … "@ + max) + ")"@
    }
}

/// The tooltip of a slider.
pub fn slider_tooltip(name: &str, percent: bool, value: &str, min: &str, max: &str) -> (r: String)
    ensures
        r@ == tooltip_spec(name@, percent, value@, min@, max@),
{
    let last = leaf_of(name);
    let mut out = text3(last.as_str(), ": ", value);
    if percent {
        out.append(" %");
    } else {
        out.append(" (range ");
        let range = text3(min, " … ", max);
        out.append(range.as_str());
        out.append(")");
    }
    out
}

/// A pointer at the top of a slider picks all of its range, one at the bottom
/// none of it.
pub proof fn law_slider_ends_pick_bounds(slider: Rect)
    requires
        slider.min.y.in_bounds(),
        slider.max.y.in_bounds(),
        0 < slider.max.y.steps - slider.min.y.steps <= crate::fixed::MAX_STEPS,
    ensures
        picked_part_spec(slider, slider.min.y) == ratio_spec(1, 1),
        picked_part_spec(slider, slider.max.y).steps == 0,
{
    let h = slider.max.y.steps - slider.min.y.steps;
    assert((h * crate::fixed::UNIT) / h == crate::fixed::UNIT) by (nonlinear_arith)
        requires
            h > 0,
    ;
    assert(h * crate::fixed::UNIT >= 0) by (nonlinear_arith)
        requires
            h > 0,
            crate::fixed::UNIT == 0x1_0000_0000,
    ;
    assert((0 * crate::fixed::UNIT) / h == 0) by (nonlinear_arith)
        requires
            h > 0,
    ;
}

proof fn lemma_slider_places(inputs: Seq<InputControl>, instance: Seq<char>, n: int)
    requires
        0 <= n <= inputs.len(),
    ensures
        ({
            let at = slider_places(inputs, instance, n);
            &&& forall|k: int|
                0 <= k < at.len() ==> 0 <= #[trigger] at[k] < n && gets_slider(
                    inputs[at[k]],
                    instance,
                )
            &&& forall|a: int, b: int| 0 <= a < b < at.len() ==> at[a] < at[b]
            &&& forall|i: int|
                0 <= i < n && gets_slider(#[trigger] inputs[i], instance) ==> at.contains(i)
        }),
    decreases n,
{
    if n > 0 {
        lemma_slider_places(inputs, instance, n - 1);
        let before = slider_places(inputs, instance, n - 1);
        let at = slider_places(inputs, instance, n);
        assert forall|i: int|
            0 <= i < n && gets_slider(#[trigger] inputs[i], instance) implies at.contains(i) by {
            if i < n - 1 {
                let k = choose|k: int| 0 <= k < before.len() && before[k] == i;
                assert(at[k] == i);
            } else {
                assert(at[before.len() as int] == i);
            }
        }
    }
}

/// The sliders of an icon are those of the inputs inside its instance that have a
/// range, each once, and in the order of their names.
pub proof fn law_sliders_are_of_the_instance(
    rows: Seq<int>,
    inputs: Seq<InputControl>,
    instance: Seq<char>,
    i: int,
    j: int,
)
    requires
        are_sliders(rows, inputs, instance),
        0 <= i < j < rows.len(),
    ensures
        0 <= rows[i] < inputs.len() && 0 <= rows[j] < inputs.len(),
        inputs[rows[i]].has_range && (instance + "."@).is_prefix_of(inputs[rows[i]].name@),
        inputs[rows[j]].has_range && (instance + "."@).is_prefix_of(inputs[rows[j]].name@),
        rows[i] != rows[j],
        crate::text::lex_le(inputs[rows[i]].name@, inputs[rows[j]].name@),
{
    let n = inputs.len() as int;
    lemma_slider_places(inputs, instance, n);
    let chosen = slider_places(inputs, instance, n);
    let names = picked(input_names(inputs), chosen);
    let order = choose|order: Seq<int>|
        {
            &&& #[trigger] is_name_order(order, names)
            &&& rows == Seq::new(order.len(), |i: int| chosen[order[i]])
        };
    assert(crate::text::name_before(names, order[i], order[j]));
    crate::text::law_name_order_has_no_repeats(order, names);
    assert(0 <= order[i] < chosen.len() && 0 <= order[j] < chosen.len());
    assert(rows[i] == chosen[order[i]] && rows[j] == chosen[order[j]]);
    assert(gets_slider(inputs[rows[i]], instance) && gets_slider(inputs[rows[j]], instance));
}

/// Every input inside the instance that has a range has a slider.
pub proof fn law_every_ranged_input_has_a_slider(
    rows: Seq<int>,
    inputs: Seq<InputControl>,
    instance: Seq<char>,
    i: int,
) -> (k: int)
    requires
        are_sliders(rows, inputs, instance),
        0 <= i < inputs.len(),
        inputs[i].has_range,
        (instance + "."@).is_prefix_of(inputs[i].name@),
    ensures
        0 <= k < rows.len(),
        rows[k] == i,
{
    let n = inputs.len() as int;
    lemma_slider_places(inputs, instance, n);
    let chosen = slider_places(inputs, instance, n);
    let names = picked(input_names(inputs), chosen);
    let order = choose|order: Seq<int>|
        {
            &&& #[trigger] is_name_order(order, names)
            &&& rows == Seq::new(order.len(), |i: int| chosen[order[i]])
        };
    assert(gets_slider(inputs[i], instance));
    let p = choose|p: int| 0 <= p < chosen.len() && chosen[p] == i;
    let q = crate::text::lemma_name_order_lists_all(order, names, p);
    q
}

/// Sliders are shown on the icon of an instance that is twenty-four high or more,
/// and on no other.
pub proof fn law_low_icons_have_no_sliders(instance: Seq<char>, icon: Rect)
    requires
        -crate::fixed::MAX_STEPS <= icon.max.y.steps - icon.min.y.steps <= crate::fixed::MAX_STEPS,
    ensures
        shows_sliders(instance, icon) <==> instance.len() > 0 && icon.max.y.steps - icon.min.y.steps
            >= 24 * crate::fixed::UNIT,
{
    crate::fixed::law_ratios_of_whole_numbers(24, 1);
}

/// All sliders of an icon have one size and stand at one height, each a slider's
/// width and four tenths of it further to the left than the one before.
pub proof fn law_sliders_stand_side_by_side(icon: Rect, idx: nat) -> (pitch: int)
    requires
        slider_fits(icon, idx),
    ensures
        ({
            let a = slider_box_spec(icon, idx);
            let b = slider_box_spec(icon, idx + 1);
            let w = slider_width(icon).steps as int;
            &&& a.min.y == b.min.y && a.max.y == b.max.y
            &&& a.min.x.steps - b.min.x.steps == pitch
            &&& a.max.x.steps - b.max.x.steps == pitch
            &&& 14 * w - 10 * (w / (crate::fixed::UNIT as int)) - 20 < 10 * pitch <= 14 * w
            &&& a.max.x.steps - a.min.x.steps == slider_width(icon).steps
            &&& slider_width(icon).steps >= 4 * crate::fixed::UNIT
            &&& idx == 0 ==> 2 * (icon.max.x.steps - a.max.x.steps) <= slider_width(icon).steps
                <= 2 * (icon.max.x.steps - a.max.x.steps) + 1
        }),
{
    let w = slider_width(icon);
    let gap = w.times_spec(ratio_spec(4, 10));
    crate::fixed::law_ratios_of_whole_numbers(4, 1);
    let pitch = w.plus_spec(gap);
    assert(gap.steps >= 0) by {
        assert(ratio_spec(4, 10).steps >= 0);
        let p = w.steps * ratio_spec(4, 10).steps;
        assert(p >= 0) by (nonlinear_arith)
            requires
                p == w.steps * ratio_spec(4, 10).steps,
                w.steps >= 0,
                ratio_spec(4, 10).steps >= 0,
        ;
    }
    assert(ratio_spec(4, 10).steps == (4 * crate::fixed::UNIT) / 10);
    let f = ratio_spec(4, 10).steps as int;
    assert(0 <= w.steps * f <= w.steps * crate::fixed::UNIT) by (nonlinear_arith)
        requires
            w.steps >= 0,
            0 <= f <= crate::fixed::UNIT,
    ;
    crate::fixed::law_products_round_toward_zero(w, ratio_spec(4, 10));
    lemma_tenths(w.steps as int, f, gap.steps as int, 4);
    let s = pitch.steps as int;
    assert(s * (idx + 1) == s * idx + s) by (nonlinear_arith);
    assert(s * 0 == 0) by (nonlinear_arith);
    assert(s * idx >= 0) by (nonlinear_arith)
        requires
            s >= 0,
            idx >= 0,
    ;
    s
}

proof fn lemma_tenths(s: int, f: int, q: int, n: int)
    requires
        0 <= s,
        0 < n < 10,
        n * crate::fixed::UNIT - 10 < 10 * f <= n * crate::fixed::UNIT,
        0 <= s * f - q * crate::fixed::UNIT < crate::fixed::UNIT,
    ensures
        n * s - 10 * (s / (crate::fixed::UNIT as int)) - 20 < 10 * q <= n * s,
{
    let u = crate::fixed::UNIT as int;
    let k = s / u;
    assert(s < (k + 1) * u) by (nonlinear_arith)
        requires
            k == s / u,
            u > 0,
    ;
    assert(10 * (s * f) <= (n * s) * u && 10 * (s * f) >= (n * s) * u - 10 * s) by (nonlinear_arith)
        requires
            n * u - 10 < 10 * f <= n * u,
            s >= 0,
    ;
    assert(10 * q <= n * s) by (nonlinear_arith)
        requires
            10 * (s * f) <= (n * s) * u,
            0 <= s * f - q * u,
            u == 0x1_0000_0000,
    ;
    assert(10 * q > n * s - 10 * k - 20) by (nonlinear_arith)
        requires
            10 * (s * f) >= (n * s) * u - 10 * s,
            s * f - q * u < u,
            s < (k + 1) * u,
            u == 0x1_0000_0000,
    ;
}

/// Whether the sliders of an icon up to the one behind place `idx` lie within the
/// bounds of the canvas.
pub open spec fn slider_fits(icon: Rect, idx: nat) -> bool {
    let w = slider_width(icon);
    let pitch = w.plus_spec(w.times_spec(ratio_spec(4, 10)));
    &&& 0 < w.steps <= 0x1_0000 * crate::fixed::UNIT
    &&& pitch.steps <= 0x2_0000 * crate::fixed::UNIT
    &&& pitch.steps * (idx + 1) <= 0x800_0000 * crate::fixed::UNIT
    &&& -0x800_0000 * crate::fixed::UNIT <= icon.max.x.steps <= 0x800_0000 * crate::fixed::UNIT
}

/// A slider is in the middle of its icon's height: as far from the top as from the
/// bottom, to within a few steps. It takes up seven tenths of the height.
pub proof fn law_sliders_stand_in_the_middle(icon: Rect, idx: nat)
    requires
        -0x800_0000 * crate::fixed::UNIT <= icon.min.y.steps,
        icon.min.y.steps <= icon.max.y.steps,
        icon.max.y.steps <= 0x800_0000 * crate::fixed::UNIT,
    ensures
        ({
            let r = slider_box_spec(icon, idx);
            let h = icon.max.y.steps - icon.min.y.steps;
            &&& -3 <= (r.min.y.steps - icon.min.y.steps) - (icon.max.y.steps - r.max.y.steps) <= 3
            &&& 0 <= r.max.y.steps - r.min.y.steps <= h
            &&& 7 * h - 10 * (h / (crate::fixed::UNIT as int)) - 20 < 10 * (r.max.y.steps
                - r.min.y.steps) <= 7 * h
        }),
{
    let h = icon.height_spec();
    assert(ratio_spec(7, 10).steps == (7 * crate::fixed::UNIT) / 10);
    let f = ratio_spec(7, 10).steps as int;
    let s = h.steps as int;
    let p = s * f;
    assert(0 <= p <= s * crate::fixed::UNIT) by (nonlinear_arith)
        requires
            p == s * f,
            s >= 0,
            0 <= f <= crate::fixed::UNIT,
    ;
    crate::fixed::law_products_round_toward_zero(h, ratio_spec(7, 10));
    let q = h.times_spec(ratio_spec(7, 10)).steps as int;
    assert(0 <= q <= s) by (nonlinear_arith)
        requires
            0 <= q,
            q * crate::fixed::UNIT <= p,
            p <= s * crate::fixed::UNIT,
            crate::fixed::UNIT == 0x1_0000_0000,
    ;
    lemma_tenths(s, f, q, 7);
}

/// Between its ends a slider picks evenly: what a pointer leaves of the range is
/// its distance from the top as a part of the slider's height. Above the top it
/// picks all, below the bottom nothing.
pub proof fn law_sliders_pick_evenly(slider: Rect, y: Fixed)
    requires
        slider.min.y.in_bounds() && slider.max.y.in_bounds() && y.in_bounds(),
        0 < slider.max.y.steps - slider.min.y.steps <= 0x800_0000 * crate::fixed::UNIT,
        -0x800_0000 * crate::fixed::UNIT <= y.steps - slider.min.y.steps,
        y.steps - slider.min.y.steps <= 0x800_0000 * crate::fixed::UNIT,
    ensures
        ({
            let h = slider.max.y.steps - slider.min.y.steps;
            let d = y.steps - slider.min.y.steps;
            let part = picked_part_spec(slider, y).steps;
            &&& 0 <= d <= h ==> 0 <= d * crate::fixed::UNIT - (crate::fixed::UNIT - part) * h < h
            &&& d <= 0 ==> part == crate::fixed::UNIT
            &&& d >= h ==> part == 0
        }),
{
    crate::fixed::law_ratios_of_whole_numbers(1, 1);
    let h = slider.max.y.steps - slider.min.y.steps;
    let d = y.steps - slider.min.y.steps;
    let n = d * crate::fixed::UNIT;
    if d >= 0 {
        let q = n / h;
        assert(0 <= n - q * h < h && q >= 0) by (nonlinear_arith)
            requires
                q == n / h,
                h > 0,
                n >= 0,
        ;
        assert(d <= h ==> q <= crate::fixed::UNIT) by (nonlinear_arith)
            requires
                n == d * crate::fixed::UNIT,
                0 <= n - q * h < h,
                h > 0,
                crate::fixed::UNIT == 0x1_0000_0000,
        ;
        assert(d >= h ==> q >= crate::fixed::UNIT) by (nonlinear_arith)
            requires
                n == d * crate::fixed::UNIT,
                0 <= n - q * h < h,
                h > 0,
                crate::fixed::UNIT == 0x1_0000_0000,
        ;
    } else {
        let m = -n;
        let q = m / h;
        assert(q >= 0) by (nonlinear_arith)
            requires
                q == m / h,
                h > 0,
                m >= 0,
        ;
    }
}

/// The tooltip of a slider starts with the last part of the input's name and its
/// value; it ends with a per cent sign or with the range in brackets.
pub proof fn law_tooltips_tell_name_and_value(
    name: Seq<char>,
    percent: bool,
    value: Seq<char>,
    min: Seq<char>,
    max: Seq<char>,
)
    ensures
        ({
            let t = tooltip_spec(name, percent, value, min, max);
            let head = leaf(name) + ": "@ + value;
            &&& t.len() > head.len()
            &&& t.take(head.len() as int) == head
            &&& percent ==> t.skip(head.len() as int) == " %"@
            &&& !percent ==> t.skip(head.len() as int) == " (range "@ + min + " … "@ + max + ")"@
        }),
{
    reveal_strlit(" %");
    reveal_strlit(" (range ");
    reveal_strlit(")");
    let t = tooltip_spec(name, percent, value, min, max);
    let head = leaf(name) + ": "@ + value;
    assert(t.take(head.len() as int) =~= head);
    if percent {
        assert(t.skip(head.len() as int) =~= " %"@);
    } else {
        assert(t.skip(head.len() as int) =~= " (range "@ + min + " … "@ + max + ")"@);
    }
}

/// A slider is eight hundredths of its icon's height wide, and four at least.
pub proof fn law_sliders_grow_with_their_icon(icon: Rect)
    requires
        0 <= icon.max.y.steps - icon.min.y.steps <= 0x1_0000 * crate::fixed::UNIT,
    ensures
        ({
            let h = icon.max.y.steps - icon.min.y.steps;
            let w = slider_width(icon).steps;
            &&& w >= 4 * crate::fixed::UNIT
            &&& 8 * h >= 400 * crate::fixed::UNIT + 0x1000_0000 ==> -0x1000_0000 <= 100 * w - 8 * h
                <= 0
            &&& 8 * h <= 400 * crate::fixed::UNIT ==> w == 4 * crate::fixed::UNIT
        }),
{
    crate::fixed::law_ratios_of_whole_numbers(4, 1);
    assert(ratio_spec(8, 100).steps == (8 * crate::fixed::UNIT) / 100);
    let u = crate::fixed::UNIT as int;
    let f = ratio_spec(8, 100).steps as int;
    let s = icon.height_spec().steps as int;
    assert(0 <= s * f <= s * u) by (nonlinear_arith)
        requires
            s >= 0,
            0 <= f <= u,
    ;
    crate::fixed::law_products_round_toward_zero(icon.height_spec(), ratio_spec(8, 100));
    let q = icon.height_spec().times_spec(ratio_spec(8, 100)).steps as int;
    assert(100 * q <= 8 * s && 100 * q >= 8 * s - 0x1000_0000) by (nonlinear_arith)
        requires
            8 * u - 100 < 100 * f <= 8 * u,
            0 <= s * f - q * u < u,
            0 <= s <= 0x1_0000 * u,
            u == 0x1_0000_0000,
    ;
}

} // verus!
