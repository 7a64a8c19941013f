//! How highlights are drawn: flashes along wires and glows around nodes.
use crate::color::{at_opacity, faded, Rgba};
use crate::fixed::{ratio_spec, Fixed, UNIT};
use crate::geometry::{Pos, Rect};
use crate::pulse::{
    drawn_entries, fade_pulses, flash_ends, flash_ends_spec, live_entries,
};
use crate::scene::Scene;
use crate::state::PulseEntry;
use vstd::prelude::*;

verus! {

/// A part of full opacity as a channel value; what lies beyond nothing or full
/// is cut off.
pub open spec fn opacity_spec(part: Fixed) -> u8 {
    let v = part.times_spec(ratio_spec(255, 1)).steps as int;
    if v < 0 {
        0
    } else if v / (UNIT as int) > 255 {
        255
    } else {
        (v / (UNIT as int)) as u8
    }
}

/// A part of full opacity as a channel value.
pub fn opacity(part: Fixed) -> (r: u8)
    ensures
        r == opacity_spec(part),
{
    let v: i64 = part.times(Fixed::whole(255)).steps;
    if v < 0 {
        0
    } else if v / UNIT > 255 {
        255
    } else {
        (v / UNIT) as u8
    }
}

// ── Wires ────────────────────────────────────────────────────────────────

/// A flash along a wire: a wide halo and a bright line in it, between two
/// points of the canvas.
#[derive(Clone, Copy, Debug, PartialEq, Eq, Structural)]
pub struct EdgeFlash {
    pub from: Pos,
    pub to: Pos,
    pub halo: Rgba,
    pub line: Rgba,
}

/// The flash of a given strength: orange, which no wire is.
pub open spec fn flash_spec(ends: (Pos, Pos), strength: Fixed) -> EdgeFlash {
    EdgeFlash {
        from: ends.0,
        to: ends.1,
        halo: faded(255, 196, 60, opacity_spec(strength.times_spec(ratio_spec(7, 10)))),
        line: faded(255, 196, 60, opacity_spec(strength.times_spec(ratio_spec(95, 100)))),
    }
}

/// The flashes of the edges that the scene has.
pub open spec fn flashes(scene: Scene, drawn: Seq<(u64, Fixed)>) -> Seq<EdgeFlash>
    decreases drawn.len(),
{
    if drawn.len() == 0 {
        Seq::empty()
    } else {
        let rest = flashes(scene, drawn.drop_last());
        match flash_ends_spec(scene, drawn.last().0) {
            Some(ends) => rest.push(flash_spec(ends, drawn.last().1)),
            None => rest,
        }
    }
}

/// Forgets the flashes that are over, and gives those to draw.
pub fn draw_edge_flashes(entries: &mut Vec<PulseEntry>, scene: &Scene, now: u64) -> (r: Vec<
    EdgeFlash,
>)
    requires
        scene.wf(),
    ensures
        final(entries)@ == live_entries(old(entries)@, now),
        r@ == flashes(*scene, drawn_entries(live_entries(old(entries)@, now), now)),
{
    let drawn = fade_pulses(entries, now);
    let base = Rgba { r: 255, g: 196, b: 60, a: 255 };
    let mut out: Vec<EdgeFlash> = Vec::new();
    let mut i: usize = 0;
    assert(drawn@.take(0) =~= Seq::empty());
    while i < drawn.len()
        invariant
            scene.wf(),
            i <= drawn@.len(),
            base == (Rgba { r: 255, g: 196, b: 60, a: 255 }),
            out@ == flashes(*scene, drawn@.take(i as int)),
        decreases drawn@.len() - i,
    {
        assert(drawn@.take(i + 1).drop_last() =~= drawn@.take(i as int));
        assert(drawn@.take(i + 1).last() == drawn@[i as int]);
        let (id, strength) = drawn[i];
        if let Some((from, to)) = flash_ends(scene, id) {
            let halo = at_opacity(base, opacity(strength.times(Fixed::ratio(7, 10))));
            let line = at_opacity(base, opacity(strength.times(Fixed::ratio(95, 100))));
            out.push(EdgeFlash { from, to, halo, line });
        }
        i += 1;
    }
    assert(drawn@.take(i as int) =~= drawn@);
    out
}

// ── Nodes ────────────────────────────────────────────────────────────────

/// One of the outlines that make a glow: how many pixels it lies outside of the
/// node, and its colour.
#[derive(Clone, Copy, Debug, PartialEq, Eq, Structural)]
pub struct Ring {
    pub outset: Fixed,
    pub color: Rgba,
}

/// The glow around a node, by the node's box on the canvas.
#[derive(Debug, PartialEq, Eq)]
pub struct NodeGlow {
    pub rect: Rect,
    pub rings: Vec<Ring>,
}

/// The outline `k` of a glow: three pixels further out and fainter than the one
/// before.
pub open spec fn ring_spec(base: Rgba, strength: Fixed, k: int) -> Ring {
    let fade = Fixed { steps: UNIT }.minus_spec(ratio_spec(22, 100).many_spec(k as nat));
    let part = strength.times_spec(ratio_spec(65, 100)).times_spec(fade);
    Ring {
        outset: ratio_spec(3, 1).many_spec((k + 1) as nat),
        color: faded(base.r, base.g, base.b, opacity_spec(part)),
    }
}

/// Whether `g` is the glow of a given strength around a box.
pub open spec fn is_glow(g: NodeGlow, base: Rgba, rect: Rect, strength: Fixed) -> bool {
    &&& g.rect == rect
    &&& g.rings@ == Seq::new(4, |k: int| ring_spec(base, strength, k))
}

/// The places among the highlights of the nodes that the scene has.
pub open spec fn shown_places(scene: Scene, drawn: Seq<(u64, Fixed)>, n: int) -> Seq<int>
    decreases n,
{
    if n <= 0 {
        Seq::empty()
    } else if scene.node_spec(drawn[n - 1].0) is Some {
        shown_places(scene, drawn, n - 1).push(n - 1)
    } else {
        shown_places(scene, drawn, n - 1)
    }
}

/// Whether `glows` are the glows of the highlighted nodes that the scene has.
pub open spec fn are_glows(
    glows: Seq<NodeGlow>,
    scene: Scene,
    drawn: Seq<(u64, Fixed)>,
    n: int,
    base: Rgba,
) -> bool {
    let at = shown_places(scene, drawn, n);
    &&& glows.len() == at.len()
    &&& forall|i: int|
        0 <= i < glows.len() ==> is_glow(
            #[trigger] glows[i],
            base,
            scene.node_spec(drawn[at[i]].0)->0.rect,
            drawn[at[i]].1,
        )
}

fn glow(base: Rgba, rect: Rect, strength: Fixed) -> (r: NodeGlow)
    ensures
        is_glow(r, base, rect, strength),
{
    let mut rings: Vec<Ring> = Vec::new();
    let mut k: u64 = 0;
    while k < 4
        invariant
            k <= 4,
            rings@.len() == k,
            forall|j: int| 0 <= j < k ==> #[trigger] rings@[j] == ring_spec(base, strength, j),
        decreases 4 - k,
    {
        let fade = Fixed { steps: UNIT }.minus(Fixed::ratio(22, 100).many(k));
        let part = strength.times(Fixed::ratio(65, 100)).times(fade);
        rings.push(
            Ring { outset: Fixed::whole(3).many(k + 1), color: at_opacity(base, opacity(part)) },
        );
        k += 1;
    }
    assert(rings@ =~= Seq::new(4, |k: int| ring_spec(base, strength, k)));
    NodeGlow { rect, rings }
}

/// Forgets the glows that are over, and gives those to draw in the colour of
/// selections.
pub fn draw_node_glows(entries: &mut Vec<PulseEntry>, scene: &Scene, now: u64, base: Rgba) -> (r: Vec<
    NodeGlow,
>)
    requires
        scene.wf(),
    ensures
        final(entries)@ == live_entries(old(entries)@, now),
        ({
            let drawn = drawn_entries(live_entries(old(entries)@, now), now);
            are_glows(r@, *scene, drawn, drawn.len() as int, base)
        }),
{
    let drawn = fade_pulses(entries, now);
    let mut out: Vec<NodeGlow> = Vec::new();
    let mut i: usize = 0;
    while i < drawn.len()
        invariant
            scene.wf(),
            i <= drawn@.len(),
            are_glows(out@, *scene, drawn@, i as int, base),
        decreases drawn@.len() - i,
    {
        let (id, strength) = drawn[i];
        let ghost before = out@;
        if let Some(node) = scene.node(id) {
            out.push(glow(base, node.rect, strength));
            assert forall|j: int| 0 <= j < out@.len() implies is_glow(
                #[trigger] out@[j],
                base,
                scene.node_spec(drawn@[shown_places(*scene, drawn@, i + 1)[j]].0)->0.rect,
                drawn@[shown_places(*scene, drawn@, i + 1)[j]].1,
            ) by {
                if j < before.len() {
                    assert(out@[j] == before[j]);
                }
            }
        }
        i += 1;
    }
    out
}

// ── Laws ─────────────────────────────────────────────────────────────────

/// A part of full opacity gives that part of 255, rounded down; all of it and more
/// gives 255, and what is negative nothing.
pub proof fn law_opacity_is_a_part_of_full(part: Fixed)
    requires
        -0x1000 * UNIT <= part.steps <= 0x1000 * UNIT,
    ensures
        part.steps <= 0 ==> opacity_spec(part) == 0,
        part.steps >= UNIT ==> opacity_spec(part) == 255,
        0 <= part.steps <= UNIT ==> 0 <= 255 * part.steps - opacity_spec(part) * UNIT < UNIT,
{
    crate::fixed::law_ratios_of_whole_numbers(255, 1);
    let s = part.steps as int;
    assert(s * (255 * UNIT) == (255 * s) * UNIT) by (nonlinear_arith);
    let v = part.times_spec(ratio_spec(255, 1)).steps as int;
    assert(((255 * s) * UNIT) / (UNIT as int) == 255 * s && ((255 * (-s)) * UNIT) / (UNIT as int)
        == 255 * (-s)) by (nonlinear_arith)
        requires
            UNIT == 0x1_0000_0000,
    ;
    assert(-((255 * s) * UNIT) == (255 * (-s)) * UNIT) by (nonlinear_arith);
    assert(v == 255 * s);
}

/// A flash runs between the ends of its edge, in orange; its halo is fainter than
/// its line: seven tenths of the strength against nineteen twentieths.
pub proof fn law_flashes_are_orange_lines(ends: (Pos, Pos), strength: Fixed)
    requires
        0 <= strength.steps <= UNIT,
    ensures
        ({
            let f = flash_spec(ends, strength);
            let s = strength.steps;
            &&& f.from == ends.0 && f.to == ends.1
            &&& f.halo.a <= f.line.a
            &&& -20 * UNIT <= 10 * (f.halo.a * UNIT) - 1785 * s <= 0
            &&& -200 * UNIT <= 100 * (f.line.a * UNIT) - 24225 * s <= 0
            &&& f.line.a == 255 ==> f.line.r == 255 && f.line.g == 196 && f.line.b == 60
            &&& f.line.b <= f.line.g <= f.line.r
            &&& f.halo.b <= f.halo.g <= f.halo.r
        }),
{
    lemma_part_of(strength, 7, 10);
    lemma_part_of(strength, 95, 100);
    let h = strength.times_spec(ratio_spec(7, 10));
    let l = strength.times_spec(ratio_spec(95, 100));
    law_opacity_is_a_part_of_full(h);
    law_opacity_is_a_part_of_full(l);
    let f = flash_spec(ends, strength);
    assert(h.steps <= l.steps + 2);
    lemma_opacity_grows(strength);
    let x = f.line.a;
    let y = f.halo.a;
    assert(faded(255, 196, 60, x) == f.line);
    lemma_orange(x);
    lemma_orange(y);
}

proof fn lemma_orange(a: u8)
    ensures
        ({
            let c = faded(255, 196, 60, a);
            c.b <= c.g <= c.r && c.a == a && (a == 255 ==> c.r == 255 && c.g == 196 && c.b == 60)
        }),
{
}

proof fn lemma_part_of(x: Fixed, n: int, d: int)
    requires
        0 <= x.steps <= UNIT,
        0 < n <= d <= 100,
    ensures
        ({
            let y = x.times_spec(ratio_spec(n, d)).steps;
            0 <= y <= UNIT && n * x.steps - 2 * d < d * y <= n * x.steps
        }),
{
    crate::fixed::law_ratios_of_whole_numbers(n, d);
    let f = ratio_spec(n, d).steps as int;
    let s = x.steps as int;
    assert(n * UNIT >= 0);
    assert(f == (n * UNIT) / d) by {
        assert((n * UNIT) / d <= n * UNIT) by (nonlinear_arith)
            requires
                d > 0,
                n * UNIT >= 0,
        ;
    }
    assert(n * UNIT - d < d * f <= n * UNIT && f >= 0) by (nonlinear_arith)
        requires
            f == (n * UNIT) / d,
            d > 0,
            n * UNIT >= 0,
    ;
    assert(f <= UNIT) by (nonlinear_arith)
        requires
            d * f <= n * UNIT,
            n <= d,
            d > 0,
            UNIT == 0x1_0000_0000,
    ;
    let p = s * f;
    assert(0 <= p <= UNIT * UNIT) by (nonlinear_arith)
        requires
            p == s * f,
            0 <= s <= UNIT,
            0 <= f <= UNIT,
    ;
    crate::fixed::law_products_round_toward_zero(x, ratio_spec(n, d));
    let y = x.times_spec(ratio_spec(n, d)).steps as int;
    assert(y <= UNIT && n * s - 2 * d < d * y <= n * s) by (nonlinear_arith)
        requires
            p == s * f,
            0 <= p - y * UNIT < UNIT,
            n * UNIT - d < d * f <= n * UNIT,
            p <= UNIT * UNIT,
            0 <= s <= UNIT,
            d > 0,
            UNIT == 0x1_0000_0000,
    {
        assert(d * p <= n * UNIT * s);
        assert(d * p >= (n * UNIT - d) * s);
        assert(d * (p - y * UNIT) < d * UNIT);
        assert(d * (p - y * UNIT) >= 0);
        assert(d * p == d * (y * UNIT) + d * (p - y * UNIT));
        assert(d * (y * UNIT) == (d * y) * UNIT);
        assert((n * UNIT - d) * s == (n * s) * UNIT - d * s);
        assert(d * s <= d * UNIT);
        assert(n * UNIT * s == (n * s) * UNIT);
        assert((d * y) * UNIT <= (n * s) * UNIT);
        assert((d * y) * UNIT > (n * s) * UNIT - d * s - d * UNIT);
        assert((d * y) * UNIT > (n * s - 2 * d) * UNIT);
    }
}

proof fn lemma_opacity_grows(x: Fixed)
    requires
        0 <= x.steps <= UNIT,
    ensures
        opacity_spec(x.times_spec(ratio_spec(7, 10))) <= opacity_spec(
            x.times_spec(ratio_spec(95, 100)),
        ),
{
    let a = x.times_spec(ratio_spec(7, 10));
    let b = x.times_spec(ratio_spec(95, 100));
    lemma_part_of(x, 7, 10);
    lemma_part_of(x, 95, 100);
    law_opacity_is_a_part_of_full(a);
    law_opacity_is_a_part_of_full(b);
    assert(ratio_spec(7, 10).steps == (7 * UNIT) / 10);
    assert(ratio_spec(95, 100).steps == (95 * UNIT) / 100);
    let f = ratio_spec(7, 10).steps as int;
    let g = ratio_spec(95, 100).steps as int;
    let s = x.steps as int;
    assert(0 <= s * f <= s * g) by (nonlinear_arith)
        requires
            0 <= f <= g,
            0 <= s,
    ;
    assert(s * g <= UNIT * UNIT) by (nonlinear_arith)
        requires
            0 <= g <= UNIT,
            0 <= s <= UNIT,
    ;
    assert((s * f) / (UNIT as int) <= (s * g) / (UNIT as int)) by (nonlinear_arith)
        requires
            0 <= s * f <= s * g,
            UNIT == 0x1_0000_0000,
    ;
    assert(a.steps <= b.steps);
}

/// Every highlighted edge that the scene has flashes, in order and with the
/// strength of its highlight, and no other does: there are increasing places of
/// highlights, one for each flash.
pub proof fn law_every_highlighted_edge_flashes(
    scene: Scene,
    drawn: Seq<(u64, Fixed)>,
) -> (at: Seq<int>)
    ensures
        at.len() == flashes(scene, drawn).len(),
        forall|a: int, b: int| 0 <= a < b < at.len() ==> at[a] < at[b],
        forall|i: int|
            0 <= i < drawn.len() ==> (at.contains(i) <==> flash_ends_spec(
                scene,
                (#[trigger] drawn[i]).0,
            ) is Some),
        forall|k: int|
            0 <= k < at.len() ==> {
                &&& 0 <= #[trigger] at[k] < drawn.len()
                &&& flash_ends_spec(scene, drawn[at[k]].0) matches Some(ends) && flashes(
                    scene,
                    drawn,
                )[k] == flash_spec(ends, drawn[at[k]].1)
            },
    decreases drawn.len(),
{
    if drawn.len() == 0 {
        Seq::empty()
    } else {
        let rest = drawn.drop_last();
        let before = law_every_highlighted_edge_flashes(scene, rest);
        let n = drawn.len() - 1;
        let has = flash_ends_spec(scene, drawn.last().0) is Some;
        let at = if has {
            before.push(n)
        } else {
            before
        };
        assert forall|i: int| 0 <= i < drawn.len() implies (at.contains(i) <==> flash_ends_spec(
            scene,
            (#[trigger] drawn[i]).0,
        ) is Some) by {
            if i < n {
                assert(rest[i] == drawn[i]);
                if before.contains(i) {
                    let k = choose|k: int| 0 <= k < before.len() && before[k] == i;
                    assert(at[k] == i);
                }
                if at.contains(i) {
                    let k = choose|k: int| 0 <= k < at.len() && at[k] == i;
                    assert(before[k] == i);
                }
            } else {
                if has {
                    assert(at[before.len() as int] == i);
                }
                if at.contains(i) {
                    let k = choose|k: int| 0 <= k < at.len() && at[k] == i;
                    if k < before.len() {
                        assert(before[k] == i);
                    }
                }
            }
        }
        assert forall|k: int| 0 <= k < at.len() implies {
            &&& 0 <= #[trigger] at[k] < drawn.len()
            &&& flash_ends_spec(scene, drawn[at[k]].0) matches Some(ends) && flashes(
                scene,
                drawn,
            )[k] == flash_spec(ends, drawn[at[k]].1)
        } by {
            if k < before.len() {
                assert(at[k] == before[k]);
                assert(rest[before[k]] == drawn[before[k]]);
            }
        }
        at
    }
}

/// A glow has four outlines around its node's box, three pixels apart, each
/// fainter than the one inside it or as faint. The innermost has thirteen
/// twentieths of the highlight's strength.
pub proof fn law_glows_fade_outward(
    g: NodeGlow,
    base: Rgba,
    rect: Rect,
    strength: Fixed,
    k: int,
)
    requires
        is_glow(g, base, rect, strength),
        0 <= k < 4,
        0 <= strength.steps <= UNIT,
    ensures
        g.rect == rect,
        g.rings@.len() == 4,
        g.rings@[k].outset.steps == 3 * UNIT * (k + 1),
        k > 0 ==> g.rings@[k].color.a <= g.rings@[k - 1].color.a,
        -300 * UNIT <= 100 * (g.rings@[0].color.a * UNIT) - 16575 * strength.steps <= 0,
{
    crate::fixed::law_ratios_of_whole_numbers(3, 1);
    assert(ratio_spec(22, 100).steps == (22 * UNIT) / 100);
    let part = strength.times_spec(ratio_spec(65, 100));
    lemma_part_of(strength, 65, 100);
    lemma_ring_part(part, 0);
    lemma_ring_part(part, k as nat);
    if k > 0 {
        lemma_ring_part(part, (k - 1) as nat);
        lemma_rings_fade(part, k as nat);
    }
    let zero = Fixed { steps: UNIT }.minus_spec(ratio_spec(22, 100).many_spec(0));
    assert(zero.steps == UNIT);
    let s = part.steps as int;
    assert((s * UNIT) / (UNIT as int) == s) by (nonlinear_arith)
        requires
            UNIT == 0x1_0000_0000,
    ;
    assert(part.times_spec(zero).steps == s);
    assert(part.times_spec(zero) == part);
    assert(g.rings@[0] == ring_spec(base, strength, 0));
    let three = ratio_spec(3, 1).steps as int;
    let m = k + 1;
    assert(three * m == 3 * UNIT * m && 0 <= 3 * UNIT * m <= 12 * UNIT) by (nonlinear_arith)
        requires
            three == 3 * UNIT,
            0 <= m <= 4,
            UNIT == 0x1_0000_0000,
    ;
    law_opacity_is_a_part_of_full(part);
}

/// What is left of a glow's strength in its outline `k`.
pub open spec fn ring_part(part: Fixed, k: nat) -> Fixed {
    part.times_spec(Fixed { steps: UNIT }.minus_spec(ratio_spec(22, 100).many_spec(k)))
}

proof fn lemma_ring_part(part: Fixed, k: nat)
    requires
        0 <= part.steps <= UNIT,
        k < 4,
    ensures
        0 <= ring_part(part, k).steps <= UNIT,
        ring_part(part, k).steps == (part.steps * (UNIT - ((22 * UNIT) / 100) * k)) / (UNIT as int),
{
    assert(ratio_spec(22, 100).steps == (22 * UNIT) / 100);
    let c = (22 * UNIT) / 100;
    let fade = Fixed { steps: UNIT }.minus_spec(ratio_spec(22, 100).many_spec(k));
    assert(0 <= c * k <= UNIT) by (nonlinear_arith)
        requires
            0 <= c <= UNIT / 4,
            0 <= k < 4,
            UNIT == 0x1_0000_0000,
    ;
    assert(fade.steps == UNIT - c * k);
    let p = part.steps * fade.steps;
    assert(0 <= p <= UNIT * UNIT) by (nonlinear_arith)
        requires
            p == part.steps * fade.steps,
            0 <= part.steps <= UNIT,
            0 <= fade.steps <= UNIT,
    ;
    crate::fixed::law_products_round_toward_zero(part, fade);
}

proof fn lemma_rings_fade(part: Fixed, k: nat)
    requires
        0 <= part.steps <= UNIT,
        0 < k < 4,
    ensures
        opacity_spec(ring_part(part, k)) <= opacity_spec(ring_part(part, (k - 1) as nat)),
{
    lemma_ring_part(part, k);
    lemma_ring_part(part, (k - 1) as nat);
    let c = (22 * UNIT) / 100;
    let a = part.steps * (UNIT - c * k);
    let b = part.steps * (UNIT - c * (k - 1));
    assert(a <= b) by (nonlinear_arith)
        requires
            a == part.steps * (UNIT - c * k),
            b == part.steps * (UNIT - c * (k - 1)),
            part.steps >= 0,
            c >= 0,
    ;
    assert(a / (UNIT as int) <= b / (UNIT as int)) by (nonlinear_arith)
        requires
            a <= b,
            UNIT == 0x1_0000_0000,
    ;
    law_opacity_is_a_part_of_full(ring_part(part, k));
    law_opacity_is_a_part_of_full(ring_part(part, (k - 1) as nat));
}

proof fn lemma_shown_places(scene: Scene, drawn: Seq<(u64, Fixed)>, n: int)
    requires
        0 <= n <= drawn.len(),
    ensures
        ({
            let at = shown_places(scene, drawn, n);
            &&& forall|k: int|
                0 <= k < at.len() ==> 0 <= #[trigger] at[k] < n && scene.node_spec(drawn[at[k]].0)
                    is Some
            &&& forall|a: int, b: int| 0 <= a < b < at.len() ==> at[a] < at[b]
            &&& forall|i: int|
                0 <= i < n && scene.node_spec((#[trigger] drawn[i]).0) is Some ==> at.contains(i)
        }),
    decreases n,
{
    if n > 0 {
        lemma_shown_places(scene, drawn, n - 1);
        let before = shown_places(scene, drawn, n - 1);
        let at = shown_places(scene, drawn, n);
        assert forall|i: int|
            0 <= i < n && scene.node_spec((#[trigger] drawn[i]).0) is Some implies at.contains(
            i,
        ) by {
            if i < n - 1 {
                let k = choose|k: int| 0 <= k < before.len() && before[k] == i;
                assert(at[k] == i);
            } else {
                assert(at[before.len() as int] == i);
            }
        }
    }
}

/// Every highlighted node that the scene has glows around its box, in order and
/// with the strength of its highlight, and no other does: there are increasing
/// places of highlights, one for each glow.
pub proof fn law_every_highlighted_node_glows(
    glows: Seq<NodeGlow>,
    scene: Scene,
    drawn: Seq<(u64, Fixed)>,
    base: Rgba,
) -> (at: Seq<int>)
    requires
        are_glows(glows, scene, drawn, drawn.len() as int, base),
    ensures
        at.len() == glows.len(),
        forall|a: int, b: int| 0 <= a < b < at.len() ==> at[a] < at[b],
        forall|i: int|
            0 <= i < drawn.len() && scene.node_spec((#[trigger] drawn[i]).0) is Some
                ==> at.contains(i),
        forall|k: int|
            0 <= k < at.len() ==> {
                &&& 0 <= #[trigger] at[k] < drawn.len()
                &&& scene.node_spec(drawn[at[k]].0) matches Some(n) && is_glow(
                    glows[k],
                    base,
                    n.rect,
                    drawn[at[k]].1,
                )
            },
{
    let n = drawn.len() as int;
    lemma_shown_places(scene, drawn, n);
    let at = shown_places(scene, drawn, n);
    assert forall|k: int| 0 <= k < at.len() implies {
        &&& 0 <= #[trigger] at[k] < drawn.len()
        &&& scene.node_spec(drawn[at[k]].0) matches Some(n) && is_glow(
            glows[k],
            base,
            n.rect,
            drawn[at[k]].1,
        )
    } by {
        assert(is_glow(glows[k], base, scene.node_spec(drawn[at[k]].0)->0.rect, drawn[at[k]].1));
    }
    at
}

proof fn lemma_ring_one(s: int, x: int, a: int)
    requires
        0 <= s <= UNIT,
        65 * s - 200 < 100 * x <= 65 * s,
        0 <= 255 * ((x * 3350074491) / 0x1_0000_0000) - a * 0x1_0000_0000 < 0x1_0000_0000,
    ensures
        -30000 * 0x1_0000_0000 <= 10000 * (a * 0x1_0000_0000) - 1292850 * s <= 0x40_0000,
{
    let r = (x * 3350074491) / 0x1_0000_0000;
    assert(78 * x - 300 <= 100 * r <= 78 * x + 100) by (nonlinear_arith)
        requires
            -2 <= x <= 0x1_0000_0000,
            0 <= x * 3350074491 - r * 0x1_0000_0000 < 0x1_0000_0000,
    ;
}

proof fn lemma_ring_two(s: int, x: int, a: int)
    requires
        0 <= s <= UNIT,
        65 * s - 200 < 100 * x <= 65 * s,
        0 <= 255 * ((x * 2405181686) / 0x1_0000_0000) - a * 0x1_0000_0000 < 0x1_0000_0000,
    ensures
        -30000 * 0x1_0000_0000 <= 10000 * (a * 0x1_0000_0000) - 928200 * s <= 0x40_0000,
{
    let r = (x * 2405181686) / 0x1_0000_0000;
    assert(56 * x - 300 <= 100 * r <= 56 * x + 100) by (nonlinear_arith)
        requires
            -2 <= x <= 0x1_0000_0000,
            0 <= x * 2405181686 - r * 0x1_0000_0000 < 0x1_0000_0000,
    ;
}

proof fn lemma_ring_three(s: int, x: int, a: int)
    requires
        0 <= s <= UNIT,
        65 * s - 200 < 100 * x <= 65 * s,
        0 <= 255 * ((x * 1460288881) / 0x1_0000_0000) - a * 0x1_0000_0000 < 0x1_0000_0000,
    ensures
        -30000 * 0x1_0000_0000 <= 10000 * (a * 0x1_0000_0000) - 563550 * s <= 0x40_0000,
{
    let r = (x * 1460288881) / 0x1_0000_0000;
    assert(34 * x - 300 <= 100 * r <= 34 * x + 100) by (nonlinear_arith)
        requires
            -2 <= x <= 0x1_0000_0000,
            0 <= x * 1460288881 - r * 0x1_0000_0000 < 0x1_0000_0000,
    ;
}

/// Each outline of a glow beyond the innermost loses 22 hundredths of the
/// innermost's opacity more than the one before.
pub proof fn law_outer_rings_lose_strength(g: NodeGlow, base: Rgba, rect: Rect, strength: Fixed)
    requires
        is_glow(g, base, rect, strength),
        0 <= strength.steps <= UNIT,
    ensures
        ({
            let s = strength.steps;
            let one = g.rings@[1].color.a * 0x1_0000_0000;
            let two = g.rings@[2].color.a * 0x1_0000_0000;
            let three = g.rings@[3].color.a * 0x1_0000_0000;
            &&& -30000 * 0x1_0000_0000 <= 10000 * one - 1292850 * s <= 0x40_0000
            &&& -30000 * 0x1_0000_0000 <= 10000 * two - 928200 * s <= 0x40_0000
            &&& -30000 * 0x1_0000_0000 <= 10000 * three - 563550 * s <= 0x40_0000
        }),
{
    let part = strength.times_spec(ratio_spec(65, 100));
    lemma_part_of(strength, 65, 100);
    lemma_ring_part(part, 1);
    lemma_ring_part(part, 2);
    lemma_ring_part(part, 3);
    law_opacity_is_a_part_of_full(ring_part(part, 1));
    law_opacity_is_a_part_of_full(ring_part(part, 2));
    law_opacity_is_a_part_of_full(ring_part(part, 3));
    assert(g.rings@[1] == ring_spec(base, strength, 1));
    assert(g.rings@[2] == ring_spec(base, strength, 2));
    assert(g.rings@[3] == ring_spec(base, strength, 3));
    let s = strength.steps as int;
    let x = part.steps as int;
    lemma_ring_one(s, x, g.rings@[1].color.a as int);
    lemma_ring_two(s, x, g.rings@[2].color.a as int);
    lemma_ring_three(s, x, g.rings@[3].color.a as int);
}

} // verus!
