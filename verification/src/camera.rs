//! Camera moves along keyframes.
use crate::fixed::{ratio_spec, Fixed, UNIT};
use crate::geometry::{Pos, Rect};
use crate::state::{
    doc_place, drawn, is_base_of, is_drawn, law_documents_are_apart, lemma_doc_place,
    CanvasDiagramState, CanvasDocState, TabCanvas, Viewport,
};
use std::collections::HashMap;
use vstd::prelude::*;

verus! {

broadcast use vstd::std_specs::hash::group_hash_axioms;

/// The region of the canvas that a widget shows.
pub open spec fn visible_region(v: Viewport, screen: Rect) -> Rect {
    let zoom = v.zoom.max_spec(Fixed { steps: crate::geometry::SHORTEST_SQ });
    let half_w = screen.width_spec().half_spec().over_spec(zoom);
    let half_h = screen.height_spec().half_spec().over_spec(zoom);
    Rect {
        min: Pos { x: v.center.x.minus_spec(half_w), y: v.center.y.minus_spec(half_h) },
        max: Pos { x: v.center.x.plus_spec(half_w), y: v.center.y.plus_spec(half_h) },
    }
}

/// The region of the canvas that a widget shows.
pub fn world_view_rect(v: Viewport, screen: Rect) -> (r: Rect)
    ensures
        r == visible_region(v, screen),
{
    let zoom = v.zoom.larger(Fixed { steps: crate::geometry::SHORTEST_SQ });
    let half_w = screen.width().half().over(zoom);
    let half_h = screen.height().half().over(zoom);
    Rect {
        min: Pos { x: v.center.x.minus(half_w), y: v.center.y.minus(half_h) },
        max: Pos { x: v.center.x.plus(half_w), y: v.center.y.plus(half_h) },
    }
}

// ── Easing ───────────────────────────────────────────────────────────────

/// How a move runs from one keyframe into the next.
#[derive(Clone, Copy, Debug, PartialEq, Eq, Structural)]
pub enum EaseKind {
    /// Stays at the keyframe before.
    Hold,
    /// Evenly.
    Linear,
    /// Fast, then slower.
    EaseOutCubic,
    /// Slow, fast in the middle, then slow.
    EaseInOutCubic,
}

pub open spec fn one() -> Fixed {
    Fixed { steps: UNIT }
}

pub open spec fn cube(t: Fixed) -> Fixed {
    t.times_spec(t).times_spec(t)
}

/// The part of the way that is gone when the part `t` of the time is.
pub open spec fn eased(kind: EaseKind, t: Fixed) -> Fixed {
    let t = t.clamp_spec(Fixed { steps: 0 }, one());
    match kind {
        EaseKind::Hold => Fixed { steps: 0 },
        EaseKind::Linear => t,
        EaseKind::EaseOutCubic => one().minus_spec(cube(one().minus_spec(t))),
        EaseKind::EaseInOutCubic => if t.steps < UNIT / 2 {
            cube(t).many_spec(4)
        } else {
            let rest = one().minus_spec(t);
            one().minus_spec(cube(rest.plus_spec(rest)).half_spec())
        },
    }
}

fn cubed(t: Fixed) -> (r: Fixed)
    ensures
        r == cube(t),
{
    t.times(t).times(t)
}

impl EaseKind {
    /// The part of the way that is gone when the part `t` of the time is.
    pub fn apply(self, t: Fixed) -> (r: Fixed)
        ensures
            r == eased(self, t),
    {
        let unit = Fixed { steps: UNIT };
        let half_unit: i64 = 0x8000_0000;
        assert(half_unit == UNIT / 2);
        let t = t.clamped(Fixed { steps: 0 }, unit);
        match self {
            EaseKind::Hold => Fixed { steps: 0 },
            EaseKind::Linear => t,
            EaseKind::EaseOutCubic => unit.minus(cubed(unit.minus(t))),
            EaseKind::EaseInOutCubic => if t.steps < half_unit {
                cubed(t).many(4)
            } else {
                let rest = unit.minus(t);
                unit.minus(cubed(rest.plus(rest)).half())
            },
        }
    }
}

/// The number the part `t` of the way from `a` to `b`.
pub open spec fn between(a: Fixed, b: Fixed, t: Fixed) -> Fixed {
    a.plus_spec(b.minus_spec(a).times_spec(t))
}

/// The number the part `t` of the way from `a` to `b`.
pub fn lerp(a: Fixed, b: Fixed, t: Fixed) -> (r: Fixed)
    ensures
        r == between(a, b, t),
{
    a.plus(b.minus(a).times(t))
}

/// The point the part `t` of the way from `a` to `b`.
pub fn lerp_pos(a: Pos, b: Pos, t: Fixed) -> (r: Pos)
    ensures
        r == (Pos { x: between(a.x, b.x, t), y: between(a.y, b.y, t) }),
{
    Pos { x: lerp(a.x, b.x, t), y: lerp(a.y, b.y, t) }
}

// ── Moves ────────────────────────────────────────────────────────────────

/// Where the camera is at a time of its move, and how it comes there from the
/// keyframe before.
#[derive(Clone, Copy, Debug, PartialEq, Eq, Structural)]
pub struct Keyframe {
    pub at_ms: u32,
    pub center: Pos,
    pub zoom: Fixed,
    pub ease_in: EaseKind,
}

/// A camera move that runs.
#[derive(Debug, PartialEq, Eq)]
pub struct CameraMove {
    pub started_at: u64,
    pub keyframes: Vec<Keyframe>,
    /// Where the move put the camera last.
    pub last_applied: Option<(Pos, Fixed)>,
}

/// How long the camera takes to frame a diagram, in milliseconds.
pub const FIT_MOVE_MS: u32 = 700;

/// How long a move takes: the time of its last keyframe.
pub open spec fn total_ms_spec(frames: Seq<Keyframe>) -> u32 {
    if frames.len() > 0 {
        frames.last().at_ms
    } else {
        0
    }
}

/// The first keyframe, at or after place `from`, that lies in the future.
pub open spec fn next_frame(frames: Seq<Keyframe>, elapsed: u32, from: int) -> int
    decreases frames.len() - from,
{
    if from >= frames.len() {
        frames.len() as int
    } else if elapsed < frames[from].at_ms {
        from
    } else {
        next_frame(frames, elapsed, from + 1)
    }
}

/// Where the camera is at a time of its move; nowhere once the move is over.
pub open spec fn sampled(frames: Seq<Keyframe>, elapsed: u32) -> Option<(Pos, Fixed)> {
    let i = next_frame(frames, elapsed, 1);
    if frames.len() == 0 || elapsed >= total_ms_spec(frames) || i >= frames.len() {
        None
    } else {
        let a = frames[i - 1];
        let b = frames[i];
        let span = if b.at_ms - a.at_ms < 1 {
            1
        } else {
            b.at_ms - a.at_ms
        };
        let t = eased(b.ease_in, ratio_spec(elapsed - a.at_ms, span));
        Some(
            (
                Pos { x: between(a.center.x, b.center.x, t), y: between(a.center.y, b.center.y, t) },
                between(a.zoom, b.zoom, t),
            ),
        )
    }
}

/// Whether the keyframes are in the order of their times, from the start on.
pub open spec fn in_time_order(frames: Seq<Keyframe>) -> bool {
    &&& frames.len() > 0 ==> frames[0].at_ms == 0
    &&& forall|i: int, j: int|
        0 <= i <= j < frames.len() ==> (#[trigger] frames[i]).at_ms <= (#[trigger] frames[j]).at_ms
}

proof fn lemma_next_frame(frames: Seq<Keyframe>, elapsed: u32, from: int)
    requires
        0 <= from <= frames.len(),
    ensures
        from <= next_frame(frames, elapsed, from) <= frames.len(),
        next_frame(frames, elapsed, from) < frames.len() ==> elapsed < frames[next_frame(
            frames,
            elapsed,
            from,
        )].at_ms,
        forall|i: int|
            from <= i < next_frame(frames, elapsed, from) ==> (#[trigger] frames[i]).at_ms
                <= elapsed,
    decreases frames.len() - from,
{
    if from < frames.len() && elapsed >= frames[from].at_ms {
        lemma_next_frame(frames, elapsed, from + 1);
    }
}

impl CameraMove {
    pub open spec fn wf(self) -> bool {
        in_time_order(self.keyframes@)
    }

    /// How long the move takes.
    pub fn total_ms(&self) -> (r: u32)
        ensures
            r == total_ms_spec(self.keyframes@),
    {
        if self.keyframes.len() > 0 {
            self.keyframes[self.keyframes.len() - 1].at_ms
        } else {
            0
        }
    }

    /// Where the camera is at a time of the move; nowhere once it is over.
    pub fn sample(&self, elapsed_ms: u32) -> (r: Option<(Pos, Fixed)>)
        requires
            self.wf(),
        ensures
            r == sampled(self.keyframes@, elapsed_ms),
    {
        if self.keyframes.len() == 0 || elapsed_ms >= self.total_ms() {
            return None;
        }
        let mut i: usize = 1;
        while i < self.keyframes.len()
            invariant
                self.wf(),
                1 <= i <= self.keyframes@.len(),
                elapsed_ms < total_ms_spec(self.keyframes@),
                next_frame(self.keyframes@, elapsed_ms, 1) == next_frame(
                    self.keyframes@,
                    elapsed_ms,
                    i as int,
                ),
            decreases self.keyframes@.len() - i,
        {
            let b = self.keyframes[i];
            if elapsed_ms < b.at_ms {
                let a = self.keyframes[i - 1];
                proof {
                    lemma_next_frame(self.keyframes@, elapsed_ms, 1);
                    assert(next_frame(self.keyframes@, elapsed_ms, 1) == i);
                    if i - 1 >= 1 {
                        assert(self.keyframes@[i - 1].at_ms <= elapsed_ms);
                    }
                }
                let whole: u32 = b.at_ms - a.at_ms;
                let span: u32 = if whole < 1 {
                    1
                } else {
                    whole
                };
                let t = b.ease_in.apply(
                    Fixed::fraction((elapsed_ms - a.at_ms) as u64, span as u64),
                );
                return Some((lerp_pos(a.center, b.center, t), lerp(a.zoom, b.zoom, t)));
            }
            i += 1;
        }
        None
    }
}

/// The move from where the camera is to where it frames a diagram: one smooth
/// sweep.
pub open spec fn fit_move(center: Pos, zoom: Fixed, fit_center: Pos, fit_zoom: Fixed) -> Seq<
    Keyframe,
> {
    seq![
        Keyframe { at_ms: 0, center, zoom, ease_in: EaseKind::Linear },
        Keyframe {
            at_ms: FIT_MOVE_MS,
            center: fit_center,
            zoom: fit_zoom,
            ease_in: EaseKind::EaseInOutCubic,
        },
    ]
}

/// The move from where the camera is to where it frames a diagram.
pub fn plan_camera_move(center: Pos, zoom: Fixed, fit_center: Pos, fit_zoom: Fixed) -> (r: Vec<
    Keyframe,
>)
    ensures
        r@ == fit_move(center, zoom, fit_center, fit_zoom),
        in_time_order(r@),
{
    let mut v: Vec<Keyframe> = Vec::new();
    v.push(Keyframe { at_ms: 0, center, zoom, ease_in: EaseKind::Linear });
    v.push(
        Keyframe {
            at_ms: FIT_MOVE_MS,
            center: fit_center,
            zoom: fit_zoom,
            ease_in: EaseKind::EaseInOutCubic,
        },
    );
    assert(v@ =~= fit_move(center, zoom, fit_center, fit_zoom));
    v
}

// ── Running ──────────────────────────────────────────────────────────────

/// Whether the camera is no longer where the move put it: more than half a
/// unit away, or its zoom off by more than five thousandths.
pub open spec fn was_moved(v: Viewport, last: (Pos, Fixed)) -> bool {
    let dc = v.center.x.minus_spec(last.0.x).abs_spec().plus_spec(
        v.center.y.minus_spec(last.0.y).abs_spec(),
    );
    let dz = v.zoom.minus_spec(last.1).abs_spec();
    dc.steps > UNIT / 2 || dz.steps > ratio_spec(5, 1000).steps
}

/// The time since the move started, in milliseconds.
pub open spec fn elapsed_ms(mv: CameraMove, now: u64) -> u32 {
    if now >= mv.started_at {
        ((now - mv.started_at) as u64) as u32
    } else {
        0
    }
}

/// Where a step of the move puts the camera: nowhere once it is over, nor when
/// someone else moved the camera.
pub open spec fn step_target(mv: CameraMove, v: Viewport, now: u64) -> Option<(Pos, Fixed)> {
    if mv.last_applied matches Some(last) && was_moved(v, last) {
        None
    } else {
        sampled(mv.keyframes@, elapsed_ms(mv, now))
    }
}

fn moved_by_user(v: Viewport, last: (Pos, Fixed)) -> (r: bool)
    ensures
        r == was_moved(v, last),
{
    let dc = v.center.x.minus(last.0.x).abs().plus(v.center.y.minus(last.0.y).abs());
    let dz = v.zoom.minus(last.1).abs();
    let half_unit: i64 = 0x8000_0000;
    assert(half_unit == UNIT / 2);
    dc.steps > half_unit || dz.steps > Fixed::ratio(5, 1000).steps
}

/// Runs a move to the present. Gives whether it goes on: it ends with its last
/// keyframe, and it yields when someone else moved the camera.
pub fn tick_move(mv: &mut CameraMove, viewport: &mut Viewport, now: u64) -> (goes_on: bool)
    requires
        old(mv).wf(),
    ensures
        final(mv).wf(),
        match step_target(*old(mv), *old(viewport), now) {
            Some((center, zoom)) => {
                &&& goes_on
                &&& *final(viewport) == (Viewport { center, zoom })
                &&& *final(mv) == (CameraMove { last_applied: Some((center, zoom)), ..*old(mv) })
            },
            None => {
                &&& !goes_on
                &&& *final(viewport) == *old(viewport)
                &&& *final(mv) == *old(mv)
            },
        },
{
    if let Some(last) = mv.last_applied {
        if moved_by_user(*viewport, last) {
            return false;
        }
    }
    let elapsed: u64 = if now >= mv.started_at {
        now - mv.started_at
    } else {
        0
    };
    match mv.sample(elapsed as u32) {
        Some((center, zoom)) => {
            *viewport = Viewport { center, zoom };
            mv.last_applied = Some((center, zoom));
            true
        },
        None => false,
    }
}

/// The camera moves that run, by document.
pub struct CinematicCamera {
    pub moves: HashMap<u64, CameraMove>,
}

impl CinematicCamera {
    pub open spec fn wf(self) -> bool {
        forall|d: u64| #[trigger] self.moves@.contains_key(d) ==> self.moves@[d].wf()
    }
}

/// Whether a document's move and state follow from those before: the move of
/// the document went a step on, or it is over.
pub open spec fn is_stepped(
    mv: CameraMove,
    ds: CanvasDocState,
    new_mv: Option<CameraMove>,
    new_ds: CanvasDocState,
    now: u64,
) -> bool {
    match step_target(mv, ds.viewport, now) {
        Some((center, zoom)) => {
            &&& new_mv == Some(CameraMove { last_applied: Some((center, zoom)), ..mv })
            &&& new_ds == (CanvasDocState { viewport: Viewport { center, zoom }, ..ds })
        },
        None => new_mv is None && new_ds == ds,
    }
}

/// Whether the move and the first canvas of the document `d` went a step on from
/// those before.
pub open spec fn doc_is_stepped(
    cs: Seq<TabCanvas>,
    d: u64,
    mv: CameraMove,
    new_mv: Option<CameraMove>,
    new_cs: Seq<TabCanvas>,
    now: u64,
) -> bool {
    is_drawn(new_cs, None, d) && exists|base: CanvasDocState|
        #[trigger] is_base_of(cs, None, d, base) && is_stepped(
            mv,
            base,
            new_mv,
            drawn(new_cs, None, d),
            now,
        )
}

/// Whether the first canvas of the document `d` is as it was.
pub open spec fn doc_is_kept(cs: Seq<TabCanvas>, d: u64, new_cs: Seq<TabCanvas>) -> bool {
    &&& is_drawn(new_cs, None, d) == is_drawn(cs, None, d)
    &&& is_drawn(cs, None, d) ==> drawn(new_cs, None, d) == drawn(cs, None, d)
}

/// Whether every canvas keeps its tab and its document, and each that is not the
/// first of a document with a move is as it was.
pub open spec fn others_are_kept(
    cs: Seq<TabCanvas>,
    moves: Map<u64, CameraMove>,
    new_cs: Seq<TabCanvas>,
) -> bool {
    &&& new_cs.len() >= cs.len()
    &&& forall|i: int|
        0 <= i < cs.len() ==> {
            &&& (#[trigger] new_cs[i]).tab == cs[i].tab
            &&& new_cs[i].doc == cs[i].doc
            &&& !(moves.contains_key(cs[i].doc) && doc_place(cs, cs[i].doc, 0) == i) ==> new_cs[i]
                == cs[i]
        }
}

pub open spec fn get_move(m: Map<u64, CameraMove>, d: u64) -> Option<CameraMove> {
    if m.contains_key(d) {
        Some(m[d])
    } else {
        None
    }
}

/// Runs every camera move to the present, each in the first canvas of its
/// document. All other canvases stay as they are.
pub fn tick_cinematic_camera(camera: &mut CinematicCamera, st: &mut CanvasDiagramState, now: u64)
    requires
        old(camera).wf(),
        old(st).wf(),
    ensures
        final(camera).wf(),
        final(st).wf(),
        final(st).fallback == old(st).fallback,
        forall|d: u64| #[trigger]
            old(camera).moves@.contains_key(d) ==> doc_is_stepped(
                old(st).canvases@,
                d,
                old(camera).moves@[d],
                get_move(final(camera).moves@, d),
                final(st).canvases@,
                now,
            ),
        forall|d: u64|
            !(#[trigger] old(camera).moves@.contains_key(d)) ==> {
                &&& !final(camera).moves@.contains_key(d)
                &&& doc_is_kept(old(st).canvases@, d, final(st).canvases@)
            },
        others_are_kept(old(st).canvases@, old(camera).moves@, final(st).canvases@),
{
    let mut docs: Vec<u64> = Vec::new();
    for k in it: camera.moves.keys()
        invariant
            docs@ == it.seq().unref().take(it.index()),
            docs@.len() == it.seq().len() ==> docs@ == it.seq().unref(),
            it.seq().no_duplicates(),
            it.seq().unref().to_set() == camera.moves@.dom(),
    {
        docs.push(*k);
    }
    let ghost moves0 = camera.moves@;
    let ghost cs0 = st.canvases@;
    let mut i: usize = 0;
    while i < docs.len()
        invariant
            i <= docs@.len(),
            docs@.no_duplicates(),
            docs@.to_set() == moves0.dom(),
            moves0 == old(camera).moves@,
            cs0 == old(st).canvases@,
            camera.wf(),
            old(camera).wf(),
            st.wf(),
            st.fallback == old(st).fallback,
            others_are_kept(cs0, moves0, st.canvases@),
            forall|j: int|
                0 <= j < i ==> doc_is_stepped(
                    cs0,
                    #[trigger] docs@[j],
                    moves0[docs@[j]],
                    get_move(camera.moves@, docs@[j]),
                    st.canvases@,
                    now,
                ),
            forall|j: int|
                i <= j < docs@.len() ==> {
                    &&& camera.moves@.contains_key(#[trigger] docs@[j])
                    &&& camera.moves@[docs@[j]] == moves0[docs@[j]]
                    &&& doc_is_kept(cs0, docs@[j], st.canvases@)
                },
            forall|d: u64|
                !(#[trigger] moves0.contains_key(d)) ==> {
                    &&& !camera.moves@.contains_key(d)
                    &&& doc_is_kept(cs0, d, st.canvases@)
                },
        decreases docs@.len() - i,
    {
        let d: u64 = docs[i];
        assert(docs@.to_set().contains(d));
        assert(moves0.contains_key(d));
        let ghost before = st.canvases@;
        let ghost moves_before = camera.moves@;
        if let Some(m) = camera.moves.remove(&d) {
            let mut mv = m;
            let ds = st.get_mut(Some(d));
            let ghost base = *ds;
            let goes_on = tick_move(&mut mv, &mut ds.viewport, now);
            let ghost moved = *ds;
            if goes_on {
                let _ = camera.moves.insert(d, mv);
            }
            proof {
                law_documents_are_apart(before, d, moved);
                lemma_doc_place(before, d, 0);
                lemma_doc_place(cs0, d, 0);
                let p = doc_place(before, d, 0);
                let q = doc_place(cs0, d, 0);
                if p < cs0.len() {
                    assert(cs0[p].doc == before[p].doc);
                    assert(q <= p);
                    assert(before[q].doc == cs0[q].doc);
                    assert(q == p);
                }
            }
            assert(is_base_of(cs0, None, d, base));
            assert(is_stepped(
                moves0[d],
                base,
                get_move(camera.moves@, d),
                drawn(st.canvases@, None, d),
                now,
            ));
        }
        assert forall|e: u64| e != d implies doc_is_kept(before, e, st.canvases@) by {
            assert(is_drawn(st.canvases@, None, e) == is_drawn(before, None, e));
        }
        assert forall|e: u64| !(#[trigger] moves0.contains_key(e)) implies {
            &&& !camera.moves@.contains_key(e)
            &&& doc_is_kept(cs0, e, st.canvases@)
        } by {
            assert(e != d);
            assert(doc_is_kept(before, e, st.canvases@));
        }
        assert forall|j: int| 0 <= j < docs@.len() && j != i implies {
            &&& doc_is_kept(before, #[trigger] docs@[j], st.canvases@)
            &&& get_move(camera.moves@, docs@[j]) == get_move(moves_before, docs@[j])
        } by {
            assert(docs@[j] != d);
        }
        assert forall|j: int| 0 <= j < i implies doc_is_stepped(
            cs0,
            #[trigger] docs@[j],
            moves0[docs@[j]],
            get_move(camera.moves@, docs@[j]),
            st.canvases@,
            now,
        ) by {
            let base = choose|base: CanvasDocState|
                #[trigger] is_base_of(cs0, None, docs@[j], base) && is_stepped(
                    moves0[docs@[j]],
                    base,
                    get_move(moves_before, docs@[j]),
                    drawn(before, None, docs@[j]),
                    now,
                );
            assert(is_base_of(cs0, None, docs@[j], base));
        }
        i += 1;
    }
    assert forall|d: u64| #[trigger] moves0.contains_key(d) implies doc_is_stepped(
        cs0,
        d,
        moves0[d],
        get_move(camera.moves@, d),
        st.canvases@,
        now,
    ) by {
        assert(docs@.to_set().contains(d));
        let j = choose|j: int| 0 <= j < docs@.len() && docs@[j] == d;
        assert(docs@[j] == d);
    }
}

// ── Laws ─────────────────────────────────────────────────────────────────

/// A move that frames a diagram starts where the camera is.
pub proof fn law_fit_move_starts_at_camera(
    center: Pos,
    zoom: Fixed,
    fit_center: Pos,
    fit_zoom: Fixed,
)
    requires
        center.in_bounds(),
        zoom.in_bounds(),
    ensures
        sampled(fit_move(center, zoom, fit_center, fit_zoom), 0) == Some((center, zoom)),
{
    let f = fit_move(center, zoom, fit_center, fit_zoom);
    assert(next_frame(f, 0, 1) == 1);
    assert(ratio_spec(0, 700).steps == 0) by {
        assert(crate::fixed::whole_part(0 * UNIT, 700) == 0);
    }
    let t = ratio_spec(0, 700);
    lemma_times_zero(t);
    assert(eased(EaseKind::EaseInOutCubic, t).steps == 0);
    let z = eased(EaseKind::EaseInOutCubic, t);
    lemma_between_zero(center.x, fit_center.x, z);
    lemma_between_zero(center.y, fit_center.y, z);
    lemma_between_zero(zoom, fit_zoom, z);
}

proof fn lemma_times_zero(t: Fixed)
    requires
        t.steps == 0,
    ensures
        cube(t).steps == 0,
        cube(t).many_spec(4).steps == 0,
{
    assert(t.steps * t.steps == 0) by (nonlinear_arith)
        requires
            t.steps == 0,
    ;
    let s = t.times_spec(t);
    assert(s.steps * t.steps == 0) by (nonlinear_arith)
        requires
            t.steps == 0,
    ;
}

proof fn lemma_between_zero(a: Fixed, b: Fixed, t: Fixed)
    requires
        t.steps == 0,
        a.in_bounds(),
    ensures
        between(a, b, t) == a,
{
    let d = b.minus_spec(a);
    assert(d.steps * t.steps == 0) by (nonlinear_arith)
        requires
            t.steps == 0,
    ;
}

/// A move is over from the time of its last keyframe on.
pub proof fn law_move_ends_with_last_keyframe(frames: Seq<Keyframe>, elapsed: u32)
    requires
        elapsed >= total_ms_spec(frames),
    ensures
        sampled(frames, elapsed) is None,
{
}

/// What a widget shows lies around the point that the camera looks at, as far to
/// the left of it as to the right and as far above as below, and is as large as
/// the widget divided by the zoom, to within a step on each side.
pub proof fn law_visible_region_is_around_the_camera(v: Viewport, screen: Rect)
    requires
        screen.min.in_bounds() && screen.max.in_bounds(),
        0 <= screen.max.x.steps - screen.min.x.steps <= 0x1_0000 * UNIT,
        0 <= screen.max.y.steps - screen.min.y.steps <= 0x1_0000 * UNIT,
        v.zoom.steps >= UNIT / 1024,
        -0x1000_0000 * UNIT <= v.center.x.steps <= 0x1000_0000 * UNIT,
        -0x1000_0000 * UNIT <= v.center.y.steps <= 0x1000_0000 * UNIT,
    ensures
        ({
            let r = visible_region(v, screen);
            let w = r.max.x.steps - v.center.x.steps;
            let h = r.max.y.steps - v.center.y.steps;
            &&& v.center.x.steps - r.min.x.steps == w
            &&& v.center.y.steps - r.min.y.steps == h
            &&& 0 <= ((screen.max.x.steps - screen.min.x.steps) / 2) * UNIT - w * v.zoom.steps
                < v.zoom.steps
            &&& 0 <= ((screen.max.y.steps - screen.min.y.steps) / 2) * UNIT - h * v.zoom.steps
                < v.zoom.steps
        }),
{
    lemma_shown_half(screen.width_spec(), v.zoom);
    lemma_shown_half(screen.height_spec(), v.zoom);
}

proof fn lemma_shown_half(size: Fixed, zoom: Fixed)
    requires
        0 <= size.steps <= 0x1_0000 * UNIT,
        zoom.steps >= UNIT / 1024,
    ensures
        ({
            let h = size.half_spec().over_spec(zoom).steps;
            &&& 0 <= h <= 0x200_0000 * UNIT
            &&& 0 <= (size.steps / 2) * UNIT - h * zoom.steps < zoom.steps
        }),
{
    let n = (size.steps / 2) * UNIT;
    let d = zoom.steps as int;
    let q = n / d;
    assert(0 <= n - q * d < d) by (nonlinear_arith)
        requires
            d > 0,
            q == n / d,
    ;
    assert(0 <= q <= 0x200_0000 * UNIT) by (nonlinear_arith)
        requires
            0 <= n - q * d < d,
            0 <= n <= 0x8000 * UNIT * UNIT,
            d >= UNIT / 1024,
            UNIT == 0x1_0000_0000,
    ;
}

proof fn lemma_cube(t: Fixed)
    requires
        0 <= t.steps <= UNIT,
    ensures
        0 <= cube(t).steps <= UNIT,
        0 <= t.steps * t.steps * t.steps - cube(t).steps * UNIT * UNIT < 2 * UNIT * UNIT,
{
    let x = t.steps as int;
    assert(0 <= x * x <= UNIT * UNIT) by (nonlinear_arith)
        requires
            0 <= x <= UNIT,
    ;
    crate::fixed::law_products_round_toward_zero(t, t);
    let s = t.times_spec(t);
    let y = s.steps as int;
    assert(y <= UNIT) by (nonlinear_arith)
        requires
            y * UNIT <= x * x,
            x * x <= UNIT * UNIT,
            UNIT == 0x1_0000_0000,
    ;
    assert(0 <= y * x <= UNIT * UNIT) by (nonlinear_arith)
        requires
            0 <= x <= UNIT,
            0 <= y <= UNIT,
    ;
    crate::fixed::law_products_round_toward_zero(s, t);
    let c = cube(t).steps as int;
    assert(c <= UNIT) by (nonlinear_arith)
        requires
            c * UNIT <= y * x,
            y * x <= UNIT * UNIT,
            UNIT == 0x1_0000_0000,
    ;
    assert(0 <= x * x * x - c * UNIT * UNIT < 2 * UNIT * UNIT) by (nonlinear_arith)
        requires
            0 <= x <= UNIT,
            0 <= x * x - y * UNIT < UNIT,
            0 <= y * x - c * UNIT < UNIT,
            UNIT == 0x1_0000_0000,
    ;
}

/// A move that holds stays, an even one is as far along as its time, one that
/// slows down has left of the way the cube of what is left of the time, and one
/// that is fast in the middle has gone four cubes of the time in its first half
/// and has as much left in its second. All but the first end at the end.
pub proof fn law_easing_follows_cubes(t: Fixed)
    requires
        0 <= t.steps <= UNIT,
    ensures
        eased(EaseKind::Hold, t).steps == 0,
        eased(EaseKind::Linear, t) == t,
        ({
            let x = t.steps as int;
            let r = UNIT - x;
            let out = eased(EaseKind::EaseOutCubic, t).steps;
            let both = eased(EaseKind::EaseInOutCubic, t).steps;
            &&& 0 <= r * r * r - (UNIT - out) * UNIT * UNIT < 2 * UNIT * UNIT
            &&& 2 * x < UNIT ==> 0 <= 4 * (x * x * x) - both * UNIT * UNIT < 8 * UNIT * UNIT
            &&& 2 * x >= UNIT ==> 0 <= 4 * (r * r * r) - (UNIT - both) * UNIT * UNIT < 2 * UNIT
                * UNIT
        }),
        t.steps == UNIT ==> eased(EaseKind::EaseOutCubic, t).steps == UNIT,
        t.steps == UNIT ==> eased(EaseKind::EaseInOutCubic, t).steps == UNIT,
{
    let x = t.steps as int;
    let r = one().minus_spec(t);
    lemma_cube(r);
    if 2 * x < UNIT {
        lemma_cube(t);
        let c = cube(t).steps as int;
        assert(c * 8 <= UNIT) by (nonlinear_arith)
            requires
                0 <= x * x * x - c * UNIT * UNIT,
                0 <= 2 * x < UNIT,
                UNIT == 0x1_0000_0000,
        ;
        assert(0 <= 4 * (x * x * x) - (4 * c) * UNIT * UNIT < 8 * UNIT * UNIT)
            by (nonlinear_arith)
            requires
                0 <= x * x * x - c * UNIT * UNIT < 2 * UNIT * UNIT,
        ;
    } else {
        let d = r.plus_spec(r);
        lemma_cube(d);
        let y = r.steps as int;
        let z = d.steps as int;
        let c = cube(d).steps as int;
        let h = cube(d).half_spec().steps as int;
        assert(0 <= 4 * (y * y * y) - h * UNIT * UNIT < 2 * UNIT * UNIT) by (nonlinear_arith)
            requires
                z == 2 * y,
                0 <= z * z * z - c * UNIT * UNIT < 2 * UNIT * UNIT,
                c - 1 <= 2 * h <= c,
                UNIT == 0x1_0000_0000,
        ;
    }
    if t.steps == UNIT {
        lemma_times_zero(r);
        lemma_times_zero(r.plus_spec(r));
    }
}

/// A number part of the way from one to another has gone that part of their
/// difference, to within a step.
pub proof fn law_between_is_part_of_the_way(a: Fixed, b: Fixed, t: Fixed)
    requires
        a.in_bounds(),
        b.in_bounds(),
        -crate::fixed::MAX_STEPS <= b.steps - a.steps <= crate::fixed::MAX_STEPS,
        0 <= t.steps <= UNIT,
    ensures
        ({
            let r = between(a, b, t);
            &&& -UNIT < (r.steps - a.steps) * UNIT - (b.steps - a.steps) * t.steps < UNIT
            &&& a.steps <= b.steps ==> a.steps <= r.steps <= b.steps
            &&& b.steps <= a.steps ==> b.steps <= r.steps <= a.steps
            &&& t.steps == 0 ==> r == a
            &&& t.steps == UNIT ==> r == b
        }),
{
    let d = b.minus_spec(a);
    let x = d.steps as int;
    let y = t.steps as int;
    assert(x >= 0 ==> 0 <= x * y <= x * UNIT) by (nonlinear_arith)
        requires
            0 <= y <= UNIT,
    ;
    assert(x <= 0 ==> x * UNIT <= x * y <= 0) by (nonlinear_arith)
        requires
            0 <= y <= UNIT,
    ;
    crate::fixed::law_products_round_toward_zero(d, t);
    let p = d.times_spec(t).steps as int;
    assert(x >= 0 ==> 0 <= p <= x) by (nonlinear_arith)
        requires
            x >= 0 ==> 0 <= x * y <= x * UNIT,
            x * y >= 0 ==> p >= 0 && p * UNIT <= x * y,
            UNIT == 0x1_0000_0000,
    ;
    assert(x <= 0 ==> x <= p <= 0) by (nonlinear_arith)
        requires
            x <= 0 ==> x * UNIT <= x * y <= 0,
            x * y <= 0 ==> p <= 0 && p * UNIT >= x * y,
            UNIT == 0x1_0000_0000,
    ;
    assert(y == UNIT ==> p == x) by (nonlinear_arith)
        requires
            -UNIT < x * y - p * UNIT < UNIT,
            UNIT == 0x1_0000_0000,
    ;
    if y == 0 {
        lemma_between_zero(a, b, t);
    }
}

/// Between two keyframes the camera has gone as much of the way from the earlier
/// to the later as the later's easing gives for the part of the time that is
/// gone.
pub proof fn law_moves_run_from_keyframe_to_keyframe(
    frames: Seq<Keyframe>,
    k: int,
    elapsed: u32,
) -> (t: Fixed)
    requires
        in_time_order(frames),
        0 <= k < frames.len() - 1,
        frames[k].at_ms <= elapsed < frames[k + 1].at_ms,
    ensures
        ({
            let a = frames[k];
            let b = frames[k + 1];
            let span = b.at_ms - a.at_ms;
            let e = eased(b.ease_in, t);
            &&& 0 <= t.steps < UNIT
            &&& 0 <= (elapsed - a.at_ms) * UNIT - t.steps * span < span
            &&& sampled(frames, elapsed) matches Some((center, zoom)) && {
                &&& center.x == between(a.center.x, b.center.x, e)
                &&& center.y == between(a.center.y, b.center.y, e)
                &&& zoom == between(a.zoom, b.zoom, e)
            }
        }),
{
    lemma_next_frame(frames, elapsed, 1);
    let i = next_frame(frames, elapsed, 1);
    if i < k + 1 {
        assert(frames[i].at_ms <= frames[k].at_ms);
    }
    if i > k + 1 {
        assert(frames[k + 1].at_ms <= elapsed);
    }
    assert(i == k + 1);
    assert(frames[k + 1].at_ms <= frames[frames.len() - 1].at_ms);
    let n = elapsed - frames[k].at_ms;
    let d = frames[k + 1].at_ms - frames[k].at_ms;
    let q = (n * UNIT) / d;
    assert(0 <= n * UNIT - q * d < d && 0 <= q < UNIT && n * UNIT >= 0) by (nonlinear_arith)
        requires
            0 <= n < d,
            q == (n * UNIT) / d,
            UNIT == 0x1_0000_0000,
    ;
    ratio_spec(n, d)
}

/// A move that frames a diagram takes seven tenths of a second, ends where the
/// diagram is framed, and on its way stays between the two places.
pub proof fn law_fit_move_ends_at_the_diagram(
    center: Pos,
    zoom: Fixed,
    fit_center: Pos,
    fit_zoom: Fixed,
    elapsed: u32,
)
    ensures
        ({
            let f = fit_move(center, zoom, fit_center, fit_zoom);
            &&& in_time_order(f)
            &&& f.last().at_ms == 700
            &&& f.last().center == fit_center
            &&& f.last().zoom == fit_zoom
            &&& f[0].center == center && f[0].zoom == zoom
            &&& f.len() == 2
            &&& sampled(f, elapsed) is Some <==> elapsed < 700
        }),
{
    let f = fit_move(center, zoom, fit_center, fit_zoom);
    lemma_next_frame(f, elapsed, 1);
}

/// A move yields to the user: once the camera is more than half a unit, along the
/// two axes together, from where the move put it, or its zoom more than five
/// thousandths off, the next step ends the move. A camera that is nearer to where
/// the move put it goes on along the keyframes.
pub proof fn law_moves_yield_to_the_user(mv: CameraMove, v: Viewport, now: u64)
    requires
        mv.last_applied matches Some((c, z)) && {
            &&& v.center.in_bounds() && v.zoom.in_bounds()
            &&& -0x1000_0000 * UNIT <= c.x.steps - v.center.x.steps <= 0x1000_0000 * UNIT
            &&& -0x1000_0000 * UNIT <= c.y.steps - v.center.y.steps <= 0x1000_0000 * UNIT
            &&& -0x1000_0000 * UNIT <= z.steps - v.zoom.steps <= 0x1000_0000 * UNIT
        },
    ensures
        mv.last_applied matches Some((c, z)) && {
            let dx = v.center.x.steps - c.x.steps;
            let dy = v.center.y.steps - c.y.steps;
            let dz = v.zoom.steps - z.steps;
            &&& dx + dy > UNIT / 2 || dx - dy > UNIT / 2 || dy - dx > UNIT / 2 || -dx - dy > UNIT
                / 2 ==> step_target(mv, v, now) is None
            &&& 1000 * dz > 5 * UNIT || -1000 * dz > 5 * UNIT ==> step_target(mv, v, now) is None
            &&& dx + dy <= UNIT / 2 && dx - dy <= UNIT / 2 && dy - dx <= UNIT / 2 && -dx - dy <= UNIT
                / 2 && -5 * UNIT + 1000 <= 1000 * dz <= 5 * UNIT - 1000 ==> step_target(mv, v, now)
                == sampled(mv.keyframes@, elapsed_ms(mv, now))
            &&& now >= mv.started_at && now - mv.started_at <= u32::MAX ==> elapsed_ms(mv, now)
                == now - mv.started_at
            &&& now < mv.started_at ==> elapsed_ms(mv, now) == 0
        },
{
    crate::fixed::law_ratios_of_whole_numbers(5, 1000);
}

/// A move that runs in a document puts the camera of the document's first canvas
/// where the keyframes have it and remembers that; a move that is over leaves the
/// canvas as it was. Either way nothing but the camera changes.
pub proof fn law_moves_turn_the_camera_only(
    cs: Seq<TabCanvas>,
    d: u64,
    mv: CameraMove,
    new_mv: Option<CameraMove>,
    new_cs: Seq<TabCanvas>,
    now: u64,
)
    requires
        doc_is_stepped(cs, d, mv, new_mv, new_cs, now),
        is_drawn(cs, None, d),
    ensures
        ({
            let was = drawn(cs, None, d);
            let new = drawn(new_cs, None, d);
            &&& new_mv is None ==> new == was
            &&& new_mv matches Some(m) ==> {
                &&& sampled(mv.keyframes@, elapsed_ms(mv, now)) == Some(
                    (new.viewport.center, new.viewport.zoom),
                )
                &&& m.last_applied == Some((new.viewport.center, new.viewport.zoom))
                &&& m.keyframes == mv.keyframes && m.started_at == mv.started_at
                &&& new.scene == was.scene && new.selection == was.selection && new.pulses
                    == was.pulses
            }
            &&& mv.last_applied is None && sampled(mv.keyframes@, elapsed_ms(mv, now)) is Some
                ==> new_mv is Some
        }),
{
}

} // verus!
