//! Points, rectangles and the routing of wires between ports.
use crate::fixed::{Fixed, MAX_STEPS, UNIT};
use vstd::prelude::*;

verus! {

/// A point of the canvas; y grows downwards.
#[derive(Clone, Copy, Debug, PartialEq, Eq, Structural)]
pub struct Pos {
    pub x: Fixed,
    pub y: Fixed,
}

/// A rectangle of the canvas by two corners.
#[derive(Clone, Copy, Debug, PartialEq, Eq, Structural)]
pub struct Rect {
    pub min: Pos,
    pub max: Pos,
}

impl Pos {
    pub fn new(x: Fixed, y: Fixed) -> (r: Pos)
        ensures
            r == (Pos { x, y }),
    {
        Pos { x, y }
    }

    /// Whether both coordinates lie between the bounds of [`Fixed`].
    pub open spec fn in_bounds(self) -> bool {
        self.x.in_bounds() && self.y.in_bounds()
    }
}

impl Rect {
    pub open spec fn width_spec(self) -> Fixed {
        self.max.x.minus_spec(self.min.x)
    }

    pub open spec fn height_spec(self) -> Fixed {
        self.max.y.minus_spec(self.min.y)
    }

    pub open spec fn center_spec(self) -> Pos {
        Pos {
            x: self.min.x.plus_spec(self.max.x).half_spec(),
            y: self.min.y.plus_spec(self.max.y).half_spec(),
        }
    }

    /// The rectangle with corner `min` and the given size.
    pub open spec fn sized_spec(min: Pos, w: Fixed, h: Fixed) -> Rect {
        Rect { min, max: Pos { x: min.x.plus_spec(w), y: min.y.plus_spec(h) } }
    }

    pub fn width(&self) -> (r: Fixed)
        ensures
            r == self.width_spec(),
    {
        self.max.x.minus(self.min.x)
    }

    pub fn height(&self) -> (r: Fixed)
        ensures
            r == self.height_spec(),
    {
        self.max.y.minus(self.min.y)
    }

    pub fn center(&self) -> (r: Pos)
        ensures
            r == self.center_spec(),
    {
        Pos { x: self.min.x.plus(self.max.x).half(), y: self.min.y.plus(self.max.y).half() }
    }

    /// The rectangle with corner `min` and the given size.
    pub fn from_min_size(min: Pos, w: Fixed, h: Fixed) -> (r: Rect)
        ensures
            r == Rect::sized_spec(min, w, h),
    {
        Rect { min, max: Pos { x: min.x.plus(w), y: min.y.plus(h) } }
    }
}

// ── Port directions ──────────────────────────────────────────────────────

/// Which edge of an icon a port sits on. A wire leaves the port along that
/// edge's outward axis.
#[derive(Clone, Copy, Debug, PartialEq, Eq, Structural)]
pub enum PortDir {
    Left,
    Right,
    Up,
    Down,
    /// The port sits in the interior of the icon, or nothing is known of it.
    Inside,
}

/// The short name of a direction.
pub open spec fn dir_name(d: PortDir) -> Seq<char> {
    match d {
        PortDir::Left => "left"@,
        PortDir::Right => "right"@,
        PortDir::Up => "up"@,
        PortDir::Down => "down"@,
        PortDir::Inside => ""@,
    }
}

/// The direction that a short name stands for.
pub open spec fn dir_of_name(s: Seq<char>) -> PortDir {
    if s == "left"@ {
        PortDir::Left
    } else if s == "right"@ {
        PortDir::Right
    } else if s == "up"@ {
        PortDir::Up
    } else if s == "down"@ {
        PortDir::Down
    } else {
        PortDir::Inside
    }
}

/// The unit vector that points out of the icon, y downwards.
pub open spec fn outward_spec(d: PortDir) -> (int, int) {
    match d {
        PortDir::Left => (-1, 0),
        PortDir::Right => (1, 0),
        PortDir::Up => (0, -1),
        PortDir::Down => (0, 1),
        PortDir::Inside => (0, 0),
    }
}

impl Default for PortDir {
    fn default() -> (r: PortDir)
        ensures
            r == PortDir::Inside,
    {
        PortDir::Inside
    }
}

impl PortDir {
    /// Whether the port's outward axis is the horizontal one.
    pub open spec fn is_horizontal(self) -> bool {
        self is Left || self is Right
    }

    /// Whether the port's outward axis is the vertical one.
    pub open spec fn is_vertical(self) -> bool {
        self is Up || self is Down
    }

    /// The short name of the direction.
    pub fn as_str(self) -> (r: &'static str)
        ensures
            r@ == dir_name(self),
    {
        match self {
            PortDir::Left => "left",
            PortDir::Right => "right",
            PortDir::Up => "up",
            PortDir::Down => "down",
            PortDir::Inside => "",
        }
    }

    /// The direction that a short name stands for.
    pub fn from_str(s: &str) -> (r: PortDir)
        ensures
            r == dir_of_name(s@),
    {
        let t: String = s.to_owned();
        if t == "left".to_owned() {
            PortDir::Left
        } else if t == "right".to_owned() {
            PortDir::Right
        } else if t == "up".to_owned() {
            PortDir::Up
        } else if t == "down".to_owned() {
            PortDir::Down
        } else {
            PortDir::Inside
        }
    }

    /// The unit vector that points out of the icon, y downwards.
    pub fn outward(self) -> (r: (i32, i32))
        ensures
            r.0 == outward_spec(self).0,
            r.1 == outward_spec(self).1,
    {
        match self {
            PortDir::Left => (-1, 0),
            PortDir::Right => (1, 0),
            PortDir::Up => (0, -1),
            PortDir::Down => (0, 1),
            PortDir::Inside => (0, 0),
        }
    }

    fn horizontal(self) -> (r: bool)
        ensures
            r == self.is_horizontal(),
    {
        match self {
            PortDir::Left => true,
            PortDir::Right => true,
            _ => false,
        }
    }

    fn vertical(self) -> (r: bool)
        ensures
            r == self.is_vertical(),
    {
        match self {
            PortDir::Up => true,
            PortDir::Down => true,
            _ => false,
        }
    }
}

/// A direction's short name stands for that direction.
pub proof fn law_dir_name_round_trip(d: PortDir)
    ensures
        dir_of_name(dir_name(d)) == d,
{
    reveal_strlit("left");
    reveal_strlit("right");
    reveal_strlit("up");
    reveal_strlit("down");
    reveal_strlit("");
    assert("left"@.len() == 4 && "right"@.len() == 5 && "up"@.len() == 2 && "down"@.len() == 4
        && ""@.len() == 0);
    assert("left"@[0] != "down"@[0]);
}

/// The bound below which a component counts as no direction: two fifths.
pub open spec fn dir_threshold() -> Fixed {
    crate::fixed::ratio_spec(2, 5)
}

/// The icon edge that a direction points at, y downwards: the larger
/// component decides, and none where both are small.
pub open spec fn edge_dir(x: Fixed, y: Fixed) -> PortDir {
    let ax = x.abs_spec().steps;
    let ay = y.abs_spec().steps;
    if ax < dir_threshold().steps && ay < dir_threshold().steps {
        PortDir::Inside
    } else if ax >= ay {
        if x.steps >= 0 {
            PortDir::Right
        } else {
            PortDir::Left
        }
    } else if y.steps >= 0 {
        PortDir::Down
    } else {
        PortDir::Up
    }
}

/// The icon edge that a direction points at, y downwards.
pub fn port_edge_dir(x: Fixed, y: Fixed) -> (r: PortDir)
    ensures
        r == edge_dir(x, y),
{
    let threshold = Fixed::ratio(2, 5);
    let ax = x.abs();
    let ay = y.abs();
    if ax.steps < threshold.steps && ay.steps < threshold.steps {
        return PortDir::Inside;
    }
    if ax.steps >= ay.steps {
        if x.steps >= 0 {
            PortDir::Right
        } else {
            PortDir::Left
        }
    } else if y.steps >= 0 {
        PortDir::Down
    } else {
        PortDir::Up
    }
}

// ── Wire routing ─────────────────────────────────────────────────────────

/// The length of the stub by which a wire leaves a port, in pixels at normal
/// zoom.
pub const STUB_PX: i32 = 18;

/// `p` moved by `len` out of the icon.
pub open spec fn step_spec(p: Pos, dir: PortDir, len: Fixed) -> Pos {
    match dir {
        PortDir::Left => Pos { x: p.x.minus_spec(len), y: p.y },
        PortDir::Right => Pos { x: p.x.plus_spec(len), y: p.y },
        PortDir::Up => Pos { x: p.x, y: p.y.minus_spec(len) },
        PortDir::Down => Pos { x: p.x, y: p.y.plus_spec(len) },
        PortDir::Inside => p,
    }
}

/// `p` moved by `len` out of the icon.
pub fn step(p: Pos, dir: PortDir, len: Fixed) -> (r: Pos)
    ensures
        r == step_spec(p, dir, len),
{
    match dir {
        PortDir::Left => Pos { x: p.x.minus(len), y: p.y },
        PortDir::Right => Pos { x: p.x.plus(len), y: p.y },
        PortDir::Up => Pos { x: p.x, y: p.y.minus(len) },
        PortDir::Down => Pos { x: p.x, y: p.y.plus(len) },
        PortDir::Inside => p,
    }
}

/// Whether the outward axis of a port at `at` carries a wire toward `other`.
pub open spec fn faces(at: Pos, dir: PortDir, other: Pos) -> bool {
    match dir {
        PortDir::Left => other.x.steps < at.x.steps,
        PortDir::Right => other.x.steps > at.x.steps,
        PortDir::Up => other.y.steps < at.y.steps,
        PortDir::Down => other.y.steps > at.y.steps,
        PortDir::Inside => false,
    }
}

fn port_faces(at: Pos, dir: PortDir, other: Pos) -> (r: bool)
    ensures
        r == faces(at, dir, other),
{
    match dir {
        PortDir::Left => other.x.steps < at.x.steps,
        PortDir::Right => other.x.steps > at.x.steps,
        PortDir::Up => other.y.steps < at.y.steps,
        PortDir::Down => other.y.steps > at.y.steps,
        PortDir::Inside => false,
    }
}

pub open spec fn distance(a: int, b: int) -> int {
    if a < b {
        b - a
    } else {
        a - b
    }
}

/// Whether two points lie within half a pixel of each other on both axes.
pub open spec fn near(a: Pos, b: Pos) -> bool {
    &&& distance(a.x.steps as int, b.x.steps as int) < UNIT / 2
    &&& distance(a.y.steps as int, b.y.steps as int) < UNIT / 2
}

/// Whether a horizontal or a vertical line runs through both points.
pub open spec fn axis_aligned(a: Pos, b: Pos) -> bool {
    a.x == b.x || a.y == b.y
}

/// Where a wire between two horizontal ports, or two vertical ones, turns
/// along their shared axis: half-way where both face each other, else at the
/// end of the stub that faces away, the first port's before the second's.
pub open spec fn pivot(
    from_helps: bool,
    to_helps: bool,
    f_stub: Fixed,
    t_stub: Fixed,
) -> Fixed {
    if from_helps && to_helps {
        f_stub.plus_spec(t_stub).half_spec()
    } else if !from_helps {
        f_stub
    } else {
        t_stub
    }
}

/// Whether two coordinates lie more than half a pixel apart.
pub open spec fn apart(a: Fixed, b: Fixed) -> bool {
    a.minus_spec(b).abs_spec().steps > UNIT / 2
}

/// The turning points of a wire between the ends of two horizontal stubs.
pub open spec fn horizontal_turns(
    f_stub: Pos,
    t_stub: Pos,
    from_helps: bool,
    to_helps: bool,
) -> Seq<Pos> {
    let px = pivot(from_helps, to_helps, f_stub.x, t_stub.x);
    let py = f_stub.y.plus_spec(t_stub.y).half_spec();
    if apart(py, f_stub.y) {
        seq![
            Pos { x: px, y: f_stub.y },
            Pos { x: px, y: py },
            Pos { x: t_stub.x, y: py },
        ]
    } else {
        seq![Pos { x: px, y: f_stub.y }, Pos { x: t_stub.x, y: f_stub.y }]
    }
}

/// The turning points of a wire between the ends of two vertical stubs.
pub open spec fn vertical_turns(
    f_stub: Pos,
    t_stub: Pos,
    from_helps: bool,
    to_helps: bool,
) -> Seq<Pos> {
    let py = pivot(from_helps, to_helps, f_stub.y, t_stub.y);
    let px = f_stub.x.plus_spec(t_stub.x).half_spec();
    if apart(px, f_stub.x) {
        seq![
            Pos { x: f_stub.x, y: py },
            Pos { x: px, y: py },
            Pos { x: px, y: t_stub.y },
        ]
    } else {
        seq![Pos { x: f_stub.x, y: py }, Pos { x: f_stub.x, y: t_stub.y }]
    }
}

/// The turning points of a wire where a direction is missing: half-way, along
/// the axis of the direction that is known, and horizontally where none is.
pub open spec fn midway_turns(
    f_stub: Pos,
    t_stub: Pos,
    from_dir: PortDir,
    to_dir: PortDir,
) -> Seq<Pos> {
    if from_dir.is_horizontal() || to_dir.is_horizontal() || (!from_dir.is_vertical()
        && !to_dir.is_vertical()) {
        let mx = f_stub.x.plus_spec(t_stub.x).half_spec();
        seq![Pos { x: mx, y: f_stub.y }, Pos { x: mx, y: t_stub.y }]
    } else {
        let my = f_stub.y.plus_spec(t_stub.y).half_spec();
        seq![Pos { x: f_stub.x, y: my }, Pos { x: t_stub.x, y: my }]
    }
}

/// The corner of a wire between a horizontal and a vertical port: where the
/// two outward axes cross. No corner where it falls on a port.
pub open spec fn corner_turn(from: Pos, from_dir: PortDir, to: Pos) -> Seq<Pos> {
    let corner = if from_dir.is_horizontal() {
        Pos { x: to.x, y: from.y }
    } else {
        Pos { x: from.x, y: to.y }
    };
    if corner != from && corner != to {
        seq![corner]
    } else {
        Seq::empty()
    }
}

/// A point where the direction is known, no point where it is not.
pub open spec fn stub_if_known(dir: PortDir, stub: Pos) -> Seq<Pos> {
    if dir is Inside {
        Seq::empty()
    } else {
        seq![stub]
    }
}

/// The points of a wire before points that lie together are merged.
pub open spec fn wire_points(
    from: Pos,
    from_dir: PortDir,
    to: Pos,
    to_dir: PortDir,
    stub: Fixed,
) -> Seq<Pos> {
    let f_stub = step_spec(from, from_dir, stub);
    let t_stub = step_spec(to, to_dir, stub);
    let from_helps = faces(from, from_dir, to);
    let to_helps = faces(to, to_dir, from);
    if (from_dir.is_horizontal() && to_dir.is_vertical()) || (from_dir.is_vertical()
        && to_dir.is_horizontal()) {
        seq![from] + corner_turn(from, from_dir, to) + seq![to]
    } else {
        seq![from] + stub_if_known(from_dir, f_stub) + stub_turns(
            f_stub,
            t_stub,
            from_dir,
            to_dir,
            from_helps,
            to_helps,
        ) + stub_if_known(to_dir, t_stub) + seq![to]
    }
}

/// The turning points of a wire between the ends of two stubs.
pub open spec fn stub_turns(
    f_stub: Pos,
    t_stub: Pos,
    from_dir: PortDir,
    to_dir: PortDir,
    from_helps: bool,
    to_helps: bool,
) -> Seq<Pos> {
    if from_dir.is_horizontal() && to_dir.is_horizontal() {
        horizontal_turns(f_stub, t_stub, from_helps, to_helps)
    } else if from_dir.is_vertical() && to_dir.is_vertical() {
        vertical_turns(f_stub, t_stub, from_helps, to_helps)
    } else {
        midway_turns(f_stub, t_stub, from_dir, to_dir)
    }
}

/// The points without those that lie near the last point kept before them.
pub open spec fn merged(pts: Seq<Pos>) -> Seq<Pos>
    decreases pts.len(),
{
    if pts.len() == 0 {
        Seq::empty()
    } else {
        let kept = merged(pts.drop_last());
        if kept.len() > 0 && near(pts.last(), kept.last()) {
            kept
        } else {
            kept.push(pts.last())
        }
    }
}

/// The points, and `end` behind them unless they end there already.
pub open spec fn ending_at(pts: Seq<Pos>, end: Pos) -> Seq<Pos> {
    if pts.len() > 0 && pts.last() == end {
        pts
    } else {
        pts.push(end)
    }
}

/// The wire between two ports.
pub open spec fn wire(
    from: Pos,
    from_dir: PortDir,
    to: Pos,
    to_dir: PortDir,
    stub: Fixed,
) -> Seq<Pos> {
    ending_at(merged(wire_points(from, from_dir, to, to_dir, stub)), to)
}

fn is_near(a: Pos, b: Pos) -> (r: bool)
    ensures
        r == near(a, b),
{
    let half_unit: i64 = 0x8000_0000;
    assert(half_unit == UNIT / 2);
    let dx = a.x.minus(b.x).abs();
    let dy = a.y.minus(b.y).abs();
    dx.steps < half_unit && dy.steps < half_unit
}

fn far_apart(a: Fixed, b: Fixed) -> (r: bool)
    ensures
        r == apart(a, b),
{
    let half_unit: i64 = 0x8000_0000;
    assert(half_unit == UNIT / 2);
    a.minus(b).abs().steps > half_unit
}

fn merge_points(pts: &Vec<Pos>) -> (r: Vec<Pos>)
    ensures
        r@ == merged(pts@),
{
    let mut out: Vec<Pos> = Vec::new();
    let mut i: usize = 0;
    while i < pts.len()
        invariant
            i <= pts@.len(),
            out@ == merged(pts@.take(i as int)),
        decreases pts@.len() - i,
    {
        assert(pts@.take(i + 1).drop_last() =~= pts@.take(i as int));
        assert(pts@.take(i + 1).last() == pts@[i as int]);
        let p = pts[i];
        if out.len() == 0 || !is_near(p, out[out.len() - 1]) {
            out.push(p);
        }
        i += 1;
    }
    assert(pts@.take(i as int) =~= pts@);
    out
}

fn turns_between_stubs(
    f_stub: Pos,
    t_stub: Pos,
    from_dir: PortDir,
    to_dir: PortDir,
    from_helps: bool,
    to_helps: bool,
) -> (r: Vec<Pos>)
    ensures
        r@ == stub_turns(f_stub, t_stub, from_dir, to_dir, from_helps, to_helps),
{
    let f_horiz = from_dir.horizontal();
    let f_vert = from_dir.vertical();
    let t_horiz = to_dir.horizontal();
    let t_vert = to_dir.vertical();
    let mut pts: Vec<Pos> = Vec::new();
    if f_horiz && t_horiz {
        let px = turning_point(from_helps, to_helps, f_stub.x, t_stub.x);
        let py = f_stub.y.plus(t_stub.y).half();
        pts.push(Pos { x: px, y: f_stub.y });
        if far_apart(py, f_stub.y) {
            pts.push(Pos { x: px, y: py });
            pts.push(Pos { x: t_stub.x, y: py });
        } else {
            pts.push(Pos { x: t_stub.x, y: f_stub.y });
        }
        assert(pts@ =~= horizontal_turns(f_stub, t_stub, from_helps, to_helps));
    } else if f_vert && t_vert {
        let py = turning_point(from_helps, to_helps, f_stub.y, t_stub.y);
        let px = f_stub.x.plus(t_stub.x).half();
        pts.push(Pos { x: f_stub.x, y: py });
        if far_apart(px, f_stub.x) {
            pts.push(Pos { x: px, y: py });
            pts.push(Pos { x: px, y: t_stub.y });
        } else {
            pts.push(Pos { x: f_stub.x, y: t_stub.y });
        }
        assert(pts@ =~= vertical_turns(f_stub, t_stub, from_helps, to_helps));
    } else if f_horiz || t_horiz || (!f_vert && !t_vert) {
        let mx = f_stub.x.plus(t_stub.x).half();
        pts.push(Pos { x: mx, y: f_stub.y });
        pts.push(Pos { x: mx, y: t_stub.y });
        assert(pts@ =~= midway_turns(f_stub, t_stub, from_dir, to_dir));
    } else {
        let my = f_stub.y.plus(t_stub.y).half();
        pts.push(Pos { x: f_stub.x, y: my });
        pts.push(Pos { x: t_stub.x, y: my });
        assert(pts@ =~= midway_turns(f_stub, t_stub, from_dir, to_dir));
    }
    pts
}

fn turning_point(from_helps: bool, to_helps: bool, f_stub: Fixed, t_stub: Fixed) -> (r: Fixed)
    ensures
        r == pivot(from_helps, to_helps, f_stub, t_stub),
{
    if from_helps && to_helps {
        f_stub.plus(t_stub).half()
    } else if !from_helps {
        f_stub
    } else {
        t_stub
    }
}

/// The points of a wire that runs horizontally and vertically between two
/// ports.
///
/// Ports whose outward axes are perpendicular meet at one corner. Ports on the
/// same axis are left by a stub each, and the wire turns half-way between the
/// stubs where the ports face each other, or wraps around the port that faces
/// away. Where a direction is missing the wire turns half-way.
///
/// The wire starts at `from` and ends at `to`, and no two neighbouring points
/// are the same.
pub fn route_orthogonal(
    from: Pos,
    from_dir: PortDir,
    to: Pos,
    to_dir: PortDir,
    stub: Fixed,
) -> (r: Vec<Pos>)
    ensures
        r@ == wire(from, from_dir, to, to_dir, stub),
{
    let mut pts: Vec<Pos> = Vec::new();
    pts.push(from);
    if (from_dir.horizontal() && to_dir.vertical()) || (from_dir.vertical()
        && to_dir.horizontal()) {
        let corner = if from_dir.horizontal() {
            Pos { x: to.x, y: from.y }
        } else {
            Pos { x: from.x, y: to.y }
        };
        if corner != from && corner != to {
            pts.push(corner);
        }
        pts.push(to);
    } else {
        let f_stub = step(from, from_dir, stub);
        let t_stub = step(to, to_dir, stub);
        if from_dir != PortDir::Inside {
            pts.push(f_stub);
        }
        let from_helps = port_faces(from, from_dir, to);
        let to_helps = port_faces(to, to_dir, from);
        let mut turns = turns_between_stubs(
            f_stub,
            t_stub,
            from_dir,
            to_dir,
            from_helps,
            to_helps,
        );
        pts.append(&mut turns);
        if to_dir != PortDir::Inside {
            pts.push(t_stub);
        }
        pts.push(to);
    }
    assert(pts@ =~= wire_points(from, from_dir, to, to_dir, stub));
    let mut out = merge_points(&pts);
    if out.len() == 0 || out[out.len() - 1] != to {
        out.push(to);
    }
    out
}

/// Whether each two neighbouring points share a coordinate.
pub open spec fn follows_axes(w: Seq<Pos>) -> bool {
    forall|i: int| 0 < i < w.len() ==> axis_aligned(w[i - 1], #[trigger] w[i])
}

proof fn lemma_append_follows_axes(a: Seq<Pos>, b: Seq<Pos>)
    requires
        follows_axes(a),
        follows_axes(b),
        a.len() > 0,
        b.len() > 0 ==> axis_aligned(a.last(), b[0]),
    ensures
        follows_axes(a + b),
{
    let w = a + b;
    assert forall|i: int| 0 < i < w.len() implies axis_aligned(w[i - 1], #[trigger] w[i]) by {
        if i < a.len() {
            assert(axis_aligned(a[i - 1], a[i]));
        } else if i > a.len() {
            assert(axis_aligned(b[i - 1 - a.len()], b[i - a.len()]));
        }
    }
}

proof fn lemma_turns_follow_axes(
    f_stub: Pos,
    t_stub: Pos,
    from_dir: PortDir,
    to_dir: PortDir,
    from_helps: bool,
    to_helps: bool,
)
    ensures
        ({
            let w = stub_turns(f_stub, t_stub, from_dir, to_dir, from_helps, to_helps);
            &&& w.len() > 0
            &&& follows_axes(w)
            &&& axis_aligned(f_stub, w[0])
            &&& axis_aligned(w.last(), t_stub)
        }),
{
}

proof fn lemma_wire_points_follow_axes(
    from: Pos,
    from_dir: PortDir,
    to: Pos,
    to_dir: PortDir,
    stub: Fixed,
)
    ensures
        ({
            let w = wire_points(from, from_dir, to, to_dir, stub);
            &&& w.len() >= 2
            &&& w[0] == from
            &&& w.last() == to
            &&& follows_axes(w)
        }),
{
    let f_stub = step_spec(from, from_dir, stub);
    let t_stub = step_spec(to, to_dir, stub);
    assert(axis_aligned(from, f_stub));
    assert(axis_aligned(t_stub, to));
    if (from_dir.is_horizontal() && to_dir.is_vertical()) || (from_dir.is_vertical()
        && to_dir.is_horizontal()) {
        let a = seq![from];
        let b = corner_turn(from, from_dir, to);
        lemma_append_follows_axes(a, b);
        lemma_append_follows_axes(a + b, seq![to]);
    } else {
        let from_helps = faces(from, from_dir, to);
        let to_helps = faces(to, to_dir, from);
        lemma_turns_follow_axes(f_stub, t_stub, from_dir, to_dir, from_helps, to_helps);
        let a = seq![from] + stub_if_known(from_dir, f_stub);
        let b = stub_turns(f_stub, t_stub, from_dir, to_dir, from_helps, to_helps);
        let c = stub_if_known(to_dir, t_stub);
        lemma_append_follows_axes(seq![from], stub_if_known(from_dir, f_stub));
        assert(a.last() == f_stub);
        lemma_append_follows_axes(a, b);
        lemma_append_follows_axes(a + b, c);
        assert((a + b).last() == b.last());
        if c.len() > 0 {
            assert((a + b + c).last() == t_stub);
        }
        lemma_append_follows_axes(a + b + c, seq![to]);
    }
}

/// What merging keeps: the first point, no two near neighbours, and steps
/// that leave an axis by less than half a pixel.
proof fn lemma_merged(pts: Seq<Pos>)
    requires
        pts.len() > 0,
        follows_axes(pts),
    ensures
        ({
            let m = merged(pts);
            &&& m.len() > 0
            &&& m[0] == pts[0]
            &&& (m.last() == pts.last() || near(pts.last(), m.last()))
            &&& forall|i: int| 0 < i < m.len() ==> !near(#[trigger] m[i], m[i - 1])
            &&& forall|i: int| 0 < i < m.len() ==> nearly_aligned(m[i - 1], #[trigger] m[i])
        }),
    decreases pts.len(),
{
    if pts.len() > 1 {
        let rest = pts.drop_last();
        assert forall|i: int| 0 < i < rest.len() implies axis_aligned(
            rest[i - 1],
            #[trigger] rest[i],
        ) by {
            assert(axis_aligned(pts[i - 1], pts[i]));
        }
        lemma_merged(rest);
        let kept = merged(rest);
        assert(axis_aligned(pts[pts.len() - 2], pts[pts.len() - 1]));
        assert(rest.last() == pts[pts.len() - 2]);
        let m = merged(pts);
        if !near(pts.last(), kept.last()) {
            assert(m == kept.push(pts.last()));
            assert forall|i: int| 0 < i < m.len() implies !near(#[trigger] m[i], m[i - 1])
                && nearly_aligned(m[i - 1], m[i]) by {
                if i < kept.len() {
                    assert(m[i] == kept[i]);
                    assert(m[i - 1] == kept[i - 1]);
                }
            }
        }
    } else {
        assert(pts.drop_last() =~= Seq::empty());
        assert(merged(pts.drop_last()) =~= Seq::empty());
        assert(merged(pts) =~= seq![pts[0]]);
    }
}

/// Whether the two points share a coordinate to within half a pixel.
pub open spec fn nearly_aligned(a: Pos, b: Pos) -> bool {
    distance(a.x.steps as int, b.x.steps as int) < UNIT / 2 || distance(
        a.y.steps as int,
        b.y.steps as int,
    ) < UNIT / 2
}

/// A wire starts at its first port and ends at its second, no two neighbouring
/// points are the same, and each stretch follows an axis to within half a
/// pixel.
pub proof fn law_wire_joins_ports(
    from: Pos,
    from_dir: PortDir,
    to: Pos,
    to_dir: PortDir,
    stub: Fixed,
)
    ensures
        ({
            let w = wire(from, from_dir, to, to_dir, stub);
            &&& w.len() > 0
            &&& w[0] == from
            &&& w.last() == to
            &&& forall|i: int| 0 < i < w.len() ==> w[i - 1] != #[trigger] w[i]
            &&& forall|i: int| 0 < i < w.len() ==> nearly_aligned(w[i - 1], #[trigger] w[i])
        }),
{
    lemma_wire_points_follow_axes(from, from_dir, to, to_dir, stub);
    let pts = wire_points(from, from_dir, to, to_dir, stub);
    lemma_merged(pts);
    let m = merged(pts);
    let w = wire(from, from_dir, to, to_dir, stub);
    assert forall|i: int| 0 < i < w.len() implies w[i - 1] != #[trigger] w[i] && nearly_aligned(
        w[i - 1],
        w[i],
    ) by {
        if i < m.len() {
            assert(w[i] == m[i]);
            assert(w[i - 1] == m[i - 1]);
            assert(!near(m[i], m[i - 1]));
        }
    }
}

// ── Ports without a placement ────────────────────────────────────────────

/// Where port `index` of an icon of the given size sits when nothing says
/// where: ports alternate between the left and the right edge, the first pair
/// half-way up, each further pair a quarter of the height above the last, and
/// never outside the icon.
pub open spec fn fallback_offset(index: nat, icon_w: Fixed, icon_h: Fixed) -> Pos {
    let drop = icon_h.half_spec().half_spec().many_spec(index / 2);
    Pos {
        x: if index % 2 == 0 {
            Fixed { steps: 0 }
        } else {
            icon_w
        },
        y: icon_h.half_spec().minus_spec(drop).clamp_spec(Fixed { steps: 0 }, icon_h),
    }
}

/// The usual width and height of an icon.
pub const ICON_SIZE: i32 = 20;

/// Where port `index` of an icon of the usual size sits when nothing says
/// where.
pub fn port_fallback_offset(index: usize, total: usize) -> (r: Pos)
    ensures
        r == fallback_offset(
            index as nat,
            crate::fixed::ratio_spec(20, 1),
            crate::fixed::ratio_spec(20, 1),
        ),
{
    port_fallback_offset_for_size(index, total, Fixed::whole(ICON_SIZE), Fixed::whole(ICON_SIZE))
}

/// Where port `index` of an icon of the given size sits when nothing says
/// where.
pub fn port_fallback_offset_for_size(
    index: usize,
    _total: usize,
    icon_w: Fixed,
    icon_h: Fixed,
) -> (r: Pos)
    requires
        icon_h.steps >= 0,
    ensures
        r == fallback_offset(index as nat, icon_w, icon_h),
{
    let drop = icon_h.half().half().many((index / 2) as u64);
    let x = if index % 2 == 0 {
        Fixed { steps: 0 }
    } else {
        icon_w
    };
    Pos { x, y: icon_h.half().minus(drop).clamped(Fixed { steps: 0 }, icon_h) }
}

// ── Distances ────────────────────────────────────────────────────────────

pub open spec fn square_sum(dx: Fixed, dy: Fixed) -> Fixed {
    dx.times_spec(dx).plus_spec(dy.times_spec(dy))
}

/// The squared distance from `p` to the segment from `a` to `b`, whose ends
/// bound it. A segment whose squared length is below `tiny` is a point.
pub open spec fn segment_distance_sq(p: Pos, a: Pos, b: Pos, tiny: Fixed) -> Fixed {
    let ax = b.x.minus_spec(a.x);
    let ay = b.y.minus_spec(a.y);
    let len_sq = square_sum(ax, ay);
    if len_sq.steps < tiny.steps {
        square_sum(p.x.minus_spec(a.x), p.y.minus_spec(a.y))
    } else {
        let along = p.x.minus_spec(a.x).times_spec(ax).plus_spec(
            p.y.minus_spec(a.y).times_spec(ay),
        );
        let t = along.over_spec(len_sq).clamp_spec(Fixed { steps: 0 }, Fixed { steps: UNIT });
        let foot_x = a.x.plus_spec(t.times_spec(ax));
        let foot_y = a.y.plus_spec(t.times_spec(ay));
        square_sum(p.x.minus_spec(foot_x), p.y.minus_spec(foot_y))
    }
}

fn sum_of_squares(dx: Fixed, dy: Fixed) -> (r: Fixed)
    ensures
        r == square_sum(dx, dy),
{
    dx.times(dx).plus(dy.times(dy))
}

fn distance_sq(p: Pos, a: Pos, b: Pos, tiny: Fixed) -> (r: Fixed)
    requires
        tiny.steps > 0,
    ensures
        r == segment_distance_sq(p, a, b, tiny),
{
    let ax = b.x.minus(a.x);
    let ay = b.y.minus(a.y);
    let len_sq = sum_of_squares(ax, ay);
    if len_sq.steps < tiny.steps {
        return sum_of_squares(p.x.minus(a.x), p.y.minus(a.y));
    }
    let along = p.x.minus(a.x).times(ax).plus(p.y.minus(a.y).times(ay));
    let t = along.over(len_sq).clamped(Fixed { steps: 0 }, Fixed { steps: UNIT });
    let foot_x = a.x.plus(t.times(ax));
    let foot_y = a.y.plus(t.times(ay));
    sum_of_squares(p.x.minus(foot_x), p.y.minus(foot_y))
}

/// The steps of 2^-23, below which a squared length counts as zero.
pub const SHORTEST_SQ: i64 = 512;

/// The steps of a millionth, below which a squared length counts as zero when
/// the pointer hovers.
pub const HOVER_SHORTEST_SQ: i64 = 4294;

/// The squared distance from `p` to the segment from `a` to `b`; its ends
/// bound it.
pub fn segment_dist_sq(p: Pos, a: Pos, b: Pos) -> (r: Fixed)
    ensures
        r == segment_distance_sq(p, a, b, Fixed { steps: SHORTEST_SQ }),
{
    distance_sq(p, a, b, Fixed { steps: SHORTEST_SQ })
}

/// The bends of the simplified path by which a click on a wire is tested: a
/// straight line where the ends lie within one unit of each other on an axis,
/// else a bend half-way along x.
pub open spec fn click_path(from: Pos, to: Pos) -> Seq<Pos> {
    let dx = to.x.minus_spec(from.x);
    let dy = to.y.minus_spec(from.y);
    if dx.abs_spec().steps < UNIT || dy.abs_spec().steps < UNIT {
        seq![from, to]
    } else {
        let mid = from.x.plus_spec(dx.half_spec());
        seq![from, Pos { x: mid, y: from.y }, Pos { x: mid, y: to.y }, to]
    }
}

/// Whether `p` lies within four units of one of the segments of `path`.
pub open spec fn touches(p: Pos, path: Seq<Pos>) -> bool {
    exists|i: int|
        0 < i < path.len() && segment_distance_sq(
            p,
            path[i - 1],
            #[trigger] path[i],
            Fixed { steps: SHORTEST_SQ },
        ).steps <= 16 * UNIT
}

/// Whether a click at `p` hits the wire between `from` and `to`.
pub fn wire_hit(p: Pos, from: Pos, to: Pos) -> (r: bool)
    ensures
        r == touches(p, click_path(from, to)),
{
    let limit: i64 = 0x10_0000_0000;
    assert(limit == 16 * UNIT);
    let dx = to.x.minus(from.x);
    let dy = to.y.minus(from.y);
    let ghost path = click_path(from, to);
    if dx.abs().steps < UNIT || dy.abs().steps < UNIT {
        let hit = segment_dist_sq(p, from, to).steps <= limit;
        assert(path[0] == from && path[1] == to);
        return hit;
    }
    let mid = from.x.plus(dx.half());
    let p1 = Pos { x: mid, y: from.y };
    let p2 = Pos { x: mid, y: to.y };
    let h1 = segment_dist_sq(p, from, p1).steps <= limit;
    let h2 = segment_dist_sq(p, p1, p2).steps <= limit;
    let h3 = segment_dist_sq(p, p2, to).steps <= limit;
    assert(path[0] == from && path[1] == p1 && path[2] == p2 && path[3] == to);
    h1 || h2 || h3
}

/// Whether `p` lies within eight pixels of one of the segments of `path`.
pub open spec fn hovers(p: Pos, path: Seq<Pos>) -> bool {
    exists|i: int|
        0 < i < path.len() && segment_distance_sq(
            p,
            path[i - 1],
            #[trigger] path[i],
            Fixed { steps: HOVER_SHORTEST_SQ },
        ).steps <= 64 * UNIT
}

/// Whether the pointer at `p` hovers over the wire along `path`.
pub fn wire_hovered(p: Pos, path: &Vec<Pos>) -> (r: bool)
    ensures
        r == hovers(p, path@),
{
    let limit: i64 = 0x40_0000_0000;
    assert(limit == 64 * UNIT);
    let mut i: usize = 1;
    while i < path.len()
        invariant
            1 <= i,
            limit == 64 * UNIT,
            forall|j: int|
                0 < j < i && j < path@.len() ==> segment_distance_sq(
                    p,
                    path@[j - 1],
                    #[trigger] path@[j],
                    Fixed { steps: HOVER_SHORTEST_SQ },
                ).steps > limit,
        decreases path@.len() - i,
    {
        if distance_sq(p, path[i - 1], path[i], Fixed { steps: HOVER_SHORTEST_SQ }).steps <= limit {
            return true;
        }
        i += 1;
    }
    false
}

// ── Viewports ────────────────────────────────────────────────────────────

/// How far inside the visible region a rectangle must lie to count as seen.
pub const VIEW_MARGIN: i32 = 20;

/// Whether `inner` lies inside `outer` with a margin of twenty units.
pub open spec fn contains_with_margin(outer: Rect, inner: Rect) -> bool {
    let m = crate::fixed::ratio_spec(20, 1);
    &&& outer.min.x.plus_spec(m).steps <= inner.min.x.steps
    &&& outer.min.y.plus_spec(m).steps <= inner.min.y.steps
    &&& outer.max.x.minus_spec(m).steps >= inner.max.x.steps
    &&& outer.max.y.minus_spec(m).steps >= inner.max.y.steps
}

/// The smallest rectangle that holds both.
pub open spec fn union_spec(a: Rect, b: Rect) -> Rect {
    Rect {
        min: Pos { x: a.min.x.min_spec(b.min.x), y: a.min.y.min_spec(b.min.y) },
        max: Pos { x: a.max.x.max_spec(b.max.x), y: a.max.y.max_spec(b.max.y) },
    }
}

/// Whether `inner` lies inside `outer` with a margin of twenty units.
pub fn rect_contains_rect(outer: Rect, inner: Rect) -> (r: bool)
    ensures
        r == contains_with_margin(outer, inner),
{
    let m = Fixed::whole(VIEW_MARGIN);
    outer.min.x.plus(m).steps <= inner.min.x.steps && outer.min.y.plus(m).steps
        <= inner.min.y.steps && outer.max.x.minus(m).steps >= inner.max.x.steps
        && outer.max.y.minus(m).steps >= inner.max.y.steps
}

/// The smallest rectangle that holds both.
pub fn rect_union(a: Rect, b: Rect) -> (r: Rect)
    ensures
        r == union_spec(a, b),
{
    Rect {
        min: Pos { x: a.min.x.smaller(b.min.x), y: a.min.y.smaller(b.min.y) },
        max: Pos { x: a.max.x.larger(b.max.x), y: a.max.y.larger(b.max.y) },
    }
}

/// A port without a placement lies on the left edge of the icon or on the right
/// one, by turns, between top and bottom. The first two lie half-way down, and
/// no later one lies below an earlier one.
pub proof fn law_ports_without_placement(index: nat, icon_w: Fixed, icon_h: Fixed)
    requires
        icon_h.steps >= 0,
        icon_h.in_bounds(),
    ensures
        ({
            let at = fallback_offset(index, icon_w, icon_h);
            let next = fallback_offset(index + 1, icon_w, icon_h);
            &&& index % 2 == 0 ==> at.x.steps == 0
            &&& index % 2 == 1 ==> at.x == icon_w
            &&& 0 <= at.y.steps <= icon_h.steps
            &&& index < 2 ==> -1 <= 2 * at.y.steps - icon_h.steps <= 1
            &&& next.y.steps <= at.y.steps
            &&& index % 2 == 0 ==> next.y == at.y
            &&& 2 <= index < 4 ==> -4 <= 4 * at.y.steps - icon_h.steps <= 4
            &&& index >= 4 ==> at.y.steps <= 4
        }),
{
    let quarter = icon_h.half_spec().half_spec().steps as int;
    let a = (index / 2) as int;
    let b = ((index + 1) / 2) as int;
    assert(a <= b);
    assert(quarter * a <= quarter * b) by (nonlinear_arith)
        requires
            a <= b,
            quarter >= 0,
    ;
    assert(a == 0 ==> quarter * a == 0) by (nonlinear_arith);
    assert(a == 1 ==> quarter * a == quarter) by (nonlinear_arith);
    assert(a >= 2 ==> quarter * a >= 2 * quarter) by (nonlinear_arith)
        requires
            quarter >= 0,
    ;
}

// ── Laws of routing ──────────────────────────────────────────────────────

proof fn lemma_merged_keeps_second(pts: Seq<Pos>)
    requires
        pts.len() >= 2,
        !near(pts[1], pts[0]),
    ensures
        merged(pts).len() >= 2,
        merged(pts)[0] == pts[0],
        merged(pts)[1] == pts[1],
    decreases pts.len(),
{
    let rest = pts.drop_last();
    if pts.len() == 2 {
        assert(rest.drop_last() =~= Seq::empty());
        reveal_with_fuel(merged, 3);
        assert(merged(rest) =~= seq![pts[0]]);
    } else {
        assert(rest[0] == pts[0] && rest[1] == pts[1]);
        lemma_merged_keeps_second(rest);
    }
}

proof fn lemma_merged_covers(pts: Seq<Pos>, j: int) -> (i: int)
    requires
        0 <= j < pts.len(),
    ensures
        0 <= i < merged(pts).len(),
        merged(pts)[i] == pts[j] || near(pts[j], merged(pts)[i]),
    decreases pts.len(),
{
    let rest = pts.drop_last();
    let kept = merged(rest);
    if j < rest.len() {
        let i = lemma_merged_covers(rest, j);
        assert(merged(pts)[i] == kept[i]);
        i
    } else if kept.len() > 0 && near(pts.last(), kept.last()) {
        kept.len() - 1
    } else {
        kept.len() as int
    }
}

proof fn lemma_merged_is_among(pts: Seq<Pos>, i: int) -> (j: int)
    requires
        0 <= i < merged(pts).len(),
    ensures
        0 <= j < pts.len(),
        merged(pts)[i] == pts[j],
    decreases pts.len(),
{
    let rest = pts.drop_last();
    if i < merged(rest).len() {
        let j = lemma_merged_is_among(rest, i);
        assert(pts[j] == rest[j]);
        j
    } else {
        pts.len() - 1
    }
}

/// Whether the ports' outward axes are perpendicular to each other.
pub open spec fn are_perpendicular(a: PortDir, b: PortDir) -> bool {
    ||| (a is Left || a is Right) && (b is Up || b is Down)
    ||| (a is Up || a is Down) && (b is Left || b is Right)
}

/// Perpendicular ports that lie half a pixel or more apart on both axes are
/// joined by a single corner. The wire leaves the first port along its outward
/// axis, and comes into the second along that port's.
pub proof fn law_perpendicular_ports_meet_at_one_corner(
    from: Pos,
    from_dir: PortDir,
    to: Pos,
    to_dir: PortDir,
    stub: Fixed,
)
    requires
        are_perpendicular(from_dir, to_dir),
        to.x.steps - from.x.steps >= UNIT / 2 || from.x.steps - to.x.steps >= UNIT / 2,
        to.y.steps - from.y.steps >= UNIT / 2 || from.y.steps - to.y.steps >= UNIT / 2,
    ensures
        ({
            let w = wire(from, from_dir, to, to_dir, stub);
            &&& w.len() == 3
            &&& w[0] == from
            &&& w[2] == to
            &&& from_dir is Left || from_dir is Right ==> w[1].y == from.y && w[1].x == to.x
            &&& from_dir is Up || from_dir is Down ==> w[1].x == from.x && w[1].y == to.y
        }),
{
    let pts = wire_points(from, from_dir, to, to_dir, stub);
    let c = corner_turn(from, from_dir, to);
    assert(c.len() == 1);
    assert(pts =~= seq![from, c[0], to]);
    assert(pts.drop_last() =~= seq![from, c[0]]);
    assert(pts.drop_last().drop_last() =~= seq![from]);
    assert(pts.drop_last().drop_last().drop_last() =~= Seq::<Pos>::empty());
    reveal_with_fuel(merged, 4);
    assert(merged(pts) =~= seq![from, c[0], to]);
}

/// The point `len` away from `p` out of the icon, in steps.
pub open spec fn is_moved_out(p: Pos, dir: PortDir, len: Fixed, q: Pos) -> bool {
    match dir {
        PortDir::Left => q.x.steps == p.x.steps - len.steps && q.y == p.y,
        PortDir::Right => q.x.steps == p.x.steps + len.steps && q.y == p.y,
        PortDir::Up => q.y.steps == p.y.steps - len.steps && q.x == p.x,
        PortDir::Down => q.y.steps == p.y.steps + len.steps && q.x == p.x,
        PortDir::Inside => q == p,
    }
}

/// Whether a stub of the length keeps a point between the bounds of [`Fixed`],
/// whichever way it goes.
pub open spec fn has_room(p: Pos, len: Fixed) -> bool {
    &&& len.steps >= 0
    &&& -MAX_STEPS <= p.x.steps - len.steps && p.x.steps + len.steps <= MAX_STEPS
    &&& -MAX_STEPS <= p.y.steps - len.steps && p.y.steps + len.steps <= MAX_STEPS
}

/// A wire between ports that are not perpendicular leaves its first port by a
/// stub of the full length, straight out of the icon; and it comes into its
/// second port, to within half a pixel, from the end of a stub straight out of
/// that icon. Ports inside an icon have no stub.
pub proof fn law_wires_leave_ports_by_stubs(
    from: Pos,
    from_dir: PortDir,
    to: Pos,
    to_dir: PortDir,
    stub: Fixed,
    end: Pos,
)
    requires
        !are_perpendicular(from_dir, to_dir),
        stub.steps >= UNIT / 2,
        has_room(from, stub),
        has_room(to, stub),
        is_moved_out(to, to_dir, stub, end),
    ensures
        ({
            let w = wire(from, from_dir, to, to_dir, stub);
            &&& !(from_dir is Inside) ==> w.len() >= 2 && is_moved_out(
                from,
                from_dir,
                stub,
                w[1],
            )
            &&& !(to_dir is Inside) ==> {
                let p = w[w.len() - 2];
                &&& w.len() >= 2
                &&& -UNIT / 2 < p.x.steps - end.x.steps < UNIT / 2
                &&& -UNIT / 2 < p.y.steps - end.y.steps < UNIT / 2
            }
        }),
{
    assert(step_spec(to, to_dir, stub) == end);
    if !(from_dir is Inside) {
        lemma_first_stub(from, from_dir, to, to_dir, stub);
    }
    if !(to_dir is Inside) {
        lemma_last_stub(from, from_dir, to, to_dir, stub);
    }
}

proof fn lemma_first_stub(from: Pos, from_dir: PortDir, to: Pos, to_dir: PortDir, stub: Fixed)
    requires
        !are_perpendicular(from_dir, to_dir),
        !(from_dir is Inside),
        stub.steps >= UNIT / 2,
        has_room(from, stub),
    ensures
        wire(from, from_dir, to, to_dir, stub).len() >= 2,
        wire(from, from_dir, to, to_dir, stub)[1] == step_spec(from, from_dir, stub),
{
    let pts = wire_points(from, from_dir, to, to_dir, stub);
    assert(pts.len() >= 2);
    assert(pts[0] == from);
    assert(pts[1] == step_spec(from, from_dir, stub));
    lemma_merged_keeps_second(pts);
}

proof fn lemma_last_stub(from: Pos, from_dir: PortDir, to: Pos, to_dir: PortDir, stub: Fixed)
    requires
        !are_perpendicular(from_dir, to_dir),
        !(to_dir is Inside),
        stub.steps >= UNIT / 2,
        has_room(to, stub),
    ensures
        ({
            let w = wire(from, from_dir, to, to_dir, stub);
            let t_stub = step_spec(to, to_dir, stub);
            w.len() >= 2 && (w[w.len() - 2] == t_stub || near(t_stub, w[w.len() - 2]))
        }),
{
    let pts = wire_points(from, from_dir, to, to_dir, stub);
    let w = wire(from, from_dir, to, to_dir, stub);
    let t_stub = step_spec(to, to_dir, stub);
    let rest = pts.drop_last();
    assert(rest.last() == t_stub && pts.last() == to);
    let kept = merged(rest);
    lemma_merged_end(rest);
    assert(kept.last() == t_stub || near(t_stub, kept.last()));
    assert(!near(t_stub, to) && t_stub != to);
    assert(kept.last() != to);
    assert(w =~= kept.push(to));
}

proof fn lemma_merged_end(pts: Seq<Pos>)
    requires
        pts.len() > 0,
    ensures
        merged(pts).len() > 0,
        merged(pts).last() == pts.last() || near(pts.last(), merged(pts).last()),
{
}

/// Every point of a wire lies in the box around the two ports and the ends of
/// their stubs.
#[verifier::rlimit(60)]
#[verifier::spinoff_prover]
pub proof fn law_wires_stay_in_their_box(
    from: Pos,
    from_dir: PortDir,
    to: Pos,
    to_dir: PortDir,
    stub: Fixed,
    f: Pos,
    t: Pos,
    low: Pos,
    high: Pos,
    i: int,
)
    requires
        has_room(from, stub),
        has_room(to, stub),
        is_moved_out(from, from_dir, stub, f),
        is_moved_out(to, to_dir, stub, t),
        low.in_bounds(),
        high.in_bounds(),
        low.x.steps <= from.x.steps <= high.x.steps,
        low.x.steps <= to.x.steps <= high.x.steps,
        low.x.steps <= f.x.steps <= high.x.steps,
        low.x.steps <= t.x.steps <= high.x.steps,
        low.y.steps <= from.y.steps <= high.y.steps,
        low.y.steps <= to.y.steps <= high.y.steps,
        low.y.steps <= f.y.steps <= high.y.steps,
        low.y.steps <= t.y.steps <= high.y.steps,
        f.x.steps + t.x.steps <= MAX_STEPS,
        f.x.steps + t.x.steps >= -MAX_STEPS,
        f.y.steps + t.y.steps <= MAX_STEPS,
        f.y.steps + t.y.steps >= -MAX_STEPS,
        0 <= i < wire(from, from_dir, to, to_dir, stub).len(),
    ensures
        low.x.steps <= wire(from, from_dir, to, to_dir, stub)[i].x.steps <= high.x.steps,
        low.y.steps <= wire(from, from_dir, to, to_dir, stub)[i].y.steps <= high.y.steps,
{
    let pts = wire_points(from, from_dir, to, to_dir, stub);
    let w = wire(from, from_dir, to, to_dir, stub);
    assert(step_spec(from, from_dir, stub) == f);
    assert(step_spec(to, to_dir, stub) == t);
    if i < merged(pts).len() {
        let j = lemma_merged_is_among(pts, i);
        assert(w[i] == pts[j]);
        let turns = stub_turns(
            f,
            t,
            from_dir,
            to_dir,
            faces(from, from_dir, to),
            faces(to, to_dir, from),
        );
        if !are_perpendicular(from_dir, to_dir) {
            let a = seq![from] + stub_if_known(from_dir, f);
            let b = a + turns;
            assert(pts =~= b + stub_if_known(to_dir, t) + seq![to]);
            if a.len() <= j < b.len() {
                assert(pts[j] == turns[j - a.len()]);
            }
        } else {
            let c = corner_turn(from, from_dir, to);
            assert(pts =~= seq![from] + c + seq![to]);
            if 1 <= j < 1 + c.len() {
                assert(pts[j] == c[j - 1]);
            }
        }
    } else {
        assert(w[i] == to);
    }
}

/// Whether the wire has a point within half a pixel of the given one.
pub open spec fn passes_by(w: Seq<Pos>, x: int, y: int) -> bool {
    exists|i: int|
        {
            &&& 0 <= i < w.len()
            &&& -UNIT / 2 < (#[trigger] w[i]).x.steps - x < UNIT / 2
            &&& -UNIT / 2 < w[i].y.steps - y < UNIT / 2
        }
}

proof fn lemma_wire_passes(
    from: Pos,
    from_dir: PortDir,
    to: Pos,
    to_dir: PortDir,
    stub: Fixed,
    j: int,
)
    requires
        0 <= j < wire_points(from, from_dir, to, to_dir, stub).len(),
    ensures
        passes_by(
            wire(from, from_dir, to, to_dir, stub),
            wire_points(from, from_dir, to, to_dir, stub)[j].x.steps as int,
            wire_points(from, from_dir, to, to_dir, stub)[j].y.steps as int,
        ),
{
    let pts = wire_points(from, from_dir, to, to_dir, stub);
    let w = wire(from, from_dir, to, to_dir, stub);
    let i = lemma_merged_covers(pts, j);
    assert(w[i] == merged(pts)[i]);
}

/// Two ports on the left and right edges of their icons: the wire turns from the
/// first port's height half-way between the stubs where each port faces the
/// other, at the end of the first port's stub where that port faces away, and at
/// the end of the second's where only that one does. Where the ends of the stubs
/// lie more than a pixel apart in height, it goes on across half-way between them.
pub proof fn law_horizontal_wires_turn_where_they_can(
    from: Pos,
    from_dir: PortDir,
    to: Pos,
    to_dir: PortDir,
    stub: Fixed,
    f: Pos,
    t: Pos,
)
    requires
        from_dir is Left || from_dir is Right,
        to_dir is Left || to_dir is Right,
        has_room(from, stub),
        has_room(to, stub),
        is_moved_out(from, from_dir, stub, f),
        is_moved_out(to, to_dir, stub, t),
        -MAX_STEPS <= f.x.steps + t.x.steps <= MAX_STEPS,
        -MAX_STEPS <= f.y.steps + t.y.steps <= MAX_STEPS,
    ensures
        ({
            let w = wire(from, from_dir, to, to_dir, stub);
            let first_faces = (from_dir is Right && to.x.steps > from.x.steps) || (
            from_dir is Left && to.x.steps < from.x.steps);
            let second_faces = (to_dir is Right && from.x.steps > to.x.steps) || (to_dir is Left
                && from.x.steps < to.x.steps);
            let middle = Fixed { steps: (f.x.steps + t.x.steps) as i64 }.half_spec().steps as int;
            let turn = if first_faces && second_faces {
                middle
            } else if !first_faces {
                f.x.steps as int
            } else {
                t.x.steps as int
            };
            let half = Fixed { steps: (f.y.steps + t.y.steps) as i64 }.half_spec().steps as int;
            &&& passes_by(w, turn, from.y.steps as int)
            &&& distance(f.y.steps as int, t.y.steps as int) > UNIT + 4 ==> passes_by(
                w,
                turn,
                half,
            ) && passes_by(w, t.x.steps as int, half)
        }),
{
    let pts = wire_points(from, from_dir, to, to_dir, stub);
    let turns = stub_turns(
        f,
        t,
        from_dir,
        to_dir,
        faces(from, from_dir, to),
        faces(to, to_dir, from),
    );
    assert(step_spec(from, from_dir, stub) == f);
    assert(step_spec(to, to_dir, stub) == t);
    assert(pts[2] == turns[0]);
    lemma_wire_passes(from, from_dir, to, to_dir, stub, 2);
    if turns.len() == 3 {
        assert(pts[3] == turns[1]);
        assert(pts[4] == turns[2]);
        lemma_wire_passes(from, from_dir, to, to_dir, stub, 3);
        lemma_wire_passes(from, from_dir, to, to_dir, stub, 4);
    }
}

/// Two ports on the upper and lower edges of their icons: the wire turns from the
/// first port's place half-way between the stubs where each port faces the other,
/// at the end of the first port's stub where that port faces away, and at the end
/// of the second's where only that one does. Where the ends of the stubs lie more
/// than a pixel apart sideways, it goes on along half-way between them.
pub proof fn law_vertical_wires_turn_where_they_can(
    from: Pos,
    from_dir: PortDir,
    to: Pos,
    to_dir: PortDir,
    stub: Fixed,
    f: Pos,
    t: Pos,
)
    requires
        from_dir is Up || from_dir is Down,
        to_dir is Up || to_dir is Down,
        has_room(from, stub),
        has_room(to, stub),
        is_moved_out(from, from_dir, stub, f),
        is_moved_out(to, to_dir, stub, t),
        -MAX_STEPS <= f.y.steps + t.y.steps <= MAX_STEPS,
        -MAX_STEPS <= f.x.steps + t.x.steps <= MAX_STEPS,
    ensures
        ({
            let w = wire(from, from_dir, to, to_dir, stub);
            let first_faces = (from_dir is Down && to.y.steps > from.y.steps) || (from_dir is Up
                && to.y.steps < from.y.steps);
            let second_faces = (to_dir is Down && from.y.steps > to.y.steps) || (to_dir is Up
                && from.y.steps < to.y.steps);
            let middle = Fixed { steps: (f.y.steps + t.y.steps) as i64 }.half_spec().steps as int;
            let turn = if first_faces && second_faces {
                middle
            } else if !first_faces {
                f.y.steps as int
            } else {
                t.y.steps as int
            };
            let half = Fixed { steps: (f.x.steps + t.x.steps) as i64 }.half_spec().steps as int;
            &&& passes_by(w, from.x.steps as int, turn)
            &&& distance(f.x.steps as int, t.x.steps as int) > UNIT + 4 ==> passes_by(
                w,
                half,
                turn,
            ) && passes_by(w, half, t.y.steps as int)
        }),
{
    let pts = wire_points(from, from_dir, to, to_dir, stub);
    let turns = stub_turns(
        f,
        t,
        from_dir,
        to_dir,
        faces(from, from_dir, to),
        faces(to, to_dir, from),
    );
    assert(step_spec(from, from_dir, stub) == f);
    assert(step_spec(to, to_dir, stub) == t);
    assert(pts[2] == turns[0]);
    lemma_wire_passes(from, from_dir, to, to_dir, stub, 2);
    if turns.len() == 3 {
        assert(pts[3] == turns[1]);
        assert(pts[4] == turns[2]);
        lemma_wire_passes(from, from_dir, to, to_dir, stub, 3);
        lemma_wire_passes(from, from_dir, to, to_dir, stub, 4);
    }
}

/// A wire at one end of which no direction is known turns half-way between the
/// ends of the stubs: at half the way across where a port lies on the left or
/// right edge, or where neither direction is known, and at half the way down
/// where a port lies on the upper or lower edge.
pub proof fn law_wires_without_directions_turn_half_way(
    from: Pos,
    from_dir: PortDir,
    to: Pos,
    to_dir: PortDir,
    stub: Fixed,
    f: Pos,
    t: Pos,
)
    requires
        from_dir is Inside || to_dir is Inside,
        has_room(from, stub),
        has_room(to, stub),
        is_moved_out(from, from_dir, stub, f),
        is_moved_out(to, to_dir, stub, t),
        -MAX_STEPS <= f.x.steps + t.x.steps <= MAX_STEPS,
        -MAX_STEPS <= f.y.steps + t.y.steps <= MAX_STEPS,
    ensures
        ({
            let w = wire(from, from_dir, to, to_dir, stub);
            let mx = Fixed { steps: (f.x.steps + t.x.steps) as i64 }.half_spec().steps as int;
            let my = Fixed { steps: (f.y.steps + t.y.steps) as i64 }.half_spec().steps as int;
            if from_dir is Up || from_dir is Down || to_dir is Up || to_dir is Down {
                passes_by(w, f.x.steps as int, my) && passes_by(w, t.x.steps as int, my)
            } else {
                passes_by(w, mx, f.y.steps as int) && passes_by(w, mx, t.y.steps as int)
            }
        }),
{
    let pts = wire_points(from, from_dir, to, to_dir, stub);
    let turns = stub_turns(
        f,
        t,
        from_dir,
        to_dir,
        faces(from, from_dir, to),
        faces(to, to_dir, from),
    );
    assert(step_spec(from, from_dir, stub) == f);
    assert(step_spec(to, to_dir, stub) == t);
    let k: int = if from_dir is Inside {
        1
    } else {
        2
    };
    assert(pts[k] == turns[0]);
    assert(pts[k + 1] == turns[1]);
    lemma_wire_passes(from, from_dir, to, to_dir, stub, k);
    lemma_wire_passes(from, from_dir, to, to_dir, stub, k + 1);
}

/// The edge that a direction points at is the one on the side of its larger part:
/// a direction with a part of two fifths or more never counts as inside, one that
/// points further across than down never as up or down, and the sign of the
/// larger part tells left from right and up from down.
pub proof fn law_ports_point_along_their_larger_part(x: Fixed, y: Fixed)
    requires
        x.in_bounds(),
        y.in_bounds(),
    ensures
        ({
            let ax = if x.steps < 0 {
                -x.steps
            } else {
                x.steps as int
            };
            let ay = if y.steps < 0 {
                -y.steps
            } else {
                y.steps as int
            };
            let d = edge_dir(x, y);
            &&& 5 * ax >= 2 * UNIT || 5 * ay >= 2 * UNIT ==> !(d is Inside)
            &&& 5 * ax < 2 * UNIT - 5 && 5 * ay < 2 * UNIT - 5 ==> d is Inside
            &&& !(d is Inside) && ax >= ay && x.steps > 0 ==> d is Right
            &&& !(d is Inside) && ax >= ay && x.steps < 0 ==> d is Left
            &&& !(d is Inside) && ay > ax && y.steps > 0 ==> d is Down
            &&& !(d is Inside) && ay > ax && y.steps < 0 ==> d is Up
        }),
{
    crate::fixed::law_ratios_of_whole_numbers(2, 5);
    assert(dir_threshold().steps * 5 <= 2 * UNIT) by {
        assert(2 * UNIT >= 0);
        assert(crate::fixed::whole_part(2 * UNIT, 5) == (2 * UNIT) / 5);
    }
}

/// Pointing out of an icon means one step along one axis: the two directions of
/// an axis are opposite, and none points nowhere.
pub proof fn law_outward_is_a_unit_step(d: PortDir)
    ensures
        d is Left ==> outward_spec(d) == (-1int, 0int),
        d is Right ==> outward_spec(d) == (1int, 0int),
        d is Up ==> outward_spec(d) == (0int, -1int),
        d is Down ==> outward_spec(d) == (0int, 1int),
        d is Inside ==> outward_spec(d) == (0int, 0int),
{
}

// ── Laws of hits and views ───────────────────────────────────────────────

/// The union of two rectangles holds both, and each of its sides is a side of one
/// of them.
pub proof fn law_union_holds_both(a: Rect, b: Rect)
    ensures
        ({
            let u = union_spec(a, b);
            &&& u.min.x.steps <= a.min.x.steps && u.min.x.steps <= b.min.x.steps
            &&& u.min.y.steps <= a.min.y.steps && u.min.y.steps <= b.min.y.steps
            &&& u.max.x.steps >= a.max.x.steps && u.max.x.steps >= b.max.x.steps
            &&& u.max.y.steps >= a.max.y.steps && u.max.y.steps >= b.max.y.steps
            &&& u.min.x == a.min.x || u.min.x == b.min.x
            &&& u.min.y == a.min.y || u.min.y == b.min.y
            &&& u.max.x == a.max.x || u.max.x == b.max.x
            &&& u.max.y == a.max.y || u.max.y == b.max.y
        }),
{
}

/// A rectangle counts as seen exactly where each of its sides lies twenty units or
/// more inside the view.
pub proof fn law_seen_means_twenty_units_inside(outer: Rect, inner: Rect)
    requires
        -MAX_STEPS + 20 * UNIT <= outer.min.x.steps <= MAX_STEPS - 20 * UNIT,
        -MAX_STEPS + 20 * UNIT <= outer.min.y.steps <= MAX_STEPS - 20 * UNIT,
        -MAX_STEPS + 20 * UNIT <= outer.max.x.steps <= MAX_STEPS - 20 * UNIT,
        -MAX_STEPS + 20 * UNIT <= outer.max.y.steps <= MAX_STEPS - 20 * UNIT,
    ensures
        contains_with_margin(outer, inner) <==> {
            &&& inner.min.x.steps - outer.min.x.steps >= 20 * UNIT
            &&& inner.min.y.steps - outer.min.y.steps >= 20 * UNIT
            &&& outer.max.x.steps - inner.max.x.steps >= 20 * UNIT
            &&& outer.max.y.steps - inner.max.y.steps >= 20 * UNIT
        },
{
    crate::fixed::law_ratios_of_whole_numbers(20, 1);
}

proof fn lemma_floor(p: int, q: int, d: int)
    requires
        d > 0,
        p >= 0,
        q == p / d,
    ensures
        0 <= p - q * d < d,
        q >= 0,
{
    assert(0 <= p - q * d < d && q >= 0) by (nonlinear_arith)
        requires
            d > 0,
            p >= 0,
            q == p / d,
    ;
}

/// How far a foot of a perpendicular may be off along a segment, in steps.
spec fn foot_slack() -> int {
    0x8000
}

proof fn lemma_foot(dx: Fixed, ax: Fixed)
    requires
        0 <= dx.steps <= ax.steps,
        UNIT <= ax.steps <= 0x4000 * UNIT,
    ensures
        ({
            let len = ax.times_spec(ax);
            let along = dx.times_spec(ax);
            let t = along.over_spec(len).clamp_spec(Fixed { steps: 0 }, Fixed { steps: UNIT });
            let off = t.times_spec(ax).steps;
            &&& UNIT <= len.steps <= 0x1000_0000 * UNIT
            &&& 0 <= along.steps <= len.steps
            &&& 0 <= t.steps <= UNIT
            &&& -foot_slack() <= dx.steps - off <= foot_slack()
            &&& dx.steps == ax.steps ==> off == ax.steps
        }),
{
    let u = UNIT as int;
    let x = dx.steps as int;
    let a = ax.steps as int;
    let l = (a * a) / u;
    let g = (x * a) / u;
    assert(0 <= x * a <= a * a && u * u <= a * a <= 0x1000_0000 * u * u) by (nonlinear_arith)
        requires
            0 <= x <= a,
            u <= a <= 0x4000 * u,
            u == 0x1_0000_0000,
    ;
    lemma_floor(a * a, l, u);
    lemma_floor(x * a, g, u);
    assert(u <= l <= 0x1000_0000 * u) by (nonlinear_arith)
        requires
            0 <= a * a - l * u < u,
            u * u <= a * a <= 0x1000_0000 * u * u,
            u == 0x1_0000_0000,
    ;
    assert(g <= l) by (nonlinear_arith)
        requires
            0 <= a * a - l * u < u,
            0 <= x * a - g * u < u,
            x * a <= a * a,
            u == 0x1_0000_0000,
    ;
    assert(ax.times_spec(ax).steps == l);
    assert(dx.times_spec(ax).steps == g);
    let s = (g * u) / l;
    assert(g * u >= 0);
    lemma_floor(g * u, s, l);
    assert(s <= u) by (nonlinear_arith)
        requires
            0 <= g * u - s * l < l,
            g <= l,
            l > 0,
            u > 0,
    ;
    let t = dx.times_spec(ax).over_spec(ax.times_spec(ax)).clamp_spec(
        Fixed { steps: 0 },
        Fixed { steps: UNIT },
    );
    assert(t.steps == s);
    let o = (s * a) / u;
    assert(0 <= s * a <= u * a) by (nonlinear_arith)
        requires
            0 <= s <= u,
            a > 0,
    ;
    lemma_floor(s * a, o, u);
    assert(o <= a) by (nonlinear_arith)
        requires
            0 <= s * a - o * u,
            s * a <= u * a,
            u == 0x1_0000_0000,
    ;
    assert(t.times_spec(ax).steps == o);
    lemma_foot_bound(x, a, l, g, s, o);
    if x == a {
        assert(s == u) by (nonlinear_arith)
            requires
                g == l,
                0 <= g * u - s * l < l,
                l > 0,
                u > 0,
        ;
        assert(o == a) by (nonlinear_arith)
            requires
                s == u,
                0 <= s * a - o * u < u,
                u == 0x1_0000_0000,
        ;
    }
}

proof fn lemma_foot_bound(x: int, a: int, l: int, g: int, s: int, o: int)
    requires
        0 <= x <= a,
        UNIT <= a <= 0x4000 * UNIT,
        UNIT <= l,
        0 <= a * a - l * UNIT < UNIT,
        0 <= x * a - g * UNIT < UNIT,
        0 <= g * UNIT - s * l < l,
        0 <= s * a - o * UNIT < UNIT,
        0 <= s <= UNIT,
    ensures
        -foot_slack() <= x - o <= foot_slack(),
{
    let u = UNIT as int;
    // The square of the length is at least the length itself.
    assert(l + 1 > a && l * u + u > a * a) by (nonlinear_arith)
        requires
            0 <= a * a - l * u < u,
            a >= u,
            u == 0x1_0000_0000,
    ;
    // Above: o * u * l <= s * l * a <= g * u * a <= x * a * a < x * (l + 1) * u.
    let sl = s * l;
    assert(o * u * l <= sl * a) by (nonlinear_arith)
        requires
            sl == s * l,
            o * u <= s * a,
            l > 0,
    ;
    assert(sl * a <= (x * a) * a) by (nonlinear_arith)
        requires
            sl <= g * u,
            g * u <= x * a,
            a > 0,
    ;
    assert((x * a) * a <= x * ((l + 1) * u)) by (nonlinear_arith)
        requires
            a * a <= (l + 1) * u,
            x >= 0,
    ;
    assert(o * l <= x * l + x) by (nonlinear_arith)
        requires
            o * u * l <= x * ((l + 1) * u),
            u == 0x1_0000_0000,
    ;
    assert(o <= x + 1) by (nonlinear_arith)
        requires
            o * l <= x * l + x,
            x <= a,
            a < l + 1,
            l > 0,
    ;
    // Below: o * u > s * a - u, s * l > g * u - l, g * u > x * a - u.
    assert((s + 1) * l > x * a - u) by (nonlinear_arith)
        requires
            g * u - s * l < l,
            x * a - g * u < u,
    ;
    assert((s + 1) * l * a > x * a * a - u * a) by (nonlinear_arith)
        requires
            (s + 1) * l > x * a - u,
            a > 0,
    ;
    assert(x * a * a >= x * (l * u)) by (nonlinear_arith)
        requires
            a * a >= l * u,
            x >= 0,
    ;
    assert(((o + 1) * u + a) * l >= (s + 1) * l * a) by (nonlinear_arith)
        requires
            s * a < (o + 1) * u,
            l > 0,
            a > 0,
    ;
    assert(u * a <= u * l) by (nonlinear_arith)
        requires
            a <= l,
            u > 0,
    ;
    assert(((o + 1) * u + a) * l > x * u * l - u * l) by (nonlinear_arith)
        requires
            ((o + 1) * u + a) * l >= (s + 1) * l * a,
            (s + 1) * l * a > x * a * a - u * a,
            x * a * a >= x * (l * u),
            u * a <= u * l,
    ;
    assert((o + 1) * u + a > x * u - u) by (nonlinear_arith)
        requires
            ((o + 1) * u + a) * l > x * u * l - u * l,
            l > 0,
    ;
    assert(x - o <= 0x4002) by (nonlinear_arith)
        requires
            (o + 1) * u + a > x * u - u,
            a <= 0x4000 * u,
            u == 0x1_0000_0000,
    ;
}

proof fn lemma_small_square(d: Fixed)
    requires
        -foot_slack() <= d.steps <= foot_slack(),
    ensures
        d.times_spec(d).steps == 0,
{
    let x = d.steps as int;
    assert(0 <= x * x < UNIT) by (nonlinear_arith)
        requires
            -0x8000 <= x <= 0x8000,
            UNIT == 0x1_0000_0000,
    ;
}

proof fn lemma_times_nothing(a: Fixed)
    ensures
        a.times_spec((Fixed { steps: 0 })).steps == 0,
        (Fixed { steps: 0 }).times_spec(a).steps == 0,
{
    assert(a.steps * 0 == 0 && 0 * a.steps == 0) by (nonlinear_arith);
}

proof fn lemma_square(d: Fixed)
    requires
        -0x4000 * UNIT <= d.steps <= 0x4000 * UNIT,
    ensures
        0 <= d.steps * d.steps - d.times_spec(d).steps * UNIT < UNIT,
        0 <= d.times_spec(d).steps <= 0x1000_0000 * UNIT,
        -0x2000 * UNIT <= d.steps <= 0x2000 * UNIT ==> d.times_spec(d).steps <= 0x400_0000 * UNIT,
{
    let x = d.steps as int;
    assert(0 <= x * x <= 0x1000_0000 * UNIT * UNIT) by (nonlinear_arith)
        requires
            -0x4000 * UNIT <= x <= 0x4000 * UNIT,
            UNIT == 0x1_0000_0000,
    ;
    let q = (x * x) / (UNIT as int);
    lemma_floor(x * x, q, UNIT as int);
    assert(q <= 0x1000_0000 * UNIT) by (nonlinear_arith)
        requires
            0 <= x * x - q * UNIT < UNIT,
            x * x <= 0x1000_0000 * UNIT * UNIT,
            UNIT == 0x1_0000_0000,
    ;
    if -0x2000 * UNIT <= x <= 0x2000 * UNIT {
        assert(x * x <= 0x400_0000 * UNIT * UNIT) by (nonlinear_arith)
            requires
                -0x2000 * UNIT <= x <= 0x2000 * UNIT,
                UNIT == 0x1_0000_0000,
        ;
        assert(q <= 0x400_0000 * UNIT) by (nonlinear_arith)
            requires
                0 <= x * x - q * UNIT < UNIT,
                x * x <= 0x400_0000 * UNIT * UNIT,
                UNIT == 0x1_0000_0000,
        ;
    }
}

/// Where the foot of a perpendicular lies along an axis that a segment spans by
/// `ax`, for a point that is `dx` along it: within the slack of the point itself.
proof fn lemma_foot_either_way(dx: Fixed, ax: Fixed)
    requires
        UNIT <= ax.steps <= 0x4000 * UNIT && 0 <= dx.steps <= ax.steps || UNIT <= -ax.steps
            <= 0x4000 * UNIT && 0 <= -dx.steps <= -ax.steps,
    ensures
        ({
            let len = ax.times_spec(ax);
            let along = dx.times_spec(ax);
            let t = along.over_spec(len).clamp_spec(Fixed { steps: 0 }, Fixed { steps: UNIT });
            let off = t.times_spec(ax).steps;
            &&& UNIT <= len.steps <= 0x1000_0000 * UNIT
            &&& 0 <= along.steps <= len.steps
            &&& -foot_slack() <= dx.steps - off <= foot_slack()
        }),
{
    if ax.steps > 0 {
        lemma_foot(dx, ax);
    } else {
        let m = Fixed { steps: (-dx.steps) as i64 };
        let n = Fixed { steps: (-ax.steps) as i64 };
        lemma_foot(m, n);
        assert(ax.steps * ax.steps == n.steps * n.steps && dx.steps * ax.steps == m.steps * n.steps)
            by (nonlinear_arith)
            requires
                n.steps == -ax.steps,
                m.steps == -dx.steps,
        ;
        let t = dx.times_spec(ax).over_spec(ax.times_spec(ax)).clamp_spec(
            Fixed { steps: 0 },
            Fixed { steps: UNIT },
        );
        assert(t.steps * ax.steps == -(t.steps * n.steps)) by (nonlinear_arith)
            requires
                n.steps == -ax.steps,
        ;
        assert(t.steps * n.steps >= 0) by (nonlinear_arith)
            requires
                t.steps >= 0,
                n.steps >= 0,
        ;
        assert(t.steps * n.steps <= UNIT * n.steps) by (nonlinear_arith)
            requires
                t.steps <= UNIT,
                n.steps >= 0,
        ;
        let o = (t.steps * n.steps) / (UNIT as int);
        lemma_floor(t.steps * n.steps, o, UNIT as int);
        assert(o <= n.steps) by (nonlinear_arith)
            requires
                0 <= t.steps * n.steps - o * UNIT,
                t.steps * n.steps <= UNIT * n.steps,
                UNIT == 0x1_0000_0000,
        ;
        assert(t.times_spec(n).steps == o);
        assert(t.times_spec(ax).steps == -o);
    }
}

/// Whether the number lies on the way from `a` to `b`, whichever is larger.
pub open spec fn lies_between(a: Fixed, x: Fixed, b: Fixed) -> bool {
    a.steps <= x.steps <= b.steps || b.steps <= x.steps <= a.steps
}

/// Whether two numbers are from one unit to 16384 units apart.
pub open spec fn are_spread(a: Fixed, b: Fixed) -> bool {
    UNIT <= b.steps - a.steps <= 0x4000 * UNIT || UNIT <= a.steps - b.steps <= 0x4000 * UNIT
}

/// The squared distance of a point from a level segment that it lies above or
/// below is the square of its height over the segment; likewise from an upright
/// segment beside which it lies.
pub proof fn law_distance_from_a_segment_is_across_it(p: Pos, a: Pos, b: Pos, tiny: Fixed)
    requires
        p.in_bounds() && a.in_bounds() && b.in_bounds(),
        0 < tiny.steps <= UNIT,
        -0x2000 * UNIT <= p.x.steps - a.x.steps <= 0x2000 * UNIT || a.y == b.y,
        -0x2000 * UNIT <= p.y.steps - a.y.steps <= 0x2000 * UNIT || a.x == b.x,
    ensures
        a.y == b.y && are_spread(a.x, b.x) && lies_between(a.x, p.x, b.x) ==> {
            let d = p.y.steps - a.y.steps;
            0 <= d * d - segment_distance_sq(p, a, b, tiny).steps * UNIT < UNIT
        },
        a.x == b.x && are_spread(a.y, b.y) && lies_between(a.y, p.y, b.y) ==> {
            let d = p.x.steps - a.x.steps;
            0 <= d * d - segment_distance_sq(p, a, b, tiny).steps * UNIT < UNIT
        },
{
    let dx = p.x.minus_spec(a.x);
    let dy = p.y.minus_spec(a.y);
    let ax = b.x.minus_spec(a.x);
    let ay = b.y.minus_spec(a.y);
    let zero = Fixed { steps: 0 };
    if a.y == b.y && are_spread(a.x, b.x) && lies_between(a.x, p.x, b.x) {
        lemma_foot_either_way(dx, ax);
        lemma_times_nothing(dy);
        assert(ay == zero);
        let t = dx.times_spec(ax).over_spec(ax.times_spec(ax)).clamp_spec(
            zero,
            Fixed { steps: UNIT },
        );
        lemma_times_nothing(t);
        lemma_times_nothing(zero);
        let off = t.times_spec(ax);
        let foot = a.x.plus_spec(off);
        lemma_small_square(p.x.minus_spec(foot));
        lemma_square(dy);
        assert(square_sum(ax, ay) == ax.times_spec(ax));
        assert(segment_distance_sq(p, a, b, tiny).steps == dy.times_spec(dy).steps);
    }
    if a.x == b.x && are_spread(a.y, b.y) && lies_between(a.y, p.y, b.y) {
        lemma_foot_either_way(dy, ay);
        lemma_times_nothing(dx);
        assert(ax == zero);
        let t = dy.times_spec(ay).over_spec(ay.times_spec(ay)).clamp_spec(
            zero,
            Fixed { steps: UNIT },
        );
        lemma_times_nothing(t);
        lemma_times_nothing(zero);
        let off = t.times_spec(ay);
        let foot = a.y.plus_spec(off);
        lemma_small_square(p.y.minus_spec(foot));
        lemma_square(dx);
        assert(square_sum(ax, ay) == ay.times_spec(ay));
        assert(segment_distance_sq(p, a, b, tiny).steps == dx.times_spec(dx).steps);
    }
}

/// A segment ends at its ends: from a point that lies past the start of a level or
/// upright segment, the distance is that from the start, on both axes together.
pub proof fn law_distance_past_the_start_is_from_the_start(p: Pos, a: Pos, b: Pos, tiny: Fixed)
    requires
        p.in_bounds() && a.in_bounds() && b.in_bounds(),
        0 < tiny.steps <= UNIT,
        -0x2000 * UNIT <= p.x.steps - a.x.steps <= 0x2000 * UNIT,
        -0x2000 * UNIT <= p.y.steps - a.y.steps <= 0x2000 * UNIT,
        a.y == b.y && are_spread(a.x, b.x) && lies_between(p.x, a.x, b.x) || a.x == b.x
            && are_spread(a.y, b.y) && lies_between(p.y, a.y, b.y),
    ensures
        ({
            let dx = p.x.steps - a.x.steps;
            let dy = p.y.steps - a.y.steps;
            0 <= dx * dx + dy * dy - segment_distance_sq(p, a, b, tiny).steps * UNIT < 2 * UNIT
        }),
{
    let dx = p.x.minus_spec(a.x);
    let dy = p.y.minus_spec(a.y);
    let ax = b.x.minus_spec(a.x);
    let ay = b.y.minus_spec(a.y);
    let zero = Fixed { steps: 0 };
    lemma_square(dx);
    lemma_square(dy);
    lemma_times_nothing(dx);
    lemma_times_nothing(dy);
    lemma_times_nothing(zero);
    let len = square_sum(ax, ay);
    let along = dx.times_spec(ax).plus_spec(dy.times_spec(ay));
    if a.y == b.y {
        assert(ay == zero);
        lemma_foot_either_way(ax, ax);
        lemma_opposite(dx, ax);
    } else {
        assert(ax == zero);
        lemma_foot_either_way(ay, ay);
        lemma_opposite(dy, ay);
    }
    assert(along.steps <= 0);
    assert(len.steps >= UNIT);
    let t = along.over_spec(len);
    assert(t.steps <= 0) by {
        let n = -(along.steps * UNIT);
        assert(n >= 0 && along.steps * UNIT <= 0) by (nonlinear_arith)
            requires
                n == -(along.steps * UNIT),
                along.steps <= 0,
                UNIT == 0x1_0000_0000,
        ;
        if along.steps < 0 {
            lemma_floor(n, n / (len.steps as int), len.steps as int);
        } else {
            assert(along.steps * UNIT == 0);
            assert(0int / (len.steps as int) == 0) by (nonlinear_arith)
                requires
                    len.steps > 0,
            ;
        }
    }
    let c = t.clamp_spec(zero, Fixed { steps: UNIT });
    assert(c == zero);
    lemma_times_nothing(ax);
    lemma_times_nothing(ay);
    assert(a.x.plus_spec(c.times_spec(ax)) == a.x);
    assert(a.y.plus_spec(c.times_spec(ay)) == a.y);
}

proof fn lemma_opposite(d: Fixed, a: Fixed)
    requires
        d.steps <= 0 <= a.steps || a.steps <= 0 <= d.steps,
    ensures
        d.times_spec(a).steps <= 0,
{
    let p = d.steps * a.steps;
    assert(p <= 0) by (nonlinear_arith)
        requires
            p == d.steps * a.steps,
            d.steps <= 0 <= a.steps || a.steps <= 0 <= d.steps,
    ;
    if p < 0 {
        lemma_floor(-p, (-p) / (UNIT as int), UNIT as int);
    }
}

/// A click on a straight wire counts within four units of it and no further, and
/// the pointer hovers over it within eight pixels and no further.
pub proof fn law_wires_are_hit_within_four_units(p: Pos, from: Pos, to: Pos)
    requires
        p.in_bounds() && from.in_bounds() && to.in_bounds(),
        from.y == to.y,
        are_spread(from.x, to.x),
        lies_between(from.x, p.x, to.x),
        -0x2000 * UNIT <= p.y.steps - from.y.steps <= 0x2000 * UNIT,
    ensures
        touches(p, click_path(from, to)) <==> -4 * UNIT <= p.y.steps - from.y.steps <= 4 * UNIT,
        hovers(p, seq![from, to]) <==> -8 * UNIT <= p.y.steps - from.y.steps <= 8 * UNIT,
{
    let d = p.y.steps - from.y.steps;
    let path = click_path(from, to);
    assert(path == seq![from, to]);
    law_distance_from_a_segment_is_across_it(p, from, to, Fixed { steps: SHORTEST_SQ });
    law_distance_from_a_segment_is_across_it(p, from, to, Fixed { steps: HOVER_SHORTEST_SQ });
    let s = segment_distance_sq(p, from, to, Fixed { steps: SHORTEST_SQ }).steps as int;
    let h = segment_distance_sq(p, from, to, Fixed { steps: HOVER_SHORTEST_SQ }).steps as int;
    assert(s <= 16 * UNIT <==> -4 * UNIT <= d <= 4 * UNIT) by (nonlinear_arith)
        requires
            0 <= d * d - s * UNIT < UNIT,
            UNIT == 0x1_0000_0000,
    ;
    assert(h <= 64 * UNIT <==> -8 * UNIT <= d <= 8 * UNIT) by (nonlinear_arith)
        requires
            0 <= d * d - h * UNIT < UNIT,
            UNIT == 0x1_0000_0000,
    ;
    assert(path[0] == from && path[1] == to);
    let hover = seq![from, to];
    assert(hover[0] == from && hover[1] == to);
}

/// The path by which a click is tested is straight where the two ends are less
/// than a unit apart on an axis. Otherwise it leaves each end level and has one
/// upright part, half-way between the ends.
pub proof fn law_clicks_are_tested_along_three_parts(from: Pos, to: Pos)
    requires
        from.in_bounds() && to.in_bounds(),
        -0x1000_0000 * UNIT <= from.x.steps <= 0x1000_0000 * UNIT,
        -0x1000_0000 * UNIT <= to.x.steps <= 0x1000_0000 * UNIT,
    ensures
        ({
            let path = click_path(from, to);
            let dx = to.x.steps - from.x.steps;
            let dy = to.y.steps - from.y.steps;
            let straight = -UNIT < dx < UNIT || -UNIT < dy < UNIT;
            &&& path[0] == from && path.last() == to
            &&& straight ==> path.len() == 2
            &&& !straight ==> {
                &&& path.len() == 4
                &&& path[1].y == from.y && path[2].y == to.y
                &&& path[1].x == path[2].x
                &&& -1 <= 2 * path[1].x.steps - (from.x.steps + to.x.steps) <= 1
            }
        }),
{
}

/// Every part of a path can be hit: what hits one of its parts hits the path, and
/// nothing else does.
pub proof fn law_every_part_of_a_path_can_be_hit(p: Pos, path: Seq<Pos>, i: int)
    requires
        0 < i < path.len(),
    ensures
        touches(p, seq![path[i - 1], path[i]]) ==> touches(p, path),
        hovers(p, seq![path[i - 1], path[i]]) ==> hovers(p, path),
        path.len() == 2 ==> touches(p, path) == touches(p, seq![path[0], path[1]]),
{
    let part = seq![path[i - 1], path[i]];
    if touches(p, part) {
        let k = choose|k: int|
            0 < k < part.len() && segment_distance_sq(
                p,
                part[k - 1],
                #[trigger] part[k],
                Fixed { steps: SHORTEST_SQ },
            ).steps <= 16 * UNIT;
        assert(k == 1);
        assert(part[0] == path[i - 1] && part[1] == path[i]);
    }
    if hovers(p, part) {
        let k = choose|k: int|
            0 < k < part.len() && segment_distance_sq(
                p,
                part[k - 1],
                #[trigger] part[k],
                Fixed { steps: HOVER_SHORTEST_SQ },
            ).steps <= 64 * UNIT;
        assert(k == 1);
        assert(part[0] == path[i - 1] && part[1] == path[i]);
    }
    if path.len() == 2 {
        assert(path =~= seq![path[0], path[1]]);
    }
}

} // verus!
