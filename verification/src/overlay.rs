//! What stands over a canvas that has nothing to show: a card while a class is
//! loaded, and a summary of a class that consists of equations.
use crate::text::{
    chars_of, decimal, decimal_text, join_text, joined, string_of, text2, text3, views,
};
use vstd::prelude::*;
use vstd::string::{StringExecFns, StringSliceAdditionalSpecFns};

verus! {

// ── Which card ───────────────────────────────────────────────────────────

/// The card over the canvas.
#[derive(Clone, Copy, Debug, PartialEq, Eq, Structural)]
pub enum Overlay {
    Nothing,
    /// The class could not be loaded.
    LoadFailed,
    /// The class is being loaded or copied.
    Loading,
    /// The source is being parsed; the canvas asks to be drawn again.
    Parsing,
    /// The diagram is being projected.
    Projecting,
    /// The class has no diagram: its summary.
    Summary,
}

/// The card over a canvas. A failure is always told. A canvas that shows
/// something stays as it is while something newer is on its way.
pub open spec fn overlay_spec(
    load_failed: bool,
    loading: bool,
    parsing: bool,
    projecting: bool,
    has_content: bool,
) -> Overlay {
    if load_failed {
        Overlay::LoadFailed
    } else if has_content {
        Overlay::Nothing
    } else if loading {
        Overlay::Loading
    } else if parsing {
        Overlay::Parsing
    } else if projecting {
        Overlay::Projecting
    } else {
        Overlay::Summary
    }
}

/// The card over a canvas.
pub fn choose_overlay(
    load_failed: bool,
    loading: bool,
    parsing: bool,
    projecting: bool,
    has_content: bool,
) -> (r: Overlay)
    ensures
        r == overlay_spec(load_failed, loading, parsing, projecting, has_content),
{
    if load_failed {
        Overlay::LoadFailed
    } else if has_content {
        Overlay::Nothing
    } else if loading {
        Overlay::Loading
    } else if parsing {
        Overlay::Parsing
    } else if projecting {
        Overlay::Projecting
    } else {
        Overlay::Summary
    }
}

// ── The loading card ─────────────────────────────────────────────────────

/// The heading of the loading card: nothing of the time for half a second, then
/// seconds with one digit, and from ten seconds on whole seconds.
pub open spec fn loading_header_spec(elapsed_ms: u64) -> Seq<char> {
    if elapsed_ms < 500 {
        "Loading resource…"@
    } else if elapsed_ms < 10_000 {
        let tenths = ((elapsed_ms + 50) / 100) as nat;
        "Loading resource… "@ + decimal(tenths / 10) + "."@ + decimal(tenths % 10) + "s"@
    } else {
        "Loading resource… "@ + decimal(whole_seconds(elapsed_ms)) + "s"@
    }
}

/// The nearest number of seconds.
pub open spec fn whole_seconds(elapsed_ms: u64) -> nat {
    (elapsed_ms / 1000 + (if elapsed_ms % 1000 >= 500 {
        1int
    } else {
        0int
    })) as nat
}

/// The heading of the loading card after so many milliseconds.
pub fn loading_header(elapsed_ms: u64) -> (r: String)
    ensures
        r@ == loading_header_spec(elapsed_ms),
{
    if elapsed_ms < 500 {
        "Loading resource…".to_owned()
    } else if elapsed_ms < 10_000 {
        let tenths: u64 = (elapsed_ms + 50) / 100;
        let whole = decimal_text(tenths / 10);
        let digit = decimal_text(tenths % 10);
        let mut out = text3("Loading resource… ", whole.as_str(), ".");
        out.append(digit.as_str());
        out.append("s");
        out
    } else {
        let seconds: u64 = elapsed_ms / 1000 + (if elapsed_ms % 1000 >= 500 {
            1
        } else {
            0
        });
        let whole = decimal_text(seconds);
        text3("Loading resource… ", whole.as_str(), "s")
    }
}

/// How many bytes a character takes in a string.
pub open spec fn byte_width(c: char) -> nat {
    if (c as u32) < 0x80 {
        1
    } else if (c as u32) < 0x800 {
        2
    } else if (c as u32) < 0x1_0000 {
        3
    } else {
        4
    }
}

/// How many bytes a text takes in a string.
pub open spec fn byte_length(s: Seq<char>) -> nat
    decreases s.len(),
{
    if s.len() == 0 {
        0
    } else {
        byte_width(s[0]) + byte_length(s.drop_first())
    }
}

/// Whether the last 39 bytes of a text are whole characters, which start at
/// place `k`.
pub open spec fn ends_at(s: Seq<char>, k: int) -> bool {
    0 <= k <= s.len() && byte_length(s.skip(k)) == 39
}

/// Whether a text can be cut: it is short, or its last 39 bytes are whole
/// characters.
pub open spec fn can_be_cut(s: Seq<char>) -> bool {
    byte_length(s) <= 40 || exists|k: int| #[trigger] ends_at(s, k)
}

/// Whether `cut` shows a class name: a name of more than forty bytes loses its
/// front, so that the end stays readable.
pub open spec fn is_cut(cut: Seq<char>, s: Seq<char>) -> bool {
    if byte_length(s) <= 40 {
        cut == s
    } else {
        exists|k: int| #[trigger] ends_at(s, k) && cut == "…"@ + s.skip(k)
    }
}

fn width_of(c: char) -> (r: usize)
    ensures
        r == byte_width(c),
        1 <= r <= 4,
{
    if (c as u32) < 0x80 {
        1
    } else if (c as u32) < 0x800 {
        2
    } else if (c as u32) < 0x1_0000 {
        3
    } else {
        4
    }
}

proof fn lemma_end_is_shorter(s: Seq<char>, i: int)
    requires
        0 <= i <= s.len(),
    ensures
        byte_length(s.skip(i)) <= byte_length(s),
    decreases i,
{
    if i > 0 {
        lemma_end_is_shorter(s, i - 1);
        assert(s.skip(i - 1).drop_first() =~= s.skip(i));
    } else {
        assert(s.skip(0) =~= s);
    }
}

proof fn lemma_byte_length_falls(s: Seq<char>, i: int, j: int)
    requires
        0 <= i < j <= s.len(),
    ensures
        byte_length(s.skip(j)) < byte_length(s.skip(i)),
    decreases j - i,
{
    assert(s.skip(i).drop_first() =~= s.skip(i + 1));
    if i + 1 < j {
        lemma_byte_length_falls(s, i + 1, j);
    }
}

/// A class name as the loading card shows it.
pub fn shown_class_name(name: &str) -> (r: String)
    requires
        can_be_cut(name@),
    ensures
        is_cut(r@, name@),
{
    let v = chars_of(name);
    let mut i: usize = v.len();
    let mut acc: usize = 0;
    let mut at: Option<usize> = None;
    assert(v@.skip(i as int) =~= Seq::empty());
    while i > 0 && acc <= 40
        invariant
            i <= v@.len(),
            acc <= 44,
            acc == byte_length(v@.skip(i as int)),
            match at {
                Some(k) => ends_at(v@, k as int),
                None => forall|k: int| i <= k <= v@.len() ==> !ends_at(v@, k),
            },
        decreases i,
    {
        let ghost end = v@.skip(i - 1);
        assert(end.drop_first() =~= v@.skip(i as int));
        assert(end[0] == v@[i - 1]);
        i -= 1;
        acc += width_of(v[i]);
        if acc == 39 {
            at = Some(i);
        }
    }
    proof {
        lemma_end_is_shorter(v@, i as int);
        assert(v@.skip(0) =~= v@);
    }
    if acc <= 40 {
        return name.to_owned();
    }
    match at {
        Some(k) => {
            let tail = string_of(&v, k, v.len());
            assert(tail@ =~= v@.skip(k as int));
            text2("…", tail.as_str())
        },
        None => {
            proof {
                let k = choose|k: int| #[trigger] ends_at(v@, k);
                if k < i {
                    lemma_byte_length_falls(v@, k, i as int);
                }
            }
            String::new()
        },
    }
}

// ── Counting ─────────────────────────────────────────────────────────────

/// The lines that declare a parameter.
pub open spec fn parameter_pattern() -> Seq<char> {
    "(?m)^\\s*parameter\\s+"@
}

/// The lines that declare an input.
pub open spec fn input_pattern() -> Seq<char> {
    "(?m)^\\s*input\\s+"@
}

/// The lines that declare an output.
pub open spec fn output_pattern() -> Seq<char> {
    "(?m)^\\s*output\\s+"@
}

/// The lines that start with a derivative or an assignment.
pub open spec fn equation_pattern() -> Seq<char> {
    "(?m)^\\s*(?:der\\s*\\(|[A-Za-z_]\\w*\\s*=\\s*[^=])"@
}

/// The connect equations.
pub open spec fn connect_pattern() -> Seq<char> {
    "\\bconnect\\s*\\("@
}

/// The patterns by which a source is summed up. Each is a regular expression.
pub open spec fn is_summary_pattern(p: Seq<char>) -> bool {
    p == parameter_pattern() || p == input_pattern() || p == output_pattern() || p
        == equation_pattern() || p == connect_pattern()
}

/// How many matches of a regular expression, none overlapping another, a text
/// holds.
pub uninterp spec fn regex_match_count(pattern: Seq<char>, text: Seq<char>) -> nat;

/// `regex::Regex::new` compiles the pattern and `regex::Regex::find_iter` yields
/// its matches in the text, one after the other, none overlapping another. How
/// many there are depends on the pattern and the text alone. What a pattern
/// matches is left unsaid.
#[verifier::external_body]
fn count_matches(pattern: &str, text: &str) -> (r: usize)
    requires
        is_summary_pattern(pattern@),
    ensures
        r == regex_match_count(pattern@, text@),
{
    regex::Regex::new(pattern).unwrap().find_iter(text).count()
}

/// How much of each kind a source holds.
#[derive(Clone, Copy, Debug, PartialEq, Eq, Structural)]
pub struct EmptyOverlayCounts {
    pub params: usize,
    pub inputs: usize,
    pub outputs: usize,
    pub equations: usize,
    pub connects: usize,
}

/// Whether the counts are those of the source.
pub open spec fn counts_source(c: EmptyOverlayCounts, source: Seq<char>) -> bool {
    &&& c.params == regex_match_count(parameter_pattern(), source)
    &&& c.inputs == regex_match_count(input_pattern(), source)
    &&& c.outputs == regex_match_count(output_pattern(), source)
    &&& c.equations == regex_match_count(equation_pattern(), source)
    &&& c.connects == regex_match_count(connect_pattern(), source)
}

/// How much of each kind a source holds.
pub fn empty_overlay_counts(source: &str) -> (r: EmptyOverlayCounts)
    ensures
        counts_source(r, source@),
{
    EmptyOverlayCounts {
        params: count_matches("(?m)^\\s*parameter\\s+", source),
        inputs: count_matches("(?m)^\\s*input\\s+", source),
        outputs: count_matches("(?m)^\\s*output\\s+", source),
        equations: count_matches(
            "(?m)^\\s*(?:der\\s*\\(|[A-Za-z_]\\w*\\s*=\\s*[^=])",
            source,
        ),
        connects: count_matches("\\bconnect\\s*\\(", source),
    }
}

/// The hash of the first `n` bytes of a source, which also tells its length.
pub open spec fn prefix_hash_spec(bytes: Seq<u8>, n: int) -> u64
    decreases n,
{
    if n <= 0 {
        bytes.len() as u64
    } else {
        let h = prefix_hash_spec(bytes, n - 1);
        h.wrapping_mul(0x100_0000_01b3).wrapping_add(bytes[n - 1] as u64)
    }
}

/// How many bytes of a source its hash covers: the first four thousand and
/// ninety-six.
pub open spec fn hashed_length(bytes: Seq<u8>) -> int {
    if bytes.len() < 4096 {
        bytes.len() as int
    } else {
        4096
    }
}

/// The hash of the front of a source.
pub fn prefix_hash(source: &str) -> (r: u64)
    ensures
        r == prefix_hash_spec(source.spec_bytes(), hashed_length(source.spec_bytes())),
{
    let bytes = source.as_bytes();
    let most: usize = if bytes.len() < 4096 {
        bytes.len()
    } else {
        4096
    };
    let mut h: u64 = bytes.len() as u64;
    let mut i: usize = 0;
    while i < most
        invariant
            i <= most <= bytes@.len(),
            h == prefix_hash_spec(bytes@, i as int),
        decreases most - i,
    {
        h = h.wrapping_mul(0x100_0000_01b3).wrapping_add(bytes[i] as u64);
        i += 1;
    }
    h
}

/// The counts of the source that was summed up last, under its length and the
/// hash of its front.
#[derive(Clone, Copy, Debug, PartialEq, Eq, Structural)]
pub struct CachedCounts {
    pub len: usize,
    pub hash: u64,
    pub counts: EmptyOverlayCounts,
}

/// Whether the kept counts stand for the source: it has the same length, and
/// its front has the same hash.
pub open spec fn is_kept(cache: Option<CachedCounts>, source: &str) -> bool {
    cache matches Some(c) && c.len == source.spec_bytes().len() as usize && c.hash
        == prefix_hash_spec(source.spec_bytes(), hashed_length(source.spec_bytes()))
}

/// Whether `r` are the counts that are shown for the source, and `after` what is
/// kept then: what is kept for it already, or else counted anew.
pub open spec fn is_summed_up(
    before: Option<CachedCounts>,
    source: &str,
    after: Option<CachedCounts>,
    r: EmptyOverlayCounts,
) -> bool {
    if is_kept(before, source) {
        after == before && r == before->0.counts
    } else {
        counts_source(r, source@) && after == Some(
            CachedCounts {
                len: source.spec_bytes().len() as usize,
                hash: prefix_hash_spec(source.spec_bytes(), hashed_length(source.spec_bytes())),
                counts: r,
            },
        )
    }
}

/// How much of each kind a source holds. The counts of one source are kept, so
/// that they are not counted again for every frame.
pub fn empty_overlay_counts_cached(cache: &mut Option<CachedCounts>, source: &str) -> (r:
    EmptyOverlayCounts)
    ensures
        is_summed_up(*old(cache), source, *final(cache), r),
{
    let len: usize = source.len();
    let hash = prefix_hash(source);
    if let Some(c) = *cache {
        if c.len == len && c.hash == hash {
            return c.counts;
        }
    }
    let counts = empty_overlay_counts(source);
    *cache = Some(CachedCounts { len, hash, counts });
    counts
}

// ── The summary ──────────────────────────────────────────────────────────

/// The name at the head of the summary.
pub fn summary_title(detected_name: &Option<String>) -> (r: String)
    ensures
        r@ == (match *detected_name {
            Some(n) => n@,
            None => "(unnamed)"@,
        }),
{
    match detected_name {
        Some(n) => n.clone(),
        None => "(unnamed)".to_owned(),
    }
}

/// The first six names, or all where there are fewer.
pub open spec fn shown_names(names: Seq<Seq<char>>) -> Seq<Seq<char>> {
    if names.len() > 6 {
        names.take(6)
    } else {
        names
    }
}

/// A line of the summary: up to six names and how many more there are of
/// `total`, a dash where no name is known, and nothing where there are none.
pub open spec fn symbol_band_spec(names: Seq<Seq<char>>, total: nat) -> Option<Seq<char>> {
    if total == 0 && names.len() == 0 {
        None
    } else if names.len() == 0 {
        Some("—"@)
    } else if names.len() > 6 && total > 6 {
        Some(joined(shown_names(names), ", "@) + " + "@ + decimal((total - 6) as nat) + " more"@)
    } else {
        Some(joined(shown_names(names), ", "@))
    }
}

/// A line of the summary.
pub fn symbol_band(names: &Vec<String>, total: usize) -> (r: Option<String>)
    ensures
        crate::text::opt_view(r) == symbol_band_spec(views(names@), total as nat),
{
    if total == 0 && names.len() == 0 {
        return None;
    }
    if names.len() == 0 {
        return Some("—".to_owned());
    }
    let mut shown: Vec<String> = Vec::new();
    let mut i: usize = 0;
    while i < names.len() && i < 6
        invariant
            i <= names@.len(),
            i <= 6,
            shown@ == names@.take(i as int),
        decreases names@.len() - i,
    {
        shown.push(names[i].clone());
        assert(names@.take(i + 1) =~= names@.take(i as int).push(names@[i as int]));
        i += 1;
    }
    assert(views(shown@) =~= shown_names(views(names@)));
    assert(views(shown@).skip(0) =~= views(shown@));
    let mut out = join_text(&shown, 0, ", ");
    if names.len() > 6 && total > 6 {
        out.append(" + ");
        let more = decimal_text((total - 6) as u64);
        out.append(more.as_str());
        out.append(" more");
    }
    Some(out)
}

/// The last line of the summary.
pub open spec fn counts_line_spec(equations: nat, connects: nat) -> Seq<char> {
    decimal(equations) + " equations · "@ + decimal(connects) + " connect equations"@
}

/// The last line of the summary.
pub fn counts_line(counts: &EmptyOverlayCounts) -> (r: String)
    ensures
        r@ == counts_line_spec(counts.equations as nat, counts.connects as nat),
{
    let equations = decimal_text(counts.equations as u64);
    let connects = decimal_text(counts.connects as u64);
    let mut out = text3(equations.as_str(), " equations · ", connects.as_str());
    out.append(" connect equations");
    out
}

// ── Laws ─────────────────────────────────────────────────────────────────

/// A source that is summed up a second time shows the counts of the first time,
/// which are its own, and nothing is counted again.
pub proof fn law_source_is_counted_once(
    c0: Option<CachedCounts>,
    source: &str,
    c1: Option<CachedCounts>,
    first: EmptyOverlayCounts,
    c2: Option<CachedCounts>,
    second: EmptyOverlayCounts,
)
    requires
        !is_kept(c0, source),
        is_summed_up(c0, source, c1, first),
        is_summed_up(c1, source, c2, second),
    ensures
        counts_source(first, source@),
        second == first,
        c2 == c1,
{
}

/// A canvas that shows something is never covered, but by a failure.
pub proof fn law_content_is_not_covered(
    load_failed: bool,
    loading: bool,
    parsing: bool,
    projecting: bool,
)
    ensures
        overlay_spec(load_failed, loading, parsing, projecting, true) == Overlay::Nothing
            <==> !load_failed,
        overlay_spec(load_failed, loading, parsing, projecting, false) != Overlay::Nothing,
{
}

proof fn lemma_plain_byte_length(s: Seq<char>)
    requires
        forall|i: int| 0 <= i < s.len() ==> (#[trigger] s[i] as u32) < 0x80,
    ensures
        byte_length(s) == s.len(),
    decreases s.len(),
{
    if s.len() > 0 {
        assert((s[0] as u32) < 0x80);
        assert forall|i: int| 0 <= i < s.drop_first().len() implies (
        #[trigger] s.drop_first()[i] as u32) < 0x80 by {
            assert(s.drop_first()[i] == s[i + 1]);
        }
        lemma_plain_byte_length(s.drop_first());
    }
}

/// A name of plain characters can always be cut.
pub proof fn law_plain_names_can_be_cut(s: Seq<char>)
    requires
        forall|i: int| 0 <= i < s.len() ==> (#[trigger] s[i] as u32) < 0x80,
    ensures
        can_be_cut(s),
{
    lemma_plain_byte_length(s);
    if s.len() > 40 {
        let k = s.len() - 39;
        let end = s.skip(k);
        assert forall|i: int| 0 <= i < end.len() implies (#[trigger] end[i] as u32) < 0x80 by {
            assert(end[i] == s[i + k]);
        }
        lemma_plain_byte_length(end);
        assert(ends_at(s, k));
    }
}

/// Of a name of more than forty plain characters the last thirty-nine are
/// shown; a shorter one is shown whole.
pub proof fn law_plain_names_keep_their_end(s: Seq<char>, cut: Seq<char>)
    requires
        forall|i: int| 0 <= i < s.len() ==> (#[trigger] s[i] as u32) < 0x80,
        is_cut(cut, s),
    ensures
        s.len() <= 40 ==> cut == s,
        s.len() > 40 ==> cut == "…"@ + s.skip(s.len() - 39),
{
    lemma_plain_byte_length(s);
    if s.len() > 40 {
        let m = choose|m: int| #[trigger] ends_at(s, m) && cut == "…"@ + s.skip(m);
        let end = s.skip(m);
        assert forall|i: int| 0 <= i < end.len() implies (#[trigger] end[i] as u32) < 0x80 by {
            assert(end[i] == s[i + m]);
        }
        lemma_plain_byte_length(end);
    }
}

/// Of what may be under way only the first counts: a failure before the loading,
/// the loading before the parsing, the parsing before the projection; with none of
/// them an empty canvas shows the summary.
pub proof fn law_cards_follow_the_way_to_a_diagram(parsing: bool, projecting: bool, loading: bool)
    ensures
        forall|l: bool, p: bool, j: bool, c: bool|
            #[trigger] overlay_spec(true, l, p, j, c) == Overlay::LoadFailed,
        overlay_spec(false, true, parsing, projecting, false) == Overlay::Loading,
        overlay_spec(false, false, true, projecting, false) == Overlay::Parsing,
        overlay_spec(false, false, false, true, false) == Overlay::Projecting,
        overlay_spec(false, loading, parsing, projecting, false) == Overlay::Summary <==> !loading
            && !parsing && !projecting,
{
}

/// The seconds on the loading card are the nearest, half a second upward.
pub proof fn law_seconds_are_rounded(elapsed_ms: u64)
    ensures
        -500 < 1000 * whole_seconds(elapsed_ms) - elapsed_ms <= 500,
{
}

/// Of the first ten seconds the card tells the tenths: the whole seconds before
/// the point and one digit behind it, which together are the nearest tenth.
pub proof fn law_tenths_are_shown_for_ten_seconds(elapsed_ms: u64) -> (r: (nat, nat))
    ensures
        elapsed_ms < 500 ==> loading_header_spec(elapsed_ms) == "Loading resource…"@,
        500 <= elapsed_ms < 10_000 ==> {
            &&& loading_header_spec(elapsed_ms) == "Loading resource… "@ + decimal(r.0) + "."@
                + decimal(r.1) + "s"@
            &&& r.1 < 10
            &&& -50 < 100 * (10 * r.0 + r.1) - elapsed_ms <= 50
        },
        elapsed_ms >= 10_000 ==> {
            &&& loading_header_spec(elapsed_ms) == "Loading resource… "@ + decimal(r.0) + "s"@
            &&& -500 < 1000 * r.0 - elapsed_ms <= 500
        },
{
    if elapsed_ms < 10_000 {
        let tenths = ((elapsed_ms + 50) / 100) as nat;
        (tenths / 10, tenths % 10)
    } else {
        (whole_seconds(elapsed_ms), 0)
    }
}

/// A name that is cut is shown behind an ellipsis by its end, thirty-nine bytes of
/// whole characters; a name of forty bytes or less is not cut.
pub proof fn law_cut_names_end_like_the_name(s: Seq<char>, cut: Seq<char>) -> (k: int)
    requires
        is_cut(cut, s),
    ensures
        byte_length(s) <= 40 ==> cut == s,
        byte_length(s) > 40 ==> 0 <= k <= s.len() && cut == "…"@ + s.skip(k) && byte_length(
            s.skip(k),
        ) == 39,
{
    if byte_length(s) <= 40 {
        0
    } else {
        choose|k: int| #[trigger] ends_at(s, k) && cut == "…"@ + s.skip(k)
    }
}

/// The bytes of a text are those of its parts together, and a character of ASCII
/// takes one.
pub proof fn law_bytes_add_up(a: Seq<char>, b: Seq<char>)
    ensures
        byte_length(a + b) == byte_length(a) + byte_length(b),
        byte_length(a) >= a.len(),
        byte_length(a) <= 4 * a.len(),
    decreases a.len(),
{
    if a.len() == 0 {
        assert(a + b =~= b);
    } else {
        assert((a + b).drop_first() =~= a.drop_first() + b);
        law_bytes_add_up(a.drop_first(), b);
    }
}

/// The hash of a source goes by its length and its first bytes alone, 4096 at
/// most: sources that agree in these have one hash.
pub proof fn law_hashes_go_by_the_front(a: Seq<u8>, b: Seq<u8>, n: int)
    requires
        a.len() == b.len(),
        0 <= n <= a.len(),
        forall|i: int| 0 <= i < n ==> #[trigger] a[i] == b[i],
    ensures
        prefix_hash_spec(a, n) == prefix_hash_spec(b, n),
        hashed_length(a) == hashed_length(b),
        hashed_length(a) <= 4096,
        hashed_length(a) == a.len() || hashed_length(a) == 4096 && a.len() > 4096 || a.len()
            == 4096,
    decreases n,
{
    if n > 0 {
        law_hashes_go_by_the_front(a, b, n - 1);
    }
}

/// Two sources of one length that differ in the last byte that is hashed have
/// different hashes.
pub proof fn law_hashes_tell_the_last_byte(a: Seq<u8>, b: Seq<u8>, n: int)
    requires
        a.len() == b.len(),
        0 < n <= a.len(),
        forall|i: int| 0 <= i < n - 1 ==> #[trigger] a[i] == b[i],
        a[n - 1] != b[n - 1],
    ensures
        prefix_hash_spec(a, n) != prefix_hash_spec(b, n),
{
    law_hashes_go_by_the_front(a, b, n - 1);
}

/// A line of the summary names no more than six, the first ones and in order. Where
/// more names are known than it shows, it tells how many are left of the total.
pub proof fn law_summaries_name_the_first_six(names: Seq<Seq<char>>, total: nat, i: int)
    ensures
        shown_names(names).len() <= 6,
        shown_names(names).len() == names.len() || shown_names(names).len() == 6,
        0 <= i < shown_names(names).len() ==> i < names.len() && shown_names(names)[i] == names[i],
        names.len() == 0 ==> (symbol_band_spec(names, total) is None <==> total == 0),
        0 < names.len() <= 6 ==> symbol_band_spec(names, total) == Some(joined(names, ", "@)),
        names.len() > 6 && total >= names.len() ==> symbol_band_spec(names, total) == Some(
            joined(names.take(6), ", "@) + " + "@ + decimal((total - 6) as nat) + " more"@,
        ),
{
}

/// The last line of the summary tells the equations first and the connect
/// equations after them.
pub proof fn law_counts_are_told_in_order(equations: nat, connects: nat)
    ensures
        ({
            let line = counts_line_spec(equations, connects);
            let n = decimal(equations).len() as int;
            let m = n + " equations · "@.len();
            let k = m + decimal(connects).len();
            &&& line.take(n) == decimal(equations)
            &&& line.subrange(n, m) == " equations · "@
            &&& line.subrange(m, k) == decimal(connects)
            &&& line.skip(k) == " connect equations"@
        }),
{
    let line = counts_line_spec(equations, connects);
    let n = decimal(equations).len() as int;
    let m = n + " equations · "@.len();
    let k = m + decimal(connects).len();
    assert(line.take(n) =~= decimal(equations));
    assert(line.subrange(n, m) =~= " equations · "@);
    assert(line.subrange(m, k) =~= decimal(connects));
    assert(line.skip(k) =~= " connect equations"@);
}

} // verus!
