//! The part of a Modelica source that its diagram can depend on, and its hash.
//!
//! Comments and runs of blanks do not show in a diagram, so an edit that only
//! changes those leaves the hash as it was, and the diagram need not be
//! projected again.
use crate::text::{chars_of, first_index, lemma_first_index};
use std::collections::hash_map::DefaultHasher;
use std::hash::Hasher;
use vstd::prelude::*;
use vstd::std_specs::hash::DefaultHasherAdditionalSpecFns;

verus! {

/// Whether `c` has the `White_Space` property of Unicode.
pub open spec fn is_blank(c: char) -> bool {
    ||| '\u{9}' <= c <= '\u{d}'
    ||| c == ' '
    ||| c == '\u{85}'
    ||| c == '\u{a0}'
    ||| c == '\u{1680}'
    ||| '\u{2000}' <= c <= '\u{200a}'
    ||| c == '\u{2028}'
    ||| c == '\u{2029}'
    ||| c == '\u{202f}'
    ||| c == '\u{205f}'
    ||| c == '\u{3000}'
}

/// The first place at or after `i` behind the end of a block comment, or the
/// end of `s`.
pub open spec fn block_end(s: Seq<char>, i: int) -> int
    decreases s.len() - i,
{
    if i + 1 >= s.len() {
        s.len() as int
    } else if s[i] == '*' && s[i + 1] == '/' {
        i + 2
    } else {
        block_end(s, i + 1)
    }
}

/// What the diagram can depend on in `s` from place `i` on. `in_string` tells
/// whether that place lies in a string literal, `after_blank` whether a blank
/// was written last.
///
/// String literals stay as they are; comments are dropped; runs of blanks
/// become one space.
pub open spec fn relevant(s: Seq<char>, i: int, in_string: bool, after_blank: bool) -> Seq<char>
    decreases s.len() - i,
    when 0 <= i
    via relevant_moves_on
{
    if i >= s.len() {
        Seq::empty()
    } else if in_string {
        if s[i] == '\\' && i + 1 < s.len() {
            seq![s[i], s[i + 1]] + relevant(s, i + 2, true, after_blank)
        } else {
            seq![s[i]] + relevant(s, i + 1, s[i] != '"', after_blank)
        }
    } else if s[i] == '/' && i + 1 < s.len() && s[i + 1] == '/' {
        relevant(s, first_index(s, '\n', i + 2), false, after_blank)
    } else if s[i] == '/' && i + 1 < s.len() && s[i + 1] == '*' {
        relevant(s, block_end(s, i + 2), false, after_blank)
    } else if s[i] == '"' {
        seq![s[i]] + relevant(s, i + 1, true, false)
    } else if is_blank(s[i]) {
        if after_blank {
            relevant(s, i + 1, false, true)
        } else {
            seq![' '] + relevant(s, i + 1, false, true)
        }
    } else {
        seq![s[i]] + relevant(s, i + 1, false, false)
    }
}

#[via_fn]
proof fn relevant_moves_on(s: Seq<char>, i: int, in_string: bool, after_blank: bool) {
    if i + 2 <= s.len() {
        lemma_first_index(s, '\n', i + 2);
        lemma_block_end(s, i + 2);
    }
}

pub proof fn lemma_block_end(s: Seq<char>, i: int)
    requires
        0 <= i <= s.len(),
    ensures
        i <= block_end(s, i) <= s.len(),
    decreases s.len() - i,
{
    if i + 1 < s.len() && !(s[i] == '*' && s[i + 1] == '/') {
        lemma_block_end(s, i + 1);
    }
}

/// What the diagram can depend on in a source.
pub open spec fn relevant_slice(s: Seq<char>) -> Seq<char> {
    relevant(s, 0, false, true)
}

fn blank(c: char) -> (r: bool)
    ensures
        r == is_blank(c),
{
    ('\u{9}' <= c && c <= '\u{d}') || c == ' ' || c == '\u{85}' || c == '\u{a0}' || c == '\u{1680}'
        || ('\u{2000}' <= c && c <= '\u{200a}') || c == '\u{2028}' || c == '\u{2029}' || c
        == '\u{202f}' || c == '\u{205f}' || c == '\u{3000}'
}

fn skip_line(s: &Vec<char>, from: usize) -> (r: usize)
    requires
        from <= s@.len(),
    ensures
        r == first_index(s@, '\n', from as int),
        from <= r <= s@.len(),
{
    let mut i: usize = from;
    while i < s.len() && s[i] != '\n'
        invariant
            from <= i <= s@.len(),
            first_index(s@, '\n', from as int) == first_index(s@, '\n', i as int),
        decreases s@.len() - i,
    {
        i += 1;
    }
    i
}

fn skip_block(s: &Vec<char>, from: usize) -> (r: usize)
    requires
        from <= s@.len(),
    ensures
        r == block_end(s@, from as int),
        from <= r <= s@.len(),
{
    let n: usize = s.len();
    let mut i: usize = from;
    while n >= 2 && i < n - 1
        invariant
            n == s@.len(),
            from <= i <= n,
            block_end(s@, from as int) == block_end(s@, i as int),
        decreases n - i,
    {
        if s[i] == '*' && s[i + 1] == '/' {
            return i + 2;
        }
        i += 1;
    }
    n
}

/// What the diagram can depend on in a source: all of it but comments, with
/// runs of blanks as one space. String literals stay as they are.
pub fn projection_relevant_slice(source: &str) -> (r: Vec<char>)
    ensures
        r@ == relevant_slice(source@),
{
    let s = chars_of(source);
    let n: usize = s.len();
    let mut out: Vec<char> = Vec::new();
    let mut i: usize = 0;
    let mut in_string = false;
    let mut after_blank = true;
    assert(out@ + relevant(s@, 0, false, true) =~= relevant(s@, 0, false, true));
    while i < n
        invariant
            n == s@.len(),
            s@ == source@,
            i <= n,
            out@ + relevant(s@, i as int, in_string, after_blank) == relevant_slice(source@),
        decreases n - i,
    {
        let c: char = s[i];
        let ghost before = out@;
        if in_string {
            out.push(c);
            if c == '\\' && i < n - 1 {
                out.push(s[i + 1]);
                assert(before + (seq![c, s@[i + 1]] + relevant(s@, i + 2, true, after_blank))
                    =~= out@ + relevant(s@, i + 2, true, after_blank));
                i += 2;
            } else {
                assert(before + (seq![c] + relevant(s@, i + 1, c != '"', after_blank)) =~= out@
                    + relevant(s@, i + 1, c != '"', after_blank));
                in_string = c != '"';
                i += 1;
            }
        } else if c == '/' && i < n - 1 && s[i + 1] == '/' {
            i = skip_line(&s, i + 2);
        } else if c == '/' && i < n - 1 && s[i + 1] == '*' {
            i = skip_block(&s, i + 2);
        } else if c == '"' {
            out.push(c);
            assert(before + (seq![c] + relevant(s@, i + 1, true, false)) =~= out@ + relevant(
                s@,
                i + 1,
                true,
                false,
            ));
            in_string = true;
            after_blank = false;
            i += 1;
        } else if blank(c) {
            if !after_blank {
                out.push(' ');
                assert(before + (seq![' '] + relevant(s@, i + 1, false, true)) =~= out@ + relevant(
                    s@,
                    i + 1,
                    false,
                    true,
                ));
            }
            after_blank = true;
            i += 1;
        } else {
            out.push(c);
            assert(before + (seq![c] + relevant(s@, i + 1, false, false)) =~= out@ + relevant(
                s@,
                i + 1,
                false,
                false,
            ));
            after_blank = false;
            i += 1;
        }
    }
    assert(out@ + relevant(s@, i as int, in_string, after_blank) =~= out@);
    out
}

// ── Hash ─────────────────────────────────────────────────────────────────

/// The four bytes of a character's code point, the lowest first.
pub open spec fn char_bytes(c: char) -> Seq<u8> {
    let n = c as nat;
    seq![
        (n % 256) as u8,
        (n / 256 % 256) as u8,
        (n / 65536 % 256) as u8,
        (n / 16777216 % 256) as u8,
    ]
}

/// The hash of the part of a source that its diagram can depend on.
pub open spec fn relevant_hash(s: Seq<char>) -> u64 {
    DefaultHasher::spec_finish(relevant_slice(s).map_values(|c: char| char_bytes(c)))
}

fn bytes_of(c: char) -> (r: [u8; 4])
    ensures
        r@ == char_bytes(c),
{
    let n: u32 = c as u32;
    let r: [u8; 4] = [
        (n % 256) as u8,
        (n / 256 % 256) as u8,
        (n / 65536 % 256) as u8,
        (n / 16777216 % 256) as u8,
    ];
    assert(r@ =~= char_bytes(c));
    r
}

/// The hash of the part of a source that its diagram can depend on. Where two
/// sources have the same relevant part they have the same hash.
pub fn projection_relevant_source_hash(source: &str) -> (r: u64)
    ensures
        r == relevant_hash(source@),
{
    let slice = projection_relevant_slice(source);
    let mut h = DefaultHasher::new();
    let mut i: usize = 0;
    assert(h@ =~= slice@.take(0).map_values(|c: char| char_bytes(c)));
    while i < slice.len()
        invariant
            i <= slice@.len(),
            h@ == slice@.take(i as int).map_values(|c: char| char_bytes(c)),
        decreases slice@.len() - i,
    {
        let bytes = bytes_of(slice[i]);
        let ghost before = slice@.take(i as int);
        assert(slice@.take(i + 1) =~= before.push(slice@[i as int]));
        h.write(bytes.as_slice());
        assert(h@ =~= slice@.take(i + 1).map_values(|c: char| char_bytes(c)));
        i += 1;
    }
    assert(slice@.take(i as int) =~= slice@);
    h.finish()
}

// ── Laws ─────────────────────────────────────────────────────────────────

/// Where reading `s` from place `i` on comes to place `k` outside string
/// literals and comments, whether a blank was written last; none where it does
/// not come to `k` in that way.
pub open spec fn passes(s: Seq<char>, i: int, in_string: bool, after_blank: bool, k: int) -> Option<
    bool,
>
    decreases s.len() - i,
    when 0 <= i
    via passes_moves_on
{
    if i >= k || i >= s.len() {
        if i == k && !in_string {
            Some(after_blank)
        } else {
            None
        }
    } else if in_string {
        if s[i] == '\\' && i + 1 < s.len() {
            passes(s, i + 2, true, after_blank, k)
        } else {
            passes(s, i + 1, s[i] != '"', after_blank, k)
        }
    } else if s[i] == '/' && i + 1 < s.len() && s[i + 1] == '/' {
        passes(s, first_index(s, '\n', i + 2), false, after_blank, k)
    } else if s[i] == '/' && i + 1 < s.len() && s[i + 1] == '*' {
        passes(s, block_end(s, i + 2), false, after_blank, k)
    } else if s[i] == '"' {
        passes(s, i + 1, true, false, k)
    } else {
        passes(s, i + 1, false, is_blank(s[i]), k)
    }
}

#[via_fn]
proof fn passes_moves_on(s: Seq<char>, i: int, in_string: bool, after_blank: bool, k: int) {
    if i + 2 <= s.len() {
        lemma_first_index(s, '\n', i + 2);
        lemma_block_end(s, i + 2);
    }
}

proof fn lemma_passes_in_range(s: Seq<char>, i: int, in_string: bool, after_blank: bool, k: int)
    requires
        0 <= i,
        passes(s, i, in_string, after_blank, k) is Some,
    ensures
        i <= k,
{
}

/// The first line end agrees in two texts that agree up to `k`, where either
/// lies before `k` or both at it.
proof fn lemma_line_end_agrees(a: Seq<char>, b: Seq<char>, i: int, k: int)
    requires
        0 <= i <= k <= a.len(),
        k <= b.len(),
        a.take(k) == b.take(k),
        first_index(a, '\n', i) <= k,
        first_index(b, '\n', i) <= k,
    ensures
        first_index(a, '\n', i) == first_index(b, '\n', i),
    decreases k - i,
{
    if i < k {
        assert(a[i] == a.take(k)[i]);
        assert(b[i] == b.take(k)[i]);
        if a[i] != '\n' {
            lemma_line_end_agrees(a, b, i + 1, k);
        }
    } else {
        lemma_first_index(a, '\n', i);
        lemma_first_index(b, '\n', i);
    }
}

proof fn lemma_block_end_agrees(a: Seq<char>, b: Seq<char>, i: int, k: int)
    requires
        0 <= i <= k <= a.len(),
        k <= b.len(),
        a.take(k) == b.take(k),
        block_end(a, i) <= k,
        block_end(b, i) <= k,
    ensures
        block_end(a, i) == block_end(b, i),
    decreases k - i,
{
    lemma_block_end(a, i);
    lemma_block_end(b, i);
    if i + 1 < k {
        assert(a[i] == a.take(k)[i]);
        assert(b[i] == b.take(k)[i]);
        assert(a[i + 1] == a.take(k)[i + 1]);
        assert(b[i + 1] == b.take(k)[i + 1]);
        if !(a[i] == '*' && a[i + 1] == '/') {
            lemma_block_end_agrees(a, b, i + 1, k);
        }
    } else {
        if i + 1 < a.len() {
            if !(a[i] == '*' && a[i + 1] == '/') {
                lemma_block_end(a, i + 1);
                assert(block_end(a, i + 1) > i + 1 || i + 1 == k);
            }
        }
        lemma_block_end_bound(a, i);
        lemma_block_end_bound(b, i);
    }
}

/// A block comment that does not end at once ends two places on or later.
proof fn lemma_block_end_bound(s: Seq<char>, i: int)
    requires
        0 <= i <= s.len(),
    ensures
        block_end(s, i) == s.len() || block_end(s, i) >= i + 2,
    decreases s.len() - i,
{
    if i + 1 < s.len() && !(s[i] == '*' && s[i + 1] == '/') {
        lemma_block_end_bound(s, i + 1);
    }
}

/// Two sources that agree up to a place that both readings come to agree in
/// what is written up to it.
proof fn lemma_common_start(
    a: Seq<char>,
    b: Seq<char>,
    i: int,
    in_string: bool,
    after_blank: bool,
    k: int,
) -> (start: Seq<char>)
    requires
        0 <= i <= k < a.len(),
        k < b.len(),
        a.take(k) == b.take(k),
        passes(a, i, in_string, after_blank, k) is Some,
        passes(b, i, in_string, after_blank, k) is Some,
    ensures
        passes(a, i, in_string, after_blank, k) == passes(b, i, in_string, after_blank, k),
        relevant(a, i, in_string, after_blank) == start + relevant(
            a,
            k,
            false,
            passes(a, i, in_string, after_blank, k)->0,
        ),
        relevant(b, i, in_string, after_blank) == start + relevant(
            b,
            k,
            false,
            passes(a, i, in_string, after_blank, k)->0,
        ),
    decreases k - i,
{
    let l = passes(a, i, in_string, after_blank, k)->0;
    if i == k {
        let start = Seq::<char>::empty();
        assert(start + relevant(a, k, false, l) =~= relevant(a, k, false, l));
        assert(start + relevant(b, k, false, l) =~= relevant(b, k, false, l));
        start
    } else {
        assert(a[i] == a.take(k)[i]);
        assert(b[i] == b.take(k)[i]);
        if i + 1 < k {
            assert(a[i + 1] == a.take(k)[i + 1]);
            assert(b[i + 1] == b.take(k)[i + 1]);
        }
        lemma_first_index(a, '\n', i + 2);
        lemma_first_index(b, '\n', i + 2);
        lemma_block_end(a, i + 2);
        lemma_block_end(b, i + 2);
        let head: Seq<char>;
        let rest: Seq<char>;
        if in_string {
            if a[i] == '\\' {
                lemma_passes_in_range(a, i + 2, true, after_blank, k);
                rest = lemma_common_start(a, b, i + 2, true, after_blank, k);
                head = seq![a[i], a[i + 1]];
            } else {
                rest = lemma_common_start(a, b, i + 1, a[i] != '"', after_blank, k);
                head = seq![a[i]];
            }
        } else if a[i] == '/' && a[i + 1] == '/' {
            lemma_passes_in_range(a, first_index(a, '\n', i + 2), false, after_blank, k);
            if !(b[i + 1] == '/') {
                assert(i + 1 == k);
            }
            if i + 1 < k {
                lemma_passes_in_range(b, first_index(b, '\n', i + 2), false, after_blank, k);
                lemma_line_end_agrees(a, b, i + 2, k);
            }
            rest = lemma_common_start(a, b, first_index(a, '\n', i + 2), false, after_blank, k);
            head = Seq::empty();
        } else if a[i] == '/' && a[i + 1] == '*' {
            lemma_passes_in_range(a, block_end(a, i + 2), false, after_blank, k);
            if i + 1 < k {
                lemma_passes_in_range(b, block_end(b, i + 2), false, after_blank, k);
                lemma_block_end_agrees(a, b, i + 2, k);
            }
            rest = lemma_common_start(a, b, block_end(a, i + 2), false, after_blank, k);
            head = Seq::empty();
        } else {
            if b[i] == '/' && b[i + 1] == '/' {
                lemma_passes_in_range(b, first_index(b, '\n', i + 2), false, after_blank, k);
            }
            if b[i] == '/' && b[i + 1] == '*' {
                lemma_passes_in_range(b, block_end(b, i + 2), false, after_blank, k);
            }
            if a[i] == '"' {
                rest = lemma_common_start(a, b, i + 1, true, false, k);
                head = seq![a[i]];
            } else {
                rest = lemma_common_start(a, b, i + 1, false, is_blank(a[i]), k);
                head = if is_blank(a[i]) {
                    if after_blank {
                        Seq::empty()
                    } else {
                        seq![' ']
                    }
                } else {
                    seq![a[i]]
                };
            }
        }
        let start = head + rest;
        assert(head + (rest + relevant(a, k, false, l)) =~= start + relevant(a, k, false, l));
        assert(head + (rest + relevant(b, k, false, l)) =~= start + relevant(b, k, false, l));
        if head.len() == 0 {
            assert(head + (rest + relevant(a, k, false, l)) =~= rest + relevant(a, k, false, l));
            assert(head + (rest + relevant(b, k, false, l)) =~= rest + relevant(b, k, false, l));
        }
        start
    }
}

proof fn lemma_relevant_of_rest(
    p: Seq<char>,
    t: Seq<char>,
    i: int,
    in_string: bool,
    after_blank: bool,
)
    requires
        0 <= i <= t.len(),
    ensures
        relevant(p + t, p.len() + i, in_string, after_blank) == relevant(
            t,
            i,
            in_string,
            after_blank,
        ),
    decreases t.len() - i,
{
    let s = p + t;
    let j = p.len() + i;
    if i < t.len() {
        assert(s[j] == t[i]);
        if i + 1 < t.len() {
            assert(s[j + 1] == t[i + 1]);
        }
        if i + 2 <= t.len() {
            lemma_first_index(t, '\n', i + 2);
            lemma_block_end(t, i + 2);
            lemma_searches_of_rest(p, t, i + 2);
        }
        if in_string {
            if t[i] == '\\' && i + 1 < t.len() {
                lemma_relevant_of_rest(p, t, i + 2, true, after_blank);
            } else {
                lemma_relevant_of_rest(p, t, i + 1, t[i] != '"', after_blank);
            }
        } else if t[i] == '/' && i + 1 < t.len() && t[i + 1] == '/' {
            lemma_relevant_of_rest(p, t, first_index(t, '\n', i + 2), false, after_blank);
        } else if t[i] == '/' && i + 1 < t.len() && t[i + 1] == '*' {
            lemma_relevant_of_rest(p, t, block_end(t, i + 2), false, after_blank);
        } else if t[i] == '"' {
            lemma_relevant_of_rest(p, t, i + 1, true, false);
        } else {
            lemma_relevant_of_rest(p, t, i + 1, false, is_blank(t[i]));
        }
    }
}

proof fn lemma_searches_of_rest(p: Seq<char>, t: Seq<char>, i: int)
    requires
        0 <= i <= t.len(),
    ensures
        first_index(p + t, '\n', p.len() + i) == p.len() + first_index(t, '\n', i),
        block_end(p + t, p.len() + i) == p.len() + block_end(t, i),
    decreases t.len() - i,
{
    if i < t.len() {
        assert((p + t)[p.len() + i] == t[i]);
        if i + 1 < t.len() {
            assert((p + t)[p.len() + i + 1] == t[i + 1]);
        }
        lemma_searches_of_rest(p, t, i + 1);
    }
}

/// Changing the text of a line comment leaves the relevant part of a source
/// as it was: `p` comes before the comment, `t`, which starts with the line
/// end, behind it.
pub proof fn law_line_comment_text_is_irrelevant(
    p: Seq<char>,
    c1: Seq<char>,
    c2: Seq<char>,
    t: Seq<char>,
)
    requires
        t.len() > 0,
        t[0] == '\n',
        forall|i: int| 0 <= i < c1.len() ==> c1[i] != '\n',
        forall|i: int| 0 <= i < c2.len() ==> c2[i] != '\n',
        passes(p + ("//"@ + c1 + t), 0, false, true, p.len() as int) is Some,
        passes(p + ("//"@ + c2 + t), 0, false, true, p.len() as int) is Some,
    ensures
        relevant_slice(p + ("//"@ + c1 + t)) == relevant_slice(p + ("//"@ + c2 + t)),
{
    reveal_strlit("//");
    let a = p + ("//"@ + c1 + t);
    let b = p + ("//"@ + c2 + t);
    let k = p.len() as int;
    assert(a.take(k) =~= p);
    assert(b.take(k) =~= p);
    let start = lemma_common_start(a, b, 0, false, true, k);
    let l = passes(a, 0, false, true, k)->0;
    lemma_after_line_comment(p, c1, t, l);
    lemma_after_line_comment(p, c2, t, l);
}

proof fn lemma_after_line_comment(p: Seq<char>, c: Seq<char>, t: Seq<char>, after_blank: bool)
    requires
        t.len() > 0,
        t[0] == '\n',
        forall|i: int| 0 <= i < c.len() ==> c[i] != '\n',
    ensures
        relevant(p + ("//"@ + c + t), p.len() as int, false, after_blank) == relevant(
            t,
            0,
            false,
            after_blank,
        ),
{
    reveal_strlit("//");
    let s = p + ("//"@ + c + t);
    let k = p.len() as int;
    let e = k + 2 + c.len();
    assert(s[k] == '/' && s[k + 1] == '/');
    assert forall|j: int| k + 2 <= j < e implies s[j] != '\n' by {
        assert(s[j] == c[j - k - 2]);
    }
    assert(s[e] == t[0]);
    crate::text::lemma_first_index_unique(s, '\n', k + 2, e);
    let q = p + ("//"@ + c);
    assert(s =~= q + t);
    lemma_relevant_of_rest(q, t, 0, false, after_blank);
}

/// Whether the text holds no end of a block comment.
pub open spec fn has_no_block_end(c: Seq<char>) -> bool {
    forall|i: int| 0 <= i < c.len() - 1 ==> !(#[trigger] c[i] == '*' && c[i + 1] == '/')
}

/// Changing the text of a block comment leaves the relevant part of a source
/// as it was: `p` comes before the comment, `t` behind it.
pub proof fn law_block_comment_text_is_irrelevant(
    p: Seq<char>,
    c1: Seq<char>,
    c2: Seq<char>,
    t: Seq<char>,
)
    requires
        has_no_block_end(c1),
        has_no_block_end(c2),
        passes(p + ("/*"@ + c1 + "*/"@ + t), 0, false, true, p.len() as int) is Some,
        passes(p + ("/*"@ + c2 + "*/"@ + t), 0, false, true, p.len() as int) is Some,
    ensures
        relevant_slice(p + ("/*"@ + c1 + "*/"@ + t)) == relevant_slice(
            p + ("/*"@ + c2 + "*/"@ + t),
        ),
{
    reveal_strlit("/*");
    let a = p + ("/*"@ + c1 + "*/"@ + t);
    let b = p + ("/*"@ + c2 + "*/"@ + t);
    let k = p.len() as int;
    assert(a.take(k) =~= p);
    assert(b.take(k) =~= p);
    let start = lemma_common_start(a, b, 0, false, true, k);
    let l = passes(a, 0, false, true, k)->0;
    lemma_after_block_comment(p, c1, t, l);
    lemma_after_block_comment(p, c2, t, l);
}

proof fn lemma_after_block_comment(p: Seq<char>, c: Seq<char>, t: Seq<char>, after_blank: bool)
    requires
        has_no_block_end(c),
    ensures
        relevant(p + ("/*"@ + c + "*/"@ + t), p.len() as int, false, after_blank) == relevant(
            t,
            0,
            false,
            after_blank,
        ),
{
    reveal_strlit("/*");
    reveal_strlit("*/");
    let s = p + ("/*"@ + c + "*/"@ + t);
    let k = p.len() as int;
    assert(s[k] == '/' && s[k + 1] == '*');
    lemma_block_end_found(p, c, t, 0);
    let q = p + ("/*"@ + c + "*/"@);
    assert(s =~= q + t);
    lemma_relevant_of_rest(q, t, 0, false, after_blank);
}

proof fn lemma_block_end_found(p: Seq<char>, c: Seq<char>, t: Seq<char>, i: int)
    requires
        0 <= i <= c.len(),
        has_no_block_end(c),
    ensures
        block_end(p + ("/*"@ + c + "*/"@ + t), p.len() + 2 + i) == p.len() + 4 + c.len(),
    decreases c.len() - i,
{
    reveal_strlit("/*");
    reveal_strlit("*/");
    let s = p + ("/*"@ + c + "*/"@ + t);
    let e = (p.len() + 2 + c.len()) as int;
    assert(s[e] == '*' && s[e + 1] == '/');
    if i < c.len() {
        assert(s[p.len() + 2 + i] == c[i]);
        if i + 1 < c.len() {
            assert(s[p.len() + 3 + i] == c[i + 1]);
        } else {
            assert(s[p.len() + 3 + i] == '*');
        }
        lemma_block_end_found(p, c, t, i + 1);
    }
}

/// Changing a run of blanks into another leaves the relevant part of a source
/// as it was: `p` comes before the run, `t` behind it.
pub proof fn law_blank_runs_are_irrelevant(
    p: Seq<char>,
    w1: Seq<char>,
    w2: Seq<char>,
    t: Seq<char>,
)
    requires
        w1.len() > 0,
        w2.len() > 0,
        forall|i: int| 0 <= i < w1.len() ==> is_blank(#[trigger] w1[i]),
        forall|i: int| 0 <= i < w2.len() ==> is_blank(#[trigger] w2[i]),
        passes(p + (w1 + t), 0, false, true, p.len() as int) is Some,
        passes(p + (w2 + t), 0, false, true, p.len() as int) is Some,
    ensures
        relevant_slice(p + (w1 + t)) == relevant_slice(p + (w2 + t)),
{
    let a = p + (w1 + t);
    let b = p + (w2 + t);
    let k = p.len() as int;
    assert(a.take(k) =~= p);
    assert(b.take(k) =~= p);
    let start = lemma_common_start(a, b, 0, false, true, k);
    let l = passes(a, 0, false, true, k)->0;
    lemma_after_blanks(p, w1, t, 0, l);
    lemma_after_blanks(p, w2, t, 0, l);
}

proof fn lemma_after_blanks(p: Seq<char>, w: Seq<char>, t: Seq<char>, i: int, after_blank: bool)
    requires
        0 <= i <= w.len(),
        i == w.len() ==> after_blank,
        w.len() > 0,
        forall|j: int| 0 <= j < w.len() ==> is_blank(#[trigger] w[j]),
    ensures
        relevant(p + (w + t), p.len() + i, false, after_blank) == (if after_blank {
            Seq::empty()
        } else {
            seq![' ']
        }) + relevant(t, 0, false, true),
    decreases w.len() - i,
{
    let s = p + (w + t);
    let rest = relevant(t, 0, false, true);
    if i < w.len() {
        assert(s[p.len() + i] == w[i]);
        assert(is_blank(w[i]));
        lemma_after_blanks(p, w, t, i + 1, true);
        assert(Seq::<char>::empty() + rest =~= rest);
    } else {
        assert(s =~= (p + w) + t);
        lemma_relevant_of_rest(p + w, t, 0, false, true);
        assert(Seq::<char>::empty() + rest =~= rest);
    }
}

/// Whether `c` from place `i` on is the text of a string literal: every quote in
/// it is escaped by a backslash, and no backslash stands alone at its end.
pub open spec fn is_literal_text(c: Seq<char>, i: int) -> bool
    decreases c.len() - i,
{
    if i >= c.len() {
        i == c.len()
    } else if c[i] == '\\' {
        i + 1 < c.len() && is_literal_text(c, i + 2)
    } else {
        c[i] != '"' && is_literal_text(c, i + 1)
    }
}

/// A string literal stays as it is, with its blanks, what looks like a comment
/// in it, and its escaped quotes: `p` comes before it, `t` behind it.
pub proof fn law_string_literals_stay(p: Seq<char>, c: Seq<char>, t: Seq<char>)
    requires
        is_literal_text(c, 0),
        passes(p + ("\""@ + c + "\""@ + t), 0, false, true, p.len() as int) is Some,
    ensures
        relevant_slice(p + ("\""@ + c + "\""@ + t)) == relevant_slice(p) + ("\""@ + c + "\""@)
            + relevant(t, 0, false, false),
{
    reveal_strlit("\"");
    let u = "\""@ + c + "\""@ + t;
    let s = p + u;
    let k = p.len() as int;
    assert(u[0] == '"');
    lemma_relevant_before_quote(p, u, 0, false, true);
    let l = passes(s, 0, false, true, k)->0;
    lemma_relevant_of_rest(p, u, 0, false, l);
    lemma_inside_string(c, t, 0);
    assert(c.skip(0) =~= c);
    let rest = relevant(t, 0, false, false);
    assert(relevant_slice(p) + (seq!['"'] + (c + "\""@ + rest)) =~= relevant_slice(p) + ("\""@ + c
        + "\""@) + rest);
}

proof fn lemma_relevant_before_quote(
    p: Seq<char>,
    u: Seq<char>,
    i: int,
    in_string: bool,
    after_blank: bool,
)
    requires
        0 <= i,
        u.len() > 0,
        u[0] == '"',
        passes(p + u, i, in_string, after_blank, p.len() as int) is Some,
    ensures
        relevant(p + u, i, in_string, after_blank) == relevant(p, i, in_string, after_blank)
            + relevant(
            p + u,
            p.len() as int,
            false,
            passes(p + u, i, in_string, after_blank, p.len() as int)->0,
        ),
    decreases p.len() - i,
{
    let s = p + u;
    let k = p.len() as int;
    let all = relevant(s, k, false, passes(s, i, in_string, after_blank, k)->0);
    reveal_with_fuel(passes, 2);
    if i >= k {
        assert(Seq::<char>::empty() + all =~= all);
    } else {
        assert(s[i] == p[i]);
        assert(s[k] == '"');
        if i + 1 < k {
            assert(s[i + 1] == p[i + 1]);
            lemma_searches_before_quote(p, u, i + 2);
        }
        if in_string {
            if s[i] == '\\' {
                lemma_relevant_before_quote(p, u, i + 2, true, after_blank);
                let r = relevant(p, i + 2, true, after_blank);
                assert(seq![s[i], s[i + 1]] + (r + all) =~= seq![s[i], s[i + 1]] + r + all);
            } else {
                lemma_relevant_before_quote(p, u, i + 1, s[i] != '"', after_blank);
                let r = relevant(p, i + 1, s[i] != '"', after_blank);
                assert(seq![s[i]] + (r + all) =~= seq![s[i]] + r + all);
            }
        } else if s[i] == '/' && s[i + 1] == '/' {
            lemma_relevant_before_quote(p, u, first_index(s, '\n', i + 2), false, after_blank);
        } else if s[i] == '/' && s[i + 1] == '*' {
            lemma_relevant_before_quote(p, u, block_end(s, i + 2), false, after_blank);
        } else if s[i] == '"' {
            lemma_relevant_before_quote(p, u, i + 1, true, false);
            let r = relevant(p, i + 1, true, false);
            assert(seq![s[i]] + (r + all) =~= seq![s[i]] + r + all);
        } else {
            lemma_relevant_before_quote(p, u, i + 1, false, is_blank(s[i]));
            let r = relevant(p, i + 1, false, is_blank(s[i]));
            assert(seq![s[i]] + (r + all) =~= seq![s[i]] + r + all);
            assert(seq![' '] + (r + all) =~= seq![' '] + r + all);
        }
    }
}

proof fn lemma_searches_before_quote(p: Seq<char>, u: Seq<char>, i: int)
    requires
        0 <= i <= p.len(),
        u.len() > 0,
        u[0] == '"',
    ensures
        i <= first_index(p + u, '\n', i),
        i <= block_end(p + u, i),
        first_index(p + u, '\n', i) <= p.len() ==> first_index(p + u, '\n', i) == first_index(
            p,
            '\n',
            i,
        ),
        block_end(p + u, i) <= p.len() ==> block_end(p + u, i) == block_end(p, i),
    decreases p.len() - i,
{
    let s = p + u;
    lemma_first_index(s, '\n', i);
    lemma_block_end(s, i);
    if i < p.len() {
        assert(s[i] == p[i]);
        if i + 1 < p.len() {
            assert(s[i + 1] == p[i + 1]);
        } else {
            assert(s[i + 1] == '"');
        }
        lemma_searches_before_quote(p, u, i + 1);
    } else {
        assert(s[i] == '"');
    }
}

proof fn lemma_inside_string(c: Seq<char>, t: Seq<char>, i: int)
    requires
        0 <= i,
        is_literal_text(c, i),
    ensures
        relevant("\""@ + c + "\""@ + t, 1 + i, true, false) == c.skip(i) + "\""@ + relevant(
            t,
            0,
            false,
            false,
        ),
    decreases c.len() - i,
{
    reveal_strlit("\"");
    let s = "\""@ + c + "\""@ + t;
    let rest = relevant(t, 0, false, false);
    if i < c.len() {
        assert(s[1 + i] == c[i]);
        if c[i] == '\\' {
            lemma_inside_string(c, t, i + 2);
            assert(s[2 + i] == c[i + 1]);
            assert(seq![c[i], c[i + 1]] + (c.skip(i + 2) + "\""@ + rest) =~= c.skip(i) + "\""@
                + rest);
        } else {
            lemma_inside_string(c, t, i + 1);
            assert(seq![c[i]] + (c.skip(i + 1) + "\""@ + rest) =~= c.skip(i) + "\""@ + rest);
        }
    } else {
        assert(s[1 + i] == '"');
        let q = "\""@ + c + "\""@;
        assert(s =~= q + t);
        lemma_relevant_of_rest(q, t, 0, false, false);
        assert(seq!['"'] + rest =~= c.skip(i) + "\""@ + rest);
    }
}

// ── What is kept ─────────────────────────────────────────────────────────

/// Blanks are the characters of Unicode's white space, and no others.
pub proof fn law_blanks_are_white_space(c: char)
    ensures
        is_blank(c) <==> {
            let n = c as u32;
            ||| 9 <= n <= 13
            ||| n == 32
            ||| n == 0x85
            ||| n == 0xa0
            ||| n == 0x1680
            ||| 0x2000 <= n <= 0x200a
            ||| n == 0x2028
            ||| n == 0x2029
            ||| n == 0x202f
            ||| n == 0x205f
            ||| n == 0x3000
        },
{
}

proof fn lemma_searches_before(p: Seq<char>, u: Seq<char>, i: int)
    requires
        0 <= i <= p.len(),
        u.len() > 0,
    ensures
        i <= first_index(p + u, '\n', i),
        i <= block_end(p + u, i),
        first_index(p + u, '\n', i) <= p.len() ==> first_index(p + u, '\n', i) == first_index(
            p,
            '\n',
            i,
        ),
        block_end(p + u, i) <= p.len() ==> block_end(p + u, i) == block_end(p, i),
    decreases p.len() - i,
{
    let s = p + u;
    lemma_first_index(s, '\n', i);
    lemma_block_end(s, i);
    if i < p.len() {
        assert(s[i] == p[i]);
        if i + 1 < p.len() {
            assert(s[i + 1] == p[i + 1]);
        }
        lemma_searches_before(p, u, i + 1);
        if i + 1 == p.len() {
            lemma_block_end_bound(s, i + 1);
        }
    } else {
        lemma_block_end_bound(s, i);
    }
}

proof fn lemma_relevant_before(
    p: Seq<char>,
    u: Seq<char>,
    i: int,
    in_string: bool,
    after_blank: bool,
)
    requires
        0 <= i,
        u.len() > 0,
        passes(p + u, i, in_string, after_blank, p.len() as int) is Some,
    ensures
        relevant(p + u, i, in_string, after_blank) == relevant(p, i, in_string, after_blank)
            + relevant(
            p + u,
            p.len() as int,
            false,
            passes(p + u, i, in_string, after_blank, p.len() as int)->0,
        ),
    decreases p.len() - i,
{
    let s = p + u;
    let k = p.len() as int;
    let all = relevant(s, k, false, passes(s, i, in_string, after_blank, k)->0);
    reveal_with_fuel(passes, 2);
    if i >= k {
        assert(Seq::<char>::empty() + all =~= all);
    } else {
        assert(s[i] == p[i]);
        if i + 1 < k {
            assert(s[i + 1] == p[i + 1]);
            lemma_searches_before(p, u, i + 2);
        } else {
            lemma_first_index(s, '\n', i + 2);
            lemma_block_end(s, i + 2);
        }
        if in_string {
            if s[i] == '\\' {
                lemma_relevant_before(p, u, i + 2, true, after_blank);
                let r = relevant(p, i + 2, true, after_blank);
                assert(seq![s[i], s[i + 1]] + (r + all) =~= seq![s[i], s[i + 1]] + r + all);
            } else {
                lemma_relevant_before(p, u, i + 1, s[i] != '"', after_blank);
                let r = relevant(p, i + 1, s[i] != '"', after_blank);
                assert(seq![s[i]] + (r + all) =~= seq![s[i]] + r + all);
            }
        } else if s[i] == '/' && s[i + 1] == '/' {
            assert(i + 1 < k);
            lemma_relevant_before(p, u, first_index(s, '\n', i + 2), false, after_blank);
        } else if s[i] == '/' && s[i + 1] == '*' {
            assert(i + 1 < k);
            lemma_relevant_before(p, u, block_end(s, i + 2), false, after_blank);
        } else if s[i] == '"' {
            lemma_relevant_before(p, u, i + 1, true, false);
            let r = relevant(p, i + 1, true, false);
            assert(seq![s[i]] + (r + all) =~= seq![s[i]] + r + all);
        } else {
            lemma_relevant_before(p, u, i + 1, false, is_blank(s[i]));
            let r = relevant(p, i + 1, false, is_blank(s[i]));
            assert(seq![s[i]] + (r + all) =~= seq![s[i]] + r + all);
            assert(seq![' '] + (r + all) =~= seq![' '] + r + all);
        }
    }
}

/// A character outside string literals and comments that is neither a blank nor
/// the start of a literal or a comment is kept, at its place: `p` comes before it,
/// `t` behind it.
pub proof fn law_glyphs_are_kept(p: Seq<char>, c: char, t: Seq<char>)
    requires
        passes(p + (seq![c] + t), 0, false, true, p.len() as int) is Some,
        !is_blank(c),
        c != '"',
        c == '/' && t.len() > 0 ==> t[0] != '/' && t[0] != '*',
    ensures
        relevant_slice(p + (seq![c] + t)) == relevant_slice(p) + seq![c] + relevant(
            t,
            0,
            false,
            false,
        ),
{
    let u = seq![c] + t;
    let s = p + u;
    let k = p.len() as int;
    lemma_relevant_before(p, u, 0, false, true);
    let l = passes(s, 0, false, true, k)->0;
    lemma_relevant_of_rest(p, u, 0, false, l);
    assert(u[0] == c);
    if t.len() > 0 {
        assert(u[1] == t[0]);
    }
    lemma_relevant_of_rest(seq![c], t, 0, false, false);
    let rest = relevant(t, 0, false, false);
    assert(relevant_slice(p) + (seq![c] + rest) =~= relevant_slice(p) + seq![c] + rest);
}

/// Whether no comment starts anywhere in the text, not even what looks like one
/// in a string literal.
pub open spec fn has_no_comment_start(s: Seq<char>) -> bool {
    forall|i: int|
        0 <= i < s.len() - 1 && #[trigger] s[i] == '/' ==> s[i + 1] != '/' && s[i + 1] != '*'
}

proof fn lemma_plain_text(s: Seq<char>, i: int, in_string: bool, after_blank: bool)
    requires
        0 <= i <= s.len(),
        has_no_comment_start(s),
        forall|j: int| 0 <= j < s.len() ==> !is_blank(#[trigger] s[j]),
    ensures
        relevant(s, i, in_string, after_blank) == s.skip(i),
    decreases s.len() - i,
{
    if i < s.len() {
        assert(!is_blank(s[i]));
        if in_string {
            if s[i] == '\\' && i + 1 < s.len() {
                lemma_plain_text(s, i + 2, true, after_blank);
                assert(seq![s[i], s[i + 1]] + s.skip(i + 2) =~= s.skip(i));
            } else {
                lemma_plain_text(s, i + 1, s[i] != '"', after_blank);
                assert(seq![s[i]] + s.skip(i + 1) =~= s.skip(i));
            }
        } else {
            assert(!(s[i] == '/' && i + 1 < s.len() && (s[i + 1] == '/' || s[i + 1] == '*')));
            if s[i] == '"' {
                lemma_plain_text(s, i + 1, true, false);
            } else {
                lemma_plain_text(s, i + 1, false, false);
            }
            assert(seq![s[i]] + s.skip(i + 1) =~= s.skip(i));
        }
    } else {
        assert(s.skip(i) =~= Seq::empty());
    }
}

/// A source without blanks and comments is relevant as it stands, every character
/// of it. Two such sources have the same relevant part only if they are the same.
pub proof fn law_plain_sources_stay(s: Seq<char>, t: Seq<char>)
    requires
        has_no_comment_start(s),
        has_no_comment_start(t),
        forall|j: int| 0 <= j < s.len() ==> !is_blank(#[trigger] s[j]),
        forall|j: int| 0 <= j < t.len() ==> !is_blank(#[trigger] t[j]),
    ensures
        relevant_slice(s) == s,
        relevant_slice(s) == relevant_slice(t) ==> s == t,
{
    lemma_plain_text(s, 0, false, true);
    lemma_plain_text(t, 0, false, true);
    assert(s.skip(0) =~= s);
    assert(t.skip(0) =~= t);
}

/// The characters of a text that are not blank, in order.
pub open spec fn glyphs(s: Seq<char>) -> Seq<char>
    decreases s.len(),
{
    if s.len() == 0 {
        Seq::empty()
    } else if is_blank(s[0]) {
        glyphs(s.drop_first())
    } else {
        seq![s[0]] + glyphs(s.drop_first())
    }
}

proof fn lemma_glyphs_of_parts(a: Seq<char>, b: Seq<char>)
    ensures
        glyphs(a + b) == glyphs(a) + glyphs(b),
    decreases a.len(),
{
    if a.len() == 0 {
        assert(a + b =~= b);
        assert(Seq::<char>::empty() + glyphs(b) =~= glyphs(b));
    } else {
        lemma_glyphs_of_parts(a.drop_first(), b);
        assert((a + b).drop_first() =~= a.drop_first() + b);
        assert((a + b)[0] == a[0]);
        assert(seq![a[0]] + (glyphs(a.drop_first()) + glyphs(b)) =~= seq![a[0]] + glyphs(
            a.drop_first(),
        ) + glyphs(b));
    }
}

proof fn lemma_glyphs_are_kept(s: Seq<char>, i: int, in_string: bool, after_blank: bool)
    requires
        0 <= i <= s.len(),
        has_no_comment_start(s),
    ensures
        glyphs(relevant(s, i, in_string, after_blank)) == glyphs(s.skip(i)),
    decreases s.len() - i,
{
    if i < s.len() {
        let here = seq![s[i]];
        assert(s.skip(i) =~= here + s.skip(i + 1));
        lemma_glyphs_of_parts(here, s.skip(i + 1));
        if in_string {
            if s[i] == '\\' && i + 1 < s.len() {
                let two = seq![s[i], s[i + 1]];
                lemma_glyphs_are_kept(s, i + 2, true, after_blank);
                lemma_glyphs_of_parts(two, relevant(s, i + 2, true, after_blank));
                assert(s.skip(i) =~= two + s.skip(i + 2));
                lemma_glyphs_of_parts(two, s.skip(i + 2));
            } else {
                lemma_glyphs_are_kept(s, i + 1, s[i] != '"', after_blank);
                lemma_glyphs_of_parts(here, relevant(s, i + 1, s[i] != '"', after_blank));
            }
        } else {
            assert(!(s[i] == '/' && i + 1 < s.len() && (s[i + 1] == '/' || s[i + 1] == '*')));
            if s[i] == '"' {
                lemma_glyphs_are_kept(s, i + 1, true, false);
                lemma_glyphs_of_parts(here, relevant(s, i + 1, true, false));
            } else if is_blank(s[i]) {
                lemma_glyphs_are_kept(s, i + 1, false, true);
                lemma_glyphs_of_parts(seq![' '], relevant(s, i + 1, false, true));
                reveal_with_fuel(glyphs, 2);
                assert(glyphs(here) =~= Seq::empty());
                assert(glyphs(seq![' ']) =~= Seq::empty());
                assert(Seq::<char>::empty() + glyphs(s.skip(i + 1)) =~= glyphs(s.skip(i + 1)));
            } else {
                lemma_glyphs_are_kept(s, i + 1, false, false);
                lemma_glyphs_of_parts(here, relevant(s, i + 1, false, false));
            }
        }
    } else {
        assert(s.skip(i) =~= Seq::empty());
    }
}

/// Every character of a source without comments that is not a blank is relevant,
/// in order; nothing but blanks is added. So an edit of such a source that changes
/// anything else changes its relevant part.
pub proof fn law_every_glyph_is_relevant(s: Seq<char>, t: Seq<char>)
    requires
        has_no_comment_start(s),
        has_no_comment_start(t),
    ensures
        glyphs(relevant_slice(s)) == glyphs(s),
        relevant_slice(s) == relevant_slice(t) ==> glyphs(s) == glyphs(t),
{
    lemma_glyphs_are_kept(s, 0, false, true);
    lemma_glyphs_are_kept(t, 0, false, true);
    assert(s.skip(0) =~= s);
    assert(t.skip(0) =~= t);
}

/// Whether a text is a word: it holds neither blanks nor quotes, and no comment
/// starts in it.
pub open spec fn is_word(s: Seq<char>) -> bool {
    &&& s.len() > 0
    &&& has_no_comment_start(s)
    &&& forall|j: int| 0 <= j < s.len() ==> !is_blank(#[trigger] s[j]) && s[j] != '"'
}

proof fn lemma_passes_word(s: Seq<char>, i: int, k: int)
    requires
        0 <= i < k < s.len(),
        forall|j: int|
            0 <= j < k ==> !is_blank(#[trigger] s[j]) && s[j] != '"' && (s[j] == '/' ==> s[j + 1]
                != '/' && s[j + 1] != '*'),
    ensures
        forall|b: bool| #[trigger] passes(s, i, false, b, k) == Some(false),
    decreases k - i,
{
    assert(!is_blank(s[i]));
    assert forall|b: bool| #[trigger] passes(s, i, false, b, k) == Some(false) by {
        if i + 1 < k {
            lemma_passes_word(s, i + 1, k);
        }
        assert(passes(s, i, false, b, k) == passes(s, i + 1, false, false, k));
    }
}

/// Between two words a run of blanks becomes one space, a comment between them
/// leaves nothing, and blanks before the first word leave nothing either.
pub proof fn law_words_are_set_apart_by_one_space(
    a: Seq<char>,
    w: Seq<char>,
    b: Seq<char>,
    c: Seq<char>,
)
    requires
        is_word(a),
        is_word(b),
        w.len() > 0,
        forall|j: int| 0 <= j < w.len() ==> is_blank(#[trigger] w[j]),
        has_no_block_end(c),
        a.last() != '/',
    ensures
        relevant_slice(a + (w + b)) == a + seq![' '] + b,
        relevant_slice(w + b) == b,
        relevant_slice(a + ("/*"@ + c + "*/"@ + b)) == a + b,
{
    reveal_strlit("/*");
    let k = a.len() as int;
    let s = a + (w + b);
    lemma_plain_text(a, 0, false, true);
    lemma_plain_text(b, 0, false, true);
    lemma_plain_text(b, 0, false, false);
    assert(a.skip(0) =~= a);
    assert(b.skip(0) =~= b);
    assert forall|j: int| 0 <= j < k implies !is_blank(#[trigger] s[j]) && s[j] != '"' && (s[j]
        == '/' ==> s[j + 1] != '/' && s[j + 1] != '*') by {
        assert(s[j] == a[j]);
        if j + 1 < k {
            assert(s[j + 1] == a[j + 1]);
        }
    }
    lemma_passes_word(s, 0, k);
    assert(passes(s, 0, false, true, k) == Some(false));
    lemma_relevant_before(a, w + b, 0, false, true);
    lemma_after_blanks(a, w, b, 0, false);
    assert(a + (seq![' '] + b) =~= a + seq![' '] + b);
    let none = Seq::<char>::empty();
    lemma_after_blanks(none, w, b, 0, true);
    assert(none + (w + b) =~= w + b);
    assert(none + b =~= b);
    let m = a + ("/*"@ + c + "*/"@ + b);
    assert forall|j: int| 0 <= j < k implies !is_blank(#[trigger] m[j]) && m[j] != '"' && (m[j]
        == '/' ==> m[j + 1] != '/' && m[j + 1] != '*') by {
        assert(m[j] == a[j]);
        if j + 1 < k {
            assert(m[j + 1] == a[j + 1]);
        }
    }
    lemma_passes_word(m, 0, k);
    assert(passes(m, 0, false, true, k) == Some(false));
    lemma_relevant_before(a, "/*"@ + c + "*/"@ + b, 0, false, true);
    lemma_after_block_comment(a, c, b, false);
}

/// A comment leaves nothing: behind it the source goes on as if it were not there.
/// `p` comes before it, `t` behind it; a line comment ends with the line.
pub proof fn law_comments_leave_nothing(p: Seq<char>, c: Seq<char>, t: Seq<char>)
    ensures
        t.len() > 0 && t[0] == '\n' && (forall|i: int| 0 <= i < c.len() ==> c[i] != '\n') && passes(
            p + ("//"@ + c + t),
            0,
            false,
            true,
            p.len() as int,
        ) is Some ==> relevant_slice(p + ("//"@ + c + t)) == relevant_slice(p) + relevant(
            t,
            0,
            false,
            passes(p + ("//"@ + c + t), 0, false, true, p.len() as int)->0,
        ),
        has_no_block_end(c) && passes(
            p + ("/*"@ + c + "*/"@ + t),
            0,
            false,
            true,
            p.len() as int,
        ) is Some ==> relevant_slice(p + ("/*"@ + c + "*/"@ + t)) == relevant_slice(p) + relevant(
            t,
            0,
            false,
            passes(p + ("/*"@ + c + "*/"@ + t), 0, false, true, p.len() as int)->0,
        ),
{
    reveal_strlit("//");
    reveal_strlit("/*");
    let k = p.len() as int;
    let a = "//"@ + c + t;
    if t.len() > 0 && t[0] == '\n' && (forall|i: int| 0 <= i < c.len() ==> c[i] != '\n') && passes(
        p + a,
        0,
        false,
        true,
        k,
    ) is Some {
        lemma_relevant_before(p, a, 0, false, true);
        lemma_after_line_comment(p, c, t, passes(p + a, 0, false, true, k)->0);
    }
    let b = "/*"@ + c + "*/"@ + t;
    if has_no_block_end(c) && passes(p + b, 0, false, true, k) is Some {
        lemma_relevant_before(p, b, 0, false, true);
        lemma_after_block_comment(p, c, t, passes(p + b, 0, false, true, k)->0);
    }
}

proof fn lemma_char_bytes(c: char)
    ensures
        char_bytes(c).len() == 4,
        char_bytes(c)[0] + 256 * char_bytes(c)[1] + 65536 * char_bytes(c)[2] + 16777216
            * char_bytes(c)[3] == c as int,
{
    let n = c as nat;
    assert(n <= 0x10ffff);
    assert(n == n % 256 + 256 * (n / 256 % 256) + 65536 * (n / 65536 % 256) + 16777216 * (n
        / 16777216 % 256)) by (nonlinear_arith)
        requires
            n <= 0x10ffff,
    ;
}

/// The hash is taken over every character of the relevant part: one block of four
/// bytes for each, in order, from which the character can be read back.
pub proof fn law_hash_covers_the_relevant_part(s: Seq<char>) -> (blocks: Seq<Seq<u8>>)
    ensures
        relevant_hash(s) == DefaultHasher::spec_finish(blocks),
        blocks.len() == relevant_slice(s).len(),
        forall|i: int|
            0 <= i < blocks.len() ==> {
                let b = #[trigger] blocks[i];
                &&& b.len() == 4
                &&& b[0] + 256 * b[1] + 65536 * b[2] + 16777216 * b[3] == relevant_slice(s)[i]
                    as int
            },
{
    let blocks = relevant_slice(s).map_values(|c: char| char_bytes(c));
    assert forall|i: int| 0 <= i < blocks.len() implies {
        let b = #[trigger] blocks[i];
        &&& b.len() == 4
        &&& b[0] + 256 * b[1] + 65536 * b[2] + 16777216 * b[3] == relevant_slice(s)[i] as int
    } by {
        assert(blocks[i] == char_bytes(relevant_slice(s)[i]));
        lemma_char_bytes(relevant_slice(s)[i]);
    }
    blocks
}

} // verus!
