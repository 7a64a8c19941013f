//! Text as sequences of characters: searching, splitting, joining, decimal
//! numbers and order.
use vstd::prelude::*;

verus! {

/// `String::push` appends one character to the string.
pub assume_specification[ String::push ](s: &mut String, c: char)
    ensures
        final(s)@ == old(s)@.push(c),
;

/// The characters of a sequence of strings, one sequence for each string.
pub open spec fn views(v: Seq<String>) -> Seq<Seq<char>> {
    v.map_values(|s: String| s@)
}

/// The characters of `s`.
pub fn chars_of(s: &str) -> (v: Vec<char>)
    ensures
        v@ == s@,
{
    let mut v: Vec<char> = Vec::new();
    for c in it: s.chars()
        invariant
            v@ == it.seq().take(it.index()),
            it.seq() == s@,
    {
        v.push(c);
    }
    v
}

/// The string made of `chars[from..to]`.
pub fn string_of(chars: &Vec<char>, from: usize, to: usize) -> (s: String)
    requires
        from <= to <= chars@.len(),
    ensures
        s@ == chars@.subrange(from as int, to as int),
{
    let mut s = String::new();
    let mut i: usize = from;
    while i < to
        invariant
            from <= i <= to <= chars@.len(),
            s@ == chars@.subrange(from as int, i as int),
        decreases to - i,
    {
        s.push(chars[i]);
        i += 1;
        assert(chars@.subrange(from as int, i as int) == chars@.subrange(
            from as int,
            i - 1,
        ).push(chars@[i - 1]));
    }
    s
}

/// Whether two texts hold the same characters.
pub fn same_text(a: &str, b: &str) -> (r: bool)
    ensures
        r == (a@ == b@),
{
    a.to_owned() == b.to_owned()
}

/// The characters of an optional string.
pub open spec fn opt_view(o: Option<String>) -> Option<Seq<char>> {
    match o {
        Some(s) => Some(s@),
        None => None,
    }
}

/// Whether two optional strings hold the same characters, or both none.
pub fn same_opt_text(a: &Option<String>, b: &Option<String>) -> (r: bool)
    ensures
        r == (opt_view(*a) == opt_view(*b)),
{
    match (a, b) {
        (Some(x), Some(y)) => same_text(x.as_str(), y.as_str()),
        (None, None) => true,
        _ => false,
    }
}

/// A copy of an optional string.
pub fn copy_opt_text(a: &Option<String>) -> (r: Option<String>)
    ensures
        r == *a,
{
    match a {
        Some(s) => Some(s.clone()),
        None => None,
    }
}

/// The place of `name` in `names`: the first at which it stands.
pub fn position_of(names: &Vec<String>, name: &str) -> (r: Option<usize>)
    ensures
        match r {
            Some(i) => i < names@.len() && names@[i as int]@ == name@ && forall|j: int|
                0 <= j < i ==> #[trigger] names@[j]@ != name@,
            None => forall|j: int| 0 <= j < names@.len() ==> #[trigger] names@[j]@ != name@,
        },
{
    let mut i: usize = 0;
    while i < names.len()
        invariant
            i <= names@.len(),
            forall|j: int| 0 <= j < i ==> #[trigger] names@[j]@ != name@,
        decreases names@.len() - i,
    {
        if same_text(names[i].as_str(), name) {
            return Some(i);
        }
        i += 1;
    }
    None
}

// ── Searching ────────────────────────────────────────────────────────────

/// The first place at or after `from` where `c` stands in `s`, or the length
/// of `s` where it does not.
pub open spec fn first_index(s: Seq<char>, c: char, from: int) -> int
    decreases s.len() - from,
{
    if from >= s.len() {
        s.len() as int
    } else if s[from] == c {
        from
    } else {
        first_index(s, c, from + 1)
    }
}

/// The last place where `c` stands in `s`, or -1 where it does not.
pub open spec fn last_index(s: Seq<char>, c: char) -> int
    decreases s.len(),
{
    if s.len() == 0 {
        -1
    } else if s.last() == c {
        s.len() - 1
    } else {
        last_index(s.drop_last(), c)
    }
}

pub proof fn lemma_first_index(s: Seq<char>, c: char, from: int)
    requires
        0 <= from <= s.len(),
    ensures
        from <= first_index(s, c, from) <= s.len(),
        first_index(s, c, from) < s.len() ==> s[first_index(s, c, from)] == c,
        forall|j: int| from <= j < first_index(s, c, from) ==> s[j] != c,
    decreases s.len() - from,
{
    if from < s.len() && s[from] != c {
        lemma_first_index(s, c, from + 1);
    }
}

pub proof fn lemma_last_index(s: Seq<char>, c: char)
    ensures
        -1 <= last_index(s, c) < s.len(),
        last_index(s, c) >= 0 ==> s[last_index(s, c)] == c,
        forall|j: int| last_index(s, c) < j < s.len() ==> s[j] != c,
    decreases s.len(),
{
    if s.len() > 0 && s.last() != c {
        lemma_last_index(s.drop_last(), c);
        let k = last_index(s.drop_last(), c);
        assert forall|j: int| k < j < s.len() implies s[j] != c by {
            if j < s.len() - 1 {
                assert(s[j] == s.drop_last()[j]);
            }
        }
    }
}

/// The only place that is `c` with no `c` before it is the first.
pub proof fn lemma_first_index_unique(s: Seq<char>, c: char, from: int, i: int)
    requires
        0 <= from <= i <= s.len(),
        i < s.len() ==> s[i] == c,
        forall|j: int| from <= j < i ==> s[j] != c,
    ensures
        first_index(s, c, from) == i,
{
    lemma_first_index(s, c, from);
}

/// Whether `c` stands in `s`.
pub open spec fn has_char(s: Seq<char>, c: char) -> bool {
    first_index(s, c, 0) < s.len()
}

fn find_first(chars: &Vec<char>, c: char, from: usize) -> (r: usize)
    requires
        from <= chars@.len(),
    ensures
        r == first_index(chars@, c, from as int),
        from <= r <= chars@.len(),
{
    let mut i: usize = from;
    while i < chars.len()
        invariant
            from <= i <= chars@.len(),
            first_index(chars@, c, from as int) == first_index(chars@, c, i as int),
        decreases chars@.len() - i,
    {
        if chars[i] == c {
            return i;
        }
        i += 1;
    }
    i
}

/// Whether `c` stands in `s`.
pub fn contains_char(s: &str, c: char) -> (r: bool)
    ensures
        r == has_char(s@, c),
{
    let v = chars_of(s);
    find_first(&v, c, 0) < v.len()
}

/// What follows the last `c` in `s`: all of `s` where it holds none.
pub open spec fn after_last(s: Seq<char>, c: char) -> Seq<char> {
    s.skip(last_index(s, c) + 1)
}

/// What precedes the last `c` in `s`, where it holds one.
pub open spec fn before_last(s: Seq<char>, c: char) -> Option<Seq<char>> {
    if last_index(s, c) >= 0 {
        Some(s.take(last_index(s, c)))
    } else {
        None
    }
}

/// What precedes the first `c` in `s`: all of `s` where it holds none.
pub open spec fn before_first(s: Seq<char>, c: char) -> Seq<char> {
    s.take(first_index(s, c, 0))
}

/// What follows the first `c` in `s`, where it holds one.
pub open spec fn after_first(s: Seq<char>, c: char) -> Option<Seq<char>> {
    if has_char(s, c) {
        Some(s.skip(first_index(s, c, 0) + 1))
    } else {
        None
    }
}

/// The place after the last `c`.
fn end_of_last(v: &Vec<char>, c: char) -> (r: usize)
    ensures
        r == last_index(v@, c) + 1,
        r <= v@.len(),
{
    let mut i: usize = v.len();
    assert(v@.take(i as int) == v@);
    while i > 0
        invariant
            i <= v@.len(),
            last_index(v@, c) == last_index(v@.take(i as int), c),
        decreases i,
    {
        assert(v@.take(i as int).last() == v@[i - 1]);
        assert(v@.take(i as int).drop_last() == v@.take(i - 1));
        if v[i - 1] == c {
            return i;
        }
        i -= 1;
    }
    0
}

/// The last part of a dotted path.
pub open spec fn leaf(path: Seq<char>) -> Seq<char> {
    after_last(path, '.')
}

/// The last part of a dotted path.
pub fn leaf_of(path: &str) -> (r: String)
    ensures
        r@ == leaf(path@),
{
    let v = chars_of(path);
    let k: usize = end_of_last(&v, '.');
    string_of(&v, k, v.len())
}

/// What precedes the last `c` in `s`, where it holds one.
pub fn text_before_last(s: &str, c: char) -> (r: Option<String>)
    ensures
        match r {
            Some(t) => before_last(s@, c) == Some(t@),
            None => before_last(s@, c) is None,
        },
{
    let v = chars_of(s);
    let k: usize = end_of_last(&v, c);
    proof {
        lemma_last_index(s@, c);
    }
    if k == 0 {
        None
    } else {
        Some(string_of(&v, 0, k - 1))
    }
}

/// What precedes the first `c` in `s`: all of `s` where it holds none.
pub fn text_before_first(s: &str, c: char) -> (r: String)
    ensures
        r@ == before_first(s@, c),
{
    let v = chars_of(s);
    let k: usize = find_first(&v, c, 0);
    string_of(&v, 0, k)
}

/// What follows the first `c` in `s`, where it holds one.
pub fn text_after_first(s: &str, c: char) -> (r: Option<String>)
    ensures
        match r {
            Some(t) => after_first(s@, c) == Some(t@),
            None => after_first(s@, c) is None,
        },
{
    let v = chars_of(s);
    let k: usize = find_first(&v, c, 0);
    if k < v.len() {
        Some(string_of(&v, k + 1, v.len()))
    } else {
        None
    }
}

// ── Prefixes and suffixes ────────────────────────────────────────────────

/// What follows `prefix` in `s`, where `s` starts with it.
pub open spec fn without_prefix(s: Seq<char>, prefix: Seq<char>) -> Option<Seq<char>> {
    if prefix.is_prefix_of(s) {
        Some(s.skip(prefix.len() as int))
    } else {
        None
    }
}

fn chars_start_with(v: &Vec<char>, p: &Vec<char>) -> (r: bool)
    ensures
        r == p@.is_prefix_of(v@),
{
    if p.len() > v.len() {
        return false;
    }
    let mut i: usize = 0;
    while i < p.len()
        invariant
            i <= p@.len() <= v@.len(),
            forall|j: int| 0 <= j < i ==> p@[j] == v@[j],
        decreases p@.len() - i,
    {
        if p[i] != v[i] {
            assert(p@[i as int] != v@.subrange(0, p@.len() as int)[i as int]);
            return false;
        }
        i += 1;
    }
    assert(p@ =~= v@.subrange(0, p@.len() as int));
    true
}

/// Whether `s` starts with `prefix`.
pub fn starts_with(s: &str, prefix: &str) -> (r: bool)
    ensures
        r == prefix@.is_prefix_of(s@),
{
    chars_start_with(&chars_of(s), &chars_of(prefix))
}

/// Whether `s` ends with `suffix`.
pub fn ends_with(s: &str, suffix: &str) -> (r: bool)
    ensures
        r == suffix@.is_suffix_of(s@),
{
    let v = chars_of(s);
    let p = chars_of(suffix);
    if p.len() > v.len() {
        return false;
    }
    let n: usize = v.len();
    let d: usize = n - p.len();
    let mut i: usize = 0;
    while i < p.len()
        invariant
            i <= p@.len() <= v@.len(),
            n == v@.len(),
            v@ == s@,
            p@ == suffix@,
            d == v@.len() - p@.len(),
            forall|j: int| 0 <= j < i ==> p@[j] == v@[d + j],
        decreases p@.len() - i,
    {
        if p[i] != v[d + i] {
            assert(p@[i as int] != v@.subrange(d as int, v@.len() as int)[i as int]);
            return false;
        }
        i += 1;
    }
    assert(p@ =~= v@.subrange(d as int, v@.len() as int));
    true
}

/// What follows `prefix` in `s`, where `s` starts with it.
pub fn strip_prefix(s: &str, prefix: &str) -> (r: Option<String>)
    ensures
        match r {
            Some(t) => without_prefix(s@, prefix@) == Some(t@),
            None => without_prefix(s@, prefix@) is None,
        },
{
    let v = chars_of(s);
    let p = chars_of(prefix);
    if chars_start_with(&v, &p) {
        Some(string_of(&v, p.len(), v.len()))
    } else {
        None
    }
}

/// `s` without the `c` characters at its two ends.
pub open spec fn trimmed(s: Seq<char>, c: char) -> Seq<char>
    decreases s.len(),
{
    if s.len() > 0 && s.last() == c {
        trimmed(s.drop_last(), c)
    } else if s.len() > 0 && s[0] == c {
        trimmed(s.drop_first(), c)
    } else {
        s
    }
}

/// `s` without the `c` characters at its two ends.
pub fn trim_char(s: &str, c: char) -> (r: String)
    ensures
        r@ == trimmed(s@, c),
{
    let v = chars_of(s);
    let mut to: usize = v.len();
    assert(v@.subrange(0, to as int) == v@);
    while to > 0 && v[to - 1] == c
        invariant
            to <= v@.len(),
            trimmed(v@, c) == trimmed(v@.subrange(0, to as int), c),
        decreases to,
    {
        assert(v@.subrange(0, to as int).drop_last() == v@.subrange(0, to - 1));
        to -= 1;
    }
    let mut from: usize = 0;
    while from < to && v[from] == c
        invariant
            from <= to <= v@.len(),
            to > 0 ==> v@[to - 1] != c,
            trimmed(v@, c) == trimmed(v@.subrange(from as int, to as int), c),
        decreases to - from,
    {
        assert(v@.subrange(from as int, to as int).last() == v@[to - 1]);
        assert(v@.subrange(from as int, to as int).drop_first() == v@.subrange(
            from + 1,
            to as int,
        ));
        from += 1;
    }
    proof {
        let m = v@.subrange(from as int, to as int);
        if m.len() > 0 {
            assert(m.last() == v@[to - 1]);
            assert(m[0] == v@[from as int]);
        }
    }
    string_of(&v, from, to)
}

// ── Splitting and joining ────────────────────────────────────────────────

/// The parts of `s` between the `c` characters.
pub open spec fn split(s: Seq<char>, c: char) -> Seq<Seq<char>>
    decreases s.len(),
    when true
    via split_shrinks
{
    let i = first_index(s, c, 0);
    if i < s.len() {
        seq![s.take(i)] + split(s.skip(i + 1), c)
    } else {
        seq![s]
    }
}

#[via_fn]
proof fn split_shrinks(s: Seq<char>, c: char) {
    lemma_first_index(s, c, 0);
}

/// The parts, in order, with `sep` between each two.
pub open spec fn joined(parts: Seq<Seq<char>>, sep: Seq<char>) -> Seq<char>
    decreases parts.len(),
{
    if parts.len() == 0 {
        Seq::empty()
    } else if parts.len() == 1 {
        parts[0]
    } else {
        joined(parts.drop_last(), sep) + sep + parts.last()
    }
}

proof fn lemma_first_index_of_rest(s: Seq<char>, c: char, k: int)
    requires
        0 <= k <= s.len(),
    ensures
        first_index(s.skip(k), c, 0) + k == first_index(s, c, k),
{
    let t = s.skip(k);
    lemma_first_index(t, c, 0);
    let i = first_index(t, c, 0);
    assert forall|j: int| k <= j < i + k implies s[j] != c by {
        assert(t[j - k] == s[j]);
    }
    lemma_first_index_unique(s, c, k, i + k);
}

/// The parts of `s` between the `c` characters.
pub fn split_text(s: &str, c: char) -> (r: Vec<String>)
    ensures
        views(r@) == split(s@, c),
        r@.len() >= 1,
{
    let v = chars_of(s);
    let mut out: Vec<String> = Vec::new();
    let mut from: usize = 0;
    assert(v@.skip(0) == v@);
    assert(views(out@) + split(v@, c) =~= split(v@, c));
    loop
        invariant_except_break
            from <= v@.len(),
            views(out@) + split(v@.skip(from as int), c) == split(v@, c),
        ensures
            views(out@) == split(v@, c),
            out@.len() >= 1,
        decreases v@.len() - from + 1,
    {
        let i: usize = find_first(&v, c, from);
        let ghost rest = v@.skip(from as int);
        proof {
            lemma_first_index_of_rest(v@, c, from as int);
            lemma_first_index(rest, c, 0);
        }
        let part = string_of(&v, from, i);
        assert(part@ == rest.take(i - from));
        let ghost before = out@;
        out.push(part);
        assert(views(out@) =~= views(before).push(part@));
        if i >= v.len() {
            assert(rest.take(i - from) =~= rest);
            assert(views(before) + seq![rest] =~= views(before).push(rest));
            break;
        }
        assert(rest.skip(i - from + 1) =~= v@.skip(i + 1));
        assert(views(before) + (seq![part@] + split(v@.skip(i + 1), c)) =~= views(out@) + split(
            v@.skip(i + 1),
            c,
        ));
        from = i + 1;
    }
    out
}

/// The parts `from..`, in order, with `sep` between each two.
pub fn join_text(parts: &Vec<String>, from: usize, sep: &str) -> (r: String)
    requires
        from <= parts@.len(),
    ensures
        r@ == joined(views(parts@).skip(from as int), sep@),
{
    let mut out = String::new();
    let mut i: usize = from;
    let ghost all = views(parts@).skip(from as int);
    while i < parts.len()
        invariant
            from <= i <= parts@.len(),
            all == views(parts@).skip(from as int),
            out@ == joined(all.take(i - from), sep@),
        decreases parts@.len() - i,
    {
        let ghost k = i - from;
        assert(all.take(k + 1).drop_last() =~= all.take(k));
        assert(all.take(k + 1).last() == parts@[i as int]@);
        if i > from {
            out.append(sep);
        }
        out.append(parts[i].as_str());
        proof {
            if k == 0 {
                assert(out@ =~= all.take(1)[0]);
            }
        }
        i += 1;
    }
    assert(all.take(parts@.len() - from) =~= all);
    out
}

/// `a` followed by `b`.
pub fn text2(a: &str, b: &str) -> (r: String)
    ensures
        r@ == a@ + b@,
{
    let mut s = a.to_owned();
    s.append(b);
    s
}

/// `a` followed by `b` and `c`.
pub fn text3(a: &str, b: &str, c: &str) -> (r: String)
    ensures
        r@ == a@ + b@ + c@,
{
    let mut s = a.to_owned();
    s.append(b);
    s.append(c);
    s
}

// ── Decimal numbers ──────────────────────────────────────────────────────

/// The character of a digit below ten.
pub open spec fn digit_char(d: nat) -> char {
    (('0' as u32) + d) as char
}

/// `n` written in decimal.
pub open spec fn decimal(n: nat) -> Seq<char>
    decreases n,
{
    if n < 10 {
        seq![digit_char(n)]
    } else {
        decimal(n / 10).push(digit_char(n % 10))
    }
}

/// Whether `c` is a decimal digit.
pub open spec fn is_digit(c: char) -> bool {
    '0' <= c <= '9'
}

/// The number that a sequence of digits writes.
pub open spec fn digits_value(s: Seq<char>) -> nat
    decreases s.len(),
{
    if s.len() == 0 {
        0
    } else {
        digits_value(s.drop_last()) * 10 + (s.last() as nat - '0' as nat) as nat
    }
}

/// The number that `s` writes: digits, with a plus sign in front or none.
pub open spec fn parsed_number(s: Seq<char>) -> Option<nat> {
    let digits = without_sign(s);
    if digits.len() > 0 && all_digits(digits) {
        Some(digits_value(digits))
    } else {
        None
    }
}

/// `s` without the plus sign in front of it.
pub open spec fn without_sign(s: Seq<char>) -> Seq<char> {
    if s.len() > 0 && s[0] == '+' {
        s.drop_first()
    } else {
        s
    }
}

/// Whether `s` holds digits only.
pub open spec fn all_digits(s: Seq<char>) -> bool {
    forall|i: int| 0 <= i < s.len() ==> is_digit(#[trigger] s[i])
}

fn digit_of(d: u32) -> (c: char)
    requires
        d < 10,
    ensures
        c == digit_char(d as nat),
{
    match d {
        0 => '0',
        1 => '1',
        2 => '2',
        3 => '3',
        4 => '4',
        5 => '5',
        6 => '6',
        7 => '7',
        8 => '8',
        _ => '9',
    }
}

/// `n` written in decimal.
pub fn decimal_text(n: u64) -> (r: String)
    ensures
        r@ == decimal(n as nat),
    decreases n,
{
    if n < 10 {
        let mut s = String::new();
        s.push(digit_of(n as u32));
        assert(s@ =~= seq![digit_char(n as nat)]);
        s
    } else {
        let mut s = decimal_text(n / 10);
        s.push(digit_of((n % 10) as u32));
        s
    }
}

/// The number that `s` writes, where it writes one that fits.
pub fn parse_number(s: &str) -> (r: Option<u64>)
    ensures
        match r {
            Some(n) => parsed_number(s@) == Some(n as nat),
            None => parsed_number(s@) is None || parsed_number(s@)->0 > u64::MAX,
        },
{
    let v = chars_of(s);
    let from: usize = if v.len() > 0 && v[0] == '+' {
        1
    } else {
        0
    };
    let ghost digits = v@.skip(from as int);
    assert(without_sign(v@) =~= digits);
    if from == v.len() {
        return None;
    }
    let mut n: u64 = 0;
    let mut fits = true;
    let mut i: usize = from;
    while i < v.len()
        invariant
            from <= i <= v@.len(),
            digits == v@.skip(from as int),
            digits == without_sign(s@),
            forall|j: int| 0 <= j < i - from ==> is_digit(#[trigger] digits[j]),
            fits ==> n == digits_value(digits.take(i - from)),
            !fits ==> digits_value(digits.take(i - from)) > u64::MAX,
        decreases v@.len() - i,
    {
        let c: char = v[i];
        assert(c == digits[i - from]);
        if c < '0' || c > '9' {
            assert(!is_digit(digits[i - from]));
            return None;
        }
        let d: u64 = c as u64 - '0' as u64;
        assert(digits.take(i - from + 1).drop_last() =~= digits.take(i - from));
        assert(digits.take(i - from + 1).last() == c);
        if fits {
            if n <= (u64::MAX - d) / 10 {
                n = n * 10 + d;
            } else {
                fits = false;
            }
        }
        i += 1;
    }
    assert(digits.take(v@.len() - from) =~= digits);
    if fits {
        Some(n)
    } else {
        None
    }
}

proof fn lemma_decimal_reads_back(n: nat)
    ensures
        decimal(n).len() > 0,
        all_digits(decimal(n)),
        digits_value(decimal(n)) == n,
    decreases n,
{
    if n < 10 {
        let s = decimal(n);
        assert(s.drop_last() =~= Seq::empty());
        assert(digits_value(s.drop_last()) == 0);
    } else {
        lemma_decimal_reads_back(n / 10);
        let s = decimal(n);
        assert(s.drop_last() =~= decimal(n / 10));
    }
}

/// A number written in decimal is a run of digits.
pub proof fn lemma_decimal_is_digits(n: nat)
    ensures
        decimal(n).len() > 0,
        all_digits(decimal(n)),
{
    lemma_decimal_reads_back(n);
}

/// A number written in decimal reads back as itself.
pub proof fn law_decimal_round_trip(n: nat)
    ensures
        parsed_number(decimal(n)) == Some(n),
{
    lemma_decimal_reads_back(n);
    assert(is_digit(decimal(n)[0]));
}

// ── Order ────────────────────────────────────────────────────────────────

/// Whether `a` stands before `b` in the order of texts, or is equal to it:
/// the first character that differs decides, and a text stands before its
/// extensions.
pub open spec fn lex_le(a: Seq<char>, b: Seq<char>) -> bool
    decreases a.len(),
{
    if a.len() == 0 {
        true
    } else if b.len() == 0 {
        false
    } else if a[0] != b[0] {
        a[0] < b[0]
    } else {
        lex_le(a.drop_first(), b.drop_first())
    }
}

pub proof fn lemma_lex_total(a: Seq<char>, b: Seq<char>)
    ensures
        lex_le(a, b) || lex_le(b, a),
        lex_le(a, b) && lex_le(b, a) ==> a == b,
    decreases a.len(),
{
    if a.len() == 0 {
        if b.len() == 0 {
            assert(a =~= b);
        }
    } else if b.len() > 0 && a[0] == b[0] {
        lemma_lex_total(a.drop_first(), b.drop_first());
        if a.drop_first() == b.drop_first() {
            assert(a =~= seq![a[0]] + a.drop_first());
            assert(b =~= seq![b[0]] + b.drop_first());
        }
    }
}

pub proof fn lemma_lex_reflexive(a: Seq<char>)
    ensures
        lex_le(a, a),
    decreases a.len(),
{
    if a.len() > 0 {
        lemma_lex_reflexive(a.drop_first());
    }
}

pub proof fn lemma_lex_transitive(a: Seq<char>, b: Seq<char>, c: Seq<char>)
    requires
        lex_le(a, b),
        lex_le(b, c),
    ensures
        lex_le(a, c),
    decreases a.len(),
{
    if a.len() > 0 && b.len() > 0 && c.len() > 0 {
        if a[0] == b[0] && b[0] == c[0] {
            lemma_lex_transitive(a.drop_first(), b.drop_first(), c.drop_first());
        }
    }
}

/// Whether `a` stands before `b` in the order of texts, or is equal to it.
pub fn text_le(a: &str, b: &str) -> (r: bool)
    ensures
        r == lex_le(a@, b@),
{
    let x = chars_of(a);
    let y = chars_of(b);
    let mut i: usize = 0;
    assert(x@.skip(0) =~= x@);
    assert(y@.skip(0) =~= y@);
    while i < x.len() && i < y.len()
        invariant
            i <= x@.len(),
            i <= y@.len(),
            x@ == a@,
            y@ == b@,
            lex_le(x@, y@) == lex_le(x@.skip(i as int), y@.skip(i as int)),
        decreases x@.len() - i,
    {
        assert(x@.skip(i as int)[0] == x@[i as int]);
        assert(y@.skip(i as int)[0] == y@[i as int]);
        if x[i] != y[i] {
            return x[i] < y[i];
        }
        assert(x@.skip(i as int).drop_first() =~= x@.skip(i + 1));
        assert(y@.skip(i as int).drop_first() =~= y@.skip(i + 1));
        i += 1;
    }
    i >= x.len()
}

/// Whether `order` lists the places of `names`, each once, by name and, where
/// names are equal, by place.
pub open spec fn is_name_order(order: Seq<int>, names: Seq<Seq<char>>) -> bool {
    &&& order.len() == names.len()
    &&& forall|i: int| 0 <= i < order.len() ==> 0 <= #[trigger] order[i] < names.len()
    &&& forall|i: int, j: int|
        0 <= i < j < order.len() ==> name_before(names, #[trigger] order[i], #[trigger] order[j])
}

/// Whether place `i` comes before place `j` by name and, where names are
/// equal, by place.
pub open spec fn name_before(names: Seq<Seq<char>>, i: int, j: int) -> bool {
    lex_le(names[i], names[j]) && (names[i] == names[j] ==> i < j)
}

/// The places in a sequence of positions, as integers.
pub open spec fn places(v: Seq<usize>) -> Seq<int> {
    v.map_values(|i: usize| i as int)
}

/// The places of `names` by name and, where names are equal, by place.
pub fn name_order(names: &Vec<String>) -> (r: Vec<usize>)
    ensures
        is_name_order(places(r@), views(names@)),
{
    let mut order: Vec<usize> = Vec::new();
    let mut n: usize = 0;
    let ghost all = views(names@);
    while n < names.len()
        invariant
            n <= names@.len(),
            all == views(names@),
            order@.len() == n,
            forall|i: int| 0 <= i < n ==> #[trigger] order@[i] < n,
            forall|i: int, j: int|
                0 <= i < j < n ==> name_before(all, #[trigger] order@[i] as int, #[trigger] order@[j] as int),
        decreases names@.len() - n,
    {
        let mut k: usize = n;
        proof {
            lemma_lex_reflexive(all[n as int]);
        }
        while k > 0 && !text_le(names[order[k - 1]].as_str(), names[n].as_str())
            invariant
                k <= n < names@.len(),
                all == views(names@),
                order@.len() == n,
                forall|i: int| 0 <= i < n ==> #[trigger] order@[i] < n,
                forall|i: int| k <= i < n ==> !lex_le(all[#[trigger] order@[i] as int], all[n as int]),
            decreases k,
        {
            k -= 1;
        }
        let ghost before = order@;
        order.insert(k, n);
        proof {
            assert forall|i: int, j: int| 0 <= i < j < n + 1 implies name_before(
                all,
                #[trigger] order@[i] as int,
                #[trigger] order@[j] as int,
            ) by {
                if i == k {
                    assert(order@[j] == before[j - 1]);
                    lemma_lex_total(all[n as int], all[before[j - 1] as int]);
                    lemma_lex_reflexive(all[n as int]);
                } else if j == k {
                    assert(order@[i] == before[i]);
                    if i < k - 1 {
                        assert(name_before(all, before[i] as int, before[k - 1] as int));
                        lemma_lex_transitive(
                            all[before[i] as int],
                            all[before[k - 1] as int],
                            all[n as int],
                        );
                    }
                } else {
                    let bi = if i < k {
                        i
                    } else {
                        i - 1
                    };
                    let bj = if j < k {
                        j
                    } else {
                        j - 1
                    };
                    assert(order@[i] == before[bi]);
                    assert(order@[j] == before[bj]);
                }
            }
            assert forall|i: int| 0 <= i < n + 1 implies #[trigger] order@[i] < n + 1 by {
                if i < k {
                    assert(order@[i] == before[i]);
                } else if i > k {
                    assert(order@[i] == before[i - 1]);
                }
            }
        }
        n += 1;
    }
    order
}

/// An order by name lists no place twice.
pub proof fn law_name_order_has_no_repeats(order: Seq<int>, names: Seq<Seq<char>>)
    requires
        is_name_order(order, names),
    ensures
        order.no_duplicates(),
{
    assert forall|i: int, j: int| 0 <= i < order.len() && 0 <= j < order.len() && i
        != j implies order[i] != order[j] by {
        if i < j {
            assert(name_before(names, order[i], order[j]));
        } else {
            assert(name_before(names, order[j], order[i]));
        }
    }
}

/// An order by name lists every place.
pub proof fn lemma_name_order_lists_all(order: Seq<int>, names: Seq<Seq<char>>, p: int) -> (k: int)
    requires
        is_name_order(order, names),
        0 <= p < names.len(),
    ensures
        0 <= k < order.len(),
        order[k] == p,
{
    law_name_order_has_no_repeats(order, names);
    order.unique_seq_to_set();
    let all = vstd::set_lib::set_int_range(0, names.len() as int);
    vstd::set_lib::lemma_int_range(0, names.len() as int);
    assert(order.to_set().subset_of(all));
    vstd::set_lib::lemma_subset_equality(order.to_set(), all);
    assert(all.contains(p));
    assert(order.contains(p));
    choose|k: int| 0 <= k < order.len() && order[k] == p
}

/// There is only one order by name.
pub proof fn law_name_order_is_unique(a: Seq<int>, b: Seq<int>, names: Seq<Seq<char>>)
    requires
        is_name_order(a, names),
        is_name_order(b, names),
    ensures
        a == b,
{
    lemma_name_orders_agree(a, b, names, a.len() as int);
    assert(a =~= b);
}

proof fn lemma_name_orders_agree(a: Seq<int>, b: Seq<int>, names: Seq<Seq<char>>, n: int)
    requires
        is_name_order(a, names),
        is_name_order(b, names),
        0 <= n <= names.len(),
    ensures
        forall|i: int| 0 <= i < n ==> a[i] == b[i],
    decreases n,
{
    if n > 0 {
        lemma_name_orders_agree(a, b, names, n - 1);
        let k = n - 1;
        if a[k] != b[k] {
            law_name_order_has_no_repeats(a, names);
            law_name_order_has_no_repeats(b, names);
            let p = lemma_name_order_lists_all(a, names, b[k]);
            let q = lemma_name_order_lists_all(b, names, a[k]);
            assert(p > k) by {
                if p < k {
                    assert(b[p] == b[k]);
                }
            }
            assert(q > k) by {
                if q < k {
                    assert(a[q] == a[k]);
                }
            }
            assert(name_before(names, a[k], a[p]));
            assert(name_before(names, b[k], b[q]));
            lemma_lex_total(names[a[k]], names[b[k]]);
        }
    }
}

// ── Laws of parts ────────────────────────────────────────────────────────

/// Joining one part gives that part; joining more gives the first ones joined,
/// the separator, and the last one.
pub proof fn law_parts_are_joined_in_order(parts: Seq<Seq<char>>, part: Seq<char>, sep: Seq<char>)
    ensures
        joined(Seq::<Seq<char>>::empty(), sep).len() == 0,
        joined(seq![part], sep) == part,
        parts.len() > 0 ==> joined(parts.push(part), sep) == joined(parts, sep) + sep + part,
{
    if parts.len() > 0 {
        assert(parts.push(part).drop_last() =~= parts);
    }
}

/// Splitting and joining at the same character gives the text back, and no part
/// holds the character.
pub proof fn law_split_parts_join_again(s: Seq<char>, c: char)
    ensures
        split(s, c).len() > 0,
        joined(split(s, c), seq![c]) == s,
        forall|i: int, j: int|
            0 <= i < split(s, c).len() && 0 <= j < split(s, c)[i].len() ==> #[trigger] split(
                s,
                c,
            )[i][j] != c,
    decreases s.len(),
{
    let i = first_index(s, c, 0);
    lemma_first_index(s, c, 0);
    if i < s.len() {
        let rest = s.skip(i + 1);
        law_split_parts_join_again(rest, c);
        let tail = split(rest, c);
        lemma_joined_after(s.take(i), tail, seq![c]);
        assert(s =~= s.take(i) + seq![c] + rest);
        let all = split(s, c);
        assert(all =~= seq![s.take(i)] + tail);
        assert forall|a: int, b: int|
            0 <= a < all.len() && 0 <= b < all[a].len() implies #[trigger] all[a][b] != c by {
            if a > 0 {
                assert(all[a] == tail[a - 1]);
                assert(tail[a - 1][b] != c);
            }
        }
    }
}

proof fn lemma_joined_after(head: Seq<char>, tail: Seq<Seq<char>>, sep: Seq<char>)
    requires
        tail.len() > 0,
    ensures
        joined(seq![head] + tail, sep) == head + sep + joined(tail, sep),
    decreases tail.len(),
{
    let all = seq![head] + tail;
    if tail.len() == 1 {
        assert(all.drop_last() =~= seq![head]);
        assert(all.last() == tail[0]);
        reveal_with_fuel(joined, 2);
    } else {
        assert(all.drop_last() =~= seq![head] + tail.drop_last());
        lemma_joined_after(head, tail.drop_last(), sep);
        assert(all.last() == tail.last());
        assert(head + sep + joined(tail.drop_last(), sep) + sep + tail.last() =~= head + sep + (
        joined(tail.drop_last(), sep) + sep + tail.last()));
    }
}

/// A text falls apart at the first occurrence of a character, and at the last:
/// what comes before, the character, and what follows make up the text. What
/// precedes the first does not hold the character, nor what follows the last. A
/// text without the character is its own start and end.
pub proof fn law_texts_fall_apart_at_a_character(s: Seq<char>, c: char)
    ensures
        s.contains(c) <==> has_char(s, c),
        s.contains(c) <==> after_first(s, c) is Some,
        s.contains(c) <==> before_last(s, c) is Some,
        s.contains(c) ==> s == before_first(s, c) + seq![c] + after_first(s, c)->0,
        s.contains(c) ==> s == before_last(s, c)->0 + seq![c] + after_last(s, c),
        !before_first(s, c).contains(c),
        !after_last(s, c).contains(c),
        !s.contains(c) ==> before_first(s, c) == s && after_last(s, c) == s,
{
    lemma_first_index(s, c, 0);
    lemma_last_index(s, c);
    let i = first_index(s, c, 0);
    let j = last_index(s, c);
    if s.contains(c) {
        let k = choose|k: int| 0 <= k < s.len() && s[k] == c;
        assert(i <= k <= j);
        assert(s =~= s.take(i) + seq![c] + s.skip(i + 1));
        assert(s =~= s.take(j) + seq![c] + s.skip(j + 1));
    } else {
        if i < s.len() {
            assert(s.contains(s[i]));
        }
        if j >= 0 {
            assert(s.contains(s[j]));
        }
        assert(s.take(i) =~= s);
        assert(s.skip(j + 1) =~= s);
    }
}

/// What follows a prefix, put behind the prefix, is the text; and a text that
/// starts with the prefix has such a rest.
pub proof fn law_prefixes_come_off(prefix: Seq<char>, rest: Seq<char>, s: Seq<char>)
    ensures
        without_prefix(prefix + rest, prefix) == Some(rest),
        without_prefix(s, prefix) matches Some(r) ==> s == prefix + r,
{
    assert((prefix + rest).subrange(0, prefix.len() as int) =~= prefix);
    assert((prefix + rest).skip(prefix.len() as int) =~= rest);
    if prefix.is_prefix_of(s) {
        assert(s =~= prefix + s.skip(prefix.len() as int));
    }
}

/// A trimmed text neither starts nor ends with the character, and what was taken
/// off its two ends is that character alone.
pub proof fn law_trimming_takes_off_one_character(s: Seq<char>, c: char) -> (cut: (int, int))
    ensures
        0 <= cut.0 <= cut.1 <= s.len(),
        trimmed(s, c) == s.subrange(cut.0, cut.1),
        forall|i: int| 0 <= i < cut.0 || cut.1 <= i < s.len() ==> s[i] == c,
        trimmed(s, c).len() > 0 ==> trimmed(s, c)[0] != c && trimmed(s, c).last() != c,
    decreases s.len(),
{
    if s.len() > 0 && s.last() == c {
        let t = s.drop_last();
        let cut = law_trimming_takes_off_one_character(t, c);
        assert(t.subrange(cut.0, cut.1) =~= s.subrange(cut.0, cut.1));
        assert forall|i: int| 0 <= i < cut.0 || cut.1 <= i < s.len() implies s[i] == c by {
            if i < t.len() {
                assert(s[i] == t[i]);
            }
        }
        cut
    } else if s.len() > 0 && s[0] == c {
        let t = s.drop_first();
        let cut = law_trimming_takes_off_one_character(t, c);
        assert(t.subrange(cut.0, cut.1) =~= s.subrange(cut.0 + 1, cut.1 + 1));
        assert forall|i: int| 0 <= i < cut.0 + 1 || cut.1 + 1 <= i < s.len() implies s[i] == c by {
            if i > 0 {
                assert(s[i] == t[i - 1]);
            }
        }
        (cut.0 + 1, cut.1 + 1)
    } else {
        assert(s.subrange(0, s.len() as int) =~= s);
        (0, s.len() as int)
    }
}

/// Texts are ordered by the first place at which they differ; where one is the
/// start of the other, the shorter comes first.
pub proof fn law_texts_are_ordered_by_their_first_difference(a: Seq<char>, b: Seq<char>, k: int)
    requires
        0 <= k <= a.len(),
        k <= b.len(),
        a.take(k) == b.take(k),
    ensures
        k < a.len() && k < b.len() && a[k] != b[k] ==> lex_le(a, b) == (a[k] < b[k]),
        k == a.len() ==> lex_le(a, b),
        k == b.len() && k < a.len() ==> !lex_le(a, b),
    decreases k,
{
    if k > 0 {
        assert(a[0] == a.take(k)[0]);
        assert(b[0] == b.take(k)[0]);
        let x = a.drop_first();
        let y = b.drop_first();
        assert(x.take(k - 1) =~= a.take(k).drop_first());
        assert(y.take(k - 1) =~= b.take(k).drop_first());
        law_texts_are_ordered_by_their_first_difference(x, y, k - 1);
    }
}

/// The items of a sequence that a choice picks are taken over as they are and in
/// order: there are increasing places, one for each, and they are the places of
/// the items that the choice picks.
pub proof fn law_picked_items_stay_in_order<A>(
    items: Seq<A>,
    pick: spec_fn(A) -> bool,
) -> (at: Seq<int>)
    ensures
        at.len() == items.filter(pick).len(),
        forall|a: int, b: int| 0 <= a < b < at.len() ==> at[a] < at[b],
        forall|i: int| 0 <= i < items.len() ==> (at.contains(i) <==> pick(#[trigger] items[i])),
        forall|k: int|
            0 <= k < at.len() ==> 0 <= #[trigger] at[k] < items.len() && items.filter(pick)[k]
                == items[at[k]],
    decreases items.len(),
{
    reveal(Seq::filter);
    if items.len() == 0 {
        Seq::empty()
    } else {
        let rest = items.drop_last();
        let before = law_picked_items_stay_in_order(rest, pick);
        let n = items.len() - 1;
        let at = if pick(items.last()) {
            before.push(n)
        } else {
            before
        };
        assert forall|i: int| 0 <= i < items.len() implies (at.contains(i) <==> pick(
            #[trigger] items[i],
        )) by {
            if i < n {
                assert(rest[i] == items[i]);
                if before.contains(i) {
                    let k = choose|k: int| 0 <= k < before.len() && before[k] == i;
                    assert(at[k] == i);
                }
                if at.contains(i) {
                    let k = choose|k: int| 0 <= k < at.len() && at[k] == i;
                    assert(before[k] == i);
                }
            } else {
                if pick(items[i]) {
                    assert(at[before.len() as int] == i);
                }
                if at.contains(i) {
                    let k = choose|k: int| 0 <= k < at.len() && at[k] == i;
                    if k < before.len() {
                        assert(before[k] == i);
                    }
                }
            }
        }
        assert forall|k: int| 0 <= k < at.len() implies 0 <= #[trigger] at[k] < items.len()
            && items.filter(pick)[k] == items[at[k]] by {
            if k < before.len() {
                assert(at[k] == before[k]);
                assert(rest[before[k]] == items[before[k]]);
            }
        }
        at
    }
}

/// A first part without the character comes off a text as it is, and what follows
/// the character is split on its own.
pub proof fn law_split_takes_the_first_part_off(part: Seq<char>, rest: Seq<char>, c: char)
    requires
        !part.contains(c),
    ensures
        split(part + seq![c] + rest, c) == seq![part] + split(rest, c),
        split(part, c) == seq![part],
{
    let s = part + seq![c] + rest;
    assert forall|k: int| 0 <= k < part.len() implies s[k] != c by {
        assert(part.contains(part[k]));
    }
    lemma_first_index(s, c, 0);
    let i = first_index(s, c, 0);
    assert(s[part.len() as int] == c);
    assert(i == part.len());
    assert(s.take(i) =~= part);
    assert(s.skip(i + 1) =~= rest);
    lemma_first_index(part, c, 0);
    if first_index(part, c, 0) < part.len() {
        assert(part.contains(part[first_index(part, c, 0)]));
    }
}

/// A number is written with its last digit at the end: ten times a number and a
/// digit is the number followed by the digit. A digit stands for its distance from
/// zero.
pub proof fn law_digits_are_written_from_the_highest(n: nat, d: nat)
    requires
        d < 10,
    ensures
        decimal(d).len() == 1,
        decimal(d)[0] as u32 == 48 + d,
        n > 0 ==> decimal(10 * n + d) == decimal(n) + decimal(d),
{
    assert(('0' as u32) == 48);
    if n > 0 {
        let m = 10 * n + d;
        assert(m / 10 == n && m % 10 == d);
        assert(decimal(m) =~= decimal(n) + decimal(d));
    }
}

/// A run of digits reads as a number, with a plus sign in front or none, each
/// further digit counting one where those before count ten. Anything else is no
/// number.
pub proof fn law_runs_of_digits_are_numbers(s: Seq<char>, c: char, k: int)
    ensures
        parsed_number(Seq::empty()) is None,
        '0' <= c <= '9' ==> parsed_number(seq![c]) == Some((c as nat - 48) as nat),
        parsed_number(s) matches Some(n) ==> ('0' <= c <= '9' ==> parsed_number(s.push(c)) == Some(
            (10 * n + (c as nat - 48)) as nat,
        )),
        s.len() > 0 && s[0] != '+' ==> parsed_number(seq!['+'] + s) == parsed_number(s),
        0 <= k < s.len() && !('0' <= s[k] <= '9') && !(k == 0 && s[k] == '+') ==> parsed_number(s)
            is None,
{
    let one = seq![c];
    assert(one.drop_last() =~= Seq::empty());
    reveal_with_fuel(digits_value, 2);
    if '0' <= c <= '9' {
        assert(without_sign(one) == one);
        assert(all_digits(one));
        assert(digits_value(one) == (c as nat - 48) as nat);
    }
    if parsed_number(s) is Some && '0' <= c <= '9' {
        let longer = s.push(c);
        let a = without_sign(s);
        let b = without_sign(longer);
        assert(b =~= a.push(c));
        assert(b.drop_last() =~= a);
        assert forall|i: int| 0 <= i < b.len() implies is_digit(#[trigger] b[i]) by {
            if i < a.len() {
                assert(b[i] == a[i]);
            }
        }
        assert(all_digits(b));
    }
    if s.len() > 0 && s[0] != '+' {
        let signed = seq!['+'] + s;
        assert(signed.drop_first() =~= s);
    }
    if 0 <= k < s.len() && !('0' <= s[k] <= '9') && !(k == 0 && s[k] == '+') {
        let a = without_sign(s);
        if s[0] == '+' {
            assert(a[k - 1] == s[k]);
            assert(!is_digit(a[k - 1]));
        } else {
            assert(!is_digit(a[k]));
        }
    }
}

} // verus!
