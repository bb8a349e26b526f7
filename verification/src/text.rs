//! Text as sequences of characters: the models that the contracts of this
//! crate are written over, and the executable functions that meet them.

use vstd::prelude::*;

verus! {

// ---------------------------------------------------------------------------
// Std calls
// ---------------------------------------------------------------------------

/// `String::push` appends one character to the end of the string.
pub assume_specification[ String::push ](s: &mut String, c: char)
    ensures
        final(s)@ == old(s)@.push(c),
;

/// `String::push_str` appends a whole slice to the end of the string.
pub assume_specification[ String::push_str ](s: &mut String, other: &str)
    ensures
        final(s)@ == old(s)@ + other@,
;

/// The characters of `s`, in order.
pub fn chars_of(s: &str) -> (r: Vec<char>)
    ensures
        r@ == s@,
{
    let mut out: Vec<char> = Vec::new();
    for c in it: s.chars()
        invariant
            it.seq() == s@,
            out@ == s@.take(it.index()),
    {
        out.push(c);
    }
    assert(s@.take(s@.len() as int) =~= s@);
    out
}

/// The string that spells `v[from..to]`.
pub fn text_between(v: &Vec<char>, from: usize, to: usize) -> (r: String)
    requires
        from <= to <= v.len(),
    ensures
        r@ == v@.subrange(from as int, to as int),
{
    let mut out = String::new();
    let mut i: usize = from;
    while i < to
        invariant
            from <= i <= to <= v.len(),
            out@ == v@.subrange(from as int, i as int),
        decreases to - i,
    {
        out.push(v[i]);
        i += 1;
        assert(v@.subrange(from as int, i as int) =~= v@.subrange(from as int, i - 1).push(v@[i - 1]));
    }
    out
}


/// The string that spells `v`.
pub fn text_of(v: &Vec<char>) -> (r: String)
    ensures
        r@ == v@,
{
    let r = text_between(v, 0, v.len());
    assert(v@.subrange(0, v@.len() as int) =~= v@);
    r
}

/// The views of a sequence of strings.
pub open spec fn views(v: Seq<String>) -> Seq<Seq<char>> {
    Seq::new(v.len(), |i: int| v[i]@)
}

pub proof fn lemma_views_push(v: Seq<String>, s: String)
    ensures
        views(v.push(s)) == views(v).push(s@),
{
    assert(views(v.push(s)) =~= views(v).push(s@));
}

/// Whether two strings spell the same text.
pub fn same_text(a: &str, b: &str) -> (r: bool)
    ensures
        r == (a@ == b@),
{
    let x = chars_of(a);
    let y = chars_of(b);
    if x.len() != y.len() {
        return false;
    }
    let mut i: usize = 0;
    while i < x.len()
        invariant
            x@ == a@,
            y@ == b@,
            x.len() == y.len(),
            i <= x.len(),
            forall|j: int| 0 <= j < i ==> x@[j] == y@[j],
        decreases x.len() - i,
    {
        if x[i] != y[i] {
            return false;
        }
        i += 1;
    }
    assert(a@ =~= b@);
    true
}

/// Whether `list` holds a string that spells `s`.
pub fn text_in(list: &[&str], s: &str) -> (r: bool)
    ensures
        r == exists|i: int| 0 <= i < list@.len() && (#[trigger] list@[i])@ == s@,
{
    let mut i: usize = 0;
    while i < list.len()
        invariant
            i <= list.len(),
            forall|j: int| 0 <= j < i ==> (#[trigger] list@[j])@ != s@,
        decreases list.len() - i,
    {
        if same_text(list[i], s) {
            return true;
        }
        i += 1;
    }
    false
}

// ---------------------------------------------------------------------------
// Character classes
// ---------------------------------------------------------------------------

/// The characters with the Unicode `White_Space` property.
pub open spec fn is_white(c: char) -> bool {
    ||| '\u{9}' <= c <= '\u{d}'
    ||| c == ' '
    ||| c == '\u{85}'
    ||| c == '\u{a0}'
    ||| c == '\u{1680}'
    ||| '\u{2000}' <= c <= '\u{200a}'
    ||| c == '\u{2028}'
    ||| c == '\u{2029}'
    ||| c == '\u{202f}'
    ||| c == '\u{205f}'
    ||| c == '\u{3000}'
}

/// Whether `c` has the Unicode `White_Space` property.
pub fn is_whitespace(c: char) -> (r: bool)
    ensures
        r == is_white(c),
{
    ('\u{9}' <= c && c <= '\u{d}') || c == ' ' || c == '\u{85}' || c == '\u{a0}' || c == '\u{1680}' || (
    '\u{2000}' <= c && c <= '\u{200a}') || c == '\u{2028}' || c == '\u{2029}' || c == '\u{202f}' || c
        == '\u{205f}' || c == '\u{3000}'
}

/// The characters of the Unicode general category `Cc`.
pub open spec fn is_ctrl(c: char) -> bool {
    c <= '\u{1f}' || '\u{7f}' <= c <= '\u{9f}'
}

/// Whether `c` is a control character.
pub fn is_control(c: char) -> (r: bool)
    ensures
        r == is_ctrl(c),
{
    c <= '\u{1f}' || ('\u{7f}' <= c && c <= '\u{9f}')
}

/// `c`, with `A`..`Z` folded to `a`..`z`.
pub open spec fn lower(c: char) -> char {
    if 'A' <= c <= 'Z' {
        (c as u32 + 32) as char
    } else {
        c
    }
}

/// ASCII case folding of one character.
pub fn to_lower(c: char) -> (r: char)
    ensures
        r == lower(c),
{
    if 'A' <= c && c <= 'Z' {
        ((c as u8) + 32) as char
    } else {
        c
    }
}

/// Whether two texts are the same but for the case of ASCII letters.
pub open spec fn same_but_case(a: Seq<char>, b: Seq<char>) -> bool {
    a.len() == b.len() && forall|i: int| 0 <= i < a.len() ==> lower(#[trigger] a[i]) == lower(b[i])
}

/// Whether two strings are the same but for the case of ASCII letters.
pub fn eq_ignore_case(a: &str, b: &str) -> (r: bool)
    ensures
        r == same_but_case(a@, b@),
{
    let x = chars_of(a);
    let y = chars_of(b);
    if x.len() != y.len() {
        return false;
    }
    let mut i: usize = 0;
    while i < x.len()
        invariant
            x@ == a@,
            y@ == b@,
            x.len() == y.len(),
            i <= x.len(),
            forall|j: int| 0 <= j < i ==> lower(#[trigger] a@[j]) == lower(b@[j]),
        decreases x.len() - i,
    {
        if to_lower(x[i]) != to_lower(y[i]) {
            assert(lower(a@[i as int]) != lower(b@[i as int]));
            return false;
        }
        i += 1;
    }
    true
}

// ---------------------------------------------------------------------------
// Trimming
// ---------------------------------------------------------------------------

/// `s` without its leading white space.
pub open spec fn trimmed_start(s: Seq<char>) -> Seq<char>
    decreases s.len(),
{
    if s.len() > 0 && is_white(s[0]) {
        trimmed_start(s.skip(1))
    } else {
        s
    }
}

/// `s` without its trailing white space.
pub open spec fn trimmed_end(s: Seq<char>) -> Seq<char>
    decreases s.len(),
{
    if s.len() > 0 && is_white(s.last()) {
        trimmed_end(s.drop_last())
    } else {
        s
    }
}

/// `s` without leading and trailing white space.
pub open spec fn trimmed(s: Seq<char>) -> Seq<char> {
    trimmed_end(trimmed_start(s))
}

/// Index of the first character of `v` from `from` on that is not white.
pub fn skip_white(v: &Vec<char>, from: usize) -> (r: usize)
    requires
        from <= v.len(),
    ensures
        from <= r <= v.len(),
        forall|i: int| from <= i < r ==> is_white(#[trigger] v@[i]),
        r < v.len() ==> !is_white(v@[r as int]),
        trimmed_start(v@.skip(from as int)) == v@.skip(r as int),
{
    let mut i: usize = from;
    while i < v.len() && is_whitespace(v[i])
        invariant
            from <= i <= v.len(),
            forall|j: int| from <= j < i ==> is_white(#[trigger] v@[j]),
            trimmed_start(v@.skip(from as int)) == trimmed_start(v@.skip(i as int)),
        decreases v.len() - i,
    {
        assert(v@.skip(i as int).skip(1) =~= v@.skip(i + 1));
        i += 1;
    }
    i
}

/// End of `v[from..to]` once its trailing white space is dropped.
pub fn drop_white(v: &Vec<char>, from: usize, to: usize) -> (r: usize)
    requires
        from <= to <= v.len(),
    ensures
        from <= r <= to,
        forall|i: int| r <= i < to ==> is_white(#[trigger] v@[i]),
        r > from ==> !is_white(v@[r - 1]),
        trimmed_end(v@.subrange(from as int, to as int)) == v@.subrange(from as int, r as int),
{
    let mut i: usize = to;
    while i > from && is_whitespace(v[i - 1])
        invariant
            from <= i <= to <= v.len(),
            forall|j: int| i <= j < to ==> is_white(#[trigger] v@[j]),
            trimmed_end(v@.subrange(from as int, to as int)) == trimmed_end(
                v@.subrange(from as int, i as int),
            ),
        decreases i,
    {
        assert(v@.subrange(from as int, i as int).drop_last() =~= v@.subrange(from as int, i - 1));
        i -= 1;
    }
    i
}

/// `s` without leading and trailing white space.
pub fn trim(s: &str) -> (r: String)
    ensures
        r@ == trimmed(s@),
{
    let v = chars_of(s);
    let a = skip_white(&v, 0);
    let b = drop_white(&v, a, v.len());
    assert(v@.skip(0) =~= v@);
    assert(v@.skip(a as int) =~= v@.subrange(a as int, v@.len() as int));
    text_between(&v, a, b)
}

/// What trimming leaves is a stretch of `s` that neither starts nor ends with
/// white space.
pub proof fn lemma_trimmed(s: Seq<char>)
    ensures
        trimmed(s).len() <= s.len(),
        trimmed(s).len() > 0 ==> !is_white(trimmed(s)[0]) && !is_white(trimmed(s).last()),
        forall|c: char| trimmed(s).contains(c) ==> s.contains(c),
{
    lemma_trimmed_start(s);
    lemma_trimmed_end(trimmed_start(s));
    let t = trimmed_start(s);
    if trimmed(s).len() > 0 {
        assert(trimmed(s)[0] == t[0]);
    }
    assert forall|c: char| trimmed(s).contains(c) implies s.contains(c) by {
        let i = choose|i: int| 0 <= i < trimmed(s).len() && trimmed(s)[i] == c;
        assert(t[i] == c);
        assert(s[i + s.len() - t.len()] == c);
    }
}

pub proof fn lemma_trimmed_start(s: Seq<char>)
    ensures
        trimmed_start(s).len() <= s.len(),
        trimmed_start(s) == s.skip(s.len() - trimmed_start(s).len()),
        trimmed_start(s).len() > 0 ==> !is_white(trimmed_start(s)[0]),
        forall|i: int| 0 <= i < s.len() - trimmed_start(s).len() ==> is_white(#[trigger] s[i]),
    decreases s.len(),
{
    if s.len() > 0 && is_white(s[0]) {
        let t = s.skip(1);
        lemma_trimmed_start(t);
        let n = trimmed_start(t).len();
        assert(t.skip(t.len() - n) =~= s.skip(s.len() - n));
        assert forall|i: int| 0 <= i < s.len() - n implies is_white(#[trigger] s[i]) by {
            if i > 0 {
                assert(s[i] == t[i - 1]);
            }
        }
    } else {
        assert(s.skip(0) =~= s);
    }
}

pub proof fn lemma_trimmed_end(s: Seq<char>)
    ensures
        trimmed_end(s).len() <= s.len(),
        trimmed_end(s) == s.take(trimmed_end(s).len() as int),
        trimmed_end(s).len() > 0 ==> !is_white(trimmed_end(s).last()),
        forall|i: int| trimmed_end(s).len() <= i < s.len() ==> is_white(#[trigger] s[i]),
    decreases s.len(),
{
    if s.len() > 0 && is_white(s.last()) {
        let t = s.drop_last();
        lemma_trimmed_end(t);
        let n = trimmed_end(t).len() as int;
        assert(t.take(n) =~= s.take(n));
        assert forall|i: int| n <= i < s.len() implies is_white(#[trigger] s[i]) by {
            if i < s.len() - 1 {
                assert(s[i] == t[i]);
            }
        }
    } else {
        assert(s.take(s.len() as int) =~= s);
    }
}

/// Text that neither starts nor ends with white space is its own trimming.
pub proof fn lemma_trimmed_fixed(s: Seq<char>)
    requires
        s.len() > 0 ==> !is_white(s[0]) && !is_white(s.last()),
    ensures
        trimmed(s) == s,
        trimmed_start(s) == s,
        trimmed_end(s) == s,
{
}

// ---------------------------------------------------------------------------
// Searching
// ---------------------------------------------------------------------------

/// Index of the first `c` in `s`, or `s.len()` where there is none.
pub open spec fn first_of(s: Seq<char>, c: char) -> int
    decreases s.len(),
{
    if s.len() == 0 || s[0] == c {
        0
    } else {
        1 + first_of(s.skip(1), c)
    }
}

pub proof fn lemma_first_of(s: Seq<char>, c: char)
    ensures
        0 <= first_of(s, c) <= s.len(),
        forall|i: int| 0 <= i < first_of(s, c) ==> #[trigger] s[i] != c,
        first_of(s, c) < s.len() ==> s[first_of(s, c)] == c,
        s.contains(c) <==> first_of(s, c) < s.len(),
    decreases s.len(),
{
    if s.len() > 0 && s[0] != c {
        let t = s.skip(1);
        lemma_first_of(t, c);
        assert forall|i: int| 0 <= i < first_of(s, c) implies #[trigger] s[i] != c by {
            if i > 0 {
                assert(s[i] == t[i - 1]);
            }
        }
        if s.contains(c) {
            let i = choose|i: int| 0 <= i < s.len() && s[i] == c;
            assert(t[i - 1] == c);
        }
    }
}

pub proof fn lemma_first_of_unique(s: Seq<char>, c: char, n: int)
    requires
        0 <= n <= s.len(),
        forall|i: int| 0 <= i < n ==> #[trigger] s[i] != c,
        n < s.len() ==> s[n] == c,
    ensures
        first_of(s, c) == n,
{
    lemma_first_of(s, c);
    let m = first_of(s, c);
    if m < n {
        assert(s[m] != c);
    } else if n < m {
        assert(s[n] != c);
    }
}

/// Index of the first `c` in `v[from..]`, or `v.len()`.
pub fn find_from(v: &Vec<char>, from: usize, c: char) -> (r: usize)
    requires
        from <= v.len(),
    ensures
        from <= r <= v.len(),
        r - from == first_of(v@.skip(from as int), c),
        forall|i: int| from <= i < r ==> #[trigger] v@[i] != c,
        r < v.len() ==> v@[r as int] == c,
{
    let mut i: usize = from;
    while i < v.len() && v[i] != c
        invariant
            from <= i <= v.len(),
            forall|j: int| from <= j < i ==> #[trigger] v@[j] != c,
        decreases v.len() - i,
    {
        i += 1;
    }
    proof {
        lemma_first_of_unique(v@.skip(from as int), c, i - from);
    }
    i
}

/// Whether `p` occurs in `s` at `i`.
pub open spec fn occurs_at(s: Seq<char>, p: Seq<char>, i: int) -> bool {
    0 <= i && i + p.len() <= s.len() && s.subrange(i, i + p.len()) == p
}

/// Whether `p` occurs somewhere in `s`.
pub open spec fn has_text(s: Seq<char>, p: Seq<char>) -> bool {
    exists|i: int| occurs_at(s, p, i)
}

/// Whether `v[at..]` starts with `p`.
pub fn starts_at(v: &Vec<char>, at: usize, p: &Vec<char>) -> (r: bool)
    requires
        at <= v.len(),
    ensures
        r == occurs_at(v@, p@, at as int),
{
    if p.len() > v.len() - at {
        return false;
    }
    let mut i: usize = 0;
    while i < p.len()
        invariant
            i <= p.len(),
            at + p.len() <= v.len(),
            forall|j: int| 0 <= j < i ==> v@[at + j] == p@[j],
        decreases p.len() - i,
    {
        if v[at + i] != p[i] {
            assert(v@.subrange(at as int, at + p@.len())[i as int] != p@[i as int]);
            return false;
        }
        i += 1;
    }
    assert(v@.subrange(at as int, at + p@.len()) =~= p@);
    true
}

/// Whether `pattern` occurs in `v`.
pub fn chars_contain(v: &Vec<char>, pattern: &Vec<char>) -> (r: bool)
    ensures
        r == has_text(v@, pattern@),
{
    let mut i: usize = 0;
    loop
        invariant
            i <= v.len(),
            forall|j: int| 0 <= j < i ==> !occurs_at(v@, pattern@, j),
        decreases v.len() - i,
    {
        if starts_at(v, i, pattern) {
            return true;
        }
        if i == v.len() {
            assert forall|j: int| !occurs_at(v@, pattern@, j) by {
                if j == i {
                    assert(!occurs_at(v@, pattern@, i as int));
                }
            }
            return false;
        }
        i += 1;
    }
}

/// Whether `pattern` occurs in `s`.
pub fn contains_text(s: &str, pattern: &str) -> (r: bool)
    ensures
        r == has_text(s@, pattern@),
{
    chars_contain(&chars_of(s), &chars_of(pattern))
}

/// What is left of `s` behind `prefix`, where `s` starts with it.
pub open spec fn after_prefix(s: Seq<char>, prefix: Seq<char>) -> Option<Seq<char>> {
    if occurs_at(s, prefix, 0) {
        Some(s.skip(prefix.len() as int))
    } else {
        None
    }
}

/// What is left of `s` behind `prefix`, where `s` starts with it.
pub fn strip_prefix(s: &str, prefix: &str) -> (r: Option<String>)
    ensures
        r is Some <==> after_prefix(s@, prefix@) is Some,
        r matches Some(t) ==> after_prefix(s@, prefix@) == Some(t@),
{
    let v = chars_of(s);
    let p = chars_of(prefix);
    if starts_at(&v, 0, &p) {
        assert(v@.skip(p@.len() as int) =~= v@.subrange(p@.len() as int, v@.len() as int));
        Some(text_between(&v, p.len(), v.len()))
    } else {
        None
    }
}

// ---------------------------------------------------------------------------
// Splitting and joining
// ---------------------------------------------------------------------------

/// The stretches of `s` between its `sep`s; one more of them than `sep`s.
pub open spec fn split_on(s: Seq<char>, sep: char) -> Seq<Seq<char>>
    decreases s.len(),
{
    let n = first_of(s, sep);
    if 0 <= n < s.len() {
        seq![s.take(n)] + split_on(s.skip(n + 1), sep)
    } else {
        seq![s]
    }
}

/// The stretches of `s` between its `sep`s.
pub fn split_char(s: &str, sep: char) -> (r: Vec<String>)
    ensures
        views(r@) == split_on(s@, sep),
        r@.len() > 0,
{
    let v = chars_of(s);
    let mut out: Vec<String> = Vec::new();
    let mut start: usize = 0;
    assert(v@.skip(0) =~= v@);
    loop
        invariant
            start <= v.len(),
            v@ == s@,
            views(out@) + split_on(v@.skip(start as int), sep) == split_on(s@, sep),
        decreases v.len() - start,
    {
        let ghost rest = v@.skip(start as int);
        let ghost before = out@;
        let n = find_from(&v, start, sep);
        let piece = text_between(&v, start, n);
        assert(v@.subrange(start as int, n as int) =~= rest.take(n - start));
        out.push(piece);
        proof {
            lemma_views_push(before, piece);
        }
        if n == v.len() {
            assert(rest.take(n - start) =~= rest);
            assert(views(out@) =~= views(before) + split_on(rest, sep));
            return out;
        }
        start = n + 1;
        assert(v@.skip(start as int) =~= rest.skip(first_of(rest, sep) + 1));
        assert(views(out@) + split_on(v@.skip(start as int), sep) =~= views(before) + split_on(
            rest,
            sep,
        ));
    }
}

/// `s` cut at its first `sep`, where it has one.
pub open spec fn cut_at(s: Seq<char>, sep: char) -> Option<(Seq<char>, Seq<char>)> {
    let n = first_of(s, sep);
    if n < s.len() {
        Some((s.take(n), s.skip(n + 1)))
    } else {
        None
    }
}

/// `s` cut at its first `sep`, where it has one.
pub fn split_once(s: &str, sep: char) -> (r: Option<(String, String)>)
    ensures
        r is Some <==> cut_at(s@, sep) is Some,
        r matches Some(p) ==> cut_at(s@, sep) == Some((p.0@, p.1@)),
{
    let v = chars_of(s);
    assert(v@.skip(0) =~= v@);
    let n = find_from(&v, 0, sep);
    if n == v.len() {
        return None;
    }
    assert(v@.subrange(0, n as int) =~= v@.take(n as int));
    assert(v@.subrange(n + 1, v@.len() as int) =~= v@.skip(n + 1));
    Some((text_between(&v, 0, n), text_between(&v, n + 1, v.len())))
}

/// A line without the carriage return before its line feed.
pub open spec fn without_cr(s: Seq<char>) -> Seq<char> {
    if s.len() > 0 && s.last() == '\r' {
        s.drop_last()
    } else {
        s
    }
}

/// The lines of `s`: each ends at a line feed, a carriage return right before
/// that line feed is dropped, and what follows the last line feed is a line
/// where it is not empty.
pub open spec fn lines_of(s: Seq<char>) -> Seq<Seq<char>>
    decreases s.len(),
{
    let n = first_of(s, '\n');
    if s.len() == 0 {
        Seq::empty()
    } else if 0 <= n < s.len() {
        seq![without_cr(s.take(n))] + lines_of(s.skip(n + 1))
    } else {
        seq![s]
    }
}

/// Where the line `k` of `s` starts: behind `k` line feeds.
pub open spec fn line_start(s: Seq<char>, k: int) -> int
    decreases s.len(),
{
    let n = first_of(s, '\n');
    if k <= 0 || !(0 <= n < s.len()) {
        0
    } else {
        n + 1 + line_start(s.skip(n + 1), k - 1)
    }
}

/// A text with a line feed at its end.
pub open spec fn closed_line(s: Seq<char>) -> Seq<char> {
    if s.len() > 0 && s.last() == '\n' {
        s
    } else {
        s.push('\n')
    }
}

/// The line `k` stands where it starts; before it stand the lines before it, and
/// behind it the end of a line or of the text.
pub proof fn lemma_line_start(s: Seq<char>, k: int)
    requires
        0 <= k < lines_of(s).len(),
    ensures
        ({
            let a = line_start(s, k);
            let b = a + lines_of(s)[k].len();
            &&& 0 <= a <= b <= s.len()
            &&& s.subrange(a, b) == lines_of(s)[k]
            &&& a > 0 ==> s[a - 1] == '\n'
            &&& lines_of(s.take(a)) == lines_of(s).take(k)
            &&& lines_of(s.skip(a)) == lines_of(s).skip(k)
            &&& b == s.len() || s[b] == '\n' || (b + 1 < s.len() && s[b] == '\r' && s[b + 1]
                == '\n')
        }),
    decreases s.len(),
{
    let n = first_of(s, '\n');
    lemma_first_of(s, '\n');
    if k == 0 {
        assert(s.take(0) =~= Seq::empty());
        assert(s.skip(0) =~= s);
        assert(lines_of(s).take(0) =~= Seq::empty());
        assert(lines_of(s).skip(0) =~= lines_of(s));
        let l = lines_of(s)[0];
        if n < s.len() {
            assert(l == without_cr(s.take(n)));
            assert(s.subrange(0, l.len() as int) =~= l);
        } else {
            assert(l == s);
            assert(s.subrange(0, l.len() as int) =~= l);
        }
    } else {
        assert(n < s.len());
        let t = s.skip(n + 1);
        assert(lines_of(s) == seq![without_cr(s.take(n))] + lines_of(t));
        lemma_line_start(t, k - 1);
        let c = line_start(t, k - 1);
        let a = line_start(s, k);
        assert(a == n + 1 + c);
        let b = a + lines_of(s)[k].len();
        assert(lines_of(s)[k] == lines_of(t)[k - 1]);
        assert(s.subrange(a, b) =~= t.subrange(c, c + lines_of(t)[k - 1].len()));
        assert(s[a - 1] == (if c > 0 {
            t[c - 1]
        } else {
            s[n]
        }));
        let head = s.take(n + 1);
        assert(s.take(a) =~= head + t.take(c));
        assert(head.last() == '\n');
        lemma_lines_concat(head, t.take(c));
        assert(head =~= s.take(n).push('\n'));
        assert(!s.take(n).contains('\n'));
        lemma_lines_one(s.take(n));
        assert(lines_of(s.take(a)) =~= lines_of(s).take(k));
        assert(s.skip(a) =~= t.skip(c));
        assert(lines_of(s.skip(a)) =~= lines_of(s).skip(k));
        if b < s.len() {
            assert(s[b] == t[b - n - 1]);
            if b + 1 < s.len() {
                assert(s[b + 1] == t[b - n]);
            }
        }
    }
}

/// Where the line `k` starts and where it ends.
pub fn line_span(v: &Vec<char>, k: usize) -> (r: (usize, usize))
    requires
        k < lines_of(v@).len(),
    ensures
        r.0 == line_start(v@, k as int),
        r.0 <= r.1 <= v@.len(),
        v@.subrange(r.0 as int, r.1 as int) == lines_of(v@)[k as int],
{
    let mut at: usize = 0;
    let mut j: usize = 0;
    assert(v@.skip(0) =~= v@);
    assert(lines_of(v@).skip(0) =~= lines_of(v@));
    while j < k
        invariant
            j <= k,
            at <= v.len(),
            k < lines_of(v@).len(),
            line_start(v@, k as int) == at + line_start(v@.skip(at as int), k - j),
            lines_of(v@.skip(at as int)) == lines_of(v@).skip(j as int),
        decreases k - j,
    {
        let ghost rest = v@.skip(at as int);
        let n = find_from(v, at, '\n');
        proof {
            lemma_first_of(rest, '\n');
            assert(lines_of(rest).len() == lines_of(v@).len() - j);
            assert(n < v.len());
            assert(v@.skip(n + 1) =~= rest.skip(first_of(rest, '\n') + 1));
            assert(lines_of(rest).skip(1) =~= lines_of(v@).skip(j + 1));
            assert(lines_of(rest).skip(1) =~= lines_of(v@.skip(n + 1)));
        }
        at = n + 1;
        j += 1;
    }
    let ghost rest = v@.skip(at as int);
    let n = find_from(v, at, '\n');
    let end: usize = if n < v.len() && n > at && v[n - 1] == '\r' {
        n - 1
    } else {
        n
    };
    proof {
        assert(line_start(rest, 0) == 0);
        assert(lines_of(rest)[0] == lines_of(v@)[k as int]);
        assert(rest.take(n - at) =~= v@.subrange(at as int, n as int));
        if n == v.len() {
            assert(rest.len() > 0);
            assert(v@.subrange(at as int, end as int) =~= rest);
        } else {
            assert(v@.subrange(at as int, end as int) =~= without_cr(rest.take(n - at)));
        }
    }
    (at, end)
}

/// The lines of `s`.
pub fn lines(s: &str) -> (r: Vec<String>)
    ensures
        views(r@) == lines_of(s@),
{
    let v = chars_of(s);
    let mut out: Vec<String> = Vec::new();
    let mut start: usize = 0;
    assert(v@.skip(0) =~= v@);
    assert(views(out@) =~= Seq::empty());
    assert(views(out@) + lines_of(v@) =~= lines_of(v@));
    while start < v.len()
        invariant
            start <= v.len(),
            v@ == s@,
            views(out@) + lines_of(v@.skip(start as int)) == lines_of(s@),
        decreases v.len() - start,
    {
        let ghost rest = v@.skip(start as int);
        let ghost before = out@;
        let n = find_from(&v, start, '\n');
        if n == v.len() {
            let piece = text_between(&v, start, n);
            assert(piece@ =~= rest);
            out.push(piece);
            proof {
                lemma_views_push(before, piece);
            }
            start = n;
            assert(lines_of(v@.skip(start as int)) =~= Seq::empty());
            assert(views(out@) + lines_of(v@.skip(start as int)) =~= views(before) + lines_of(rest));
        } else {
            let end: usize = if n > start && v[n - 1] == '\r' {
                n - 1
            } else {
                n
            };
            let piece = text_between(&v, start, end);
            assert(rest.take(n - start) =~= v@.subrange(start as int, n as int));
            assert(piece@ =~= without_cr(rest.take(n - start)));
            out.push(piece);
            proof {
                lemma_views_push(before, piece);
            }
            start = n + 1;
            assert(v@.skip(start as int) =~= rest.skip(first_of(rest, '\n') + 1));
            assert(views(out@) + lines_of(v@.skip(start as int)) =~= views(before) + lines_of(rest));
        }
    }
    assert(lines_of(v@.skip(start as int)) =~= Seq::empty());
    assert(views(out@) + lines_of(v@.skip(start as int)) =~= views(out@));
    out
}

/// Length of the stretch without white space that `s` starts with.
pub open spec fn word_len(s: Seq<char>) -> int
    decreases s.len(),
{
    if s.len() == 0 || is_white(s[0]) {
        0
    } else {
        1 + word_len(s.skip(1))
    }
}

pub proof fn lemma_word_len(s: Seq<char>)
    ensures
        0 <= word_len(s) <= s.len(),
        forall|i: int| 0 <= i < word_len(s) ==> !is_white(#[trigger] s[i]),
        word_len(s) < s.len() ==> is_white(s[word_len(s)]),
    decreases s.len(),
{
    if s.len() > 0 && !is_white(s[0]) {
        let t = s.skip(1);
        lemma_word_len(t);
        assert forall|i: int| 0 <= i < word_len(s) implies !is_white(#[trigger] s[i]) by {
            if i > 0 {
                assert(s[i] == t[i - 1]);
            }
        }
    }
}

proof fn lemma_word_len_unique(s: Seq<char>, n: int)
    requires
        0 <= n <= s.len(),
        forall|i: int| 0 <= i < n ==> !is_white(#[trigger] s[i]),
        n < s.len() ==> is_white(s[n]),
    ensures
        word_len(s) == n,
{
    lemma_word_len(s);
    let m = word_len(s);
    if m < n {
        assert(!is_white(s[m]));
    } else if n < m {
        assert(!is_white(s[n]));
    }
}

/// The stretches of `s` between its white space, none of them empty.
pub open spec fn words_of(s: Seq<char>) -> Seq<Seq<char>>
    decreases s.len(),
    via words_of_shrinks
{
    let t = trimmed_start(s);
    if t.len() == 0 {
        Seq::empty()
    } else {
        seq![t.take(word_len(t))] + words_of(t.skip(word_len(t)))
    }
}

#[via_fn]
proof fn words_of_shrinks(s: Seq<char>) {
    lemma_trimmed_start(s);
    lemma_word_len(trimmed_start(s));
}

/// The stretches of `s` between its white space.
pub fn words(s: &str) -> (r: Vec<String>)
    ensures
        views(r@) == words_of(s@),
{
    let v = chars_of(s);
    let mut out: Vec<String> = Vec::new();
    let mut at: usize = 0;
    assert(v@.skip(0) =~= v@);
    assert(views(out@) =~= Seq::empty());
    assert(views(out@) + words_of(v@) =~= words_of(v@));
    loop
        invariant
            at <= v.len(),
            v@ == s@,
            views(out@) + words_of(v@.skip(at as int)) == words_of(s@),
        decreases v.len() - at,
    {
        let ghost rest = v@.skip(at as int);
        let ghost before = out@;
        let start = skip_white(&v, at);
        let ghost t = v@.skip(start as int);
        if start == v.len() {
            assert(words_of(rest) =~= Seq::empty());
            assert(views(out@) + words_of(rest) =~= views(out@));
            return out;
        }
        let mut end: usize = start;
        while end < v.len() && !is_whitespace(v[end])
            invariant
                start <= end <= v.len(),
                forall|j: int| start <= j < end ==> !is_white(#[trigger] v@[j]),
            decreases v.len() - end,
        {
            end += 1;
        }
        let piece = text_between(&v, start, end);
        proof {
            assert forall|i: int| 0 <= i < end - start implies !is_white(#[trigger] t[i]) by {
                assert(t[i] == v@[start + i]);
            }
            lemma_word_len_unique(t, end - start);
            assert(!is_white(t[0]));
            assert(end > start);
            assert(piece@ =~= t.take(end - start));
            lemma_views_push(before, piece);
        }
        out.push(piece);
        at = end;
        assert(v@.skip(at as int) =~= t.skip(end - start));
        assert(views(out@) + words_of(v@.skip(at as int)) =~= views(before) + words_of(rest));
    }
}

/// `parts` with `sep` between each two of them.
pub open spec fn joined(parts: Seq<Seq<char>>, sep: Seq<char>) -> Seq<char>
    decreases parts.len(),
{
    if parts.len() == 0 {
        Seq::empty()
    } else if parts.len() == 1 {
        parts[0]
    } else {
        joined(parts.drop_last(), sep) + sep + parts.last()
    }
}

/// `parts` with `sep` between each two of them.
pub fn join(parts: &Vec<String>, sep: &str) -> (r: String)
    ensures
        r@ == joined(views(parts@), sep@),
{
    let mut out = String::new();
    let mut i: usize = 0;
    assert(views(parts@).take(0) =~= Seq::empty());
    while i < parts.len()
        invariant
            i <= parts.len(),
            out@ == joined(views(parts@).take(i as int), sep@),
        decreases parts.len() - i,
    {
        let ghost next = views(parts@).take(i + 1);
        assert(next.drop_last() =~= views(parts@).take(i as int));
        if i > 0 {
            out.push_str(sep);
        } else {
            assert(out@ + parts@[0]@ =~= parts@[0]@);
        }
        out.push_str(parts[i].as_str());
        i += 1;
    }
    assert(views(parts@).take(parts@.len() as int) =~= views(parts@));
    out
}

// ---------------------------------------------------------------------------
// Numbers
// ---------------------------------------------------------------------------

/// The character of the digit `d`, lower case from ten on.
pub open spec fn digit_char(d: int) -> char {
    if d < 10 {
        ('0' as int + d) as char
    } else {
        ('a' as int + d - 10) as char
    }
}

/// The character of the digit `d`.
pub fn digit_of(d: u8) -> (r: char)
    requires
        d < 16,
    ensures
        r == digit_char(d as int),
{
    if d < 10 {
        (48u8 + d) as char
    } else {
        (97u8 + (d - 10)) as char
    }
}

/// `n` in decimal.
pub open spec fn dec(n: nat) -> Seq<char>
    decreases n,
{
    if n < 10 {
        seq![digit_char(n as int)]
    } else {
        dec(n / 10).push(digit_char((n % 10) as int))
    }
}

/// `i` in decimal, with a minus sign where it is negative.
pub open spec fn int_text(i: int) -> Seq<char> {
    if i < 0 {
        seq!['-'] + dec((-i) as nat)
    } else {
        dec(i as nat)
    }
}

/// `n` in decimal.
pub fn decimal(n: u64) -> (r: String)
    ensures
        r@ == dec(n as nat),
    decreases n,
{
    let mut out = if n < 10 {
        String::new()
    } else {
        decimal(n / 10)
    };
    let c = digit_of((n % 10) as u8);
    out.push(c);
    assert(n < 10 ==> out@ =~= seq![digit_char(n as int)]);
    out
}

/// `n` in decimal, with a minus sign where it is negative.
pub fn signed_decimal(n: i64) -> (r: String)
    ensures
        r@ == int_text(n as int),
{
    if n >= 0 {
        decimal(n as u64)
    } else {
        let m: u64 = (-(n as i128)) as u64;
        let mut out = String::new();
        out.push('-');
        out.push_str(decimal(m).as_str());
        assert(out@ =~= seq!['-'] + dec(m as nat));
        out
    }
}

/// The value of `c` as a digit of base `radix`, or `radix` where it is none.
pub open spec fn digit_value(c: char, radix: nat) -> nat {
    let d: int = if '0' <= c <= '9' {
        c as int - '0' as int
    } else if 'a' <= c <= 'z' {
        c as int - 'a' as int + 10
    } else if 'A' <= c <= 'Z' {
        c as int - 'A' as int + 10
    } else {
        radix as int
    };
    if d < radix {
        d as nat
    } else {
        radix
    }
}

/// Whether every character of `s` is a digit of base `radix`.
pub open spec fn all_digits(s: Seq<char>, radix: nat) -> bool {
    forall|i: int| 0 <= i < s.len() ==> digit_value(#[trigger] s[i], radix) < radix
}

/// Whether `s` is a decimal number: digits, perhaps with a minus sign before them,
/// perhaps with a point and more digits behind them.
pub open spec fn is_decimal(s: Seq<char>) -> bool {
    let body = if s.len() > 0 && s[0] == '-' {
        s.skip(1)
    } else {
        s
    };
    match cut_at(body, '.') {
        Some(p) => p.0.len() > 0 && all_digits(p.0, 10) && p.1.len() > 0 && all_digits(p.1, 10),
        None => body.len() > 0 && all_digits(body, 10),
    }
}

/// The number that the digits `s` write in base `radix`.
pub open spec fn digits_value(s: Seq<char>, radix: nat) -> nat
    decreases s.len(),
{
    if s.len() == 0 {
        0
    } else {
        digits_value(s.drop_last(), radix) * radix + digit_value(s.last(), radix)
    }
}

/// The digits of a number that may carry a plus sign.
pub open spec fn unsigned_digits(s: Seq<char>) -> Seq<char> {
    if s.len() > 0 && s[0] == '+' {
        s.skip(1)
    } else {
        s
    }
}

/// The number of at most `max` that `s` writes in base `radix`: at least one
/// digit, with an optional plus sign before them.
pub open spec fn parsed_uint(s: Seq<char>, radix: nat, max: nat) -> Option<nat> {
    let d = unsigned_digits(s);
    if d.len() > 0 && all_digits(d, radix) && digits_value(d, radix) <= max {
        Some(digits_value(d, radix))
    } else {
        None
    }
}

fn digit_in(c: char, radix: u64) -> (r: u64)
    requires
        2 <= radix <= 36,
    ensures
        r == digit_value(c, radix as nat),
{
    let d: u64 = if '0' <= c && c <= '9' {
        (c as u32 - '0' as u32) as u64
    } else if 'a' <= c && c <= 'z' {
        (c as u32 - 'a' as u32 + 10) as u64
    } else if 'A' <= c && c <= 'Z' {
        (c as u32 - 'A' as u32 + 10) as u64
    } else {
        radix
    };
    if d < radix {
        d
    } else {
        radix
    }
}

proof fn lemma_digits_grow(s: Seq<char>, n: int, radix: nat)
    requires
        0 <= n <= s.len(),
        radix >= 1,
    ensures
        digits_value(s.take(n), radix) <= digits_value(s, radix),
    decreases s.len() - n,
{
    if n < s.len() {
        let t = s.take(n + 1);
        assert(t.drop_last() =~= s.take(n));
        lemma_digits_grow(s, n + 1, radix);
        let a = digits_value(s.take(n), radix);
        assert(a <= a * radix) by (nonlinear_arith)
            requires
                radix >= 1,
        ;
    } else {
        assert(s.take(n) =~= s);
    }
}

/// The number that `v[from..]` writes, where it is one of at most `max`.
fn digits_from(v: &Vec<char>, from: usize, radix: u64, max: u64) -> (r: Option<u64>)
    requires
        from <= v.len(),
        2 <= radix <= 36,
    ensures
        r is Some <==> ({
            let d = v@.skip(from as int);
            d.len() > 0 && all_digits(d, radix as nat) && digits_value(d, radix as nat) <= max
        }),
        r matches Some(n) ==> n == digits_value(v@.skip(from as int), radix as nat),
{
    let ghost d = v@.skip(from as int);
    if from == v.len() {
        return None;
    }
    let mut acc: u64 = 0;
    let mut i: usize = from;
    while i < v.len()
        invariant
            from <= i <= v.len(),
            2 <= radix <= 36,
            d == v@.skip(from as int),
            acc <= max,
            acc == digits_value(d.take(i - from), radix as nat),
            forall|j: int| 0 <= j < i - from ==> digit_value(#[trigger] d[j], radix as nat) < radix,
        decreases v.len() - i,
    {
        let c = v[i];
        let x = digit_in(c, radix);
        assert(d[i - from] == c);
        if x >= radix {
            return None;
        }
        let ghost t = d.take(i - from + 1);
        assert(t.drop_last() =~= d.take(i - from));
        assert(t.last() == c);
        assert(acc * radix <= u64::MAX * 36) by (nonlinear_arith)
            requires
                acc <= u64::MAX,
                0 <= radix <= 36,
        ;
        let next: u128 = (acc as u128) * (radix as u128) + (x as u128);
        if next > max as u128 {
            proof {
                lemma_digits_grow(d, i - from + 1, radix as nat);
            }
            return None;
        }
        acc = next as u64;
        i += 1;
        assert(d.take(i - from) == t);
    }
    assert(d.take(v.len() - from) =~= d);
    Some(acc)
}

/// The number of at most `max` that `s` writes in base `radix`.
pub fn parse_uint(s: &str, radix: u64, max: u64) -> (r: Option<u64>)
    requires
        2 <= radix <= 36,
    ensures
        r is Some <==> parsed_uint(s@, radix as nat, max as nat) is Some,
        r matches Some(n) ==> parsed_uint(s@, radix as nat, max as nat) == Some(n as nat),
{
    let v = chars_of(s);
    assert(v@.skip(0) =~= v@);
    let from: usize = if v.len() > 0 && v[0] == '+' {
        1
    } else {
        0
    };
    digits_from(&v, from, radix, max)
}

/// The 64-bit signed number that `s` writes in decimal: at least one digit,
/// with an optional sign before them.
pub open spec fn parsed_int(s: Seq<char>) -> Option<int> {
    if s.len() > 0 && s[0] == '-' {
        let d = s.skip(1);
        if d.len() > 0 && all_digits(d, 10) && digits_value(d, 10) <= 0x8000_0000_0000_0000 {
            Some(-(digits_value(d, 10) as int))
        } else {
            None
        }
    } else {
        match parsed_uint(s, 10, 0x7fff_ffff_ffff_ffff) {
            Some(n) => Some(n as int),
            None => None,
        }
    }
}

/// The 64-bit signed number that `s` writes in decimal.
pub fn parse_int(s: &str) -> (r: Option<i64>)
    ensures
        r is Some <==> parsed_int(s@) is Some,
        r matches Some(n) ==> parsed_int(s@) == Some(n as int),
{
    let v = chars_of(s);
    if v.len() > 0 && v[0] == '-' {
        match digits_from(&v, 1, 10, 0x8000_0000_0000_0000) {
            Some(n) => Some((-(n as i128)) as i64),
            None => None,
        }
    } else {
        match parse_uint(s, 10, 0x7fff_ffff_ffff_ffff) {
            Some(n) => Some(n as i64),
            None => None,
        }
    }
}

// ---------------------------------------------------------------------------
// Order and quotation
// ---------------------------------------------------------------------------

/// Whether `a` stands before `b` in the order of their characters, which for
/// strings is that of their bytes.
pub open spec fn precedes(a: Seq<char>, b: Seq<char>) -> bool
    decreases a.len(),
{
    if b.len() == 0 {
        false
    } else if a.len() == 0 {
        true
    } else if a[0] != b[0] {
        (a[0] as int) < (b[0] as int)
    } else {
        precedes(a.skip(1), b.skip(1))
    }
}

/// Whether `a` stands before `b` in the order of their characters.
pub fn is_before(a: &str, b: &str) -> (r: bool)
    ensures
        r == precedes(a@, b@),
{
    let x = chars_of(a);
    let y = chars_of(b);
    let mut i: usize = 0;
    assert(x@.skip(0) =~= x@ && y@.skip(0) =~= y@);
    while i < x.len() && i < y.len() && x[i] == y[i]
        invariant
            i <= x.len(),
            i <= y.len(),
            precedes(x@, y@) == precedes(x@.skip(i as int), y@.skip(i as int)),
        decreases x.len() - i,
    {
        assert(x@.skip(i as int).skip(1) =~= x@.skip(i + 1));
        assert(y@.skip(i as int).skip(1) =~= y@.skip(i + 1));
        i += 1;
    }
    if i >= y.len() {
        false
    } else if i >= x.len() {
        true
    } else {
        x[i] < y[i]
    }
}

/// Of two texts at most one stands before the other, and one does unless they are
/// the same.
pub proof fn lemma_precedes(a: Seq<char>, b: Seq<char>)
    ensures
        precedes(a, b) ==> !precedes(b, a) && a != b,
        a != b ==> precedes(a, b) || precedes(b, a),
    decreases a.len(),
{
    if a.len() == 0 || b.len() == 0 {
        if a.len() == b.len() {
            assert(a =~= b);
        }
    } else if a[0] == b[0] {
        lemma_precedes(a.skip(1), b.skip(1));
        if a.skip(1) == b.skip(1) {
            assert(a =~= seq![a[0]] + a.skip(1));
            assert(b =~= seq![b[0]] + b.skip(1));
        }
    }
}

/// The order is transitive.
pub proof fn lemma_precedes_transitive(a: Seq<char>, b: Seq<char>, c: Seq<char>)
    requires
        precedes(a, b),
        precedes(b, c),
    ensures
        precedes(a, c),
    decreases a.len(),
{
    if a.len() > 0 && a[0] == b[0] && b[0] == c[0] {
        lemma_precedes_transitive(a.skip(1), b.skip(1), c.skip(1));
    }
}

/// How the `Debug` format of `str` writes a text.
pub uninterp spec fn debugged(s: Seq<char>) -> Seq<char>;

/// `format!` with the `Debug` format of a `str`: the text between quotes, with
/// escapes for what could not be read otherwise. What comes out depends on the
/// text alone.
#[verifier::external_body]
pub(crate) fn debug_text(s: &str) -> (r: String)
    ensures
        r@ == debugged(s@),
{
    format!("{s:?}")
}

/// How the `Debug` format of `char` writes a character.
pub uninterp spec fn debugged_char(c: char) -> Seq<char>;

/// `format!` with the `Debug` format of a `char`: the character between quotes,
/// with an escape where it could not be read otherwise. What comes out depends on
/// the character alone.
#[verifier::external_body]
pub(crate) fn debug_char(c: char) -> (r: String)
    ensures
        r@ == debugged_char(c),
{
    format!("{c:?}")
}

// ---------------------------------------------------------------------------
// Facts about the models
// ---------------------------------------------------------------------------

/// Joining can be read from the front as well as from the back.
pub proof fn lemma_joined_front(parts: Seq<Seq<char>>, sep: Seq<char>)
    requires
        parts.len() >= 2,
    ensures
        joined(parts, sep) == parts[0] + sep + joined(parts.skip(1), sep),
    decreases parts.len(),
{
    let tail = parts.skip(1);
    assert(tail.last() == parts.last());
    if parts.len() == 2 {
        assert(parts.drop_last().len() == 1);
        assert(joined(parts.drop_last(), sep) == parts[0]);
        assert(joined(tail, sep) == parts[1]);
    } else {
        lemma_joined_front(parts.drop_last(), sep);
        assert(parts.drop_last().skip(1) =~= tail.drop_last());
        assert(joined(parts, sep) =~= parts[0] + sep + joined(tail, sep));
    }
}

/// Where a text starts with a stretch free of `c`, its first `c` lies behind.
pub proof fn lemma_first_of_concat(a: Seq<char>, b: Seq<char>, c: char)
    requires
        !a.contains(c),
    ensures
        first_of(a + b, c) == a.len() + first_of(b, c),
{
    lemma_first_of(b, c);
    let s = a + b;
    let n = a.len() + first_of(b, c);
    assert forall|i: int| 0 <= i < n implies #[trigger] s[i] != c by {
        if i < a.len() {
            assert(a.contains(a[i]));
        } else {
            assert(s[i] == b[i - a.len()]);
        }
    }
    lemma_first_of_unique(s, c, n);
}

/// Splitting undoes joining, where no part holds the separator.
pub proof fn lemma_split_joined(parts: Seq<Seq<char>>, sep: char)
    requires
        parts.len() > 0,
        forall|i: int| 0 <= i < parts.len() ==> !(#[trigger] parts[i]).contains(sep),
    ensures
        split_on(joined(parts, seq![sep]), sep) == parts,
    decreases parts.len(),
{
    let text = joined(parts, seq![sep]);
    if parts.len() == 1 {
        lemma_first_of(parts[0], sep);
        assert(parts =~= seq![parts[0]]);
    } else {
        lemma_joined_front(parts, seq![sep]);
        let rest = joined(parts.skip(1), seq![sep]);
        assert(text =~= parts[0] + (seq![sep] + rest));
        lemma_first_of_concat(parts[0], seq![sep] + rest, sep);
        let n = parts[0].len() as int;
        assert(first_of(text, sep) == n);
        assert(text.take(n) =~= parts[0]);
        assert(text.skip(n + 1) =~= rest);
        assert forall|i: int| 0 <= i < parts.skip(1).len() implies !(#[trigger] parts.skip(
            1,
        )[i]).contains(sep) by {
            assert(parts.skip(1)[i] == parts[i + 1]);
        }
        lemma_split_joined(parts.skip(1), sep);
        assert(parts =~= seq![parts[0]] + parts.skip(1));
    }
}

/// No stretch between separators holds the separator.
pub proof fn lemma_split_parts(s: Seq<char>, sep: char)
    ensures
        split_on(s, sep).len() > 0,
        forall|i: int| 0 <= i < split_on(s, sep).len() ==> !(#[trigger] split_on(s, sep)[i]).contains(sep),
    decreases s.len(),
{
    let n = first_of(s, sep);
    lemma_first_of(s, sep);
    if n < s.len() {
        let rest = split_on(s.skip(n + 1), sep);
        lemma_split_parts(s.skip(n + 1), sep);
        assert forall|i: int| 0 <= i < split_on(s, sep).len() implies !(#[trigger] split_on(
            s,
            sep,
        )[i]).contains(sep) by {
            if i > 0 {
                assert(split_on(s, sep)[i] == rest[i - 1]);
            } else {
                assert(split_on(s, sep)[0] == s.take(n));
            }
        }
    }
}

/// The digits of a decimal number, and that reading them back gives it.
pub proof fn lemma_dec(n: nat)
    ensures
        dec(n).len() > 0,
        all_digits(dec(n), 10),
        digits_value(dec(n), 10) == n,
        forall|i: int| 0 <= i < dec(n).len() ==> '0' <= #[trigger] dec(n)[i] <= '9',
    decreases n,
{
    if n < 10 {
        let s = dec(n);
        assert(s.drop_last() =~= Seq::empty());
        assert(digits_value(s.drop_last(), 10) == 0);
    } else {
        lemma_dec(n / 10);
        let s = dec(n);
        let t = dec(n / 10);
        assert(s.drop_last() =~= t);
        assert forall|i: int| 0 <= i < s.len() implies '0' <= #[trigger] s[i] <= '9' by {
            if i < t.len() {
                assert(s[i] == t[i]);
            }
        }
        assert(digit_value(s.last(), 10) == n % 10);
    }
}

/// Reading a decimal number back gives it.
pub proof fn lemma_parsed_dec(n: nat, max: nat)
    requires
        n <= max,
    ensures
        parsed_uint(dec(n), 10, max) == Some(n),
{
    lemma_dec(n);
    assert(dec(n)[0] != '+');
}

/// A number of 64 bits with a sign that is written in decimal is read as it was.
pub proof fn law_ints_read_back(i: int)
    requires
        i64::MIN <= i <= i64::MAX,
    ensures
        parsed_int(int_text(i)) == Some(i),
{
    if i < 0 {
        let n = (-i) as nat;
        lemma_dec(n);
        assert(int_text(i).skip(1) =~= dec(n));
    } else {
        lemma_parsed_int_dec(i as nat);
    }
}

/// A number in decimal is read as it is, as far as 64 bits hold it.
pub proof fn lemma_parsed_int_dec(n: nat)
    ensures
        parsed_int(dec(n)) == (if n <= i64::MAX {
            Some(n as int)
        } else {
            None
        }),
{
    lemma_dec(n);
    let s = dec(n);
    assert(s[0] != '-' && s[0] != '+');
}

/// A decimal number holds digits, a sign and a point, and ends in a digit.
pub proof fn lemma_decimal(s: Seq<char>)
    requires
        is_decimal(s),
    ensures
        s.len() > 0,
        '0' <= s.last() <= '9',
        forall|i: int|
            0 <= i < s.len() ==> ('0' <= #[trigger] s[i] <= '9' || s[i] == '-' || s[i] == '.'),
{
    let from: int = if s.len() > 0 && s[0] == '-' {
        1
    } else {
        0
    };
    let body = if from == 1 {
        s.skip(1)
    } else {
        s
    };
    lemma_first_of(body, '.');
    let n = first_of(body, '.');
    assert forall|i: int| 0 <= i < body.len() implies ('0' <= #[trigger] body[i] <= '9' || i == n) by {
        if n < body.len() {
            if i < n {
                assert(digit_value(body.take(n)[i], 10) < 10);
            } else if i > n {
                assert(digit_value(body.skip(n + 1)[i - n - 1], 10) < 10);
            }
        } else {
            assert(digit_value(body[i], 10) < 10);
        }
    }
    assert forall|i: int| 0 <= i < s.len() implies ('0' <= #[trigger] s[i] <= '9' || s[i] == '-'
        || s[i] == '.') by {
        if i >= from {
            assert(body[i - from] == s[i]);
        }
    }
    if n < body.len() {
        assert(body.skip(n + 1).len() > 0);
    }
    assert(body.last() == s.last());
    assert('0' <= body[body.len() - 1] <= '9');
}

/// A number in decimal is a decimal number.
pub proof fn lemma_dec_is_decimal(n: nat)
    ensures
        is_decimal(dec(n)),
{
    lemma_dec(n);
    lemma_dec_plain(n, '.');
    lemma_first_of(dec(n), '.');
}

/// Decimal digits hold neither white space nor punctuation.
pub proof fn lemma_dec_plain(n: nat, c: char)
    requires
        !('0' <= c <= '9'),
    ensures
        !dec(n).contains(c),
        trimmed(dec(n)) == dec(n),
{
    lemma_dec(n);
    lemma_trimmed_fixed(dec(n));
}

/// Texts without a character that are joined with commas do not hold it.
pub proof fn lemma_joined_without(parts: Seq<Seq<char>>, c: char)
    requires
        c != ',',
        forall|i: int| 0 <= i < parts.len() ==> !(#[trigger] parts[i]).contains(c),
    ensures
        !joined(parts, ","@).contains(c),
    decreases parts.len(),
{
    reveal_strlit(",");
    if parts.len() > 1 {
        let front = parts.drop_last();
        assert forall|i: int| 0 <= i < front.len() implies !(#[trigger] front[i]).contains(c) by {
            assert(front[i] == parts[i]);
        }
        lemma_joined_without(front, c);
        let s = joined(front, ","@);
        let all = joined(parts, ","@);
        if all.contains(c) {
            let k = choose|k: int| 0 <= k < all.len() && all[k] == c;
            if k < s.len() {
                assert(s[k] == c);
            } else if k == s.len() {
                assert(all[k] == ',');
            } else {
                assert(parts.last()[k - s.len() - 1] == c);
            }
        }
    }
}

/// Text that ends at a line feed can be read line by line apart from what
/// follows.
pub proof fn lemma_lines_concat(a: Seq<char>, b: Seq<char>)
    requires
        a.len() == 0 || a.last() == '\n',
    ensures
        lines_of(a + b) == lines_of(a) + lines_of(b),
    decreases a.len(),
{
    if a.len() == 0 {
        assert(a + b =~= b);
        assert(lines_of(a) + lines_of(b) =~= lines_of(b));
    } else {
        let n = first_of(a, '\n');
        lemma_first_of(a, '\n');
        assert(a.contains(a.last()));
        let s = a + b;
        assert forall|i: int| 0 <= i < n implies #[trigger] s[i] != '\n' by {
            assert(s[i] == a[i]);
        }
        lemma_first_of_unique(s, '\n', n);
        assert(s.take(n) =~= a.take(n));
        let rest = a.skip(n + 1);
        assert(s.skip(n + 1) =~= rest + b);
        if rest.len() > 0 {
            assert(rest.last() == a.last());
        }
        lemma_lines_concat(rest, b);
        assert(lines_of(s) =~= lines_of(a) + lines_of(b));
    }
}

/// One line and its line feed.
pub proof fn lemma_lines_one(a: Seq<char>)
    requires
        !a.contains('\n'),
    ensures
        lines_of(a.push('\n')) == seq![without_cr(a)],
{
    let s = a.push('\n');
    assert forall|i: int| 0 <= i < a.len() implies #[trigger] s[i] != '\n' by {
        assert(a.contains(a[i]));
    }
    lemma_first_of_unique(s, '\n', a.len() as int);
    assert(s.take(a.len() as int) =~= a);
    assert(s.skip(a.len() as int + 1) =~= Seq::empty());
    assert(lines_of(Seq::empty()) =~= Seq::empty());
    assert(s.len() > 0);
    assert(lines_of(s) =~= seq![without_cr(a)]);
}

/// Lines that are not empty and do not end in a carriage return are read as they were once
/// they are joined with line feeds.
pub proof fn lemma_lines_of_joined(ls: Seq<Seq<char>>)
    requires
        forall|i: int|
            0 <= i < ls.len() ==> (#[trigger] ls[i]).len() > 0 && !ls[i].contains('\n')
                && trimmed(ls[i]) == ls[i],
    ensures
        lines_of(joined(ls, seq!['\n'])) == ls,
    decreases ls.len(),
{
    let nl = seq!['\n'];
    if ls.len() == 0 {
        assert(lines_of(joined(ls, nl)) =~= ls);
    } else if ls.len() == 1 {
        let s = ls[0];
        lemma_first_of(s, '\n');
        assert(joined(ls, nl) == s);
        assert(lines_of(s) =~= seq![s]);
        assert(ls =~= seq![s]);
    } else {
        let tail = ls.skip(1);
        let s = ls[0];
        assert forall|i: int| 0 <= i < tail.len() implies (#[trigger] tail[i]).len() > 0
            && !tail[i].contains('\n') && trimmed(tail[i]) == tail[i] by {
            assert(tail[i] == ls[i + 1]);
        }
        lemma_lines_of_joined(tail);
        lemma_joined_front(ls, nl);
        lemma_lines_one(s);
        lemma_trimmed(s);
        assert(without_cr(s) == s);
        assert(joined(ls, nl) =~= s.push('\n') + joined(tail, nl));
        lemma_lines_concat(s.push('\n'), joined(tail, nl));
        assert(ls =~= seq![s] + tail);
    }
}

/// A line feed behind text that does not end in one ends its last line.
pub proof fn lemma_lines_close(a: Seq<char>)
    requires
        a.len() > 0,
        a.last() != '\n',
    ensures
        lines_of(a).len() > 0,
        lines_of(a.push('\n')) == lines_of(a).update(
            lines_of(a).len() - 1,
            without_cr(lines_of(a).last()),
        ),
    decreases a.len(),
{
    let n = first_of(a, '\n');
    lemma_first_of(a, '\n');
    let s = a.push('\n');
    if n == a.len() {
        lemma_lines_one(a);
        assert(lines_of(s) =~= lines_of(a).update(0, without_cr(a)));
    } else {
        assert forall|i: int| 0 <= i < n implies #[trigger] s[i] != '\n' by {
            assert(s[i] == a[i]);
        }
        lemma_first_of_unique(s, '\n', n);
        let rest = a.skip(n + 1);
        assert(s.take(n) =~= a.take(n));
        assert(s.skip(n + 1) =~= rest.push('\n'));
        assert(rest.last() == a.last());
        lemma_lines_close(rest);
        assert(lines_of(a).last() == lines_of(rest).last());
        assert(lines_of(s) =~= lines_of(a).update(
            lines_of(a).len() - 1,
            without_cr(lines_of(a).last()),
        ));
    }
}

/// No line holds a line feed.
pub proof fn lemma_lines_parts(s: Seq<char>)
    ensures
        forall|i: int| 0 <= i < lines_of(s).len() ==> !(#[trigger] lines_of(s)[i]).contains('\n'),
    decreases s.len(),
{
    let n = first_of(s, '\n');
    lemma_first_of(s, '\n');
    if s.len() > 0 && n < s.len() {
        let rest = lines_of(s.skip(n + 1));
        lemma_lines_parts(s.skip(n + 1));
        assert forall|i: int| 0 <= i < lines_of(s).len() implies !(#[trigger] lines_of(
            s,
        )[i]).contains('\n') by {
            if i > 0 {
                assert(lines_of(s)[i] == rest[i - 1]);
            } else {
                let l = lines_of(s)[0];
                assert(l == without_cr(s.take(n)));
                assert forall|j: int| 0 <= j < l.len() implies l[j] != '\n' by {
                    assert(l[j] == s[j]);
                }
            }
        }
    }
}

// ---------------------------------------------------------------------------
// Laws
// ---------------------------------------------------------------------------

/// White space around a text is trimmed, and nothing of the text itself.
pub proof fn law_trimming_drops_white_space(before: Seq<char>, s: Seq<char>, after: Seq<char>)
    requires
        forall|i: int| 0 <= i < before.len() ==> is_white(#[trigger] before[i]),
        forall|i: int| 0 <= i < after.len() ==> is_white(#[trigger] after[i]),
        s.len() > 0 ==> !is_white(s[0]) && !is_white(s.last()),
    ensures
        trimmed(before + s + after) == s,
{
    let all = before + s + after;
    lemma_trimmed_front(before, s + after);
    assert(all =~= before + (s + after));
    if s.len() > 0 {
        assert(trimmed_start(s + after) == s + after);
        lemma_trimmed_back(s, after);
    } else {
        assert(s + after =~= after);
        lemma_trimmed_front(after, Seq::empty());
        assert(after + Seq::<char>::empty() =~= after);
    }
}

proof fn lemma_trimmed_front(white: Seq<char>, s: Seq<char>)
    requires
        forall|i: int| 0 <= i < white.len() ==> is_white(#[trigger] white[i]),
    ensures
        trimmed_start(white + s) == trimmed_start(s),
    decreases white.len(),
{
    let all = white + s;
    if white.len() > 0 {
        let t = white.skip(1);
        assert(all[0] == white[0]);
        assert forall|i: int| 0 <= i < t.len() implies is_white(#[trigger] t[i]) by {
            assert(t[i] == white[i + 1]);
        }
        lemma_trimmed_front(t, s);
        assert(all.skip(1) =~= t + s);
    } else {
        assert(all =~= s);
    }
}

proof fn lemma_trimmed_back(s: Seq<char>, white: Seq<char>)
    requires
        forall|i: int| 0 <= i < white.len() ==> is_white(#[trigger] white[i]),
        s.len() > 0 && !is_white(s.last()),
    ensures
        trimmed_end(s + white) == s,
    decreases white.len(),
{
    let all = s + white;
    if white.len() > 0 {
        let t = white.drop_last();
        assert(all.last() == white[white.len() - 1]);
        assert forall|i: int| 0 <= i < t.len() implies is_white(#[trigger] t[i]) by {
            assert(t[i] == white[i]);
        }
        lemma_trimmed_back(s, t);
        assert(all.drop_last() =~= s + t);
    } else {
        assert(all =~= s);
    }
}

/// The space, the tab and what ends a line are white; what is printed of ASCII is not.
pub proof fn law_white_space_of_ascii(c: char)
    ensures
        c == ' ' || c == '\t' || c == '\n' || c == '\r' ==> is_white(c),
        '!' <= c <= '~' ==> !is_white(c),
{
}

/// Case is folded for the letters of ASCII alone.
pub proof fn law_case_of_ascii(c: char)
    ensures
        'A' <= c <= 'Z' ==> lower(c) as u32 == c as u32 + 32,
        !('A' <= c <= 'Z') ==> lower(c) == c,
        lower(lower(c)) == lower(c),
{
}

/// What is split at a character holds it nowhere, and joined with it again it is what it
/// was.
pub proof fn law_split_rejoins(s: Seq<char>, sep: char)
    ensures
        split_on(s, sep).len() > 0,
        forall|i: int| 0 <= i < split_on(s, sep).len() ==> !(#[trigger] split_on(s, sep)[i]).contains(sep),
        joined(split_on(s, sep), seq![sep]) == s,
    decreases s.len(),
{
    lemma_split_parts(s, sep);
    lemma_first_of(s, sep);
    let n = first_of(s, sep);
    let parts = split_on(s, sep);
    if n < s.len() {
        let rest = s.skip(n + 1);
        law_split_rejoins(rest, sep);
        assert(parts == seq![s.take(n)] + split_on(rest, sep));
        assert(parts.skip(1) =~= split_on(rest, sep));
        lemma_joined_front(parts, seq![sep]);
        assert(s =~= s.take(n) + seq![sep] + rest);
    }
}

/// Words between single spaces are read as they were.
pub proof fn law_words_read_back(words: Seq<Seq<char>>)
    requires
        forall|i: int|
            0 <= i < words.len() ==> (#[trigger] words[i]).len() > 0 && forall|j: int|
                0 <= j < words[i].len() ==> !is_white(#[trigger] words[i][j]),
    ensures
        words_of(joined(words, seq![' '])) == words,
    decreases words.len(),
{
    let space = seq![' '];
    let s = joined(words, space);
    if words.len() == 0 {
        assert(words_of(s) =~= words);
    } else {
        let first = words[0];
        let tail = words.skip(1);
        assert forall|i: int| 0 <= i < tail.len() implies (#[trigger] tail[i]).len() > 0
            && forall|j: int| 0 <= j < tail[i].len() ==> !is_white(#[trigger] tail[i][j]) by {
            assert(tail[i] == words[i + 1]);
        }
        law_words_read_back(tail);
        let rest = if tail.len() == 0 {
            Seq::<char>::empty()
        } else {
            space + joined(tail, space)
        };
        if tail.len() > 0 {
            lemma_joined_front(words, space);
            assert(s =~= first + rest);
            assert(rest[0] == ' ');
        } else {
            assert(s =~= first + rest);
        }
        assert(s[0] == first[0]);
        assert(!is_white(first[0]));
        assert(trimmed_start(s) == s);
        assert forall|i: int| 0 <= i < first.len() implies !is_white(#[trigger] s[i]) by {
            assert(s[i] == first[i]);
        }
        lemma_word_len_unique(s, first.len() as int);
        assert(s.take(first.len() as int) =~= first);
        assert(s.skip(first.len() as int) =~= rest);
        if tail.len() > 0 {
            let j = joined(tail, space);
            assert(rest.skip(1) =~= j);
            assert(trimmed_start(rest) == trimmed_start(j));
            assert(words_of(rest) == words_of(j));
        } else {
            assert(words_of(rest) =~= Seq::empty());
        }
        assert(words =~= seq![first] + tail);
    }
}

} // verus!
