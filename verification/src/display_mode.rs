//! Display modes and the `monitor=` lines that pin them.
//!
//! A `monitor=` value is a comma-separated list: the output's name, its mode,
//! its position and its scale, then `key,value` pairs (`vrr,1`, `bitdepth,10`,
//! `cm,hdr`). The compositor does not report those pairs, so a line rebuilt from
//! what it reports would lose them; the functions here replace one field of an
//! existing line and leave the others as they are.

use crate::text;
use vstd::prelude::*;

verus! {

/// Seconds for which an applied mode stays before it reverts by itself.
pub const REVERT_SECONDS: u64 = 15;

// ---------------------------------------------------------------------------
// `monitor=` values
// ---------------------------------------------------------------------------

/// The comma-separated fields of a `monitor=` value, each trimmed.
pub open spec fn fields_of(line: Seq<char>) -> Seq<Seq<char>> {
    Seq::new(text::split_on(line, ',').len(), |i: int| text::trimmed(text::split_on(line, ',')[i]))
}

/// Index of the field that says `vrr` among the pairs from the fifth field on,
/// or the number of fields where none does.
pub open spec fn vrr_field(f: Seq<Seq<char>>, from: int) -> int
    decreases f.len() - from,
{
    if from < 0 || from >= f.len() {
        f.len() as int
    } else if f[from] == "vrr"@ {
        from
    } else {
        vrr_field(f, from + 1)
    }
}

/// The `vrr` argument among the fields `f`, where there is a numeric one.
pub open spec fn vrr_of(f: Seq<Seq<char>>) -> Option<nat> {
    let i = vrr_field(f, 4);
    if i + 1 < f.len() {
        text::parsed_uint(f[i + 1], 10, 255)
    } else {
        None
    }
}

/// The fields `f` with their `vrr` argument set to `vrr`.
pub open spec fn with_vrr(f: Seq<Seq<char>>, vrr: nat) -> Seq<Seq<char>> {
    let i = vrr_field(f, 4);
    if i + 1 < f.len() {
        f.update(i + 1, text::dec(vrr))
    } else if i < f.len() {
        f.push(text::dec(vrr))
    } else {
        f.push("vrr"@).push(text::dec(vrr))
    }
}

/// The comma-separated fields of a `monitor=` value, each trimmed.
pub fn fields(line: &str) -> (r: Vec<String>)
    ensures
        text::views(r@) == fields_of(line@),
        r@.len() > 0,
{
    let parts = text::split_char(line, ',');
    let mut out: Vec<String> = Vec::new();
    let mut i: usize = 0;
    while i < parts.len()
        invariant
            i <= parts.len(),
            text::views(parts@) == text::split_on(line@, ','),
            out@.len() == i,
            text::views(out@) == fields_of(line@).take(i as int),
        decreases parts.len() - i,
    {
        let ghost before = out@;
        let t = text::trim(parts[i].as_str());
        assert(text::views(parts@)[i as int] == parts@[i as int]@);
        out.push(t);
        proof {
            text::lemma_views_push(before, t);
        }
        i += 1;
        assert(text::views(out@) =~= fields_of(line@).take(i as int));
    }
    assert(text::views(parts@).len() == parts@.len());
    assert(fields_of(line@).take(i as int) =~= fields_of(line@));
    out
}

/// The output that a `monitor=` value addresses, or `""` for the catch-all
/// `monitor=,preferred,auto,auto`.
pub fn line_name(line: &str) -> (r: String)
    ensures
        r@ == fields_of(line@)[0],
{
    let f = fields(line);
    assert(text::views(f@)[0] == f@[0]@);
    f[0].clone()
}

fn find_vrr(f: &Vec<String>) -> (r: usize)
    ensures
        r == vrr_field(text::views(f@), 4),
        r <= f@.len(),
{
    let mut i: usize = 4;
    if i > f.len() {
        return f.len();
    }
    while i < f.len()
        invariant
            4 <= i <= f.len(),
            vrr_field(text::views(f@), 4) == vrr_field(text::views(f@), i as int),
        decreases f.len() - i,
    {
        assert(text::views(f@)[i as int] == f@[i as int]@);
        if text::same_text(f[i].as_str(), "vrr") {
            return i;
        }
        i += 1;
    }
    i
}

/// The per-output `vrr` argument, where the line carries one.
pub fn line_vrr(line: &str) -> (r: Option<u8>)
    ensures
        r is Some <==> vrr_of(fields_of(line@)) is Some,
        r matches Some(v) ==> vrr_of(fields_of(line@)) == Some(v as nat),
{
    let f = fields(line);
    let i = find_vrr(&f);
    if i < f.len() && i + 1 < f.len() {
        assert(text::views(f@)[i + 1] == f@[i + 1]@);
        match text::parse_uint(f[i + 1].as_str(), 10, 255) {
            Some(n) => Some(n as u8),
            None => None,
        }
    } else {
        None
    }
}

/// `line` with its `vrr` argument set to `vrr`: the argument is replaced where
/// the line has one, and the pair is appended where it has none. `None` for a
/// line too short to hold the four positional fields.
pub fn rewrite_vrr(line: &str, vrr: u8) -> (r: Option<String>)
    ensures
        r is Some <==> fields_of(line@).len() >= 4,
        r matches Some(t) ==> t@ == text::joined(with_vrr(fields_of(line@), vrr as nat), ","@),
{
    let mut f = fields(line);
    let ghost before = f@;
    let ghost model = fields_of(line@);
    assert(model.len() == f@.len());
    if f.len() < 4 {
        return None;
    }
    let i = find_vrr(&f);
    let n = text::decimal(vrr as u64);
    if i < f.len() {
        if i + 1 < f.len() {
            f[i + 1] = n;
            assert(text::views(f@) =~= model.update(i + 1, text::dec(vrr as nat)));
        } else {
            f.push(n);
            assert(text::views(f@) =~= model.push(text::dec(vrr as nat)));
        }
    } else {
        f.push("vrr".to_owned());
        f.push(n);
        assert(text::views(f@) =~= model.push("vrr"@).push(text::dec(vrr as nat)));
    }
    Some(text::join(&f, ","))
}

// ---------------------------------------------------------------------------
// Modes
// ---------------------------------------------------------------------------

/// A refresh rate, which is a finite number greater than zero.
///
/// The number itself is binary floating point. What this module reads of it is
/// kept here: where it stands among other rates, and how it is spelled.
#[derive(Clone, Debug, PartialEq, Eq)]
pub struct Rate {
    /// The bits of the number. For numbers greater than zero they are ordered as
    /// the numbers are.
    pub order: u64,
    /// At most five decimals, without trailing zeros: `59.94`.
    pub keyword: String,
    /// At most two decimals, without trailing zeros.
    pub label: String,
}

impl Rate {
    /// The keyword spells a number.
    pub open spec fn wf(self) -> bool {
        &&& self.keyword@.len() > 0
        &&& forall|i: int|
            0 <= i < self.keyword@.len() ==> ('0' <= #[trigger] self.keyword@[i] <= '9'
                || self.keyword@[i] == '.')
    }

    /// The same rate.
    pub fn copied(&self) -> (r: Rate)
        ensures
            r == *self,
    {
        Rate { order: self.order, keyword: self.keyword.clone(), label: self.label.clone() }
    }

    /// The rate whose bits are `bits`, and which is spelled `five` with five decimals
    /// and `two` with two; where it is a finite number greater than zero. The bits of
    /// such numbers are those between zero and infinity.
    pub fn read(bits: u64, five: &str, two: &str) -> (r: Option<Rate>)
        ensures
            r is Some <==> 0 < bits < 0x7ff0_0000_0000_0000,
            r matches Some(rate) ==> rate.order == bits && rate.keyword@ == trimmed_decimal(five@)
                && rate.label@ == trimmed_decimal(two@),
            r matches Some(rate) ==> (text::is_decimal(five@) && five@[0] != '-' ==> rate.wf()),
    {
        if bits == 0 || bits >= 0x7ff0_0000_0000_0000 {
            return None;
        }
        proof {
            if text::is_decimal(five@) && five@[0] != '-' {
                lemma_trimmed_decimal(five@);
            }
        }
        Some(Rate { order: bits, keyword: trim_float(five), label: trim_float(two) })
    }
}

/// One `WIDTHxHEIGHT@REFRESH` display mode.
#[derive(Clone, Debug, PartialEq, Eq)]
pub struct Mode {
    pub width: u32,
    pub height: u32,
    pub refresh: Rate,
}

/// A mode without the unit behind it.
pub open spec fn without_unit(s: Seq<char>) -> Seq<char> {
    let n = s.len();
    if n >= 2 && (s[n - 2] == 'H' || s[n - 2] == 'h') && s[n - 1] == 'z' {
        s.take(n - 2)
    } else {
        s
    }
}

/// The three numbers of a mode, as they are spelled: width, height, rate.
pub open spec fn mode_parts(s: Seq<char>) -> Option<(Seq<char>, Seq<char>, Seq<char>)> {
    match text::cut_at(without_unit(text::trimmed(s)), '@') {
        Some(p) => match text::cut_at(p.0, 'x') {
            Some(q) => Some((text::trimmed(q.0), text::trimmed(q.1), text::trimmed(p.1))),
            None => None,
        },
        None => None,
    }
}

/// A pixel count: a decimal number other than zero.
pub open spec fn pixels(s: Seq<char>) -> Option<nat> {
    match text::parsed_uint(s, 10, 0xffff_ffff) {
        Some(n) => if n == 0 {
            None
        } else {
            Some(n)
        },
        None => None,
    }
}

/// The mode that `s` spells, where `rate` is what its rate reads as: a width and a
/// height other than zero, and a rate.
pub open spec fn mode_of(s: Seq<char>, rate: Option<Rate>) -> Option<Mode> {
    match (mode_parts(s), rate) {
        (Some(p), Some(refresh)) => match (pixels(p.0), pixels(p.1)) {
            (Some(w), Some(h)) => Some(Mode { width: w as u32, height: h as u32, refresh }),
            _ => None,
        },
        _ => None,
    }
}

/// The three numbers of a mode, as they are spelled.
fn mode_texts(s: &str) -> (r: Option<(String, String, String)>)
    ensures
        r is Some <==> mode_parts(s@) is Some,
        r matches Some(p) ==> mode_parts(s@) == Some((p.0@, p.1@, p.2@)),
{
    let t = text::trim(s);
    let v = text::chars_of(t.as_str());
    let n = v.len();
    let end: usize = if n >= 2 && (v[n - 2] == 'H' || v[n - 2] == 'h') && v[n - 1] == 'z' {
        n - 2
    } else {
        n
    };
    let body = text::text_between(&v, 0, end);
    assert(body@ =~= without_unit(t@));
    match text::split_once(body.as_str(), '@') {
        Some((res, rate)) => match text::split_once(res.as_str(), 'x') {
            Some((w, h)) => Some(
                (text::trim(w.as_str()), text::trim(h.as_str()), text::trim(rate.as_str())),
            ),
            None => None,
        },
        None => None,
    }
}

/// How the mode `s` spells its rate, where `s` is shaped like a mode.
pub fn rate_text(s: &str) -> (r: Option<String>)
    ensures
        r is Some <==> mode_parts(s@) is Some,
        r matches Some(t) ==> mode_parts(s@) matches Some(p) && t@ == p.2,
{
    match mode_texts(s) {
        Some(p) => Some(p.2),
        None => None,
    }
}

/// `number`, a decimal number that may carry a fraction, without the zeros that
/// the fraction ends in and without a point that nothing follows.
pub open spec fn trimmed_decimal(number: Seq<char>) -> Seq<char> {
    if number.contains('.') {
        without_trailing(without_trailing(number, '0'), '.')
    } else {
        number
    }
}

/// `s` without the `c`s that it ends in.
pub open spec fn without_trailing(s: Seq<char>, c: char) -> Seq<char>
    decreases s.len(),
{
    if s.len() > 0 && s.last() == c {
        without_trailing(s.drop_last(), c)
    } else {
        s
    }
}

proof fn lemma_without_trailing(s: Seq<char>, c: char, n: int)
    requires
        0 <= n < s.len(),
        s[n] != c,
    ensures
        n < without_trailing(s, c).len() <= s.len(),
        without_trailing(s, c) == s.take(without_trailing(s, c).len() as int),
    decreases s.len(),
{
    if s.last() == c {
        lemma_without_trailing(s.drop_last(), c, n);
        let k = without_trailing(s, c).len() as int;
        assert(s.drop_last().take(k) =~= s.take(k));
    } else {
        assert(s.take(s.len() as int) =~= s);
    }
}

/// A decimal number without a sign keeps its digits before the point.
proof fn lemma_trimmed_decimal(s: Seq<char>)
    requires
        text::is_decimal(s),
        s[0] != '-',
    ensures
        trimmed_decimal(s).len() > 0,
        forall|i: int|
            0 <= i < trimmed_decimal(s).len() ==> ('0' <= #[trigger] trimmed_decimal(s)[i] <= '9'
                || trimmed_decimal(s)[i] == '.'),
{
    text::lemma_decimal(s);
    text::lemma_first_of(s, '.');
    let n = text::first_of(s, '.');
    assert forall|i: int| 0 <= i < s.len() implies #[trigger] s[i] != '-' by {
        if n < s.len() {
            if i < n {
                assert(text::digit_value(s.take(n)[i], 10) < 10);
            } else if i > n {
                assert(text::digit_value(s.skip(n + 1)[i - n - 1], 10) < 10);
            }
        } else {
            assert(text::digit_value(s[i], 10) < 10);
        }
    }
    if n < s.len() {
        assert(s.take(n).len() > 0);
        lemma_without_trailing(s, '0', n);
        let t = without_trailing(s, '0');
        assert(t[0] == s[0]);
        lemma_without_trailing(t, '.', 0);
        let u = without_trailing(t, '.');
        assert forall|i: int| 0 <= i < u.len() implies ('0' <= #[trigger] u[i] <= '9' || u[i]
            == '.') by {
            assert(u[i] == s[i]);
        }
    }
}

fn drop_trailing(v: &Vec<char>, to: usize, c: char) -> (r: usize)
    requires
        to <= v.len(),
    ensures
        r <= to,
        without_trailing(v@.take(to as int), c) == v@.take(r as int),
{
    let mut i: usize = to;
    while i > 0 && v[i - 1] == c
        invariant
            i <= to <= v.len(),
            without_trailing(v@.take(to as int), c) == without_trailing(v@.take(i as int), c),
        decreases i,
    {
        assert(v@.take(i as int).drop_last() =~= v@.take(i - 1));
        i -= 1;
    }
    i
}

/// `number` without the zeros that its fraction ends in, so that a rate reads
/// `120` rather than `120.00000` and a scale `1.5` rather than `1.500000`.
pub fn trim_float(number: &str) -> (r: String)
    ensures
        r@ == trimmed_decimal(number@),
{
    let v = text::chars_of(number);
    assert(v@.skip(0) =~= v@);
    let point = text::find_from(&v, 0, '.');
    proof {
        text::lemma_first_of(v@, '.');
    }
    if point == v.len() {
        return text::text_of(&v);
    }
    assert(v@.take(v@.len() as int) =~= v@);
    let a = drop_trailing(&v, v.len(), '0');
    let b = drop_trailing(&v, a, '.');
    assert(v@.subrange(0, b as int) =~= v@.take(b as int));
    text::text_between(&v, 0, b)
}

impl Mode {
    /// The canonical spelling of the mode.
    pub open spec fn keyword(self) -> Seq<char> {
        text::dec(self.width as nat) + "x"@ + text::dec(self.height as nat) + "@"@
            + self.refresh.keyword@
    }

    /// The mode as a menu entry.
    pub open spec fn menu_label(self) -> Seq<char> {
        text::dec(self.width as nat) + " × "@ + text::dec(self.height as nat) + " @ "@
            + self.refresh.label@ + " Hz"@
    }

    /// The mode `s`: `3840x2160@120`, `3840x2160@120.00000` or
    /// `3840x2160@120.00000Hz`. `rate` is what [`rate_text`] of `s` reads as,
    /// where that is a finite number greater than zero.
    ///
    /// A bare `WxH` is no mode: without a rate the compositor would pick one.
    pub fn parse(s: &str, rate: Option<Rate>) -> (r: Option<Mode>)
        ensures
            r == mode_of(s@, rate),
    {
        let rate = match rate {
            Some(rate) => rate,
            None => return None,
        };
        match mode_texts(s) {
            Some((w, h, _)) => match (
                text::parse_uint(w.as_str(), 10, 0xffff_ffff),
                text::parse_uint(h.as_str(), 10, 0xffff_ffff),
            ) {
                (Some(w), Some(h)) => {
                    if w == 0 || h == 0 {
                        None
                    } else {
                        Some(Mode { width: w as u32, height: h as u32, refresh: rate })
                    }
                },
                _ => None,
            },
            None => None,
        }
    }

    /// The canonical spelling, `3840x2160@120`.
    pub fn to_keyword(&self) -> (r: String)
        ensures
            r@ == self.keyword(),
    {
        let mut out = text::decimal(self.width as u64);
        out.push_str("x");
        out.push_str(text::decimal(self.height as u64).as_str());
        out.push_str("@");
        out.push_str(self.refresh.keyword.as_str());
        out
    }

    /// A label for a menu, `3840 × 2160 @ 120 Hz`.
    pub fn label(&self) -> (r: String)
        ensures
            r@ == self.menu_label(),
    {
        let mut out = text::decimal(self.width as u64);
        out.push_str(" × ");
        out.push_str(text::decimal(self.height as u64).as_str());
        out.push_str(" @ ");
        out.push_str(self.refresh.label.as_str());
        out.push_str(" Hz");
        out
    }

    /// Whether two modes name the same output mode: the same resolution at
    /// rates that are close (less than half a hertz apart).
    pub fn same(&self, other: &Mode, rates_close: bool) -> (r: bool)
        ensures
            r == (self.width == other.width && self.height == other.height && rates_close),
    {
        self.width == other.width && self.height == other.height && rates_close
    }

    /// The number of pixels.
    pub open spec fn area(self) -> int {
        self.width * self.height
    }

    fn area_of(&self) -> (r: u64)
        ensures
            r == self.area(),
    {
        assert(self.width * self.height <= 0xffff_ffff * 0xffff_ffff) by (nonlinear_arith)
            requires
                self.width <= 0xffff_ffff,
                self.height <= 0xffff_ffff,
        ;
        self.width as u64 * self.height as u64
    }
}

/// The mode in the second field of a `monitor=` value, where `rate` is what the rate
/// of that field reads as. A word such as `preferred` is no mode.
pub open spec fn mode_on(line: Seq<char>, rate: Option<Rate>) -> Option<Mode> {
    if fields_of(line).len() >= 2 {
        mode_of(fields_of(line)[1], rate)
    } else {
        None
    }
}

/// The mode of a `monitor=` value, where it is spelled out rather than a word such
/// as `preferred`. `rate` is what [`rate_text`] of the second field reads as, where
/// that is a finite number greater than zero.
pub fn line_mode(line: &str, rate: Option<Rate>) -> (r: Option<Mode>)
    ensures
        r == mode_on(line@, rate),
{
    let f = fields(line);
    assert(fields_of(line@).len() == f@.len());
    if f.len() < 2 {
        None
    } else {
        assert(text::views(f@)[1] == f@[1]@);
        Mode::parse(f[1].as_str(), rate)
    }
}

/// The modes among the spellings `available`, in their order. `rates[i]` is what the
/// rate of spelling `i` reads as; a spelling that is no mode is left out.
pub open spec fn modes_of(available: Seq<Seq<char>>, rates: Seq<Option<Rate>>) -> Seq<Mode>
    decreases available.len(),
{
    if available.len() == 0 {
        Seq::empty()
    } else {
        let before = modes_of(available.drop_last(), rates);
        match mode_of(available.last(), rates[available.len() - 1]) {
            Some(m) => before.push(m),
            None => before,
        }
    }
}

/// The modes among the spellings `available`, in their order, without those that
/// are none. `rates[i]` is what [`rate_text`] of `available[i]` reads as, where that
/// is a finite number greater than zero.
pub fn read_modes(available: &[String], rates: &[Option<Rate>]) -> (r: Vec<Mode>)
    requires
        available@.len() == rates@.len(),
    ensures
        r@ == modes_of(text::views(available@), rates@),
{
    let ghost all = text::views(available@);
    let mut out: Vec<Mode> = Vec::new();
    let mut i: usize = 0;
    assert(all.take(0) =~= Seq::empty());
    while i < available.len()
        invariant
            i <= available.len(),
            available@.len() == rates@.len(),
            all == text::views(available@),
            out@ == modes_of(all.take(i as int), rates@),
        decreases available.len() - i,
    {
        let ghost next = all.take(i + 1);
        assert(next.drop_last() =~= all.take(i as int));
        assert(next.last() == available@[i as int]@);
        let rate = match &rates[i] {
            Some(rate) => Some(rate.copied()),
            None => None,
        };
        if let Some(m) = Mode::parse(available[i].as_str(), rate) {
            out.push(m);
        }
        i += 1;
    }
    assert(all.take(i as int) =~= all);
    out
}

/// `line` with its mode replaced and every other field as it was. `None` for a
/// line without a mode field.
pub fn rewrite_mode(line: &str, mode: &Mode) -> (r: Option<String>)
    ensures
        r is Some <==> fields_of(line@).len() >= 2,
        r matches Some(t) ==> t@ == text::joined(fields_of(line@).update(1, mode.keyword()), ","@),
{
    let mut f = fields(line);
    let ghost before = f@;
    assert(fields_of(line@).len() == f@.len());
    if f.len() < 2 {
        return None;
    }
    f[1] = mode.to_keyword();
    assert(text::views(f@) =~= text::views(before).update(1, mode.keyword()));
    Some(text::join(&f, ","))
}

/// A `monitor=` value for an output that the configuration does not mention:
/// name, mode, position and scale. `scale` is spelled with six decimals, of which
/// the value has those that say something.
pub fn synthesize_line(name: &str, mode: &Mode, x: i64, y: i64, scale: &str) -> (r: String)
    ensures
        r@ == name@ + ","@ + mode.keyword() + ","@ + text::int_text(x as int) + "x"@
            + text::int_text(y as int) + ","@ + trimmed_decimal(scale@),
{
    let mut out = name.to_owned();
    out.push_str(",");
    out.push_str(mode.to_keyword().as_str());
    out.push_str(",");
    out.push_str(text::signed_decimal(x).as_str());
    out.push_str("x");
    out.push_str(text::signed_decimal(y).as_str());
    out.push_str(",");
    out.push_str(trim_float(scale).as_str());
    out
}

/// One entry of the mode picker.
#[derive(Debug, PartialEq, Eq)]
pub struct ModeOption {
    /// What is sent back to select this mode.
    pub value: String,
    /// `3840 × 2160 @ 120 Hz`.
    pub label: String,
    /// Whether the output runs this mode now.
    pub current: bool,
}

/// Which rates are close to each other: `close[i][j]` for the modes `i` and `j`.
pub open spec fn is_square(close: Seq<Vec<bool>>, n: nat) -> bool {
    &&& close.len() == n
    &&& forall|i: int| 0 <= i < n ==> (#[trigger] close[i])@.len() == n
}

/// Whether mode `i` is listed before mode `j`: larger first, then faster, then
/// wider, then as they were reported.
pub open spec fn listed_before(modes: Seq<Mode>, i: int, j: int) -> bool {
    let a = modes[i];
    let b = modes[j];
    ||| a.area() > b.area()
    ||| a.area() == b.area() && a.refresh.order > b.refresh.order
    ||| a.area() == b.area() && a.refresh.order == b.refresh.order && a.width > b.width
    ||| a.area() == b.area() && a.refresh.order == b.refresh.order && a.width == b.width && i < j
}

/// Whether `p` holds the indices of all modes in the order of the list.
pub open spec fn is_listing(p: Seq<usize>, modes: Seq<Mode>) -> bool {
    &&& p.len() == modes.len()
    &&& forall|i: int| 0 <= i < p.len() ==> #[trigger] p[i] < modes.len()
    &&& forall|m: usize| m < modes.len() ==> #[trigger] p.contains(m)
    &&& forall|i: int, j: int|
        0 <= i < j < p.len() ==> listed_before(modes, #[trigger] p[i] as int, #[trigger] p[j] as int)
}

/// Whether `p` holds the indices of the first `n` modes in the order of the list.
spec fn lists_first(p: Seq<usize>, modes: Seq<Mode>, n: int) -> bool {
    &&& p.len() == n
    &&& forall|i: int| 0 <= i < p.len() ==> #[trigger] p[i] < n
    &&& forall|m: usize| m < n ==> #[trigger] p.contains(m)
    &&& forall|i: int, j: int|
        0 <= i < j < p.len() ==> listed_before(modes, #[trigger] p[i] as int, #[trigger] p[j] as int)
}

/// Whether `at` is the place in `p` of mode `i`: before the first one that it is
/// listed before.
spec fn is_place(p: Seq<usize>, modes: Seq<Mode>, i: int, at: int) -> bool {
    &&& 0 <= at <= p.len()
    &&& forall|a: int| 0 <= a < at ==> !listed_before(modes, i, #[trigger] p[a] as int)
    &&& at < p.len() ==> listed_before(modes, i, p[at] as int)
}

/// Whether the modes `i` and `j` are the same to a viewer.
pub open spec fn same_mode(modes: Seq<Mode>, close: Seq<Vec<bool>>, i: int, j: int) -> bool {
    modes[i].width == modes[j].width && modes[i].height == modes[j].height && close[i]@[j]
}

/// The modes of `p` without those that are the same as one kept before.
pub open spec fn without_repeats(p: Seq<usize>, modes: Seq<Mode>, close: Seq<Vec<bool>>) -> Seq<usize>
    decreases p.len(),
{
    if p.len() == 0 {
        Seq::empty()
    } else {
        let kept = without_repeats(p.drop_last(), modes, close);
        let m = p.last();
        if exists|i: int|
            0 <= i < kept.len() && same_mode(modes, close, #[trigger] kept[i] as int, m as int) {
            kept
        } else {
            kept.push(m)
        }
    }
}

/// Whether `m` is the mode that the output runs. `close[i]` says whether its
/// rate is close to that of mode `i`.
pub open spec fn is_current(
    modes: Seq<Mode>,
    m: int,
    current: Option<(u32, u32)>,
    close: Seq<bool>,
) -> bool {
    current matches Some(c) && c.0 == modes[m].width && c.1 == modes[m].height && close[m]
}

/// What a [`ModeOption`] says.
pub struct OptionView {
    pub value: Seq<char>,
    pub label: Seq<char>,
    pub current: bool,
}

impl View for ModeOption {
    type V = OptionView;

    open spec fn view(&self) -> OptionView {
        OptionView { value: self.value@, label: self.label@, current: self.current }
    }
}

/// What the entries of a picker say.
pub open spec fn options_said(o: Seq<ModeOption>) -> Seq<OptionView> {
    Seq::new(o.len(), |i: int| o[i]@)
}

/// The indices of all modes in the order of the list.
pub open spec fn listing(modes: Seq<Mode>) -> Seq<usize> {
    choose|p: Seq<usize>| is_listing(p, modes)
}

/// The entries of the picker: one for each mode of the list that is not the same
/// as one before it.
pub open spec fn picker(
    modes: Seq<Mode>,
    close: Seq<Vec<bool>>,
    current: Option<(u32, u32)>,
    current_close: Seq<bool>,
) -> Seq<OptionView> {
    let kept = without_repeats(listing(modes), modes, close);
    Seq::new(
        kept.len(),
        |i: int|
            OptionView {
                value: modes[kept[i] as int].keyword(),
                label: modes[kept[i] as int].menu_label(),
                current: is_current(modes, kept[i] as int, current, current_close),
            },
    )
}

fn comes_first(modes: &Vec<Mode>, i: usize, j: usize) -> (r: bool)
    requires
        i < modes.len(),
        j < modes.len(),
    ensures
        r == listed_before(modes@, i as int, j as int),
{
    let a = &modes[i];
    let b = &modes[j];
    let x = a.area_of();
    let y = b.area_of();
    if x != y {
        x > y
    } else if a.refresh.order != b.refresh.order {
        a.refresh.order > b.refresh.order
    } else if a.width != b.width {
        a.width > b.width
    } else {
        i < j
    }
}

/// A mode that is put in its place keeps the order.
proof fn lemma_listed_one_more(p: Seq<usize>, modes: Seq<Mode>, i: usize, at: int)
    requires
        lists_first(p, modes, i as int),
        is_place(p, modes, i as int, at),
    ensures
        lists_first(p.insert(at, i), modes, i + 1),
{
    let q = p.insert(at, i);
    assert forall|m: usize| m < i + 1 implies #[trigger] q.contains(m) by {
        if m == i {
            assert(q[at] == m);
        } else {
            assert(p.contains(m));
            let k = choose|k: int| 0 <= k < p.len() && p[k] == m;
            assert(q[if k < at {
                k
            } else {
                k + 1
            }] == m);
        }
    }
    assert forall|a: int, b: int| 0 <= a < b < i + 1 implies listed_before(
        modes,
        #[trigger] q[a] as int,
        #[trigger] q[b] as int,
    ) by {
        let x = if a < at {
            a
        } else {
            a - 1
        };
        let y = if b < at {
            b
        } else {
            b - 1
        };
        if a == at {
            assert(q[b] == p[y]);
            if at < y {
                assert(listed_before(modes, p[at] as int, p[y] as int));
            }
        } else if b == at {
            assert(q[a] == p[x]);
            assert(!listed_before(modes, i as int, p[x] as int));
        } else {
            assert(q[a] == p[x]);
            assert(q[b] == p[y]);
        }
    }
}

fn list_modes(modes: &Vec<Mode>) -> (p: Vec<usize>)
    ensures
        is_listing(p@, modes@),
{
    let mut p: Vec<usize> = Vec::new();
    let mut i: usize = 0;
    while i < modes.len()
        invariant
            i <= modes.len(),
            lists_first(p@, modes@, i as int),
        decreases modes.len() - i,
    {
        let mut at: usize = 0;
        while at < p.len() && !comes_first(modes, i, p[at])
            invariant
                at <= p.len(),
                i < modes.len(),
                lists_first(p@, modes@, i as int),
                forall|a: int|
                    0 <= a < at ==> !listed_before(modes@, i as int, #[trigger] p@[a] as int),
            decreases p.len() - at,
        {
            at += 1;
        }
        proof {
            lemma_listed_one_more(p@, modes@, i, at as int);
        }
        p.insert(at, i);
        i += 1;
    }
    p
}

/// The mode picker for the modes that an output reports: each once, the largest
/// and fastest first.
///
/// `close[i][j]` says whether the rates of the modes `i` and `j` are close, and
/// `current_close[i]` whether that of mode `i` is close to the rate of the mode
/// of `current`'s width and height.
pub fn mode_options(
    modes: &Vec<Mode>,
    close: &Vec<Vec<bool>>,
    current: Option<(u32, u32)>,
    current_close: &Vec<bool>,
) -> (r: Vec<ModeOption>)
    requires
        is_square(close@, modes@.len()),
        current_close@.len() == modes@.len(),
    ensures
        options_said(r@) == picker(modes@, close@, current, current_close@),
{
    let p = list_modes(modes);
    proof {
        law_listing_unique(p@, listing(modes@), modes@);
    }
    let mut kept: Vec<usize> = Vec::new();
    let mut out: Vec<ModeOption> = Vec::new();
    let mut i: usize = 0;
    while i < p.len()
        invariant
            i <= p.len(),
            is_listing(p@, modes@),
            is_square(close@, modes@.len()),
            current_close@.len() == modes@.len(),
            kept@ == without_repeats(p@.take(i as int), modes@, close@),
            forall|k: int| 0 <= k < kept@.len() ==> #[trigger] kept@[k] < modes@.len(),
            out@.len() == kept@.len(),
            forall|k: int|
                0 <= k < out@.len() ==> (#[trigger] out@[k])@ == (OptionView {
                    value: modes@[kept@[k] as int].keyword(),
                    label: modes@[kept@[k] as int].menu_label(),
                    current: is_current(modes@, kept@[k] as int, current, current_close@),
                }),
        decreases p.len() - i,
    {
        let m = p[i];
        let ghost next = p@.take(i + 1);
        assert(next.drop_last() =~= p@.take(i as int));
        assert(next.last() == m);
        let mut seen = false;
        let mut k: usize = 0;
        while k < kept.len()
            invariant
                k <= kept.len(),
                m < modes@.len(),
                is_square(close@, modes@.len()),
                forall|j: int| 0 <= j < kept@.len() ==> #[trigger] kept@[j] < modes@.len(),
                seen <==> exists|j: int|
                    0 <= j < k && same_mode(modes@, close@, #[trigger] kept@[j] as int, m as int),
            decreases kept.len() - k,
        {
            let s = kept[k];
            assert(close@[s as int]@.len() == modes@.len());
            if modes[s].same(&modes[m], close[s][m]) {
                seen = true;
            }
            k += 1;
        }
        if !seen {
            let is_now = match current {
                Some(c) => c.0 == modes[m].width && c.1 == modes[m].height && current_close[m],
                None => false,
            };
            let o = ModeOption {
                value: modes[m].to_keyword(),
                label: modes[m].label(),
                current: is_now,
            };
            kept.push(m);
            out.push(o);
        }
        i += 1;
    }
    assert(p@.take(p@.len() as int) =~= p@);
    assert(options_said(out@) =~= picker(modes@, close@, current, current_close@));
    out
}

// ---------------------------------------------------------------------------
// Laws of the field surgery
// ---------------------------------------------------------------------------

/// Whether `t` can stand as a field of a `monitor=` value.
pub open spec fn is_field(t: Seq<char>) -> bool {
    !t.contains(',') && text::trimmed(t) == t
}

/// Every field of a value can stand as a field.
pub proof fn lemma_fields(line: Seq<char>)
    ensures
        fields_of(line).len() > 0,
        forall|i: int| 0 <= i < fields_of(line).len() ==> is_field(#[trigger] fields_of(line)[i]),
{
    text::lemma_split_parts(line, ',');
    assert forall|i: int| 0 <= i < fields_of(line).len() implies is_field(
        #[trigger] fields_of(line)[i],
    ) by {
        let part = text::split_on(line, ',')[i];
        text::lemma_trimmed(part);
        text::lemma_trimmed_fixed(text::trimmed(part));
    }
}

/// Joining fields with commas and reading them back gives the fields.
pub proof fn lemma_fields_joined(f: Seq<Seq<char>>)
    requires
        f.len() > 0,
        forall|i: int| 0 <= i < f.len() ==> is_field(#[trigger] f[i]),
    ensures
        fields_of(text::joined(f, ","@)) == f,
{
    reveal_strlit(",");
    assert(","@ =~= seq![',']);
    text::lemma_split_joined(f, ',');
    assert(fields_of(text::joined(f, ","@)) =~= f);
}

proof fn lemma_vrr_field(f: Seq<Seq<char>>, from: int)
    requires
        0 <= from,
    ensures
        vrr_field(f, from) <= f.len(),
        from <= f.len() ==> from <= vrr_field(f, from),
        forall|i: int| from <= i < vrr_field(f, from) ==> #[trigger] f[i] != "vrr"@,
        vrr_field(f, from) < f.len() ==> f[vrr_field(f, from)] == "vrr"@,
    decreases f.len() - from,
{
    if from < f.len() && f[from] != "vrr"@ {
        lemma_vrr_field(f, from + 1);
    }
}

proof fn lemma_vrr_field_unique(f: Seq<Seq<char>>, from: int, n: int)
    requires
        0 <= from <= n <= f.len(),
        forall|i: int| from <= i < n ==> #[trigger] f[i] != "vrr"@,
        n < f.len() ==> f[n] == "vrr"@,
    ensures
        vrr_field(f, from) == n,
{
    lemma_vrr_field(f, from);
    let m = vrr_field(f, from);
    if m < n {
        assert(f[m] != "vrr"@);
    } else if n < m {
        assert(f[n] != "vrr"@);
    }
}

proof fn lemma_with_vrr(f: Seq<Seq<char>>, vrr: nat)
    requires
        f.len() >= 4,
        forall|i: int| 0 <= i < f.len() ==> is_field(#[trigger] f[i]),
        vrr <= 255,
    ensures
        with_vrr(f, vrr).len() > 0,
        forall|i: int| 0 <= i < with_vrr(f, vrr).len() ==> is_field(#[trigger] with_vrr(f, vrr)[i]),
        vrr_of(with_vrr(f, vrr)) == Some(vrr),
{
    let g = with_vrr(f, vrr);
    let n = vrr_field(f, 4);
    lemma_vrr_field(f, 4);
    text::lemma_dec_plain(vrr, ',');
    reveal_strlit("vrr");
    assert(is_field("vrr"@)) by {
        text::lemma_trimmed_fixed("vrr"@);
    }
    lemma_vrr_field_unique(g, 4, n);
    text::lemma_parsed_dec(vrr, 255);
}

/// What `rewrite_vrr` wrote, `line_vrr` reads; and the fields of the new line
/// are those of the old one but for the `vrr` argument.
pub proof fn law_rewrite_vrr(line: Seq<char>, vrr: u8)
    requires
        fields_of(line).len() >= 4,
    ensures
        ({
            let out = text::joined(with_vrr(fields_of(line), vrr as nat), ","@);
            &&& fields_of(out) == with_vrr(fields_of(line), vrr as nat)
            &&& vrr_of(fields_of(out)) == Some(vrr as nat)
            &&& 4 <= vrr_field(fields_of(line), 4)
            &&& forall|i: int|
                0 <= i < fields_of(line).len() && i != vrr_field(fields_of(line), 4) + 1
                    ==> fields_of(out)[i] == #[trigger] fields_of(line)[i]
        }),
{
    lemma_fields(line);
    lemma_with_vrr(fields_of(line), vrr as nat);
    lemma_fields_joined(with_vrr(fields_of(line), vrr as nat));
    lemma_vrr_field(fields_of(line), 4);
}

/// Replacing the mode of a line leaves every other field as it was, the `vrr`
/// argument among them.
pub proof fn law_rewrite_mode(line: Seq<char>, keyword: Seq<char>)
    requires
        fields_of(line).len() >= 2,
        is_field(keyword),
    ensures
        ({
            let out = text::joined(fields_of(line).update(1, keyword), ","@);
            &&& fields_of(out) == fields_of(line).update(1, keyword)
            &&& vrr_of(fields_of(out)) == vrr_of(fields_of(line))
        }),
{
    lemma_fields(line);
    let f = fields_of(line);
    let g = f.update(1, keyword);
    lemma_fields_joined(g);
    lemma_vrr_field(f, 4);
    if f.len() >= 4 {
        lemma_vrr_field_unique(g, 4, vrr_field(f, 4));
    }
}

proof fn lemma_place(p: Seq<usize>, modes: Seq<Mode>, i: int, from: int) -> (at: int)
    requires
        0 <= from <= p.len(),
        forall|a: int| 0 <= a < from ==> !listed_before(modes, i, #[trigger] p[a] as int),
    ensures
        is_place(p, modes, i, at),
    decreases p.len() - from,
{
    if from == p.len() || listed_before(modes, i, p[from] as int) {
        from
    } else {
        lemma_place(p, modes, i, from + 1)
    }
}

proof fn lemma_lists_first(modes: Seq<Mode>, n: int) -> (p: Seq<usize>)
    requires
        0 <= n <= modes.len() <= usize::MAX,
    ensures
        lists_first(p, modes, n),
    decreases n,
{
    if n == 0 {
        Seq::empty()
    } else {
        let p = lemma_lists_first(modes, n - 1);
        let at = lemma_place(p, modes, n - 1, 0);
        lemma_listed_one_more(p, modes, (n - 1) as usize, at);
        p.insert(at, (n - 1) as usize)
    }
}

/// Whatever modes an output reports, they can be listed, and the picker lists them
/// in that order.
pub proof fn law_modes_are_listed(modes: Seq<Mode>)
    requires
        modes.len() <= usize::MAX,
    ensures
        is_listing(listing(modes), modes),
{
    let p = lemma_lists_first(modes, modes.len() as int);
    assert(is_listing(p, modes));
}

/// The modes of an output can be listed in one order only.
pub proof fn law_listing_unique(p: Seq<usize>, q: Seq<usize>, modes: Seq<Mode>)
    requires
        is_listing(p, modes),
        is_listing(q, modes),
    ensures
        p == q,
{
    assert forall|n: int| 0 <= n <= p.len() implies #[trigger] p.take(n) == q.take(n) by {
        lemma_listing_prefix(p, q, modes, n);
    }
    assert(p.take(p.len() as int) =~= p);
    assert(q.take(p.len() as int) =~= q);
}

proof fn lemma_listing_prefix(p: Seq<usize>, q: Seq<usize>, modes: Seq<Mode>, n: int)
    requires
        is_listing(p, modes),
        is_listing(q, modes),
        0 <= n <= p.len(),
    ensures
        p.take(n) == q.take(n),
    decreases n,
{
    if n > 0 {
        let k = n - 1;
        lemma_listing_prefix(p, q, modes, k);
        assert(p.take(k) == q.take(k));
        assert forall|i: int| 0 <= i < k implies p[i] == q[i] by {
            assert(p.take(k)[i] == q.take(k)[i]);
        }
        if p[k] != q[k] {
            assert(q.contains(p[k]));
            assert(p.contains(q[k]));
            let i = choose|i: int| 0 <= i < q.len() && q[i] == p[k];
            let j = choose|j: int| 0 <= j < p.len() && p[j] == q[k];
            if i < k {
                assert(listed_before(modes, p[i] as int, p[k] as int));
            }
            if j < k {
                assert(listed_before(modes, q[j] as int, q[k] as int));
            }
            assert(listed_before(modes, q[k] as int, q[i] as int));
            assert(listed_before(modes, p[k] as int, p[j] as int));
            assert(false);
        }
        assert(p.take(n) =~= q.take(n));
    }
}

/// The picker shows no mode twice, and each reported mode is shown or is the
/// same as one that is.
pub proof fn law_picker_covers(p: Seq<usize>, modes: Seq<Mode>, close: Seq<Vec<bool>>)
    ensures
        ({
            let kept = without_repeats(p, modes, close);
            &&& forall|i: int, j: int|
                0 <= i < j < kept.len() ==> !same_mode(
                    modes,
                    close,
                    #[trigger] kept[i] as int,
                    #[trigger] kept[j] as int,
                )
            &&& forall|k: int|
                0 <= k < p.len() ==> kept.contains(#[trigger] p[k]) || exists|i: int|
                    0 <= i < kept.len() && same_mode(
                        modes,
                        close,
                        #[trigger] kept[i] as int,
                        p[k] as int,
                    )
        }),
    decreases p.len(),
{
    if p.len() > 0 {
        let kept = without_repeats(p, modes, close);
        let before = without_repeats(p.drop_last(), modes, close);
        law_picker_covers(p.drop_last(), modes, close);
        assert forall|k: int| 0 <= k < p.len() implies kept.contains(#[trigger] p[k]) || exists|i: int|
            0 <= i < kept.len() && same_mode(
                modes,
                close,
                #[trigger] kept[i] as int,
                p[k] as int,
            ) by {
            if k < p.len() - 1 {
                assert(p[k] == p.drop_last()[k]);
                if before.contains(p[k]) {
                    let i = choose|i: int| 0 <= i < before.len() && before[i] == p[k];
                    assert(kept[i] == p[k]);
                } else {
                    let i = choose|i: int|
                        0 <= i < before.len() && same_mode(
                            modes,
                            close,
                            #[trigger] before[i] as int,
                            p[k] as int,
                        );
                    assert(kept[i] == before[i]);
                }
            } else if kept != before {
                assert(kept[kept.len() - 1] == p[k]);
            }
        }
    }
}

// ---------------------------------------------------------------------------
// The configuration file
// ---------------------------------------------------------------------------

/// First line of the note above a line that this module appends.
pub const NOTE_FIRST: &'static str =
    "# Written by tv-shell-panel (Devices > Display & Audio). Edit freely — the";

/// Second line of that note.
pub const NOTE_SECOND: &'static str =
    "# panel only ever rewrites this line's resolution and vrr fields.";

/// A line up to its `#`.
pub open spec fn code_of(line: Seq<char>) -> Seq<char> {
    line.take(text::first_of(line, '#'))
}

/// A line from its `#` on.
pub open spec fn comment_of(line: Seq<char>) -> Seq<char> {
    line.skip(text::first_of(line, '#'))
}

/// The white space that a line starts with.
pub open spec fn indent_of(line: Seq<char>) -> Seq<char> {
    line.take(line.len() - text::trimmed_start(line).len())
}

/// The `monitor=` value on a line, where it is one.
pub open spec fn value_on(line: Seq<char>) -> Option<Seq<char>> {
    match text::after_prefix(text::trimmed_start(code_of(line)), "monitor"@) {
        Some(rest) => match text::after_prefix(text::trimmed_start(rest), "="@) {
            Some(value) => Some(text::trimmed(value)),
            None => None,
        },
        None => None,
    }
}

/// Whether a line holds the `monitor=` value of the output `name`.
pub open spec fn declares(line: Seq<char>, name: Seq<char>) -> bool {
    value_on(line) matches Some(v) && fields_of(v)[0] == name
}

/// Index of the first of the lines `ls` that declares `name`, or their number.
pub open spec fn declaring(ls: Seq<Seq<char>>, name: Seq<char>) -> int
    decreases ls.len(),
{
    if ls.len() == 0 || declares(ls[0], name) {
        0
    } else {
        1 + declaring(ls.skip(1), name)
    }
}

/// The value that a file declares for the output `name`.
pub open spec fn configured_in(file: Seq<char>, name: Seq<char>) -> Option<Seq<char>> {
    let ls = text::lines_of(file);
    let i = declaring(ls, name);
    if name.len() > 0 && i < ls.len() {
        value_on(ls[i])
    } else {
        None
    }
}

/// A declaring line with its value replaced: the indentation and the comment
/// stay.
pub open spec fn redeclared(line: Seq<char>, value: Seq<char>) -> Seq<char> {
    let head = indent_of(line) + "monitor="@ + value;
    if comment_of(line).len() == 0 {
        head
    } else {
        head + "  "@ + comment_of(line)
    }
}

/// What parts an appended declaration from the text before it.
pub open spec fn gap_after(file: Seq<char>) -> Seq<char> {
    if file.len() == 0 {
        Seq::empty()
    } else if file.last() == '\n' {
        seq!['\n']
    } else {
        seq!['\n', '\n']
    }
}

/// A file with the value of `name` set to `value`. What stands before and behind the
/// line that declares it stays as it is, and a last line feed is added where there
/// is none.
pub open spec fn upserted(file: Seq<char>, name: Seq<char>, value: Seq<char>) -> Seq<char> {
    let ls = text::lines_of(file);
    let i = declaring(ls, name);
    if name.len() > 0 && i < ls.len() {
        let start = text::line_start(file, i);
        text::closed_line(
            file.take(start) + redeclared(ls[i], value) + file.skip(start + ls[i].len()),
        )
    } else {
        (file + gap_after(file) + NOTE_FIRST@).push('\n') + NOTE_SECOND@.push('\n') + ("monitor="@
            + value).push('\n')
    }
}

/// The code of a config line and its trailing `# comment`.
pub fn split_comment(line: &str) -> (r: (String, String))
    ensures
        r.0@ == code_of(line@),
        r.1@ == comment_of(line@),
{
    let v = text::chars_of(line);
    assert(v@.skip(0) =~= v@);
    let n = text::find_from(&v, 0, '#');
    assert(v@.subrange(0, n as int) =~= v@.take(n as int));
    assert(v@.subrange(n as int, v@.len() as int) =~= v@.skip(n as int));
    (text::text_between(&v, 0, n), text::text_between(&v, n, v.len()))
}

/// `s` without its leading white space.
fn trim_start(s: &str) -> (r: String)
    ensures
        r@ == text::trimmed_start(s@),
{
    let v = text::chars_of(s);
    assert(v@.skip(0) =~= v@);
    let n = text::skip_white(&v, 0);
    assert(v@.subrange(n as int, v@.len() as int) =~= v@.skip(n as int));
    text::text_between(&v, n, v.len())
}

/// The `monitor=` value on this line, where it is one. Tolerates `monitor = X`
/// and leading indentation.
pub fn monitor_value(line: &str) -> (r: Option<String>)
    ensures
        r is Some <==> value_on(line@) is Some,
        r matches Some(v) ==> value_on(line@) == Some(v@),
{
    let (code, _) = split_comment(line);
    let head = trim_start(code.as_str());
    match text::strip_prefix(head.as_str(), "monitor") {
        Some(rest) => {
            let rest = trim_start(rest.as_str());
            match text::strip_prefix(rest.as_str(), "=") {
                Some(value) => Some(text::trim(value.as_str())),
                None => None,
            }
        },
        None => None,
    }
}

fn declares_name(line: &str, name: &str) -> (r: bool)
    ensures
        r == declares(line@, name@),
{
    match monitor_value(line) {
        Some(v) => {
            let n = line_name(v.as_str());
            text::same_text(n.as_str(), name)
        },
        None => false,
    }
}

proof fn lemma_declaring(ls: Seq<Seq<char>>, name: Seq<char>)
    ensures
        0 <= declaring(ls, name) <= ls.len(),
        forall|i: int| 0 <= i < declaring(ls, name) ==> !declares(#[trigger] ls[i], name),
        declaring(ls, name) < ls.len() ==> declares(ls[declaring(ls, name)], name),
    decreases ls.len(),
{
    if ls.len() > 0 && !declares(ls[0], name) {
        let t = ls.skip(1);
        lemma_declaring(t, name);
        assert forall|i: int| 0 <= i < declaring(ls, name) implies !declares(
            #[trigger] ls[i],
            name,
        ) by {
            if i > 0 {
                assert(ls[i] == t[i - 1]);
            }
        }
    }
}

proof fn lemma_declaring_unique(ls: Seq<Seq<char>>, name: Seq<char>, n: int)
    requires
        0 <= n <= ls.len(),
        forall|i: int| 0 <= i < n ==> !declares(#[trigger] ls[i], name),
        n < ls.len() ==> declares(ls[n], name),
    ensures
        declaring(ls, name) == n,
{
    lemma_declaring(ls, name);
    let m = declaring(ls, name);
    if m < n {
        assert(!declares(ls[m], name));
    } else if n < m {
        assert(!declares(ls[n], name));
    }
}

fn find_in(ls: &Vec<String>, name: &str) -> (r: usize)
    ensures
        r == declaring(text::views(ls@), name@),
        r <= ls@.len(),
{
    let mut i: usize = 0;
    while i < ls.len() && !declares_name(ls[i].as_str(), name)
        invariant
            i <= ls.len(),
            forall|j: int| 0 <= j < i ==> !declares(#[trigger] text::views(ls@)[j], name@),
        decreases ls.len() - i,
    {
        i += 1;
    }
    proof {
        lemma_declaring_unique(text::views(ls@), name@, i as int);
    }
    i
}

/// Index of the line that declares the monitor value of `name`.
///
/// The catch-all `monitor=,preferred,auto,auto` is no match for a named output,
/// and an output without a name is declared nowhere.
pub fn find_monitor_line(text: &str, name: &str) -> (r: Option<usize>)
    ensures
        r is Some <==> name@.len() > 0 && declaring(text::lines_of(text@), name@) < text::lines_of(
            text@,
        ).len(),
        r matches Some(i) ==> i == declaring(text::lines_of(text@), name@),
{
    if name.is_empty() {
        return None;
    }
    let ls = text::lines(text);
    let i = find_in(&ls, name);
    if i < ls.len() {
        Some(i)
    } else {
        None
    }
}

/// The configured `monitor=` value for `name`, where the file declares one.
pub fn configured_line(text: &str, name: &str) -> (r: Option<String>)
    ensures
        r is Some <==> configured_in(text@, name@) is Some,
        r matches Some(v) ==> configured_in(text@, name@) == Some(v@),
{
    match find_monitor_line(text, name) {
        Some(i) => {
            let ls = text::lines(text);
            assert(text::views(ls@)[i as int] == ls@[i as int]@);
            monitor_value(ls[i].as_str())
        },
        None => None,
    }
}

/// `text` with the `monitor=` line of `name` set to `value`, or with a new line
/// behind it where the file declares none.
///
/// Only that line changes: its indentation, its comment, its ending and every other
/// line stay as they are, and the result ends at a line feed.
pub fn upsert_monitor_line(text: &str, name: &str, value: &str) -> (r: String)
    ensures
        r@ == upserted(text@, name@, value@),
{
    match find_monitor_line(text, name) {
        Some(i) => {
            let file = text::chars_of(text);
            let (start, end) = text::line_span(&file, i);
            let declared = text::text_between(&file, start, end);
            let v = text::chars_of(declared.as_str());
            assert(v@.skip(0) =~= v@);
            let n = text::skip_white(&v, 0);
            let mut line = text::text_between(&v, 0, n);
            assert(line@ =~= indent_of(declared@));
            let (_, comment) = split_comment(declared.as_str());
            line.push_str("monitor=");
            line.push_str(value);
            if !comment.as_str().is_empty() {
                line.push_str("  ");
                line.push_str(comment.as_str());
            }
            assert(line@ == redeclared(declared@, value@));
            let mut out = text::text_between(&file, 0, start);
            out.push_str(line.as_str());
            out.push_str(text::text_between(&file, end, file.len()).as_str());
            assert(out@ =~= text@.take(start as int) + redeclared(declared@, value@) + text@.skip(
                end as int,
            ));
            let whole = text::chars_of(out.as_str());
            if whole.len() == 0 || whole[whole.len() - 1] != '\n' {
                out.push('\n');
            }
            out
        },
        None => {
            let mut out = text.to_owned();
            let v = text::chars_of(text);
            if v.len() > 0 {
                if v[v.len() - 1] != '\n' {
                    out.push('\n');
                }
                out.push('\n');
            }
            assert(out@ =~= text@ + gap_after(text@));
            out.push_str(NOTE_FIRST);
            out.push('\n');
            out.push_str(NOTE_SECOND);
            out.push('\n');
            out.push_str("monitor=");
            out.push_str(value);
            out.push('\n');
            assert(out@ =~= upserted(text@, name@, value@));
            out
        },
    }
}

// ---------------------------------------------------------------------------
// Laws of the file editing
// ---------------------------------------------------------------------------

/// Whether `value` can stand behind `monitor=` as the value of `name`: it is
/// one line without a comment, it is trimmed, and `name` is its first field.
pub open spec fn is_value_of(value: Seq<char>, name: Seq<char>) -> bool {
    &&& name.len() > 0
    &&& fields_of(value)[0] == name
    &&& !value.contains('#')
    &&& !value.contains('\n')
    &&& text::trimmed(value) == value
}

/// White space before text that starts without it is what a leading trim drops.
proof fn lemma_trim_indent(indent: Seq<char>, t: Seq<char>)
    requires
        forall|i: int| 0 <= i < indent.len() ==> text::is_white(#[trigger] indent[i]),
        t.len() > 0 ==> !text::is_white(t[0]),
    ensures
        text::trimmed_start(indent + t) == t,
    decreases indent.len(),
{
    let s = indent + t;
    if indent.len() == 0 {
        assert(s =~= t);
    } else {
        assert(s[0] == indent[0]);
        assert(s.skip(1) =~= indent.skip(1) + t);
        lemma_trim_indent(indent.skip(1), t);
    }
}

proof fn lemma_trim_tail(t: Seq<char>, tail: Seq<char>)
    requires
        forall|i: int| 0 <= i < tail.len() ==> text::is_white(#[trigger] tail[i]),
    ensures
        text::trimmed_end(t + tail) == text::trimmed_end(t),
    decreases tail.len(),
{
    let s = t + tail;
    if tail.len() == 0 {
        assert(s =~= t);
    } else {
        assert(s.last() == tail.last());
        assert(s.drop_last() =~= t + tail.drop_last());
        lemma_trim_tail(t, tail.drop_last());
    }
}

/// Trailing white space changes nothing of what trimming leaves.
proof fn lemma_trimmed_tail(t: Seq<char>, tail: Seq<char>)
    requires
        forall|i: int| 0 <= i < tail.len() ==> text::is_white(#[trigger] tail[i]),
    ensures
        text::trimmed(t + tail) == text::trimmed(t),
        text::trimmed_start(t).len() > 0 ==> text::trimmed_start(t + tail) == text::trimmed_start(t)
            + tail,
        text::trimmed_start(t).len() == 0 ==> text::trimmed_start(t + tail).len() == 0,
    decreases t.len(),
{
    let s = t + tail;
    if t.len() == 0 {
        assert(s =~= tail);
        text::lemma_trimmed_start(tail);
        let k = text::trimmed_start(tail);
        if k.len() > 0 {
            assert(k[0] == tail[tail.len() - k.len()]);
        }
        assert(k =~= Seq::empty());
        assert(text::trimmed(t) =~= Seq::empty());
    } else if text::is_white(t[0]) {
        assert(s.skip(1) =~= t.skip(1) + tail);
        lemma_trimmed_tail(t.skip(1), tail);
    } else {
        lemma_trim_tail(t, tail);
    }
}

/// A declaration reads back as its value, whatever white space stands before
/// `monitor=` and whatever comment behind it.
proof fn lemma_declaration(indent: Seq<char>, value: Seq<char>, tail: Seq<char>)
    requires
        forall|i: int| 0 <= i < indent.len() ==> text::is_white(#[trigger] indent[i]),
        !value.contains('#'),
        text::trimmed(value) == value,
        tail.len() == 0 || (tail.len() > 2 && tail[0] == ' ' && tail[1] == ' ' && tail[2] == '#'),
    ensures
        value_on(indent + "monitor="@ + value + tail) == Some(value),
{
    reveal_strlit("monitor=");
    reveal_strlit("monitor");
    reveal_strlit("=");
    let line = indent + "monitor="@ + value + tail;
    let head = indent + "monitor="@ + value;
    let pad = if tail.len() == 0 {
        Seq::<char>::empty()
    } else {
        tail.take(2)
    };
    let code = head + pad;
    assert(!indent.contains('#')) by {
        if indent.contains('#') {
            let i = choose|i: int| 0 <= i < indent.len() && indent[i] == '#';
            assert(text::is_white(indent[i]));
        }
    }
    assert forall|i: int| 0 <= i < code.len() implies #[trigger] line[i] != '#' by {
        if i < indent.len() {
            assert(line[i] == indent[i]);
            assert(indent.contains(indent[i]));
        } else if i < indent.len() + 8 {
            assert(line[i] == "monitor="@[i - indent.len()]);
        } else if i < head.len() {
            let j = i - indent.len() - 8;
            assert(line[i] == value[j]);
            assert(value.contains(value[j]));
        } else {
            assert(line[i] == tail[i - head.len()]);
        }
    }
    if tail.len() > 0 {
        assert(line[code.len() as int] == tail[2]);
    } else {
        assert(line =~= code);
    }
    text::lemma_first_of_unique(line, '#', code.len() as int);
    assert(code_of(line) =~= code);
    let body = "monitor="@ + value + pad;
    assert(code =~= indent + body);
    assert(body[0] == 'm');
    lemma_trim_indent(indent, body);
    assert(text::trimmed_start(code_of(line)) == body);
    assert(body.subrange(0, 7) =~= "monitor"@);
    let rest = body.skip(7);
    assert(rest =~= "="@ + value + pad);
    assert(rest[0] == '=');
    assert(text::trimmed_start(rest) == rest);
    assert(rest.subrange(0, 1) =~= "="@);
    assert(rest.skip(1) =~= value + pad);
    lemma_trimmed_tail(value, pad);
}

/// A carriage return at the end of a line changes nothing of what it declares.
proof fn lemma_value_without_cr(line: Seq<char>)
    ensures
        value_on(text::without_cr(line)) == value_on(line),
{
    if line.len() > 0 && line.last() == '\r' {
        let m = line.drop_last();
        let cr = seq!['\r'];
        assert(line =~= m + cr);
        text::lemma_first_of(m, '#');
        text::lemma_first_of(line, '#');
        let n = text::first_of(m, '#');
        if n < m.len() {
            assert forall|i: int| 0 <= i < n implies #[trigger] line[i] != '#' by {
                assert(line[i] == m[i]);
            }
            text::lemma_first_of_unique(line, '#', n);
            assert(code_of(line) =~= code_of(m));
        } else {
            assert forall|i: int| 0 <= i < line.len() implies #[trigger] line[i] != '#' by {
                if i < m.len() {
                    assert(line[i] == m[i]);
                }
            }
            text::lemma_first_of_unique(line, '#', line.len() as int);
            assert(code_of(line) =~= line);
            assert(code_of(m) =~= m);
            lemma_trimmed_tail(m, cr);
            let a = text::trimmed_start(m);
            let b = text::trimmed_start(line);
            reveal_strlit("monitor");
            reveal_strlit("=");
            if a.len() > 0 {
                assert(b == a + cr);
                lemma_prefix_cr(a, "monitor"@);
                if text::occurs_at(a, "monitor"@, 0) {
                    let p = a.skip(7);
                    assert(b.skip(7) =~= p + cr);
                    lemma_trimmed_tail(p, cr);
                    let x = text::trimmed_start(p);
                    let y = text::trimmed_start(p + cr);
                    if x.len() > 0 {
                        lemma_prefix_cr(x, "="@);
                        if text::occurs_at(x, "="@, 0) {
                            assert(y.skip(1) =~= x.skip(1) + cr);
                            lemma_trimmed_tail(x.skip(1), cr);
                        }
                    }
                }
            }
        }
    }
}

proof fn lemma_prefix_cr(s: Seq<char>, prefix: Seq<char>)
    requires
        !prefix.contains('\r'),
    ensures
        text::occurs_at(s + seq!['\r'], prefix, 0) == text::occurs_at(s, prefix, 0),
{
    let t = s + seq!['\r'];
    if prefix.len() <= s.len() {
        assert(t.subrange(0, prefix.len() as int) =~= s.subrange(0, prefix.len() as int));
    } else if text::occurs_at(t, prefix, 0) {
        assert(t.subrange(0, prefix.len() as int)[s.len() as int] == '\r');
        assert(prefix[s.len() as int] == '\r');
    }
}

proof fn lemma_redeclared(line: Seq<char>, value: Seq<char>)
    requires
        !line.contains('\n'),
        !value.contains('\n'),
        !value.contains('#'),
        text::trimmed(value) == value,
    ensures
        !redeclared(line, value).contains('\n'),
        value_on(redeclared(line, value)) == Some(value),
{
    reveal_strlit("monitor=");
    reveal_strlit("  ");
    let indent = indent_of(line);
    let comment = comment_of(line);
    text::lemma_trimmed_start(line);
    text::lemma_first_of(line, '#');
    assert forall|i: int| 0 <= i < indent.len() implies text::is_white(#[trigger] indent[i]) by {
        assert(indent[i] == line[i]);
    }
    let head = indent + "monitor="@ + value;
    let tail = if comment.len() == 0 {
        Seq::<char>::empty()
    } else {
        "  "@ + comment
    };
    let out = redeclared(line, value);
    assert(out =~= head + tail);
    if comment.len() > 0 {
        assert(tail[2] == comment[0]);
    }
    lemma_declaration(indent, value, tail);
    assert forall|i: int| 0 <= i < out.len() implies out[i] != '\n' by {
        if i < indent.len() {
            assert(out[i] == line[i]);
            assert(line.contains(line[i]));
        } else if i < indent.len() + 8 {
            assert(out[i] == "monitor="@[i - indent.len()]);
        } else if i < head.len() {
            let j = i - indent.len() - 8;
            assert(out[i] == value[j]);
            assert(value.contains(value[j]));
        } else if i < head.len() + 2 {
            assert(out[i] == "  "@[i - head.len()]);
        } else {
            let j = i - head.len() - 2;
            assert(out[i] == comment[j]);
            assert(comment[j] == line[j + text::first_of(line, '#')]);
            assert(line.contains(comment[j]));
        }
    }
}

proof fn lemma_no_value(line: Seq<char>)
    requires
        line.len() == 0 || line[0] == '#',
    ensures
        value_on(line) is None,
{
    reveal_strlit("monitor");
    assert(text::first_of(line, '#') == 0);
    assert(code_of(line) =~= Seq::empty());
    assert(text::trimmed_start(Seq::<char>::empty()) =~= Seq::empty());
}

/// The lines before an appended declaration declare what the file declared.
proof fn lemma_lines_before(file: Seq<char>)
    ensures
        ({
            let a = text::lines_of(file);
            let b = text::lines_of(file + gap_after(file));
            &&& a.len() <= b.len()
            &&& forall|i: int| 0 <= i < a.len() ==> value_on(#[trigger] b[i]) == value_on(a[i])
            &&& forall|i: int| a.len() <= i < b.len() ==> value_on(#[trigger] b[i]) is None
        }),
        file.len() > 0 ==> (file + gap_after(file)).last() == '\n',
{
    let a = text::lines_of(file);
    let whole = file + gap_after(file);
    let b = text::lines_of(whole);
    if file.len() == 0 {
        assert(whole =~= file);
    } else {
        let nl = Seq::<char>::empty().push('\n');
        assert(!Seq::<char>::empty().contains('\n'));
        text::lemma_lines_one(Seq::empty());
        let last = seq![Seq::<char>::empty()];
        assert(text::lines_of(nl) =~= last);
        lemma_no_value(Seq::empty());
        if file.last() == '\n' {
            assert(whole =~= file + nl);
            text::lemma_lines_concat(file, nl);
            assert(b =~= a + last);
        } else {
            let closed = file.push('\n');
            text::lemma_lines_close(file);
            assert(whole =~= closed + nl);
            text::lemma_lines_concat(closed, nl);
            lemma_value_without_cr(a.last());
            let c = text::lines_of(closed);
            assert(b =~= c + last);
            assert forall|i: int| 0 <= i < a.len() implies value_on(#[trigger] b[i]) == value_on(
                a[i],
            ) by {
                assert(b[i] == c[i]);
            }
        }
    }
}

/// Closing the last line changes nothing of what the lines declare.
proof fn lemma_closed_lines(s: Seq<char>)
    requires
        s.len() > 0,
    ensures
        ({
            let a = text::lines_of(s);
            let b = text::lines_of(text::closed_line(s));
            &&& b.len() == a.len()
            &&& forall|i: int| 0 <= i < a.len() ==> value_on(#[trigger] b[i]) == value_on(a[i])
        }),
{
    if s.last() != '\n' {
        text::lemma_lines_close(s);
        lemma_value_without_cr(text::lines_of(s).last());
    }
}

/// The lines of a text of which the line `n` was replaced, its ending kept.
proof fn lemma_replaced_line(file: Seq<char>, n: int, line: Seq<char>)
    requires
        0 <= n < text::lines_of(file).len(),
        line.len() > 0,
        !line.contains('\n'),
    ensures
        ({
            let a = text::lines_of(file);
            let start = text::line_start(file, n);
            let c = text::lines_of(file.take(start) + line + file.skip(start + a[n].len()));
            &&& c.len() == a.len()
            &&& value_on(c[n]) == value_on(line)
            &&& forall|i: int| 0 <= i < a.len() && i != n ==> #[trigger] c[i] == a[i]
        }),
{
    let a = text::lines_of(file);
    let start = text::line_start(file, n);
    text::lemma_line_start(file, n);
    text::lemma_lines_parts(file);
    let head = file.take(start);
    let tail = file.skip(start);
    let end = a[n].len() as int;
    let rest = tail.skip(end);
    let fresh = line + rest;
    assert(file.skip(start + end) =~= rest);
    assert(head + line + rest =~= head + fresh);
    if start > 0 {
        assert(head.last() == file[start - 1]);
    }
    text::lemma_lines_concat(head, fresh);
    let ls = text::lines_of(tail);
    assert(ls == a.skip(n));
    assert(ls[0] == a[n]);
    assert(tail.take(end) =~= a[n]);
    assert(tail =~= a[n] + rest);
    lemma_first_line(a[n], rest);
    lemma_first_line(line, rest);
    let c = text::lines_of(head + line + rest);
    let f = text::lines_of(fresh);
    assert(c =~= a.take(n) + f);
    assert(f.skip(1) == ls.skip(1));
    assert(c[n] == f[0]);
    assert(f.len() == ls.len());
    assert forall|i: int| 0 <= i < a.len() && i != n implies #[trigger] c[i] == a[i] by {
        if i > n {
            assert(c[i] == f[i - n]);
            assert(f.skip(1)[i - n - 1] == ls.skip(1)[i - n - 1]);
        }
    }
}

/// A line and what follows it: the end of the text or of the line.
proof fn lemma_first_line(line: Seq<char>, rest: Seq<char>)
    requires
        !line.contains('\n'),
        line.len() + rest.len() > 0,
        rest.len() == 0 || rest[0] == '\n' || (rest.len() > 1 && rest[0] == '\r' && rest[1] == '\n'),
    ensures
        ({
            let ls = text::lines_of(line + rest);
            &&& ls.len() > 0
            &&& value_on(ls[0]) == value_on(line)
            &&& ls.skip(1) == text::lines_of(
                if rest.len() == 0 {
                    rest
                } else if rest[0] == '\n' {
                    rest.skip(1)
                } else {
                    rest.skip(2)
                },
            )
        }),
{
    let s = line + rest;
    let ls = text::lines_of(s);
    assert forall|i: int| 0 <= i < line.len() implies #[trigger] s[i] != '\n' by {
        assert(line.contains(line[i]));
    }
    if rest.len() == 0 {
        assert(s =~= line);
        text::lemma_first_of_unique(s, '\n', s.len() as int);
        assert(ls == seq![s]);
        assert(ls.skip(1) =~= Seq::empty());
    } else {
        let n = if rest[0] == '\n' {
            line.len() as int
        } else {
            line.len() as int + 1
        };
        assert(s[n] == '\n');
        text::lemma_first_of_unique(s, '\n', n);
        let k = if rest[0] == '\n' {
            1int
        } else {
            2int
        };
        assert(s.skip(n + 1) =~= rest.skip(k));
        assert(ls.skip(1) =~= text::lines_of(rest.skip(k)));
        if k == 1 {
            assert(s.take(n) =~= line);
            lemma_value_without_cr(line);
        } else {
            assert(s.take(n) =~= line.push('\r'));
            assert(text::without_cr(s.take(n)) =~= line);
        }
    }
}

/// The lines of a file after `upserted`, as far as they declare anything: those
/// of the file, with `value` where `name` was declared or behind them all.
proof fn lemma_upserted_lines(file: Seq<char>, name: Seq<char>, value: Seq<char>)
    requires
        is_value_of(value, name),
    ensures
        ({
            let a = text::lines_of(file);
            let b = text::lines_of(upserted(file, name, value));
            let n = declaring(a, name);
            if n < a.len() {
                &&& b.len() == a.len()
                &&& value_on(b[n]) == Some(value)
                &&& forall|i: int|
                    0 <= i < a.len() && i != n ==> value_on(#[trigger] b[i]) == value_on(a[i])
            } else {
                &&& b.len() > a.len()
                &&& value_on(b.last()) == Some(value)
                &&& forall|i: int| 0 <= i < a.len() ==> value_on(#[trigger] b[i]) == value_on(a[i])
                &&& forall|i: int| a.len() <= i < b.len() - 1 ==> value_on(#[trigger] b[i]) is None
            }
        }),
{
    let a = text::lines_of(file);
    let up = upserted(file, name, value);
    let b = text::lines_of(up);
    let n = declaring(a, name);
    lemma_declaring(a, name);
    text::lemma_lines_parts(file);
    if n < a.len() {
        lemma_redeclared(a[n], value);
        lemma_replaced_line(file, n, redeclared(a[n], value));
        let whole = file.take(text::line_start(file, n)) + redeclared(a[n], value) + file.skip(
            text::line_start(file, n) + a[n].len(),
        );
        let c = text::lines_of(whole);
        lemma_closed_lines(whole);
        assert forall|i: int| 0 <= i < a.len() implies value_on(#[trigger] b[i]) == value_on(c[i]) by {}
    } else {
        lemma_lines_before(file);
        let before = file + gap_after(file);
        let l = text::lines_of(before);
        reveal_strlit("# Written by tv-shell-panel (Devices > Display & Audio). Edit freely — the");
        reveal_strlit("# panel only ever rewrites this line's resolution and vrr fields.");
        reveal_strlit("monitor=");
        let one = NOTE_FIRST@;
        let two = NOTE_SECOND@;
        let three = "monitor="@ + value;
        assert forall|i: int| 0 <= i < three.len() implies three[i] != '\n' by {
            if i >= 8 {
                assert(three[i] == value[i - 8]);
                assert(value.contains(value[i - 8]));
            }
        }
        text::lemma_lines_one(one);
        text::lemma_lines_one(two);
        text::lemma_lines_one(three);
        text::lemma_lines_concat(two.push('\n'), three.push('\n'));
        text::lemma_lines_concat(one.push('\n'), two.push('\n') + three.push('\n'));
        let notes = one.push('\n') + (two.push('\n') + three.push('\n'));
        text::lemma_lines_concat(before, notes);
        assert(up =~= before + notes);
        let x = text::without_cr(one);
        let y = text::without_cr(two);
        let z = text::without_cr(three);
        assert(b =~= l + seq![x, y, z]);
        lemma_no_value(one);
        lemma_no_value(two);
        lemma_value_without_cr(one);
        lemma_value_without_cr(two);
        lemma_value_without_cr(three);
        lemma_declaration(Seq::empty(), value, Seq::empty());
        assert(Seq::<char>::empty() + "monitor="@ + value + Seq::<char>::empty() =~= three);
        assert(b.last() == z);
        assert forall|i: int| 0 <= i < a.len() implies value_on(#[trigger] b[i]) == value_on(a[i]) by {
            assert(b[i] == l[i]);
        }
        assert forall|i: int| a.len() <= i < b.len() - 1 implies value_on(#[trigger] b[i]) is None by {
            if i < l.len() {
                assert(b[i] == l[i]);
            }
        }
    }
}

/// `upsert_monitor_line` changes one line at most. What stands before the line that
/// declares the output stays as it is, and so does what stands behind it, its own
/// ending first; a file that declares it nowhere stays whole. Only a last line feed
/// is added where there is none.
pub proof fn law_upsert_changes_one_line(file: Seq<char>, name: Seq<char>, value: Seq<char>)
    ensures
        ({
            let up = upserted(file, name, value);
            let ls = text::lines_of(file);
            let i = declaring(ls, name);
            if name.len() > 0 && i < ls.len() {
                let start = text::line_start(file, i);
                let end = start + ls[i].len();
                let new = redeclared(ls[i], value);
                &&& 0 <= start <= end <= file.len()
                &&& file.subrange(start, end) == ls[i]
                &&& start > 0 ==> file[start - 1] == '\n'
                &&& end < file.len() ==> file[end] == '\n' || file[end] == '\r'
                &&& up.take(start) == file.take(start)
                &&& up.subrange(start, start + new.len()) == new
                &&& end < file.len() && file.last() == '\n' ==> up.skip(start + new.len())
                    == file.skip(end)
                &&& end < file.len() && file.last() != '\n' ==> up.skip(start + new.len())
                    == file.skip(end).push('\n')
            } else {
                up.take(file.len() as int) == file
            }
        }),
        upserted(file, name, value).last() == '\n',
{
    let up = upserted(file, name, value);
    let ls = text::lines_of(file);
    let i = declaring(ls, name);
    lemma_declaring(ls, name);
    if name.len() > 0 && i < ls.len() {
        text::lemma_line_start(file, i);
        let start = text::line_start(file, i);
        let end = start + ls[i].len();
        let new = redeclared(ls[i], value);
        let whole = file.take(start) + new + file.skip(end);
        assert(up.take(start) =~= file.take(start));
        assert(up.subrange(start, start + new.len()) =~= new);
        if end < file.len() {
            assert(whole.last() == file.last());
            if file.last() == '\n' {
                assert(up.skip(start + new.len()) =~= file.skip(end));
            } else {
                assert(up.skip(start + new.len()) =~= file.skip(end).push('\n'));
            }
        }
    } else {
        assert(up.take(file.len() as int) =~= file);
        assert(up.last() == '\n');
    }
}

/// What `upsert_monitor_line` wrote for an output, `configured_line` reads.
pub proof fn law_upsert_reads_back(file: Seq<char>, name: Seq<char>, value: Seq<char>)
    requires
        is_value_of(value, name),
    ensures
        configured_in(upserted(file, name, value), name) == Some(value),
{
    lemma_upserted_lines(file, name, value);
    let a = text::lines_of(file);
    let b = text::lines_of(upserted(file, name, value));
    let n = declaring(a, name);
    lemma_declaring(a, name);
    let m = if n < a.len() {
        n
    } else {
        b.len() - 1
    };
    assert forall|i: int| 0 <= i < m implies !declares(#[trigger] b[i], name) by {
        if i < a.len() {
            assert(value_on(b[i]) == value_on(a[i]));
            assert(!declares(a[i], name));
        }
    }
    lemma_declaring_unique(b, name, m);
}

/// `upsert_monitor_line` leaves what the file declares for every other output.
pub proof fn law_upsert_keeps_others(
    file: Seq<char>,
    name: Seq<char>,
    value: Seq<char>,
    other: Seq<char>,
)
    requires
        is_value_of(value, name),
        other != name,
    ensures
        configured_in(upserted(file, name, value), other) == configured_in(file, other),
{
    lemma_upserted_lines(file, name, value);
    let a = text::lines_of(file);
    let b = text::lines_of(upserted(file, name, value));
    let n = declaring(a, name);
    let k = declaring(a, other);
    lemma_declaring(a, name);
    lemma_declaring(a, other);
    let m = if k < a.len() {
        k
    } else {
        b.len() as int
    };
    assert forall|i: int| 0 <= i < m implies !declares(#[trigger] b[i], other) by {
        if i < a.len() && i != n {
            assert(value_on(b[i]) == value_on(a[i]));
            assert(!declares(a[i], other));
        }
    }
    if k < a.len() {
        assert(k != n);
        assert(value_on(b[k]) == value_on(a[k]));
    }
    lemma_declaring_unique(b, other, m);
}

/// What a file declares for an output can stand in it as that output's value.
pub proof fn lemma_configured_value(file: Seq<char>, name: Seq<char>)
    requires
        configured_in(file, name) is Some,
    ensures
        is_value_of(configured_in(file, name)->0, name),
{
    let ls = text::lines_of(file);
    let i = declaring(ls, name);
    lemma_declaring(ls, name);
    text::lemma_lines_parts(file);
    let line = ls[i];
    let value = configured_in(file, name)->0;
    let code = code_of(line);
    text::lemma_first_of(line, '#');
    let a = text::trimmed_start(code);
    text::lemma_trimmed_start(code);
    reveal_strlit("monitor");
    reveal_strlit("=");
    let p = a.skip(7);
    let b = text::trimmed_start(p);
    text::lemma_trimmed_start(p);
    let q = b.skip(1);
    text::lemma_trimmed(q);
    text::lemma_trimmed_fixed(text::trimmed(q));
    assert(value == text::trimmed(q));
    assert forall|c: char| q.contains(c) implies line.contains(c) && c != '#' by {
        let k = choose|k: int| 0 <= k < q.len() && q[k] == c;
        let at = k + 1 + (p.len() - b.len()) + 7 + (code.len() - a.len());
        assert(b[k + 1] == c);
        assert(p[k + 1 + (p.len() - b.len())] == c);
        assert(a[k + 1 + (p.len() - b.len()) + 7] == c);
        assert(code[at] == c);
        assert(line[at] == c);
    }
}

proof fn lemma_joined_ends(parts: Seq<Seq<char>>)
    requires
        parts.len() >= 2,
        parts[0].len() > 0,
        forall|i: int| 0 <= i < parts.len() ==> is_field(#[trigger] parts[i]),
    ensures
        text::trimmed(text::joined(parts, ","@)) == text::joined(parts, ","@),
{
    reveal_strlit(",");
    let all = text::joined(parts, ","@);
    text::lemma_joined_front(parts, ","@);
    text::lemma_trimmed(parts[0]);
    text::lemma_trimmed(parts.last());
    assert(is_field(parts[0]));
    assert(is_field(parts.last()));
    assert(all[0] == parts[0][0]);
    let front = text::joined(parts.drop_last(), ","@);
    assert(all == front + ","@ + parts.last());
    if parts.last().len() > 0 {
        assert(all.last() == parts.last().last());
    } else {
        assert(all.last() == ',');
    }
    text::lemma_trimmed_fixed(all);
}

/// A value with its `vrr` argument replaced is a value of the same output.
pub proof fn lemma_rewritten_vrr_is_value(line: Seq<char>, name: Seq<char>, vrr: u8)
    requires
        is_value_of(line, name),
        fields_of(line).len() >= 4,
    ensures
        is_value_of(text::joined(with_vrr(fields_of(line), vrr as nat), ","@), name),
{
    let f = fields_of(line);
    let g = with_vrr(f, vrr as nat);
    let next = text::joined(g, ","@);
    lemma_fields(line);
    lemma_with_vrr(f, vrr as nat);
    lemma_fields_joined(g);
    lemma_vrr_field(f, 4);
    assert forall|c: char, i: int| 0 <= i < f.len() && (#[trigger] f[i]).contains(c) implies #[trigger] line.contains(
        c,
    ) by {
        text::lemma_trimmed(text::split_on(line, ',')[i]);
        lemma_split_within(line, ',', i, c);
    }
    assert forall|c: char| c == '#' || c == '\n' implies !(#[trigger] next.contains(c)) by {
        reveal_strlit("vrr");
        text::lemma_dec_plain(vrr as nat, c);
        assert forall|i: int| 0 <= i < g.len() implies !(#[trigger] g[i]).contains(c) by {
            if i < f.len() && g[i] == f[i] {
                assert(!line.contains(c));
                if f[i].contains(c) {
                    assert(line.contains(c));
                }
            }
        }
        text::lemma_joined_without(g, c);
    }
    lemma_joined_ends(g);
}

/// The spelling of a mode can stand as a field, and holds none of the characters
/// that end a value.
pub proof fn lemma_mode_is_field(mode: Mode)
    requires
        mode.refresh.wf(),
    ensures
        is_field(mode.keyword()),
        !mode.keyword().contains('#'),
        !mode.keyword().contains('\n'),
{
    reveal_strlit("x");
    reveal_strlit("@");
    let w = text::dec(mode.width as nat);
    let h = text::dec(mode.height as nat);
    let k = mode.keyword();
    let rate = mode.refresh.keyword@;
    text::lemma_dec(mode.width as nat);
    assert(w.len() > 0);
    assert forall|c: char|
        c == ',' || c == '#' || c == '\n' implies !(#[trigger] k.contains(c)) by {
        text::lemma_dec_plain(mode.width as nat, c);
        text::lemma_dec_plain(mode.height as nat, c);
        if k.contains(c) {
            let i = choose|i: int| 0 <= i < k.len() && k[i] == c;
            if i < w.len() {
                assert(w[i] == c);
            } else if i == w.len() {
                assert(k[i] == 'x');
            } else if i < w.len() + 1 + h.len() {
                assert(h[i - w.len() - 1] == c);
            } else if i == w.len() + 1 + h.len() {
                assert(k[i] == '@');
            } else {
                assert(rate[i - w.len() - h.len() - 2] == c);
            }
        }
    }
    assert(k[0] == w[0]);
    assert(k.last() == rate.last());
    text::lemma_trimmed_fixed(k);
}

/// What [`Mode::to_keyword`] spells, [`Mode::parse`] reads, where the rate reads as
/// it was; and a line that the mode was written into has that mode.
pub proof fn law_mode_reads_back(mode: Mode, line: Seq<char>)
    requires
        mode.width > 0,
        mode.height > 0,
        mode.refresh.wf(),
        fields_of(line).len() >= 2,
    ensures
        mode_parts(mode.keyword()) matches Some(p) && p.2 == mode.refresh.keyword@,
        mode_of(mode.keyword(), Some(mode.refresh)) == Some(mode),
        mode_on(
            text::joined(fields_of(line).update(1, mode.keyword()), ","@),
            Some(mode.refresh),
        ) == Some(mode),
{
    reveal_strlit("x");
    reveal_strlit("@");
    let w = text::dec(mode.width as nat);
    let h = text::dec(mode.height as nat);
    let rate = mode.refresh.keyword@;
    let k = mode.keyword();
    lemma_mode_is_field(mode);
    assert(k.last() == rate.last());
    assert(without_unit(text::trimmed(k)) == k);
    text::lemma_dec(mode.width as nat);
    text::lemma_dec(mode.height as nat);
    let size = w + "x"@ + h;
    assert forall|i: int| 0 <= i < size.len() implies #[trigger] k[i] != '@' by {
        if i < w.len() {
            assert(k[i] == w[i]);
        } else if i > w.len() {
            assert(k[i] == h[i - w.len() - 1]);
        }
    }
    text::lemma_first_of_unique(k, '@', size.len() as int);
    assert(k.take(size.len() as int) =~= size);
    assert(k.skip(size.len() as int + 1) =~= rate);
    assert forall|i: int| 0 <= i < w.len() implies #[trigger] size[i] != 'x' by {
        assert(size[i] == w[i]);
    }
    text::lemma_first_of_unique(size, 'x', w.len() as int);
    assert(size.take(w.len() as int) =~= w);
    assert(size.skip(w.len() as int + 1) =~= h);
    text::lemma_dec_plain(mode.width as nat, ',');
    text::lemma_dec_plain(mode.height as nat, ',');
    text::lemma_trimmed_fixed(rate);
    text::lemma_parsed_dec(mode.width as nat, 0xffff_ffff);
    text::lemma_parsed_dec(mode.height as nat, 0xffff_ffff);
    law_rewrite_mode(line, k);
}

/// A value with its mode replaced is a value of the same output.
pub proof fn lemma_rewritten_mode_is_value(line: Seq<char>, name: Seq<char>, mode: Mode)
    requires
        is_value_of(line, name),
        fields_of(line).len() >= 2,
        mode.refresh.wf(),
    ensures
        is_value_of(text::joined(fields_of(line).update(1, mode.keyword()), ","@), name),
{
    let f = fields_of(line);
    let g = f.update(1, mode.keyword());
    let next = text::joined(g, ","@);
    lemma_fields(line);
    lemma_mode_is_field(mode);
    lemma_fields_joined(g);
    assert forall|c: char, i: int| 0 <= i < f.len() && (#[trigger] f[i]).contains(c) implies #[trigger] line.contains(
        c,
    ) by {
        text::lemma_trimmed(text::split_on(line, ',')[i]);
        lemma_split_within(line, ',', i, c);
    }
    assert forall|c: char| c == '#' || c == '\n' implies !(#[trigger] next.contains(c)) by {
        assert forall|i: int| 0 <= i < g.len() implies !(#[trigger] g[i]).contains(c) by {
            if i != 1 {
                assert(g[i] == f[i]);
                assert(!line.contains(c));
                if f[i].contains(c) {
                    assert(line.contains(c));
                }
            }
        }
        text::lemma_joined_without(g, c);
    }
    lemma_joined_ends(g);
}

proof fn lemma_split_within(s: Seq<char>, sep: char, i: int, c: char)
    requires
        0 <= i < text::split_on(s, sep).len(),
        text::split_on(s, sep)[i].contains(c),
    ensures
        s.contains(c),
    decreases s.len(),
{
    let n = text::first_of(s, sep);
    text::lemma_first_of(s, sep);
    if n < s.len() {
        let rest = s.skip(n + 1);
        if i > 0 {
            assert(text::split_on(s, sep)[i] == text::split_on(rest, sep)[i - 1]);
            lemma_split_within(rest, sep, i - 1, c);
            let k = choose|k: int| 0 <= k < rest.len() && rest[k] == c;
            assert(s[k + n + 1] == c);
        } else {
            let head = s.take(n);
            assert(text::split_on(s, sep)[0] == head);
            let k = choose|k: int| 0 <= k < head.len() && head[k] == c;
            assert(s[k] == c);
        }
    }
}

// ---------------------------------------------------------------------------
// Laws of reading and listing
// ---------------------------------------------------------------------------

proof fn lemma_kept_order(p: Seq<usize>, modes: Seq<Mode>, close: Seq<Vec<bool>>)
    requires
        forall|i: int, j: int|
            0 <= i < j < p.len() ==> listed_before(
                modes,
                #[trigger] p[i] as int,
                #[trigger] p[j] as int,
            ),
    ensures
        ({
            let kept = without_repeats(p, modes, close);
            &&& forall|i: int| 0 <= i < kept.len() ==> p.contains(#[trigger] kept[i])
            &&& forall|i: int, j: int|
                0 <= i < j < kept.len() ==> listed_before(
                    modes,
                    #[trigger] kept[i] as int,
                    #[trigger] kept[j] as int,
                )
            &&& forall|k: int|
                0 <= k < p.len() ==> kept.contains(#[trigger] p[k]) || exists|i: int|
                    0 <= i < kept.len() && same_mode(
                        modes,
                        close,
                        #[trigger] kept[i] as int,
                        p[k] as int,
                    ) && listed_before(modes, kept[i] as int, p[k] as int)
        }),
    decreases p.len(),
{
    if p.len() > 0 {
        let rest = p.drop_last();
        let kept = without_repeats(p, modes, close);
        let before = without_repeats(rest, modes, close);
        assert forall|i: int, j: int| 0 <= i < j < rest.len() implies listed_before(
            modes,
            #[trigger] rest[i] as int,
            #[trigger] rest[j] as int,
        ) by {
            assert(rest[i] == p[i] && rest[j] == p[j]);
        }
        lemma_kept_order(rest, modes, close);
        assert forall|i: int| 0 <= i < kept.len() implies p.contains(#[trigger] kept[i]) && (i
            < before.len() ==> listed_before(modes, kept[i] as int, p.last() as int)) by {
            if i < before.len() {
                assert(rest.contains(before[i]));
                let k = choose|k: int| 0 <= k < rest.len() && rest[k] == before[i];
                assert(p[k] == before[i]);
                assert(listed_before(modes, p[k] as int, p[p.len() - 1] as int));
            } else {
                assert(p[p.len() - 1] == kept[i]);
            }
        }
        assert forall|k: int| 0 <= k < p.len() implies kept.contains(#[trigger] p[k]) || exists|i: int|
            0 <= i < kept.len() && same_mode(
                modes,
                close,
                #[trigger] kept[i] as int,
                p[k] as int,
            ) && listed_before(modes, kept[i] as int, p[k] as int) by {
            if k < p.len() - 1 {
                assert(p[k] == rest[k]);
                if before.contains(p[k]) {
                    let i = choose|i: int| 0 <= i < before.len() && before[i] == p[k];
                    assert(kept[i] == p[k]);
                } else {
                    let i = choose|i: int|
                        0 <= i < before.len() && same_mode(
                            modes,
                            close,
                            #[trigger] before[i] as int,
                            p[k] as int,
                        ) && listed_before(modes, before[i] as int, p[k] as int);
                    assert(kept[i] == before[i]);
                }
            } else if kept != before {
                assert(kept[kept.len() - 1] == p[k]);
            } else {
                let i = choose|i: int|
                    0 <= i < before.len() && same_mode(
                        modes,
                        close,
                        #[trigger] before[i] as int,
                        p.last() as int,
                    );
                assert(kept[i] == before[i]);
                assert(p.contains(kept[i]));
            }
        }
    }
}

/// Whether mode `k` is one of the modes `at`, or has the width and the height of one at a
/// close rate, and is slower, or as fast and reported later.
pub open spec fn stands_for(
    at: Seq<int>,
    modes: Seq<Mode>,
    close: Seq<Vec<bool>>,
    k: int,
) -> bool {
    exists|i: int|
        0 <= i < at.len() && ((#[trigger] at[i]) == k || (modes[at[i]].width == modes[k].width
            && modes[at[i]].height == modes[k].height && close[at[i]]@[k]
            && modes[at[i]].refresh.order >= modes[k].refresh.order && (modes[at[i]].refresh.order
            == modes[k].refresh.order ==> at[i] < k)))
}

/// Every entry of the picker is a reported mode, spelled as such, and marked exactly if
/// the output runs it: the same width and height, at a close rate. The entries come
/// largest first, then fastest, then widest, then as they were reported. No two of them have
/// one width and one height at close rates, and every reported mode is an entry, or has the
/// width and the height of one at a close rate. `at` says which mode each entry is.
pub proof fn law_picker_shows_every_mode_once(
    modes: Seq<Mode>,
    close: Seq<Vec<bool>>,
    current: Option<(u32, u32)>,
    current_close: Seq<bool>,
) -> (at: Seq<int>)
    requires
        modes.len() <= usize::MAX,
    ensures
        at.len() == picker(modes, close, current, current_close).len(),
        forall|i: int| 0 <= i < at.len() ==> 0 <= #[trigger] at[i] < modes.len(),
        forall|i: int|
            0 <= i < at.len() ==> {
                let mode = modes[#[trigger] at[i]];
                let entry = picker(modes, close, current, current_close)[i];
                &&& entry.value == text::dec(mode.width as nat) + "x"@ + text::dec(
                    mode.height as nat,
                ) + "@"@ + mode.refresh.keyword@
                &&& entry.label == text::dec(mode.width as nat) + " × "@ + text::dec(
                    mode.height as nat,
                ) + " @ "@ + mode.refresh.label@ + " Hz"@
                &&& entry.current <==> (current matches Some(c) && c.0 == mode.width && c.1
                    == mode.height && current_close[at[i]])
            },
        forall|i: int, j: int|
            0 <= i < j < at.len() ==> {
                let a = modes[#[trigger] at[i]];
                let b = modes[#[trigger] at[j]];
                &&& a.width * a.height >= b.width * b.height
                &&& a.width * a.height == b.width * b.height ==> a.refresh.order >= b.refresh.order
                &&& a.width * a.height == b.width * b.height && a.refresh.order == b.refresh.order
                    ==> a.width >= b.width
                &&& a.width == b.width && a.height == b.height && a.refresh.order
                    == b.refresh.order ==> at[i] < at[j]
                &&& !(a.width == b.width && a.height == b.height && close[at[i]]@[at[j]])
            },
        forall|k: int| 0 <= k < modes.len() ==> #[trigger] stands_for(at, modes, close, k),
{
    let p = listing(modes);
    law_modes_are_listed(modes);
    let kept = without_repeats(p, modes, close);
    lemma_kept_order(p, modes, close);
    law_picker_covers(p, modes, close);
    let at = Seq::new(kept.len(), |i: int| kept[i] as int);
    assert forall|i: int| 0 <= i < at.len() implies 0 <= #[trigger] at[i] < modes.len() by {
        assert(p.contains(kept[i]));
        let k = choose|k: int| 0 <= k < p.len() && p[k] == kept[i];
        assert(p[k] < modes.len());
    }
    assert forall|i: int, j: int| 0 <= i < j < at.len() implies {
        let a = modes[#[trigger] at[i]];
        let b = modes[#[trigger] at[j]];
        &&& a.width * a.height >= b.width * b.height
        &&& a.width * a.height == b.width * b.height ==> a.refresh.order >= b.refresh.order
        &&& a.width * a.height == b.width * b.height && a.refresh.order == b.refresh.order
            ==> a.width >= b.width
        &&& a.width == b.width && a.height == b.height && a.refresh.order == b.refresh.order
            ==> at[i] < at[j]
        &&& !(a.width == b.width && a.height == b.height && close[at[i]]@[at[j]])
    } by {
        assert(listed_before(modes, kept[i] as int, kept[j] as int));
        assert(!same_mode(modes, close, kept[i] as int, kept[j] as int));
    }
    assert forall|k: int| 0 <= k < modes.len() implies #[trigger] stands_for(
        at,
        modes,
        close,
        k,
    ) by {
        assert(p.contains(k as usize));
        let x = choose|x: int| 0 <= x < p.len() && p[x] == k as usize;
        if kept.contains(p[x]) {
            let i = choose|i: int| 0 <= i < kept.len() && kept[i] == p[x];
            assert(at[i] == k);
        } else {
            let i = choose|i: int|
                0 <= i < kept.len() && same_mode(
                    modes,
                    close,
                    #[trigger] kept[i] as int,
                    p[x] as int,
                ) && listed_before(modes, kept[i] as int, p[x] as int);
            assert(at[i] == kept[i]);
        }
    }
    at
}

/// The modes of an output are those of its spellings that are modes, in their order.
/// `at` says which spelling each of them is.
pub proof fn law_modes_are_the_readable_spellings(
    available: Seq<Seq<char>>,
    rates: Seq<Option<Rate>>,
) -> (at: Seq<int>)
    ensures
        at.len() == modes_of(available, rates).len(),
        forall|i: int|
            0 <= i < at.len() ==> 0 <= #[trigger] at[i] < available.len() && mode_of(
                available[at[i]],
                rates[at[i]],
            ) == Some(modes_of(available, rates)[i]),
        forall|i: int, j: int| 0 <= i < j < at.len() ==> #[trigger] at[i] < #[trigger] at[j],
        forall|k: int|
            0 <= k < available.len() && !at.contains(k) ==> mode_of(
                #[trigger] available[k],
                rates[k],
            ) is None,
    decreases available.len(),
{
    if available.len() == 0 {
        Seq::empty()
    } else {
        let rest = available.drop_last();
        let before = law_modes_are_the_readable_spellings(rest, rates);
        let n = available.len() - 1;
        let all = modes_of(available, rates);
        if mode_of(available[n], rates[n]) is Some {
            let at = before.push(n);
            assert forall|i: int| 0 <= i < at.len() implies 0 <= #[trigger] at[i] < available.len()
                && mode_of(available[at[i]], rates[at[i]]) == Some(all[i]) by {
                if i < before.len() {
                    assert(at[i] == before[i]);
                    assert(rest[before[i]] == available[before[i]]);
                }
            }
            assert forall|k: int| 0 <= k < available.len() && !at.contains(k) implies mode_of(
                #[trigger] available[k],
                rates[k],
            ) is None by {
                if k < n {
                    assert(rest[k] == available[k]);
                    if before.contains(k) {
                        let i = choose|i: int| 0 <= i < before.len() && before[i] == k;
                        assert(at[i] == k);
                    }
                } else {
                    assert(at[at.len() - 1] == k);
                }
            }
            at
        } else {
            assert forall|i: int| 0 <= i < before.len() implies 0 <= #[trigger] before[i]
                < available.len() && mode_of(available[before[i]], rates[before[i]]) == Some(
                all[i],
            ) by {
                assert(rest[before[i]] == available[before[i]]);
            }
            assert forall|k: int| 0 <= k < available.len() && !before.contains(k) implies mode_of(
                #[trigger] available[k],
                rates[k],
            ) is None by {
                if k < n {
                    assert(rest[k] == available[k]);
                }
            }
            before
        }
    }
}

/// A mode is a width and a height other than zero and a rate, with the unit behind it or
/// without. Its rate is spelled between the `@` and the unit.
pub proof fn law_modes_are_spelled_with_or_without_unit(
    width: u32,
    height: u32,
    digits: Seq<char>,
    rate: Rate,
    unit: Seq<char>,
)
    requires
        digits.len() > 0,
        forall|i: int|
            0 <= i < digits.len() ==> ('0' <= #[trigger] digits[i] <= '9' || digits[i] == '.'),
        unit.len() == 0 || unit == "Hz"@ || unit == "hz"@,
    ensures
        ({
            let s = text::dec(width as nat) + "x"@ + text::dec(height as nat) + "@"@ + digits + unit;
            &&& mode_parts(s) matches Some(p) && p.2 == digits
            &&& width > 0 && height > 0 ==> mode_of(s, Some(rate)) == Some(
                Mode { width, height, refresh: rate },
            )
            &&& width == 0 || height == 0 ==> mode_of(s, Some(rate)) is None
            &&& mode_of(s, None) is None
        }),
{
    reveal_strlit("x");
    reveal_strlit("@");
    reveal_strlit("Hz");
    reveal_strlit("hz");
    let w = text::dec(width as nat);
    let h = text::dec(height as nat);
    let k = w + "x"@ + h + "@"@ + digits;
    let s = k + unit;
    text::lemma_dec(width as nat);
    text::lemma_dec(height as nat);
    assert(s[0] == w[0]);
    if unit.len() == 0 {
        assert(s =~= k);
        assert(s.last() == digits.last());
    } else {
        assert(s.last() == 'z');
    }
    text::lemma_trimmed_fixed(s);
    assert(without_unit(s) =~= k) by {
        if unit.len() == 0 {
            assert(s.last() == digits.last());
        } else {
            assert(s[s.len() - 2] == unit[0] && s[s.len() - 1] == unit[1]);
            assert(s.take(s.len() - 2) =~= k);
        }
    }
    let size = w + "x"@ + h;
    assert forall|i: int| 0 <= i < size.len() implies #[trigger] k[i] != '@' by {
        if i < w.len() {
            assert(k[i] == w[i]);
        } else if i > w.len() {
            assert(k[i] == h[i - w.len() - 1]);
        }
    }
    text::lemma_first_of_unique(k, '@', size.len() as int);
    assert(k.take(size.len() as int) =~= size);
    assert(k.skip(size.len() as int + 1) =~= digits);
    assert forall|i: int| 0 <= i < w.len() implies #[trigger] size[i] != 'x' by {
        assert(size[i] == w[i]);
    }
    text::lemma_first_of_unique(size, 'x', w.len() as int);
    assert(size.take(w.len() as int) =~= w);
    assert(size.skip(w.len() as int + 1) =~= h);
    text::lemma_dec_plain(width as nat, ',');
    text::lemma_dec_plain(height as nat, ',');
    text::lemma_trimmed_fixed(digits);
    text::lemma_parsed_dec(width as nat, 0xffff_ffff);
    text::lemma_parsed_dec(height as nat, 0xffff_ffff);
}

/// What has no `@` is no mode, whatever rate is handed in.
pub proof fn law_no_rate_no_mode(s: Seq<char>, rate: Option<Rate>)
    requires
        !s.contains('@'),
    ensures
        mode_parts(s) is None,
        mode_of(s, rate) is None,
{
    let t = without_unit(text::trimmed(s));
    text::lemma_trimmed(s);
    text::lemma_first_of(t, '@');
    if t.contains('@') {
        let i = choose|i: int| 0 <= i < t.len() && t[i] == '@';
        assert(text::trimmed(s)[i] == '@');
        assert(text::trimmed(s).contains('@'));
        assert(false);
    }
}

/// The `vrr` argument of a line is the number behind the first `vrr` from the fifth field
/// on; a line without that word has none.
pub proof fn law_vrr_is_read_from_its_pair(f: Seq<Seq<char>>, k: int)
    requires
        4 <= k <= f.len(),
        forall|i: int| 4 <= i < k ==> #[trigger] f[i] != "vrr"@,
        k < f.len() ==> f[k] == "vrr"@,
    ensures
        k + 1 < f.len() ==> vrr_of(f) == text::parsed_uint(f[k + 1], 10, 255),
        k + 1 >= f.len() ==> vrr_of(f) is None,
{
    lemma_vrr_field_unique(f, 4, k);
}

/// A declaration is read with white space before it and around its `=`, and without the
/// note behind it. What stands behind a `#` is no declaration.
pub proof fn law_declarations_are_read(
    indent: Seq<char>,
    gap: Seq<char>,
    value: Seq<char>,
    note: Seq<char>,
)
    requires
        forall|i: int| 0 <= i < indent.len() ==> text::is_white(#[trigger] indent[i]),
        forall|i: int| 0 <= i < gap.len() ==> text::is_white(#[trigger] gap[i]),
        !value.contains('#'),
        note.len() == 0 || note[0] == '#',
    ensures
        value_on(indent + "monitor"@ + gap + "="@ + value + note) == Some(text::trimmed(value)),
        note.len() > 0 ==> value_on(indent + note) is None,
{
    reveal_strlit("monitor");
    reveal_strlit("=");
    let code = indent + "monitor"@ + gap + "="@ + value;
    let line = code + note;
    assert(line =~= indent + "monitor"@ + gap + "="@ + value + note);
    assert forall|i: int| 0 <= i < code.len() implies #[trigger] line[i] != '#' by {
        let a = indent.len();
        let b = a + 7;
        let c = b + gap.len();
        if i < a {
            assert(line[i] == indent[i] && text::is_white(indent[i]));
        } else if i < b {
            assert(line[i] == "monitor"@[i - a]);
        } else if i < c {
            assert(line[i] == gap[i - b] && text::is_white(gap[i - b]));
        } else if i > c {
            assert(line[i] == value[i - c - 1]);
            assert(value.contains(value[i - c - 1]));
        }
    }
    text::lemma_first_of_unique(line, '#', code.len() as int);
    assert(code_of(line) =~= code);
    let head = "monitor"@ + gap + "="@ + value;
    assert(code =~= indent + head);
    lemma_white_dropped(indent, head);
    assert(head.subrange(0, 7) =~= "monitor"@);
    let rest = head.skip(7);
    assert(rest =~= gap + ("="@ + value));
    lemma_white_dropped(gap, "="@ + value);
    assert(("="@ + value).subrange(0, 1) =~= "="@);
    assert(("="@ + value).skip(1) =~= value);
    if note.len() > 0 {
        let other = indent + note;
        assert forall|i: int| 0 <= i < indent.len() implies #[trigger] other[i] != '#' by {
            assert(other[i] == indent[i] && text::is_white(indent[i]));
        }
        text::lemma_first_of_unique(other, '#', indent.len() as int);
        assert(code_of(other) =~= indent + Seq::<char>::empty());
        lemma_white_dropped(indent, Seq::empty());
    }
}

proof fn lemma_white_dropped(white: Seq<char>, s: Seq<char>)
    requires
        forall|i: int| 0 <= i < white.len() ==> text::is_white(#[trigger] white[i]),
        s.len() > 0 ==> !text::is_white(s[0]),
    ensures
        text::trimmed_start(white + s) == s,
    decreases white.len(),
{
    let all = white + s;
    if white.len() > 0 {
        let t = white.skip(1);
        assert(all[0] == white[0]);
        assert forall|i: int| 0 <= i < t.len() implies text::is_white(#[trigger] t[i]) by {
            assert(t[i] == white[i + 1]);
        }
        lemma_white_dropped(t, s);
        assert(all.skip(1) =~= t + s);
    } else {
        assert(all =~= s);
    }
}

/// A line whose value is replaced keeps its indentation and its note, and nothing of its
/// former value.
pub proof fn law_rewritten_line_keeps_its_note(
    indent: Seq<char>,
    code: Seq<char>,
    note: Seq<char>,
    value: Seq<char>,
)
    requires
        forall|i: int| 0 <= i < indent.len() ==> text::is_white(#[trigger] indent[i]),
        code.len() > 0,
        !text::is_white(code[0]),
        !code.contains('#'),
        note.len() == 0 || note[0] == '#',
    ensures
        note.len() > 0 ==> redeclared(indent + code + note, value) == indent + "monitor="@ + value
            + "  "@ + note,
        note.len() == 0 ==> redeclared(indent + code + note, value) == indent + "monitor="@ + value,
{
    let line = indent + code + note;
    let front = indent + code;
    assert forall|i: int| 0 <= i < front.len() implies #[trigger] line[i] != '#' by {
        if i < indent.len() {
            assert(line[i] == indent[i] && text::is_white(indent[i]));
        } else {
            assert(line[i] == code[i - indent.len()]);
            assert(code.contains(code[i - indent.len()]));
        }
    }
    text::lemma_first_of_unique(line, '#', front.len() as int);
    assert(comment_of(line) =~= note);
    assert(line =~= indent + (code + note));
    lemma_white_dropped(indent, code + note);
    assert(indent_of(line) =~= indent);
}

/// The first line that declares an output counts, and nothing declares one without a
/// name.
pub proof fn law_first_declaration_counts(file: Seq<char>, name: Seq<char>, n: int)
    requires
        0 <= n <= text::lines_of(file).len(),
        forall|i: int|
            0 <= i < n ==> {
                let v = value_on(#[trigger] text::lines_of(file)[i]);
                v is None || fields_of(v->0)[0] != name
            },
        n < text::lines_of(file).len() ==> {
            let v = value_on(text::lines_of(file)[n]);
            v is Some && fields_of(v->0)[0] == name
        },
    ensures
        name.len() > 0 && n < text::lines_of(file).len() ==> configured_in(file, name) == value_on(
            text::lines_of(file)[n],
        ),
        name.len() > 0 && n == text::lines_of(file).len() ==> configured_in(file, name) is None,
        name.len() == 0 ==> configured_in(file, name) is None,
{
    let ls = text::lines_of(file);
    assert forall|i: int| 0 <= i < n implies !declares(#[trigger] ls[i], name) by {
        let v = value_on(text::lines_of(file)[i]);
    }
    lemma_declaring_unique(ls, name, n);
}

} // verus!
