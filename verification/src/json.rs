//! JSON documents as values, and their text.
//!
//! Reading text is the work of `serde_json`; what it read is held here as plain
//! values. Writing follows its compact and its pretty layout.

use crate::text;
use serde_json::Value;
use vstd::prelude::*;

verus! {

/// A JSON number, in the forms in which it is read.
#[derive(Debug, Clone, PartialEq, Eq)]
pub struct Number {
    /// As JSON spells it.
    pub json: String,
    /// Its value, where it is a whole number of 64 bits with a sign.
    pub signed: Option<i64>,
    /// Its value, where it is a whole number of 64 bits without a sign.
    pub unsigned: Option<u64>,
    /// As JSON spells it once it is read as floating point: `120.0`.
    pub float: Option<String>,
    /// As it is shown to people once it is read as floating point: `120`.
    pub shown: Option<String>,
}

/// A JSON document.
#[derive(Debug, PartialEq, Eq)]
pub enum Json {
    Null,
    Bool(bool),
    Number(Number),
    Text(String),
    Array(Vec<Json>),
    /// Keys with their values, in the order in which they are written.
    Object(Vec<(String, Json)>),
}

/// What a [`Number`] says.
pub struct NumberView {
    pub json: Seq<char>,
    pub signed: Option<i64>,
    pub unsigned: Option<u64>,
    pub float: Option<Seq<char>>,
    pub shown: Option<Seq<char>>,
}

/// What a [`Json`] says.
pub enum JsonView {
    Null,
    Bool(bool),
    Number(NumberView),
    Text(Seq<char>),
    Array(Seq<JsonView>),
    Object(Seq<(Seq<char>, JsonView)>),
}

impl View for Number {
    type V = NumberView;

    open spec fn view(&self) -> NumberView {
        NumberView {
            json: self.json@,
            signed: self.signed,
            unsigned: self.unsigned,
            float: text_view(self.float),
            shown: text_view(self.shown),
        }
    }
}

/// The view of a string that may be missing.
pub open spec fn text_view(s: Option<String>) -> Option<Seq<char>> {
    match s {
        Some(t) => Some(t@),
        None => None,
    }
}

/// What `j` says.
pub open spec fn said(j: Json) -> JsonView
    decreases j,
{
    match j {
        Json::Null => JsonView::Null,
        Json::Bool(b) => JsonView::Bool(b),
        Json::Number(n) => JsonView::Number(n@),
        Json::Text(s) => JsonView::Text(s@),
        Json::Array(v) => JsonView::Array(
            Seq::new(
                v@.len(),
                |i: int|
                    if 0 <= i < v@.len() {
                        said(v@[i])
                    } else {
                        JsonView::Null
                    },
            ),
        ),
        Json::Object(v) => JsonView::Object(
            Seq::new(
                v@.len(),
                |i: int|
                    if 0 <= i < v@.len() {
                        (v@[i].0@, said(v@[i].1))
                    } else {
                        (Seq::empty(), JsonView::Null)
                    },
            ),
        ),
    }
}

impl View for Json {
    type V = JsonView;

    open spec fn view(&self) -> JsonView {
        said(*self)
    }
}

/// What the items of an array say.
pub open spec fn items_said(v: Seq<Json>) -> Seq<JsonView> {
    Seq::new(v.len(), |i: int| v[i]@)
}

/// What the entries of an object say.
pub open spec fn entries_said(v: Seq<(String, Json)>) -> Seq<(Seq<char>, JsonView)> {
    Seq::new(v.len(), |i: int| (v[i].0@, v[i].1@))
}

pub proof fn lemma_said(j: Json)
    ensures
        j matches Json::Array(v) ==> j@ == JsonView::Array(items_said(v@)),
        j matches Json::Object(v) ==> j@ == JsonView::Object(entries_said(v@)),
{
    match j {
        Json::Array(v) => {
            assert(j@->Array_0 =~= items_said(v@));
        },
        Json::Object(v) => {
            assert(j@->Object_0 =~= entries_said(v@));
        },
        _ => {},
    }
}

/// Whether a number can be spelled with `c`.
pub open spec fn number_char(c: char) -> bool {
    '0' <= c <= '9' || c == '-' || c == '+' || c == '.' || c == 'e'
}

/// Whether a text holds what a number is spelled with, and nothing else.
pub open spec fn is_number_text(s: Seq<char>) -> bool {
    s.len() > 0 && forall|i: int| 0 <= i < s.len() ==> number_char(#[trigger] s[i])
}

/// Whether the numbers of a document are spelled as numbers.
pub open spec fn well_spelled(v: JsonView) -> bool
    decreases v,
{
    match v {
        JsonView::Number(n) => is_number_text(n.json),
        JsonView::Array(items) => forall|i: int|
            0 <= i < items.len() ==> well_spelled(#[trigger] items[i]),
        JsonView::Object(entries) => forall|i: int|
            0 <= i < entries.len() ==> well_spelled((#[trigger] entries[i]).1),
        _ => true,
    }
}

// ---------------------------------------------------------------------------
// Writing
// ---------------------------------------------------------------------------

/// How a character stands in a JSON string.
pub open spec fn escape_char(c: char) -> Seq<char> {
    if c == '"' {
        seq!['\\', '"']
    } else if c == '\\' {
        seq!['\\', '\\']
    } else if c == '\u{8}' {
        seq!['\\', 'b']
    } else if c == '\t' {
        seq!['\\', 't']
    } else if c == '\n' {
        seq!['\\', 'n']
    } else if c == '\u{c}' {
        seq!['\\', 'f']
    } else if c == '\r' {
        seq!['\\', 'r']
    } else if (c as int) < 32 {
        let n = c as int;
        seq!['\\', 'u', '0', '0', text::digit_char(n / 16), text::digit_char(n % 16)]
    } else {
        seq![c]
    }
}

/// The characters of a JSON string between its quotes.
pub open spec fn escaped(s: Seq<char>) -> Seq<char>
    decreases s.len(),
{
    if s.len() == 0 {
        Seq::empty()
    } else {
        escaped(s.drop_last()) + escape_char(s.last())
    }
}

/// `s` as a JSON string.
pub open spec fn quoted(s: Seq<char>) -> Seq<char> {
    seq!['"'] + escaped(s) + seq!['"']
}

/// `serde_json::to_string` of a string: a quote, the characters, a quote. Of the
/// characters, the quote, the backslash and those below the space are written as
/// escapes, the others as they are.
#[verifier::external_body]
pub(crate) fn quote(s: &str) -> (r: String)
    ensures
        r@ == quoted(s@),
{
    serde_json::to_string(s).unwrap_or_default()
}

/// A document without white space around its parts.
pub open spec fn compact(v: JsonView) -> Seq<char>
    decreases v,
{
    match v {
        JsonView::Null => "null"@,
        JsonView::Bool(b) => if b {
            "true"@
        } else {
            "false"@
        },
        JsonView::Number(n) => n.json,
        JsonView::Text(s) => quoted(s),
        JsonView::Array(items) => "["@ + text::joined(compact_items(items), ","@) + "]"@,
        JsonView::Object(entries) => "{"@ + text::joined(compact_entries(entries), ","@) + "}"@,
    }
}

/// Each of `items` without white space around its parts.
pub open spec fn compact_items(items: Seq<JsonView>) -> Seq<Seq<char>>
    decreases items,
{
    if items.len() == 0 {
        Seq::empty()
    } else {
        compact_items(items.drop_last()).push(compact(items.last()))
    }
}

/// Each of `entries` as `"key":value`.
pub open spec fn compact_entries(entries: Seq<(Seq<char>, JsonView)>) -> Seq<Seq<char>>
    decreases entries,
{
    if entries.len() == 0 {
        Seq::empty()
    } else {
        compact_entries(entries.drop_last()).push(
            quoted(entries.last().0) + ":"@ + compact(entries.last().1),
        )
    }
}

/// Two spaces for each level.
pub open spec fn indent(depth: nat) -> Seq<char>
    decreases depth,
{
    if depth == 0 {
        Seq::empty()
    } else {
        indent((depth - 1) as nat) + "  "@
    }
}

/// Lines of the level `depth` between two brackets.
pub open spec fn block(open: Seq<char>, lines: Seq<Seq<char>>, depth: nat, close: Seq<char>) -> Seq<
    char,
> {
    if lines.len() == 0 {
        open + close
    } else {
        open + "\n"@ + indent(depth + 1) + text::joined(lines, ",\n"@ + indent(depth + 1)) + "\n"@
            + indent(depth) + close
    }
}

/// A document with one line for each item and each entry.
pub open spec fn pretty(v: JsonView, depth: nat) -> Seq<char>
    decreases v,
{
    match v {
        JsonView::Array(items) => block("["@, pretty_items(items, depth + 1), depth, "]"@),
        JsonView::Object(entries) => block("{"@, pretty_entries(entries, depth + 1), depth, "}"@),
        _ => compact(v),
    }
}

/// Each of `items`, of which all lines but the first are indented.
pub open spec fn pretty_items(items: Seq<JsonView>, depth: nat) -> Seq<Seq<char>>
    decreases items,
{
    if items.len() == 0 {
        Seq::empty()
    } else {
        pretty_items(items.drop_last(), depth).push(pretty(items.last(), depth))
    }
}

/// Each of `entries` as `"key": value`.
pub open spec fn pretty_entries(entries: Seq<(Seq<char>, JsonView)>, depth: nat) -> Seq<Seq<char>>
    decreases entries,
{
    if entries.len() == 0 {
        Seq::empty()
    } else {
        pretty_entries(entries.drop_last(), depth).push(
            quoted(entries.last().0) + ": "@ + pretty(entries.last().1, depth),
        )
    }
}

proof fn lemma_escape_char(c: char)
    ensures
        forall|i: int| 0 <= i < escape_char(c).len() ==> #[trigger] escape_char(c)[i] != '\n',
{
    let n = c as int;
    if n < 32 {
        assert(0 <= n / 16 < 2 && 0 <= n % 16 < 16);
    }
}

proof fn lemma_escaped_one_line(s: Seq<char>)
    ensures
        !escaped(s).contains('\n'),
        !quoted(s).contains('\n'),
    decreases s.len(),
{
    if s.len() > 0 {
        lemma_escaped_one_line(s.drop_last());
        let front = escaped(s.drop_last());
        let last = escape_char(s.last());
        lemma_escape_char(s.last());
        assert forall|i: int| 0 <= i < escaped(s).len() implies escaped(s)[i] != '\n' by {
            if i < front.len() {
                assert(front.contains(front[i]));
            } else {
                assert(escaped(s)[i] == last[i - front.len()]);
            }
        }
    }
    assert forall|i: int| 0 <= i < quoted(s).len() implies quoted(s)[i] != '\n' by {
        if 0 < i < quoted(s).len() - 1 {
            assert(quoted(s)[i] == escaped(s)[i - 1]);
            assert(escaped(s).contains(escaped(s)[i - 1]));
        }
    }
}

proof fn lemma_between(open: Seq<char>, body: Seq<char>, close: Seq<char>, c: char)
    requires
        !open.contains(c),
        !body.contains(c),
        !close.contains(c),
    ensures
        !(open + body + close).contains(c),
{
    let all = open + body + close;
    if all.contains(c) {
        let i = choose|i: int| 0 <= i < all.len() && all[i] == c;
        if i < open.len() {
            assert(open[i] == c);
        } else if i < open.len() + body.len() {
            assert(body[i - open.len()] == c);
        } else {
            assert(close[i - open.len() - body.len()] == c);
        }
    }
}

/// A document that is written compactly is one line.
pub proof fn law_compact_is_one_line(v: JsonView)
    requires
        well_spelled(v),
    ensures
        !compact(v).contains('\n'),
    decreases v,
{
    match v {
        JsonView::Null => {
            reveal_strlit("null");
        },
        JsonView::Bool(_) => {
            reveal_strlit("true");
            reveal_strlit("false");
        },
        JsonView::Number(n) => {
            if n.json.contains('\n') {
                let i = choose|i: int| 0 <= i < n.json.len() && n.json[i] == '\n';
                assert(number_char(n.json[i]));
            }
        },
        JsonView::Text(s) => {
            lemma_escaped_one_line(s);
        },
        JsonView::Array(items) => {
            reveal_strlit("[");
            reveal_strlit("]");
            lemma_items_one_line(items);
            text::lemma_joined_without(compact_items(items), '\n');
            lemma_between("["@, text::joined(compact_items(items), ","@), "]"@, '\n');
        },
        JsonView::Object(entries) => {
            reveal_strlit("{");
            reveal_strlit("}");
            lemma_entries_one_line(entries);
            text::lemma_joined_without(compact_entries(entries), '\n');
            lemma_between("{"@, text::joined(compact_entries(entries), ","@), "}"@, '\n');
        },
    }
}

proof fn lemma_items_one_line(items: Seq<JsonView>)
    requires
        forall|i: int| 0 <= i < items.len() ==> well_spelled(#[trigger] items[i]),
    ensures
        forall|i: int|
            0 <= i < compact_items(items).len() ==> !(#[trigger] compact_items(items)[i]).contains(
                '\n',
            ),
    decreases items,
{
    if items.len() > 0 {
        assert(well_spelled(items[items.len() - 1]));
        let front = compact_items(items.drop_last());
        lemma_items_one_line(items.drop_last());
        law_compact_is_one_line(items.last());
        assert forall|i: int| 0 <= i < compact_items(items).len() implies !(
        #[trigger] compact_items(items)[i]).contains('\n') by {
            if i < front.len() {
                assert(compact_items(items)[i] == front[i]);
            }
        }
    }
}

proof fn lemma_entries_one_line(entries: Seq<(Seq<char>, JsonView)>)
    requires
        forall|i: int| 0 <= i < entries.len() ==> well_spelled((#[trigger] entries[i]).1),
    ensures
        forall|i: int|
            0 <= i < compact_entries(entries).len() ==> !(#[trigger] compact_entries(
                entries,
            )[i]).contains('\n'),
    decreases entries,
{
    if entries.len() > 0 {
        assert(well_spelled(entries[entries.len() - 1].1));
        let front = compact_entries(entries.drop_last());
        lemma_entries_one_line(entries.drop_last());
        law_compact_is_one_line(entries.last().1);
        lemma_escaped_one_line(entries.last().0);
        reveal_strlit(":");
        lemma_between(quoted(entries.last().0), ":"@, compact(entries.last().1), '\n');
        assert forall|i: int| 0 <= i < compact_entries(entries).len() implies !(
        #[trigger] compact_entries(entries)[i]).contains('\n') by {
            if i < front.len() {
                assert(compact_entries(entries)[i] == front[i]);
            }
        }
    }
}

fn block_text(
    open: &str,
    lines: &Vec<String>,
    pad: &str,
    Ghost(depth): Ghost<nat>,
    close: &str,
) -> (r: String)
    requires
        pad@ == indent(depth),
    ensures
        r@ == block(open@, text::views(lines@), depth, close@),
{
    let mut out = open.to_owned();
    if lines.len() > 0 {
        let mut inner = pad.to_owned();
        inner.push_str("  ");
        let mut sep = ",\n".to_owned();
        sep.push_str(inner.as_str());
        out.push_str("\n");
        out.push_str(inner.as_str());
        out.push_str(text::join(lines, sep.as_str()).as_str());
        out.push_str("\n");
        out.push_str(pad);
    }
    out.push_str(close);
    out
}

impl Json {
    /// The document without white space around its parts.
    pub fn to_compact(&self) -> (r: String)
        ensures
            r@ == compact(self@),
        decreases self,
    {
        proof {
            lemma_said(*self);
        }
        match self {
            Json::Null => "null".to_owned(),
            Json::Bool(b) => if *b {
                "true".to_owned()
            } else {
                "false".to_owned()
            },
            Json::Number(n) => n.json.clone(),
            Json::Text(s) => quote(s.as_str()),
            Json::Array(items) => {
                let mut parts: Vec<String> = Vec::new();
                let ghost all = items_said(items@);
                let mut i: usize = 0;
                assert(all.take(0) =~= Seq::empty());
                assert(text::views(parts@) =~= compact_items(all.take(0)));
                while i < items.len()
                    invariant
                        *self == Json::Array(*items),
                        i <= items.len(),
                        all == items_said(items@),
                        text::views(parts@) == compact_items(all.take(i as int)),
                    decreases items.len() - i,
                {
                    let ghost before = parts@;
                    assert(decreases_to!(*self => self->Array_0));
                    assert(decreases_to!(items => items@));
                    assert(decreases_to!(items@ => items@[i as int]));
                    let part = items[i].to_compact();
                    parts.push(part);
                    proof {
                        text::lemma_views_push(before, part);
                    }
                    i += 1;
                    assert(all.take(i as int).drop_last() =~= all.take(i - 1));
                }
                assert(all.take(i as int) =~= all);
                let mut out = "[".to_owned();
                out.push_str(text::join(&parts, ",").as_str());
                out.push_str("]");
                out
            },
            Json::Object(entries) => {
                let mut parts: Vec<String> = Vec::new();
                let ghost all = entries_said(entries@);
                let mut i: usize = 0;
                assert(all.take(0) =~= Seq::empty());
                assert(text::views(parts@) =~= compact_entries(all.take(0)));
                while i < entries.len()
                    invariant
                        *self == Json::Object(*entries),
                        i <= entries.len(),
                        all == entries_said(entries@),
                        text::views(parts@) == compact_entries(all.take(i as int)),
                    decreases entries.len() - i,
                {
                    let ghost before = parts@;
                    assert(decreases_to!(*self => self->Object_0));
                    assert(decreases_to!(entries => entries@));
                    assert(decreases_to!(entries@ => entries@[i as int]));
                    assert(decreases_to!(entries@[i as int] => entries@[i as int].1));
                    let mut part = quote(entries[i].0.as_str());
                    part.push_str(":");
                    part.push_str(entries[i].1.to_compact().as_str());
                    parts.push(part);
                    proof {
                        text::lemma_views_push(before, part);
                    }
                    i += 1;
                    assert(all.take(i as int).drop_last() =~= all.take(i - 1));
                }
                assert(all.take(i as int) =~= all);
                let mut out = "{".to_owned();
                out.push_str(text::join(&parts, ",").as_str());
                out.push_str("}");
                out
            },
        }
    }

    /// The document with one line for each item and each entry, indented as
    /// deep as it lies in others.
    fn pretty_at(&self, pad: &str, Ghost(depth): Ghost<nat>) -> (r: String)
        requires
            pad@ == indent(depth),
        ensures
            r@ == pretty(self@, depth),
        decreases self,
    {
        let mut inner = pad.to_owned();
        inner.push_str("  ");
        assert(inner@ == indent(depth + 1));
        proof {
            lemma_said(*self);
        }
        match self {
            Json::Array(items) => {
                let mut parts: Vec<String> = Vec::new();
                let ghost all = items_said(items@);
                let mut i: usize = 0;
                assert(all.take(0) =~= Seq::empty());
                assert(text::views(parts@) =~= pretty_items(all.take(0), depth + 1));
                while i < items.len()
                    invariant
                        *self == Json::Array(*items),
                        i <= items.len(),
                        inner@ == indent(depth + 1),
                        all == items_said(items@),
                        text::views(parts@) == pretty_items(all.take(i as int), depth + 1),
                    decreases items.len() - i,
                {
                    let ghost before = parts@;
                    assert(decreases_to!(*self => self->Array_0));
                    assert(decreases_to!(items => items@));
                    assert(decreases_to!(items@ => items@[i as int]));
                    let part = items[i].pretty_at(inner.as_str(), Ghost(depth + 1));
                    parts.push(part);
                    proof {
                        text::lemma_views_push(before, part);
                    }
                    i += 1;
                    assert(all.take(i as int).drop_last() =~= all.take(i - 1));
                }
                assert(all.take(i as int) =~= all);
                block_text("[", &parts, pad, Ghost(depth), "]")
            },
            Json::Object(entries) => {
                let mut parts: Vec<String> = Vec::new();
                let ghost all = entries_said(entries@);
                let mut i: usize = 0;
                assert(all.take(0) =~= Seq::empty());
                assert(text::views(parts@) =~= pretty_entries(all.take(0), depth + 1));
                while i < entries.len()
                    invariant
                        *self == Json::Object(*entries),
                        i <= entries.len(),
                        inner@ == indent(depth + 1),
                        all == entries_said(entries@),
                        text::views(parts@) == pretty_entries(all.take(i as int), depth + 1),
                    decreases entries.len() - i,
                {
                    let ghost before = parts@;
                    assert(decreases_to!(*self => self->Object_0));
                    assert(decreases_to!(entries => entries@));
                    assert(decreases_to!(entries@ => entries@[i as int]));
                    assert(decreases_to!(entries@[i as int] => entries@[i as int].1));
                    let mut part = quote(entries[i].0.as_str());
                    part.push_str(": ");
                    part.push_str(entries[i].1.pretty_at(inner.as_str(), Ghost(depth + 1)).as_str());
                    parts.push(part);
                    proof {
                        text::lemma_views_push(before, part);
                    }
                    i += 1;
                    assert(all.take(i as int).drop_last() =~= all.take(i - 1));
                }
                assert(all.take(i as int) =~= all);
                block_text("{", &parts, pad, Ghost(depth), "}")
            },
            _ => self.to_compact(),
        }
    }

    /// The document with one line for each item and each entry.
    pub fn to_pretty(&self) -> (r: String)
        ensures
            r@ == pretty(self@, 0),
    {
        proof {
            reveal_strlit("");
            assert(""@ =~= indent(0));
        }
        self.pretty_at("", Ghost(0))
    }
}

// ---------------------------------------------------------------------------
// Reading
// ---------------------------------------------------------------------------

/// Whether a number is a whole one, spelled without a fraction.
pub open spec fn is_whole(n: NumberView) -> bool {
    exists|i: int|
        i64::MIN <= i <= u64::MAX && n.json == #[trigger] text::int_text(i) && n.signed == signed_of(
            i,
        ) && n.unsigned == unsigned_of(i)
}

/// `i`, where 64 bits with a sign hold it.
pub open spec fn signed_of(i: int) -> Option<i64> {
    if i64::MIN <= i <= i64::MAX {
        Some(i as i64)
    } else {
        None
    }
}

/// `i`, where 64 bits without a sign hold it.
pub open spec fn unsigned_of(i: int) -> Option<u64> {
    if 0 <= i <= u64::MAX {
        Some(i as u64)
    } else {
        None
    }
}

/// Whether `serde_json` keeps a key for itself: an object whose first key is such a
/// one is not read as an object.
pub open spec fn is_reserved(key: Seq<char>) -> bool {
    key == "$serde_json::private::RawValue"@ || key == "$serde_json::private::Number"@
}

/// Whether a document is nested at most `depth` deep, has its entries in the order
/// of their keys, no first key that is reserved and no number with a fraction.
pub open spec fn plain(v: JsonView, depth: nat) -> bool
    decreases v,
{
    match v {
        JsonView::Number(n) => is_whole(n),
        JsonView::Array(items) => depth > 0 && forall|i: int|
            0 <= i < items.len() ==> plain(#[trigger] items[i], (depth - 1) as nat),
        JsonView::Object(entries) => depth > 0 && in_order(entries) && (entries.len() > 0
            ==> !is_reserved(entries[0].0)) && forall|i: int|
            0 <= i < entries.len() ==> plain((#[trigger] entries[i]).1, (depth - 1) as nat),
        _ => true,
    }
}

/// How deep a document may be nested that is sure to be read back.
pub const DEPTH: u64 = 100;

/// Whether two documents say the same, the floating-point forms of their numbers
/// aside.
pub open spec fn alike(a: JsonView, b: JsonView) -> bool
    decreases a,
{
    match (a, b) {
        (JsonView::Number(x), JsonView::Number(y)) => x.json == y.json && x.signed == y.signed
            && x.unsigned == y.unsigned,
        (JsonView::Array(x), JsonView::Array(y)) => x.len() == y.len() && forall|i: int|
            0 <= i < x.len() ==> alike(#[trigger] x[i], y[i]),
        (JsonView::Object(x), JsonView::Object(y)) => x.len() == y.len() && forall|i: int|
            0 <= i < x.len() ==> (#[trigger] x[i]).0 == y[i].0 && alike(x[i].1, y[i].1),
        (JsonView::Number(_), _) => false,
        (JsonView::Array(_), _) => false,
        (JsonView::Object(_), _) => false,
        _ => a == b,
    }
}

/// Members of documents that say the same say the same.
pub proof fn lemma_alike_member(a: JsonView, b: JsonView, key: Seq<char>)
    requires
        alike(a, b),
    ensures
        member(a, key) is Some <==> member(b, key) is Some,
        member(a, key) matches Some(x) ==> alike(x, member(b, key)->Some_0),
{
    if let (JsonView::Object(x), JsonView::Object(y)) = (a, b) {
        lemma_alike_entries(x, y, key);
    }
}

proof fn lemma_alike_entries(
    x: Seq<(Seq<char>, JsonView)>,
    y: Seq<(Seq<char>, JsonView)>,
    key: Seq<char>,
)
    requires
        x.len() == y.len(),
        forall|i: int| 0 <= i < x.len() ==> (#[trigger] x[i]).0 == y[i].0 && alike(x[i].1, y[i].1),
    ensures
        0 <= entry_at(x, key) <= x.len(),
        entry_at(x, key) == entry_at(y, key),
    decreases x.len(),
{
    if x.len() > 0 {
        let p = x.skip(1);
        let q = y.skip(1);
        assert(x[0].0 == y[0].0);
        assert forall|i: int| 0 <= i < p.len() implies (#[trigger] p[i]).0 == q[i].0 && alike(
            p[i].1,
            q[i].1,
        ) by {
            assert(p[i] == x[i + 1]);
        }
        lemma_alike_entries(p, q, key);
    }
}

/// `serde_json::Value`, what `serde_json` reads JSON text into.
#[verifier::external_type_specification]
#[verifier::external_body]
pub struct ExValue(serde_json::Value);

/// What a `serde_json::Value` holds.
pub uninterp spec fn value_holds(v: serde_json::Value) -> JsonView;

/// What `serde_json::from_str` makes of a text: a document, or the message of
/// its error.
pub uninterp spec fn json_read(text: Seq<char>) -> Result<JsonView, Seq<char>>;

/// `serde_json::from_str` into a `serde_json::Value`. Whether it succeeds, what
/// it reads and what its error says depend on the text alone. A plain document that
/// was written in either form is read as it was.
#[verifier::external_body]
fn read_value(text: &str) -> (r: Result<serde_json::Value, String>)
    ensures
        r is Ok <==> json_read(text@) is Ok,
        r is Ok ==> value_holds(r->Ok_0) == json_read(text@)->Ok_0,
        r is Err ==> r->Err_0@ == json_read(text@)->Err_0,
        forall|v: JsonView|
            plain(v, DEPTH as nat) && (#[trigger] compact(v)) == text@ ==> r is Ok && alike(
                value_holds(r->Ok_0),
                v,
            ),
        forall|v: JsonView|
            plain(v, DEPTH as nat) && (#[trigger] pretty(v, 0)) == text@ ==> r is Ok && alike(
                value_holds(r->Ok_0),
                v,
            ),
{
    serde_json::from_str::<serde_json::Value>(text).map_err(|e| e.to_string())
}

/// The document that a `serde_json::Value` holds, kind by kind. The entries of an
/// object come in the order in which its map hands them out, which is that of
/// their keys; a number comes in each form that `serde_json::Number` gives it, and
/// is spelled with digits, signs, a point and an `e`.
#[verifier::external_body]
fn tree_of(v: Value) -> (r: Json)
    ensures
        r@ == value_holds(v),
        well_spelled(r@),
{
    match v {
        Value::Null => Json::Null,
        Value::Bool(b) => Json::Bool(b),
        Value::String(s) => Json::Text(s),
        Value::Array(items) => Json::Array(items.into_iter().map(tree_of).collect()),
        Value::Object(m) => Json::Object(m.into_iter().map(|(k, v)| (k, tree_of(v))).collect()),
        Value::Number(n) => Json::Number(Number {
            json: n.to_string(),
            signed: n.as_i64(),
            unsigned: n.as_u64(),
            float: n.as_f64().and_then(serde_json::Number::from_f64).map(|f| f.to_string()),
            shown: n.as_f64().map(|f| f.to_string()),
        }),
    }
}

/// An object of texts.
pub open spec fn text_object(entries: Seq<(Seq<char>, Seq<char>)>) -> JsonView {
    JsonView::Object(
        Seq::new(entries.len(), |i: int| (entries[i].0, JsonView::Text(entries[i].1))),
    )
}

/// What pairs of texts say.
pub open spec fn pairs_said(pairs: Seq<(String, String)>) -> Seq<(Seq<char>, Seq<char>)> {
    Seq::new(pairs.len(), |i: int| (pairs[i].0@, pairs[i].1@))
}

/// What `serde_json::from_str` into a map of texts makes of a text, in the order of
/// the keys.
pub uninterp spec fn texts_read(text: Seq<char>) -> Option<Seq<(Seq<char>, Seq<char>)>>;

/// `serde_json::from_str` into a `BTreeMap` from strings to strings, which hands its
/// entries out in the order of their keys. Whether it succeeds and what it reads
/// depend on the text alone. An object of texts that was written compactly, in the
/// order of its keys, is read as it was, whatever its keys.
#[verifier::external_body]
pub(crate) fn read_texts(text: &str) -> (r: Option<Vec<(String, String)>>)
    ensures
        r is Some <==> texts_read(text@) is Some,
        r is Some ==> pairs_said(r->Some_0@) == texts_read(text@)->Some_0,
        forall|entries: Seq<(Seq<char>, Seq<char>)>|
            in_order((#[trigger] text_object(entries))->Object_0) && compact(text_object(entries))
                == text@ ==> r is Some && pairs_said(r->Some_0@) == entries,
{
    let read = serde_json::from_str::<std::collections::BTreeMap<String, String>>(text);
    read.ok().map(|m| m.into_iter().collect())
}

/// Whether a text is that of the document `v`, in either form.
pub open spec fn spells(text: Seq<char>, v: JsonView) -> bool {
    text == compact(v) || text == pretty(v, 0)
}

/// Whether a plain document that a text spells is read back from it.
pub open spec fn reads_back(text: Seq<char>) -> bool {
    forall|v: JsonView|
        plain(v, DEPTH as nat) && #[trigger] spells(text, v) ==> json_read(text) is Ok && alike(
            json_read(text)->Ok_0,
            v,
        )
}

/// Reads JSON text: the document, or what is wrong with the text. A plain document
/// is read back from what [`Json::to_compact`] and [`Json::to_pretty`] make of it.
pub fn parse_json(text: &str) -> (r: Result<Json, String>)
    ensures
        r is Ok <==> json_read(text@) is Ok,
        r is Ok ==> r->Ok_0@ == json_read(text@)->Ok_0,
        r is Ok ==> well_spelled(r->Ok_0@),
        r is Err ==> r->Err_0@ == json_read(text@)->Err_0,
        reads_back(text@),
{
    match read_value(text) {
        Ok(v) => Ok(tree_of(v)),
        Err(e) => Err(e),
    }
}

// ---------------------------------------------------------------------------
// Looking inside
// ---------------------------------------------------------------------------

/// Index of the first of `entries` with `key`, or their number.
pub open spec fn entry_at(entries: Seq<(Seq<char>, JsonView)>, key: Seq<char>) -> int
    decreases entries.len(),
{
    if entries.len() == 0 || entries[0].0 == key {
        0
    } else {
        1 + entry_at(entries.skip(1), key)
    }
}

/// The value of `key`, where `v` is an object that has it.
pub open spec fn member(v: JsonView, key: Seq<char>) -> Option<JsonView> {
    match v {
        JsonView::Object(entries) => {
            let i = entry_at(entries, key);
            if i < entries.len() {
                Some(entries[i].1)
            } else {
                None
            }
        },
        _ => None,
    }
}

/// The text of `key`, or an empty one where there is none.
pub open spec fn text_or_empty(v: JsonView, key: Seq<char>) -> Seq<char> {
    match member(v, key) {
        Some(JsonView::Text(s)) => s,
        _ => Seq::empty(),
    }
}

/// The truth value of `key`, or `default` where there is none.
pub open spec fn bool_or(v: JsonView, key: Seq<char>, default: bool) -> bool {
    match member(v, key) {
        Some(JsonView::Bool(b)) => b,
        _ => default,
    }
}

/// The whole number of `key`, or `default` where there is none.
pub open spec fn signed_or(v: JsonView, key: Seq<char>, default: i64) -> i64 {
    match member(v, key) {
        Some(JsonView::Number(n)) => match n.signed {
            Some(i) => i,
            None => default,
        },
        _ => default,
    }
}

/// The whole number without a sign of `key`, or `default` where there is none.
pub open spec fn unsigned_or(v: JsonView, key: Seq<char>, default: u64) -> u64 {
    match member(v, key) {
        Some(JsonView::Number(n)) => match n.unsigned {
            Some(i) => i,
            None => default,
        },
        _ => default,
    }
}

/// The number of `key` as JSON spells it in floating point, or `default`.
pub open spec fn float_or(v: JsonView, key: Seq<char>, default: Seq<char>) -> Seq<char> {
    match member(v, key) {
        Some(JsonView::Number(n)) => match n.float {
            Some(f) => f,
            None => default,
        },
        _ => default,
    }
}

proof fn lemma_entry_at(entries: Seq<(Seq<char>, JsonView)>, key: Seq<char>, n: int)
    requires
        0 <= n <= entries.len(),
        forall|i: int| 0 <= i < n ==> (#[trigger] entries[i]).0 != key,
        n < entries.len() ==> entries[n].0 == key,
    ensures
        entry_at(entries, key) == n,
    decreases n,
{
    if n > 0 {
        assert(entries[0].0 != key);
        let t = entries.skip(1);
        assert forall|i: int| 0 <= i < n - 1 implies (#[trigger] t[i]).0 != key by {
            assert(t[i] == entries[i + 1]);
        }
        lemma_entry_at(t, key, n - 1);
    }
}

/// The value of a key is that of the first entry with it, and there is none where no entry
/// has it.
pub proof fn law_first_entry_counts(
    entries: Seq<(Seq<char>, JsonView)>,
    key: Seq<char>,
    n: int,
)
    requires
        0 <= n <= entries.len(),
        forall|i: int| 0 <= i < n ==> (#[trigger] entries[i]).0 != key,
        n < entries.len() ==> entries[n].0 == key,
    ensures
        n < entries.len() ==> member(JsonView::Object(entries), key) == Some(entries[n].1),
        n == entries.len() ==> member(JsonView::Object(entries), key) is None,
{
    lemma_entry_at(entries, key, n);
}

impl Json {
    /// The value of `key`, where this is an object that has it.
    pub fn get(&self, key: &str) -> (r: Option<&Json>)
        ensures
            r is Some <==> member(self@, key@) is Some,
            r matches Some(v) ==> member(self@, key@) == Some(v@),
    {
        proof {
            lemma_said(*self);
        }
        match self {
            Json::Object(entries) => {
                let mut i: usize = 0;
                while i < entries.len() && !text::same_text(entries[i].0.as_str(), key)
                    invariant
                        i <= entries.len(),
                        forall|k: int|
                            0 <= k < i ==> (#[trigger] entries_said(entries@)[k]).0 != key@,
                    decreases entries.len() - i,
                {
                    i += 1;
                }
                proof {
                    lemma_entry_at(entries_said(entries@), key@, i as int);
                }
                if i < entries.len() {
                    Some(&entries[i].1)
                } else {
                    None
                }
            },
            _ => None,
        }
    }

    /// The text of `key`, or an empty one where there is none.
    pub fn text_at(&self, key: &str) -> (r: String)
        ensures
            r@ == text_or_empty(self@, key@),
    {
        match self.get(key) {
            Some(Json::Text(s)) => s.clone(),
            _ => String::new(),
        }
    }

    /// The truth value of `key`, or `default` where there is none.
    pub fn bool_at(&self, key: &str, default: bool) -> (r: bool)
        ensures
            r == bool_or(self@, key@, default),
    {
        match self.get(key) {
            Some(Json::Bool(b)) => *b,
            _ => default,
        }
    }

    /// The whole number of `key`, or `default` where there is none.
    pub fn signed_at(&self, key: &str, default: i64) -> (r: i64)
        ensures
            r == signed_or(self@, key@, default),
    {
        match self.get(key) {
            Some(Json::Number(n)) => match n.signed {
                Some(i) => i,
                None => default,
            },
            _ => default,
        }
    }

    /// The whole number without a sign of `key`, or `default`.
    pub fn unsigned_at(&self, key: &str, default: u64) -> (r: u64)
        ensures
            r == unsigned_or(self@, key@, default),
    {
        match self.get(key) {
            Some(Json::Number(n)) => match n.unsigned {
                Some(i) => i,
                None => default,
            },
            _ => default,
        }
    }

    /// The number of `key` as JSON spells it in floating point, or `default`.
    pub fn float_at(&self, key: &str, default: &str) -> (r: String)
        ensures
            r@ == float_or(self@, key@, default@),
    {
        match self.get(key) {
            Some(Json::Number(n)) => match &n.float {
                Some(f) => f.clone(),
                None => default.to_owned(),
            },
            _ => default.to_owned(),
        }
    }

    /// A document that says the same.
    pub fn copy(&self) -> (r: Json)
        ensures
            r@ == self@,
        decreases self,
    {
        proof {
            lemma_said(*self);
        }
        match self {
            Json::Null => Json::Null,
            Json::Bool(b) => Json::Bool(*b),
            Json::Number(n) => Json::Number(n.copy()),
            Json::Text(s) => Json::Text(s.clone()),
            Json::Array(items) => {
                let mut out: Vec<Json> = Vec::new();
                let mut i: usize = 0;
                while i < items.len()
                    invariant
                        *self == Json::Array(*items),
                        i <= items.len(),
                        out@.len() == i,
                        forall|k: int| 0 <= k < i ==> (#[trigger] out@[k])@ == items@[k]@,
                    decreases items.len() - i,
                {
                    assert(decreases_to!(*self => self->Array_0));
                    assert(decreases_to!(items => items@));
                    assert(decreases_to!(items@ => items@[i as int]));
                    let item = items[i].copy();
                    out.push(item);
                    i += 1;
                }
                assert(items_said(out@) =~= items_said(items@));
                let r = Json::Array(out);
                proof {
                    lemma_said(r);
                }
                r
            },
            Json::Object(entries) => {
                let mut out: Vec<(String, Json)> = Vec::new();
                let mut i: usize = 0;
                while i < entries.len()
                    invariant
                        *self == Json::Object(*entries),
                        i <= entries.len(),
                        out@.len() == i,
                        forall|k: int|
                            0 <= k < i ==> (#[trigger] out@[k]).0@ == entries@[k].0@ && out@[k].1@
                                == entries@[k].1@,
                    decreases entries.len() - i,
                {
                    assert(decreases_to!(*self => self->Object_0));
                    assert(decreases_to!(entries => entries@));
                    assert(decreases_to!(entries@ => entries@[i as int]));
                    assert(decreases_to!(entries@[i as int] => entries@[i as int].1));
                    let key = entries[i].0.clone();
                    let value = entries[i].1.copy();
                    out.push((key, value));
                    i += 1;
                }
                assert(entries_said(out@) =~= entries_said(entries@));
                let r = Json::Object(out);
                proof {
                    lemma_said(r);
                }
                r
            },
        }
    }
}

impl Number {
    fn copy(&self) -> (r: Number)
        ensures
            r@ == self@,
    {
        Number {
            json: self.json.clone(),
            signed: self.signed,
            unsigned: self.unsigned,
            float: match &self.float {
                Some(f) => Some(f.clone()),
                None => None,
            },
            shown: match &self.shown {
                Some(f) => Some(f.clone()),
                None => None,
            },
        }
    }
}

// ---------------------------------------------------------------------------
// Building
// ---------------------------------------------------------------------------

/// The document that is the text `s`.
pub fn text_json(s: &str) -> (r: Json)
    ensures
        r@ == JsonView::Text(s@),
{
    Json::Text(s.to_owned())
}

/// What a whole number says that is written, not read.
pub open spec fn whole(n: int) -> JsonView {
    JsonView::Number(
        NumberView {
            json: text::int_text(n),
            signed: signed_of(n),
            unsigned: unsigned_of(n),
            float: None,
            shown: None,
        },
    )
}

/// A whole number is spelled as a number.
pub proof fn lemma_whole_spelled(n: int)
    ensures
        well_spelled(whole(n)),
{
    if n < 0 {
        text::lemma_dec((-n) as nat);
    } else {
        text::lemma_dec(n as nat);
    }
    let s = text::int_text(n);
    assert forall|i: int| 0 <= i < s.len() implies number_char(#[trigger] s[i]) by {
        if n < 0 && i > 0 {
            assert(s[i] == text::dec((-n) as nat)[i - 1]);
        }
    }
}

/// The document that is the whole number `n`.
pub fn signed_json(n: i64) -> (r: Json)
    ensures
        r@ == whole(n as int),
{
    Json::Number(
        Number {
            json: text::signed_decimal(n),
            signed: Some(n),
            unsigned: if n >= 0 {
                Some(n as u64)
            } else {
                None
            },
            float: None,
            shown: None,
        },
    )
}

/// The document that is the whole number `n`.
pub fn unsigned_json(n: u64) -> (r: Json)
    ensures
        r@ == whole(n as int),
{
    Json::Number(
        Number {
            json: text::decimal(n),
            signed: if n <= 0x7fff_ffff_ffff_ffff {
                Some(n as i64)
            } else {
                None
            },
            unsigned: Some(n),
            float: None,
            shown: None,
        },
    )
}

/// What a number says that is spelled `json`.
pub open spec fn spelled(json: Seq<char>) -> JsonView {
    JsonView::Number(
        NumberView { json, signed: None, unsigned: None, float: Some(json), shown: None },
    )
}

/// The document that is the floating-point number spelled `json`.
pub fn float_json(json: &str) -> (r: Json)
    ensures
        r@ == spelled(json@),
{
    Json::Number(
        Number {
            json: json.to_owned(),
            signed: None,
            unsigned: None,
            float: Some(json.to_owned()),
            shown: None,
        },
    )
}

/// The text `s`, or null.
pub open spec fn text_or_null(s: Option<Seq<char>>) -> JsonView {
    match s {
        Some(t) => JsonView::Text(t),
        None => JsonView::Null,
    }
}

/// The document that is the text `s`, or null.
pub fn optional_text_json(s: &Option<String>) -> (r: Json)
    ensures
        r@ == text_or_null(text_view(*s)),
{
    match s {
        Some(t) => Json::Text(t.clone()),
        None => Json::Null,
    }
}

/// A whole number, or null.
pub open spec fn signed_or_null(n: Option<i32>) -> JsonView {
    match n {
        Some(i) => whole(i as int),
        None => JsonView::Null,
    }
}

/// The document that is the number `n`, or null.
pub fn optional_signed_json(n: Option<i32>) -> (r: Json)
    ensures
        r@ == signed_or_null(n),
{
    match n {
        Some(i) => signed_json(i as i64),
        None => Json::Null,
    }
}

/// A whole number, or null.
pub open spec fn unsigned_or_null(n: Option<u64>) -> JsonView {
    match n {
        Some(i) => whole(i as int),
        None => JsonView::Null,
    }
}

/// The document that is the number `n`, or null.
pub fn optional_unsigned_json(n: Option<u64>) -> (r: Json)
    ensures
        r@ == unsigned_or_null(n),
{
    match n {
        Some(i) => unsigned_json(i),
        None => Json::Null,
    }
}

/// An object that is built up entry by entry.
pub struct Fields {
    entries: Vec<(String, Json)>,
}

impl View for Fields {
    type V = Seq<(Seq<char>, JsonView)>;

    closed spec fn view(&self) -> Seq<(Seq<char>, JsonView)> {
        entries_said(self.entries@)
    }
}

impl Fields {
    /// No entries.
    pub fn new() -> (r: Fields)
        ensures
            r@ == Seq::<(Seq<char>, JsonView)>::empty(),
    {
        let r = Fields { entries: Vec::new() };
        assert(r@ =~= Seq::empty());
        r
    }

    /// These entries and one more.
    pub fn with(self, key: &str, value: Json) -> (r: Fields)
        ensures
            r@ == self@.push((key@, value@)),
    {
        let mut entries = self.entries;
        entries.push((key.to_owned(), value));
        let r = Fields { entries };
        assert(r@ =~= self@.push((key@, value@)));
        r
    }

    /// The object of these entries.
    pub fn object(self) -> (r: Json)
        ensures
            r@ == JsonView::Object(self@),
    {
        let r = Json::Object(self.entries);
        proof {
            lemma_said(r);
        }
        r
    }
}

// ---------------------------------------------------------------------------
// Objects in the order of their keys
// ---------------------------------------------------------------------------

/// The entries with `value` for `key`. They stay in the order of their keys, and
/// an earlier value of the key is replaced.
pub open spec fn put(
    entries: Seq<(Seq<char>, JsonView)>,
    key: Seq<char>,
    value: JsonView,
) -> Seq<(Seq<char>, JsonView)>
    decreases entries.len(),
{
    if entries.len() == 0 {
        seq![(key, value)]
    } else if entries[0].0 == key {
        seq![(key, value)] + entries.skip(1)
    } else if text::precedes(entries[0].0, key) {
        seq![entries[0]] + put(entries.skip(1), key, value)
    } else {
        seq![(key, value)] + entries
    }
}

/// Whether the entries stand in the order of their keys, each key once.
pub open spec fn in_order(entries: Seq<(Seq<char>, JsonView)>) -> bool {
    forall|i: int, j: int|
        0 <= i < j < entries.len() ==> text::precedes(
            (#[trigger] entries[i]).0,
            (#[trigger] entries[j]).0,
        )
}

/// Putting a value keeps the order and changes no other key.
pub proof fn lemma_put(
    entries: Seq<(Seq<char>, JsonView)>,
    key: Seq<char>,
    value: JsonView,
    other: Seq<char>,
)
    requires
        in_order(entries),
    ensures
        in_order(put(entries, key, value)),
        member(JsonView::Object(put(entries, key, value)), key) == Some(value),
        other != key ==> member(JsonView::Object(put(entries, key, value)), other) == member(
            JsonView::Object(entries),
            other,
        ),
        forall|i: int|
            0 <= i < put(entries, key, value).len() ==> {
                let e = #[trigger] put(entries, key, value)[i];
                e == (key, value) || entries.contains(e)
            },
    decreases entries.len(),
{
    let all = put(entries, key, value);
    let rest = entries.skip(1);
    if entries.len() > 0 {
        assert forall|i: int, j: int| 0 <= i < j < rest.len() implies text::precedes(
            (#[trigger] rest[i]).0,
            (#[trigger] rest[j]).0,
        ) by {
            assert(rest[i] == entries[i + 1] && rest[j] == entries[j + 1]);
        }
    }
    if entries.len() == 0 {
        assert(all.skip(1) =~= Seq::empty());
        assert(entry_at(all.skip(1), other) == 0);
    } else if entries[0].0 == key {
        assert(all.skip(1) =~= rest);
        assert forall|i: int, j: int| 0 <= i < j < all.len() implies text::precedes(
            (#[trigger] all[i]).0,
            (#[trigger] all[j]).0,
        ) by {
            assert(entries[i].0 == all[i].0 && entries[j].0 == all[j].0);
        }
        lemma_entry_bound(rest, other);
        assert forall|i: int| 0 <= i < all.len() implies (#[trigger] all[i]) == (key, value)
            || entries.contains(all[i]) by {
            if i > 0 {
                assert(all[i] == entries[i]);
            }
        }
    } else if text::precedes(entries[0].0, key) {
        lemma_put(rest, key, value, other);
        let tail = put(rest, key, value);
        assert(all.skip(1) =~= tail);
        assert forall|i: int, j: int| 0 <= i < j < all.len() implies text::precedes(
            (#[trigger] all[i]).0,
            (#[trigger] all[j]).0,
        ) by {
            if i > 0 {
                assert(all[i] == tail[i - 1] && all[j] == tail[j - 1]);
            } else {
                assert(all[j] == tail[j - 1]);
                if tail[j - 1] != (key, value) {
                    let k = choose|k: int| 0 <= k < rest.len() && rest[k] == tail[j - 1];
                    assert(entries[k + 1] == rest[k]);
                }
            }
        }
        lemma_entry_bound(rest, other);
        lemma_entry_bound(tail, other);
        lemma_entry_bound(tail, key);
        assert forall|i: int| 0 <= i < all.len() implies (#[trigger] all[i]) == (key, value)
            || entries.contains(all[i]) by {
            if i > 0 {
                assert(all[i] == tail[i - 1]);
                if tail[i - 1] != (key, value) {
                    let k = choose|k: int| 0 <= k < rest.len() && rest[k] == tail[i - 1];
                    assert(entries[k + 1] == rest[k]);
                }
            } else {
                assert(entries[0] == all[0]);
            }
        }
    } else {
        text::lemma_precedes(entries[0].0, key);
        assert(all.skip(1) =~= entries);
        assert forall|i: int, j: int| 0 <= i < j < all.len() implies text::precedes(
            (#[trigger] all[i]).0,
            (#[trigger] all[j]).0,
        ) by {
            assert(all[j] == entries[j - 1]);
            if i > 0 {
                assert(all[i] == entries[i - 1]);
            } else if j > 1 {
                assert(text::precedes(entries[0].0, entries[j - 1].0));
                text::lemma_precedes_transitive(key, entries[0].0, entries[j - 1].0);
            }
        }
        lemma_entry_bound(entries, other);
        assert forall|i: int| 0 <= i < all.len() implies (#[trigger] all[i]) == (key, value)
            || entries.contains(all[i]) by {
            if i > 0 {
                assert(all[i] == entries[i - 1]);
            }
        }
    }
}

/// Where an entry stands.
pub proof fn lemma_entry_bound(entries: Seq<(Seq<char>, JsonView)>, key: Seq<char>)
    ensures
        0 <= entry_at(entries, key) <= entries.len(),
        entry_at(entries, key) < entries.len() ==> entries[entry_at(entries, key)].0 == key,
    decreases entries.len(),
{
    if entries.len() > 0 && entries[0].0 != key {
        lemma_entry_bound(entries.skip(1), key);
    }
}

/// In order, an entry is found by its key.
pub proof fn lemma_ordered_entry(entries: Seq<(Seq<char>, JsonView)>, n: int)
    requires
        in_order(entries),
        0 <= n < entries.len(),
    ensures
        entry_at(entries, entries[n].0) == n,
{
    assert forall|i: int| 0 <= i < n implies (#[trigger] entries[i]).0 != entries[n].0 by {
        text::lemma_precedes(entries[i].0, entries[n].0);
    }
    lemma_entry_at(entries, entries[n].0, n);
}

impl Fields {
    /// These entries with `value` for `key`, in the order of the keys.
    pub fn put(self, key: &str, value: Json) -> (r: Fields)
        ensures
            r@ == put(self@, key@, value@),
    {
        let mut entries = self.entries;
        let ghost all = self@;
        let mut i: usize = 0;
        assert(all.take(0) + put(all.skip(0), key@, value@) =~= put(all, key@, value@)) by {
            assert(all.skip(0) =~= all);
        }
        while i < entries.len() && !text::same_text(entries[i].0.as_str(), key)
            && text::is_before(entries[i].0.as_str(), key)
            invariant
                i <= entries.len(),
                all == entries_said(entries@),
                put(all, key@, value@) == all.take(i as int) + put(
                    all.skip(i as int),
                    key@,
                    value@,
                ),
            decreases entries.len() - i,
        {
            assert(all.skip(i as int).skip(1) =~= all.skip(i + 1));
            assert(all.take(i as int) + (seq![all[i as int]] + put(all.skip(i + 1), key@, value@))
                =~= all.take(i + 1) + put(all.skip(i + 1), key@, value@));
            i += 1;
        }
        let ghost before = entries@;
        if i < entries.len() && text::same_text(entries[i].0.as_str(), key) {
            entries.set(i, (key.to_owned(), value));
            assert(all.skip(i as int).skip(1) =~= all.skip(i + 1));
            assert(entries_said(entries@) =~= all.take(i as int) + (seq![(key@, value@)] + all.skip(
                i + 1,
            )));
        } else {
            entries.insert(i, (key.to_owned(), value));
            assert(entries_said(entries@) =~= all.take(i as int) + (seq![(key@, value@)] + all.skip(
                i as int,
            )));
        }
        Fields { entries }
    }
}

/// The number of `key` as it is shown to people, or `default` where there is none.
pub open spec fn shown_or(v: JsonView, key: Seq<char>, default: Seq<char>) -> Seq<char> {
    match member(v, key) {
        Some(JsonView::Number(n)) => match n.shown {
            Some(f) => f,
            None => default,
        },
        _ => default,
    }
}

impl Json {
    /// The number of `key` as it is shown to people, or `default`.
    pub fn shown_at(&self, key: &str, default: &str) -> (r: String)
        ensures
            r@ == shown_or(self@, key@, default@),
    {
        match self.get(key) {
            Some(Json::Number(n)) => match &n.shown {
                Some(f) => f.clone(),
                None => default.to_owned(),
            },
            _ => default.to_owned(),
        }
    }
}

// ---------------------------------------------------------------------------
// Laws of writing and of looking inside
// ---------------------------------------------------------------------------

/// A text of printable characters without a quote or a backslash stands between its quotes
/// as it is.
pub proof fn law_plain_text_is_written_as_it_is(s: Seq<char>)
    requires
        forall|i: int| 0 <= i < s.len() ==> ' ' <= #[trigger] s[i] && s[i] != '"' && s[i] != '\\',
    ensures
        escaped(s) == s,
        quoted(s) == seq!['"'] + s + seq!['"'],
    decreases s.len(),
{
    if s.len() > 0 {
        let rest = s.drop_last();
        assert forall|i: int| 0 <= i < rest.len() implies ' ' <= #[trigger] rest[i] && rest[i] != '"'
            && rest[i] != '\\' by {
            assert(rest[i] == s[i]);
        }
        law_plain_text_is_written_as_it_is(rest);
        let c = s[s.len() - 1];
        assert(' ' <= c && c != '"' && c != '\\');
        assert(escaped(s) =~= s);
    }
}

/// What is neither an array nor an object is written on one line: the words of JSON, a number
/// as it is spelled, a text between quotes.
pub proof fn law_leaves_are_written_on_one_line(b: bool, n: NumberView, s: Seq<char>, depth: nat)
    ensures
        compact(JsonView::Null) == "null"@,
        compact(JsonView::Bool(true)) == "true"@,
        compact(JsonView::Bool(false)) == "false"@,
        compact(JsonView::Number(n)) == n.json,
        compact(JsonView::Text(s)) == seq!['"'] + escaped(s) + seq!['"'],
        pretty(JsonView::Null, depth) == compact(JsonView::Null),
        pretty(JsonView::Bool(b), depth) == compact(JsonView::Bool(b)),
        pretty(JsonView::Number(n), depth) == compact(JsonView::Number(n)),
        pretty(JsonView::Text(s), depth) == compact(JsonView::Text(s)),
{
}

/// An array is written item by item: one more item stands behind a comma, before the closing
/// bracket.
pub proof fn law_items_are_written_in_order(items: Seq<JsonView>, x: JsonView)
    ensures
        compact(JsonView::Array(Seq::empty())) == "[]"@,
        compact(JsonView::Array(seq![x])) == "["@ + compact(x) + "]"@,
        items.len() > 0 ==> compact(JsonView::Array(items.push(x))) == compact(
            JsonView::Array(items),
        ).drop_last() + ","@ + compact(x) + "]"@,
{
    reveal_strlit("[");
    reveal_strlit("]");
    reveal_strlit("[]");
    let none = Seq::<JsonView>::empty();
    assert(text::joined(compact_items(none), ","@) =~= Seq::empty());
    assert(compact(JsonView::Array(none)) =~= "[]"@);
    let one = seq![x];
    assert(one.drop_last() =~= none);
    assert(compact_items(one) =~= seq![compact(x)]);
    assert(text::joined(seq![compact(x)], ","@) =~= compact(x));
    let more = items.push(x);
    assert(more.drop_last() =~= items);
    let parts = compact_items(items);
    lemma_item_count(items);
    assert(compact_items(more) == parts.push(compact(x)));
    assert(parts.push(compact(x)).drop_last() =~= parts);
    if items.len() > 0 {
        let whole = text::joined(parts, ","@);
        assert(text::joined(parts.push(compact(x)), ","@) == whole + ","@ + compact(x));
        assert(compact(JsonView::Array(items)).drop_last() =~= "["@ + whole);
        assert(compact(JsonView::Array(more)) =~= "["@ + whole + ","@ + compact(x) + "]"@);
    }
}

proof fn lemma_item_count(items: Seq<JsonView>)
    ensures
        compact_items(items).len() == items.len(),
    decreases items.len(),
{
    if items.len() > 0 {
        lemma_item_count(items.drop_last());
    }
}

/// An object is written entry by entry: one more stands behind a comma, its key between quotes
/// before a colon and its value.
pub proof fn law_entries_are_written_in_order(
    entries: Seq<(Seq<char>, JsonView)>,
    key: Seq<char>,
    x: JsonView,
)
    ensures
        compact(JsonView::Object(Seq::empty())) == "{}"@,
        compact(JsonView::Object(seq![(key, x)])) == "{"@ + quoted(key) + ":"@ + compact(x) + "}"@,
        entries.len() > 0 ==> compact(JsonView::Object(entries.push((key, x)))) == compact(
            JsonView::Object(entries),
        ).drop_last() + ","@ + quoted(key) + ":"@ + compact(x) + "}"@,
{
    reveal_strlit("{");
    reveal_strlit("}");
    reveal_strlit("{}");
    let none = Seq::<(Seq<char>, JsonView)>::empty();
    assert(text::joined(compact_entries(none), ","@) =~= Seq::empty());
    assert(compact(JsonView::Object(none)) =~= "{}"@);
    let e = quoted(key) + ":"@ + compact(x);
    let one = seq![(key, x)];
    assert(one.drop_last() =~= none);
    assert(compact_entries(one) =~= seq![e]);
    assert(text::joined(seq![e], ","@) =~= e);
    assert(compact(JsonView::Object(one)) =~= "{"@ + quoted(key) + ":"@ + compact(x) + "}"@);
    let more = entries.push((key, x));
    assert(more.drop_last() =~= entries);
    let parts = compact_entries(entries);
    lemma_entry_count(entries);
    assert(compact_entries(more) == parts.push(e));
    assert(parts.push(e).drop_last() =~= parts);
    if entries.len() > 0 {
        let whole = text::joined(parts, ","@);
        assert(text::joined(parts.push(e), ","@) == whole + ","@ + e);
        assert(compact(JsonView::Object(entries)).drop_last() =~= "{"@ + whole);
        assert(compact(JsonView::Object(more)) =~= "{"@ + whole + ","@ + quoted(key) + ":"@
            + compact(x) + "}"@);
    }
}

proof fn lemma_entry_count(entries: Seq<(Seq<char>, JsonView)>)
    ensures
        compact_entries(entries).len() == entries.len(),
    decreases entries.len(),
{
    if entries.len() > 0 {
        lemma_entry_count(entries.drop_last());
    }
}

/// What stands under a key is given as it is where it is of the kind that is asked for, and
/// what is given in its place otherwise.
pub proof fn law_values_are_given_as_they_are(
    v: JsonView,
    key: Seq<char>,
    s: Seq<char>,
    b: bool,
    n: NumberView,
)
    ensures
        member(v, key) == Some(JsonView::Text(s)) ==> text_or_empty(v, key) == s,
        !(member(v, key) matches Some(JsonView::Text(_))) ==> text_or_empty(v, key).len() == 0,
        forall|d: bool|
            member(v, key) == Some(JsonView::Bool(b)) ==> #[trigger] bool_or(v, key, d) == b,
        forall|d: bool|
            !(member(v, key) matches Some(JsonView::Bool(_))) ==> #[trigger] bool_or(v, key, d) == d,
        forall|d: i64|
            member(v, key) == Some(JsonView::Number(n)) && n.signed is Some ==> #[trigger] signed_or(
                v,
                key,
                d,
            ) == n.signed->0,
        forall|d: u64|
            member(v, key) == Some(JsonView::Number(n)) && n.unsigned is Some
                ==> #[trigger] unsigned_or(v, key, d) == n.unsigned->0,
        forall|d: Seq<char>|
            member(v, key) == Some(JsonView::Number(n)) && n.float is Some ==> #[trigger] float_or(
                v,
                key,
                d,
            ) == n.float->0,
        forall|d: Seq<char>|
            member(v, key) == Some(JsonView::Number(n)) && n.shown is Some ==> #[trigger] shown_or(
                v,
                key,
                d,
            ) == n.shown->0,
        !(member(v, key) matches Some(JsonView::Number(_))) ==> {
            &&& forall|d: i64| #[trigger] signed_or(v, key, d) == d
            &&& forall|d: u64| #[trigger] unsigned_or(v, key, d) == d
            &&& forall|d: Seq<char>| #[trigger] float_or(v, key, d) == d
            &&& forall|d: Seq<char>| #[trigger] shown_or(v, key, d) == d
        },
{
}

/// A whole number that is written under a key is found there again, by those who ask for one
/// that fits, and is spelled in decimal.
pub proof fn law_whole_numbers_are_found_again(n: int, key: Seq<char>, i: i64, u: u64)
    ensures
        ({
            let v = JsonView::Object(seq![(key, whole(n))]);
            &&& signed_or(v, key, i) == (if i64::MIN <= n <= i64::MAX {
                n as i64
            } else {
                i
            })
            &&& unsigned_or(v, key, u) == (if 0 <= n <= u64::MAX {
                n as u64
            } else {
                u
            })
            &&& compact(whole(n)) == text::int_text(n)
        }),
{
    let entries = seq![(key, whole(n))];
    assert(entries[0].0 == key);
    assert(member(JsonView::Object(entries), key) == Some(whole(n)));
}

/// A missing value is written as null, one that is there as itself.
pub proof fn law_missing_values_are_null(s: Seq<char>, i: i32, u: u64)
    ensures
        text_or_null(None) is Null && signed_or_null(None) is Null && unsigned_or_null(None) is Null,
        text_or_null(Some(s)) == JsonView::Text(s),
        compact(signed_or_null(Some(i))) == text::int_text(i as int),
        compact(unsigned_or_null(Some(u))) == text::dec(u as nat),
        compact(spelled(s)) == s,
{
}

/// A level of a document with lines is indented by two spaces.
pub proof fn law_levels_are_two_spaces(depth: nat)
    ensures
        indent(depth).len() == 2 * depth,
        forall|i: int| 0 <= i < indent(depth).len() ==> #[trigger] indent(depth)[i] == ' ',
    decreases depth,
{
    reveal_strlit("  ");
    if depth > 0 {
        law_levels_are_two_spaces((depth - 1) as nat);
    }
}

/// A document with lines has a line for each item of an array, between lines for the brackets,
/// one level deeper than these; an empty array has none.
pub proof fn law_items_have_lines(items: Seq<JsonView>, x: JsonView, depth: nat)
    ensures
        pretty(JsonView::Array(Seq::empty()), depth) == "[]"@,
        pretty(JsonView::Array(seq![x]), depth) == "[\n"@ + indent(depth + 1) + pretty(x, depth + 1)
            + "\n"@ + indent(depth) + "]"@,
        items.len() > 0 ==> ({
            let end = "\n"@ + indent(depth) + "]"@;
            let before = pretty(JsonView::Array(items), depth);
            before.len() >= end.len() && pretty(JsonView::Array(items.push(x)), depth)
                == before.take(before.len() - end.len()) + ",\n"@ + indent(depth + 1) + pretty(
                x,
                depth + 1,
            ) + end
        }),
{
    reveal_strlit("[");
    reveal_strlit("]");
    reveal_strlit("[]");
    reveal_strlit("\n");
    reveal_strlit("[\n");
    let none = Seq::<JsonView>::empty();
    assert(pretty_items(none, depth + 1).len() == 0);
    assert("["@ + "]"@ =~= "[]"@);
    let one = seq![x];
    let px = pretty(x, depth + 1);
    let ind = indent(depth + 1);
    let sep = ",\n"@ + ind;
    let end = "\n"@ + indent(depth) + "]"@;
    assert(one.drop_last() =~= none);
    assert(pretty_items(one, depth + 1) =~= seq![px]);
    assert(text::joined(seq![px], sep) =~= px);
    assert("["@ + "\n"@ =~= "[\n"@);
    assert(pretty(JsonView::Array(one), depth) =~= "[\n"@ + ind + px + "\n"@ + indent(depth) + "]"@);
    let more = items.push(x);
    assert(more.drop_last() =~= items);
    let parts = pretty_items(items, depth + 1);
    lemma_line_count(items, depth + 1);
    assert(pretty_items(more, depth + 1) == parts.push(px));
    assert(parts.push(px).drop_last() =~= parts);
    if items.len() > 0 {
        let whole = text::joined(parts, sep);
        assert(text::joined(parts.push(px), sep) == whole + sep + px);
        let open = "["@ + "\n"@ + ind;
        let before = pretty(JsonView::Array(items), depth);
        assert(before =~= open + whole + end);
        assert(before.take(before.len() - end.len()) =~= open + whole);
        assert(pretty(JsonView::Array(more), depth) =~= open + whole + ",\n"@ + ind + px + end);
    }
}

proof fn lemma_line_count(items: Seq<JsonView>, depth: nat)
    ensures
        pretty_items(items, depth).len() == items.len(),
    decreases items.len(),
{
    if items.len() > 0 {
        lemma_line_count(items.drop_last(), depth);
    }
}

/// A document with lines has a line for each entry of an object, its key before a colon and a
/// space, between lines for the brackets, one level deeper than these; an empty object has
/// none.
pub proof fn law_entries_have_lines(
    entries: Seq<(Seq<char>, JsonView)>,
    key: Seq<char>,
    x: JsonView,
    depth: nat,
)
    ensures
        pretty(JsonView::Object(Seq::empty()), depth) == "{}"@,
        pretty(JsonView::Object(seq![(key, x)]), depth) == "{\n"@ + indent(depth + 1) + (quoted(key)
            + ": "@ + pretty(x, depth + 1)) + "\n"@ + indent(depth) + "}"@,
        entries.len() > 0 ==> ({
            let end = "\n"@ + indent(depth) + "}"@;
            let before = pretty(JsonView::Object(entries), depth);
            before.len() >= end.len() && pretty(JsonView::Object(entries.push((key, x))), depth)
                == before.take(before.len() - end.len()) + ",\n"@ + indent(depth + 1) + (quoted(key)
                + ": "@ + pretty(x, depth + 1)) + end
        }),
{
    reveal_strlit("{");
    reveal_strlit("}");
    reveal_strlit("{}");
    reveal_strlit("\n");
    reveal_strlit("{\n");
    let none = Seq::<(Seq<char>, JsonView)>::empty();
    assert(pretty_entries(none, depth + 1).len() == 0);
    assert("{"@ + "}"@ =~= "{}"@);
    let one = seq![(key, x)];
    let px = quoted(key) + ": "@ + pretty(x, depth + 1);
    let ind = indent(depth + 1);
    let sep = ",\n"@ + ind;
    let end = "\n"@ + indent(depth) + "}"@;
    assert(one.drop_last() =~= none);
    assert(pretty_entries(one, depth + 1) =~= seq![px]);
    assert(text::joined(seq![px], sep) =~= px);
    assert("{"@ + "\n"@ =~= "{\n"@);
    assert(pretty(JsonView::Object(one), depth) =~= "{\n"@ + ind + px + "\n"@ + indent(depth) + "}"@);
    let more = entries.push((key, x));
    assert(more.drop_last() =~= entries);
    let parts = pretty_entries(entries, depth + 1);
    lemma_entry_line_count(entries, depth + 1);
    assert(pretty_entries(more, depth + 1) == parts.push(px));
    assert(parts.push(px).drop_last() =~= parts);
    if entries.len() > 0 {
        let whole = text::joined(parts, sep);
        assert(text::joined(parts.push(px), sep) == whole + sep + px);
        let open = "{"@ + "\n"@ + ind;
        let before = pretty(JsonView::Object(entries), depth);
        assert(before =~= open + whole + end);
        assert(before.take(before.len() - end.len()) =~= open + whole);
        assert(pretty(JsonView::Object(more), depth) =~= open + whole + ",\n"@ + ind + px + end);
    }
}

proof fn lemma_entry_line_count(entries: Seq<(Seq<char>, JsonView)>, depth: nat)
    ensures
        pretty_entries(entries, depth).len() == entries.len(),
    decreases entries.len(),
{
    if entries.len() > 0 {
        lemma_entry_line_count(entries.drop_last(), depth);
    }
}

} // verus!
