//! Lines for the daemon that come from forms, and what is shown of its replies.

use crate::html;
use crate::html::pre_block;
use crate::json;
use crate::json::{parse_json, Json};
use crate::text;
use vstd::prelude::*;

verus! {

/// What is shown after a command.
#[derive(Debug, Clone, PartialEq, Eq)]
pub struct IpcResult {
    pub ok: bool,
    pub warning: String,
    /// Markup, put into the page as it is.
    pub body_html: String,
}

/// What is shown after a command.
pub struct IpcShown {
    pub ok: bool,
    pub warning: Seq<char>,
    pub body_html: Seq<char>,
}

impl View for IpcResult {
    type V = IpcShown;

    open spec fn view(&self) -> IpcShown {
        IpcShown { ok: self.ok, warning: self.warning@, body_html: self.body_html@ }
    }
}

/// What is shown after a command.
pub fn result_html(ok: bool, warning: &str, body_html: &str) -> (r: IpcResult)
    ensures
        r@ == (IpcShown { ok, warning: warning@, body_html: body_html@ }),
{
    IpcResult { ok, warning: warning.to_owned(), body_html: body_html.to_owned() }
}

/// What is shown of a failure.
pub open spec fn failure(message: Seq<char>) -> IpcShown {
    IpcShown { ok: false, warning: Seq::empty(), body_html: html::pre(message) }
}

/// What is shown of a failure.
pub fn error_result(message: &str) -> (r: IpcResult)
    ensures
        r@ == failure(message@),
{
    IpcResult { ok: false, warning: String::new(), body_html: pre_block(message) }
}

/// A reply laid out: JSON with indentation, anything else as it is.
pub open spec fn laid_out(reply: Seq<char>, read: Result<json::JsonView, Seq<char>>) -> Seq<char> {
    match read {
        Ok(v) => json::pretty(v, 0),
        Err(_) => reply,
    }
}

/// A reply laid out, given how it reads as JSON.
pub fn lay_out(reply: &str, read: &Result<Json, String>) -> (r: String)
    ensures
        r@ == (match *read {
            Ok(v) => json::pretty(v@, 0),
            Err(_) => reply@,
        }),
{
    match read {
        Ok(v) => v.to_pretty(),
        Err(_) => reply.to_owned(),
    }
}

/// A reply laid out.
pub fn pretty_text(reply: &str) -> (r: String)
    ensures
        r@ == laid_out(reply@, json::json_read(reply@)),
        json::reads_back(reply@),
{
    lay_out(reply, &parse_json(reply))
}

/// A reply laid out, as a block of the page.
pub fn pretty_block(reply: &str) -> (r: String)
    ensures
        r@ == html::pre(laid_out(reply@, json::json_read(reply@))),
{
    pre_block(pretty_text(reply).as_str())
}

/// What is shown of the reply to a line, or of the error in its place.
pub fn run_line(reply: Result<String, String>) -> (r: IpcResult)
    ensures
        match reply {
            Ok(s) => r@ == (IpcShown {
                ok: true,
                warning: Seq::empty(),
                body_html: html::pre(laid_out(s@, json::json_read(s@))),
            }),
            Err(e) => r@ == failure(e@),
        },
{
    match reply {
        Ok(s) => IpcResult {
            ok: true,
            warning: String::new(),
            body_html: pretty_block(s.as_str()),
        },
        Err(e) => error_result(e.as_str()),
    }
}

/// What a form comes to.
#[derive(Debug, Clone, PartialEq, Eq)]
pub enum Ask {
    /// A line to be sent to the daemon.
    Line(String),
    /// What is shown at once.
    Shown(IpcResult),
}

/// What a form comes to.
pub enum AskView {
    Line(Seq<char>),
    Shown(IpcShown),
}

impl View for Ask {
    type V = AskView;

    open spec fn view(&self) -> AskView {
        match *self {
            Ask::Line(s) => AskView::Line(s@),
            Ask::Shown(r) => AskView::Shown(r@),
        }
    }
}

/// A line that ends in a checked text, or what is shown where the check failed.
pub open spec fn line_with(head: Seq<char>, checked: Result<Seq<char>, Seq<char>>) -> AskView {
    match checked {
        Ok(t) => AskView::Line(head + t),
        Err(e) => AskView::Shown(failure(e)),
    }
}

/// A line that ends in a checked text, or what is shown where the check failed.
pub fn line_of(head: &str, checked: Result<String, String>) -> (r: Ask)
    ensures
        r@ == line_with(
            head@,
            match checked {
                Ok(t) => Ok(t@),
                Err(e) => Err(e@),
            },
        ),
{
    match checked {
        Ok(t) => {
            let mut line = head.to_owned();
            line.push_str(t.as_str());
            Ask::Line(line)
        },
        Err(e) => Ask::Shown(error_result(e.as_str())),
    }
}

// ---------------------------------------------------------------------------
// Checks
// ---------------------------------------------------------------------------

/// Whether a character would break a word of a command.
pub open spec fn breaks_word(c: char) -> bool {
    text::is_white(c) || text::is_ctrl(c)
}

/// Whether a text is one word of a command.
pub open spec fn is_word(s: Seq<char>) -> bool {
    s.len() > 0 && forall|i: int| 0 <= i < s.len() ==> !breaks_word(#[trigger] s[i])
}

/// A text that is to be one word of a command, without the white space around it,
/// or what is wrong with it.
pub open spec fn word_of(s: Seq<char>) -> Result<Seq<char>, Seq<char>> {
    let t = text::trimmed(s);
    if t.len() == 0 {
        Err("value must not be empty"@)
    } else if is_word(t) {
        Ok(t)
    } else {
        Err(
            "value "@ + text::debugged(t)
                + " must not contain whitespace or control characters"@,
        )
    }
}

fn has_break(s: &str) -> (r: bool)
    ensures
        r == exists|i: int| 0 <= i < s@.len() && breaks_word(#[trigger] s@[i]),
{
    let v = text::chars_of(s);
    let mut i: usize = 0;
    while i < v.len()
        invariant
            i <= v.len(),
            v@ == s@,
            forall|k: int| 0 <= k < i ==> !breaks_word(#[trigger] s@[k]),
        decreases v.len() - i,
    {
        if text::is_whitespace(v[i]) || text::is_control(v[i]) {
            assert(breaks_word(s@[i as int]));
            return true;
        }
        i += 1;
    }
    false
}

/// Checks a text that is to be one word of a command.
pub fn validate_token(s: &str) -> (r: Result<String, String>)
    ensures
        match word_of(s@) {
            Ok(t) => r matches Ok(v) && v@ == t,
            Err(e) => r matches Err(m) && m@ == e,
        },
{
    let t = text::trim(s);
    if t.as_str().is_empty() {
        return Err("value must not be empty".to_owned());
    }
    if has_break(t.as_str()) {
        let mut m = "value ".to_owned();
        m.push_str(text::debug_text(t.as_str()).as_str());
        m.push_str(" must not contain whitespace or control characters");
        return Err(m);
    }
    Ok(t)
}

/// A text that is to be the name of a network interface, which becomes part of a
/// path: a word without slashes and without two dots in a row.
pub open spec fn iface_of(s: Seq<char>) -> Result<Seq<char>, Seq<char>> {
    match word_of(s) {
        Err(e) => Err(e),
        Ok(t) => if t.contains('/') || text::has_text(t, ".."@) {
            Err("invalid interface name "@ + text::debugged(t))
        } else {
            Ok(t)
        },
    }
}

/// Checks the name of a network interface.
pub fn validate_iface(s: &str) -> (r: Result<String, String>)
    ensures
        match iface_of(s@) {
            Ok(t) => r matches Ok(v) && v@ == t,
            Err(e) => r matches Err(m) && m@ == e,
        },
{
    match validate_token(s) {
        Err(e) => Err(e),
        Ok(t) => {
            let v = text::chars_of(t.as_str());
            assert(v@.skip(0) =~= v@);
            let slash = text::find_from(&v, 0, '/');
            proof {
                text::lemma_first_of(t@, '/');
            }
            if slash < v.len() || text::contains_text(t.as_str(), "..") {
                let mut m = "invalid interface name ".to_owned();
                m.push_str(text::debug_text(t.as_str()).as_str());
                Err(m)
            } else {
                Ok(t)
            }
        },
    }
}

/// A checked word stays one word: whatever was typed, it adds one word to the
/// command and no other line.
pub proof fn law_checked_is_one_word(s: Seq<char>)
    requires
        word_of(s) is Ok,
    ensures
        text::words_of(word_of(s)->Ok_0) == seq![word_of(s)->Ok_0],
        !word_of(s)->Ok_0.contains('\n'),
        !word_of(s)->Ok_0.contains('\r'),
{
    let t = word_of(s)->Ok_0;
    lemma_word_len(t);
    assert(!text::is_white(t[0]));
    text::lemma_trimmed_fixed(t);
    assert(t.take(t.len() as int) =~= t);
    assert(t.skip(t.len() as int) =~= Seq::<char>::empty());
    assert(text::trimmed_start(Seq::<char>::empty()) =~= Seq::<char>::empty());
    assert(text::words_of(Seq::<char>::empty()) =~= Seq::<Seq<char>>::empty());
    assert(text::words_of(t) =~= seq![t]);
    if t.contains('\n') {
        let i = choose|i: int| 0 <= i < t.len() && t[i] == '\n';
        assert(breaks_word(t[i]));
    }
    if t.contains('\r') {
        let i = choose|i: int| 0 <= i < t.len() && t[i] == '\r';
        assert(breaks_word(t[i]));
    }
}

proof fn lemma_word_len(t: Seq<char>)
    requires
        forall|i: int| 0 <= i < t.len() ==> !breaks_word(#[trigger] t[i]),
    ensures
        text::word_len(t) == t.len(),
    decreases t.len(),
{
    if t.len() > 0 {
        assert(!breaks_word(t[0]));
        assert forall|i: int| 0 <= i < t.skip(1).len() implies !breaks_word(#[trigger] t.skip(1)[i]) by {
            assert(t.skip(1)[i] == t[i + 1]);
        }
        lemma_word_len(t.skip(1));
    }
}

/// A word that is typed with white space around it is that word, and what holds white space
/// or control characters within, or nothing, is refused.
pub proof fn law_words_are_taken_as_typed(s: Seq<char>)
    ensures
        word_of(s) matches Ok(t) ==> t == text::trimmed(s) && t.len() > 0,
        word_of(s) is Ok <==> text::trimmed(s).len() > 0 && forall|i: int|
            0 <= i < text::trimmed(s).len() ==> !text::is_white(#[trigger] text::trimmed(s)[i])
                && !text::is_ctrl(text::trimmed(s)[i]),
{
    let t = text::trimmed(s);
    if t.len() > 0 && forall|i: int|
        0 <= i < t.len() ==> !text::is_white(#[trigger] t[i]) && !text::is_ctrl(t[i]) {
        assert(is_word(t));
    }
    if is_word(t) {
        assert forall|i: int| 0 <= i < t.len() implies !text::is_white(#[trigger] t[i])
            && !text::is_ctrl(t[i]) by {
            assert(!breaks_word(t[i]));
        }
    }
}

/// The name of an interface leads nowhere else in a path: it is a word without a slash and
/// without two dots in a row; and every such word is one.
pub proof fn law_interfaces_stay_in_their_place(s: Seq<char>)
    ensures
        iface_of(s) matches Ok(t) ==> word_of(s) == Ok::<Seq<char>, Seq<char>>(t) && !t.contains('/')
            && !text::has_text(t, ".."@),
        word_of(s) matches Ok(t) ==> (!t.contains('/') && !text::has_text(t, ".."@) ==> iface_of(s)
            == Ok::<Seq<char>, Seq<char>>(t)),
        word_of(s) is Err ==> iface_of(s) is Err,
{
}

/// A form whose text is in order comes to its line, and one whose text is not is answered at
/// once: it fails, and nothing is sent.
pub proof fn law_only_checked_lines_are_sent(
    head: Seq<char>,
    checked: Result<Seq<char>, Seq<char>>,
)
    ensures
        checked matches Ok(t) ==> line_with(head, checked) == AskView::Line(head + t),
        checked matches Err(e) ==> (line_with(head, checked) matches AskView::Shown(r) && !r.ok
            && r.warning.len() == 0 && r.body_html == "<pre>"@ + html::escaped(e) + "</pre>"@),
{
}

/// JSON is laid out with indentation, and anything else shown as it came.
pub proof fn law_replies_are_laid_out(reply: Seq<char>, v: json::JsonView, e: Seq<char>)
    ensures
        laid_out(reply, Ok(v)) == json::pretty(v, 0),
        laid_out(reply, Err(e)) == reply,
{
}

/// What is shown of a failure is what is said of it, and that it is one.
pub proof fn law_failures_are_shown(message: Seq<char>)
    ensures
        !failure(message).ok,
        failure(message).warning.len() == 0,
        failure(message).body_html == "<pre>"@ + html::escaped(message) + "</pre>"@,
{
}

/// What is no word is refused with what is wrong with it, and so is a word that leads out of
/// the directory of the interfaces.
pub proof fn law_refused_words_are_named(s: Seq<char>)
    ensures
        text::trimmed(s).len() == 0 ==> word_of(s) == Err::<Seq<char>, Seq<char>>(
            "value must not be empty"@,
        ),
        text::trimmed(s).len() > 0 && word_of(s) is Err ==> word_of(s) == Err::<
            Seq<char>,
            Seq<char>,
        >(
            "value "@ + text::debugged(text::trimmed(s))
                + " must not contain whitespace or control characters"@,
        ),
        word_of(s) is Err ==> iface_of(s) == word_of(s),
        word_of(s) is Ok && iface_of(s) is Err ==> iface_of(s) == Err::<Seq<char>, Seq<char>>(
            "invalid interface name "@ + text::debugged(text::trimmed(s)),
        ),
{
}

} // verus!
