//! What runs on the machine, as the panel shows it.

use crate::ipc_console;
use crate::ipc_console::pretty_text;
use crate::json;
use crate::json::{parse_json, Json};
use crate::text;
use vstd::prelude::*;

verus! {

/// A process.
#[derive(Debug, Clone, PartialEq, Eq)]
pub struct ProcRow {
    pub pid: String,
    pub pcpu: String,
    pub pmem: String,
    pub comm: String,
}

/// A process.
pub struct ProcShown {
    pub pid: Seq<char>,
    pub pcpu: Seq<char>,
    pub pmem: Seq<char>,
    pub comm: Seq<char>,
}

impl View for ProcRow {
    type V = ProcShown;

    open spec fn view(&self) -> ProcShown {
        ProcShown { pid: self.pid@, pcpu: self.pcpu@, pmem: self.pmem@, comm: self.comm@ }
    }
}

/// The processes that rows tell of.
pub open spec fn rows_shown(rows: Seq<ProcRow>) -> Seq<ProcShown> {
    Seq::new(rows.len(), |i: int| rows[i]@)
}

/// The process that the words of a line tell of: three columns, and the name in
/// what is left. A line with less tells of none.
pub open spec fn row_of(words: Seq<Seq<char>>) -> Option<ProcShown> {
    if words.len() < 4 {
        None
    } else {
        Some(
            ProcShown {
                pid: words[0],
                pcpu: words[1],
                pmem: words[2],
                comm: text::joined(words.skip(3), " "@),
            },
        )
    }
}

/// The processes that lines tell of.
pub open spec fn rows_of(lines: Seq<Seq<char>>) -> Seq<ProcShown>
    decreases lines.len(),
{
    if lines.len() == 0 {
        Seq::empty()
    } else {
        match row_of(text::words_of(lines.last())) {
            Some(row) => rows_of(lines.drop_last()).push(row),
            None => rows_of(lines.drop_last()),
        }
    }
}

/// The processes in a table of `ps` with a header: all lines but the first.
pub open spec fn table_rows(lines: Seq<Seq<char>>) -> Seq<ProcShown> {
    if lines.len() == 0 {
        Seq::empty()
    } else {
        rows_of(lines.skip(1))
    }
}

fn read_row(line: &str) -> (r: Option<ProcRow>)
    ensures
        match row_of(text::words_of(line@)) {
            Some(row) => r matches Some(p) && p@ == row,
            None => r is None,
        },
{
    let w = text::words(line);
    if w.len() < 4 {
        return None;
    }
    let ghost all = text::views(w@);
    let mut rest: Vec<String> = Vec::new();
    let mut i: usize = 3;
    while i < w.len()
        invariant
            3 <= i <= w.len(),
            rest@.len() == i - 3,
            forall|k: int| 0 <= k < i - 3 ==> (#[trigger] rest@[k])@ == w@[k + 3]@,
        decreases w.len() - i,
    {
        rest.push(w[i].clone());
        i += 1;
    }
    assert(text::views(rest@) =~= all.skip(3));
    Some(
        ProcRow {
            pid: w[0].clone(),
            pcpu: w[1].clone(),
            pmem: w[2].clone(),
            comm: text::join(&rest, " "),
        },
    )
}

/// The processes in a table of `ps` with a header.
pub fn parse_top_processes(raw: &str) -> (r: Vec<ProcRow>)
    ensures
        rows_shown(r@) == table_rows(text::lines_of(raw@)),
{
    let lines = text::lines(raw);
    let ghost all = text::views(lines@);
    let mut rows: Vec<ProcRow> = Vec::new();
    assert(rows_shown(rows@) =~= Seq::empty());
    if lines.len() == 0 {
        return rows;
    }
    let ghost body = all.skip(1);
    let mut i: usize = 1;
    assert(body.take(0) =~= Seq::empty());
    while i < lines.len()
        invariant
            1 <= i <= lines.len(),
            all == text::views(lines@),
            body == all.skip(1),
            rows_shown(rows@) == rows_of(body.take(i - 1)),
        decreases lines.len() - i,
    {
        let ghost next = body.take(i as int);
        assert(next.drop_last() =~= body.take(i - 1));
        assert(next.last() == lines@[i as int]@);
        match read_row(lines[i].as_str()) {
            Some(row) => {
                let ghost before = rows@;
                rows.push(row);
                assert(rows_shown(rows@) =~= rows_shown(before).push(row@));
            },
            None => {},
        }
        i += 1;
    }
    assert(body.take(i - 1) =~= body);
    rows
}

/// A window of the compositor.
#[derive(Debug, Clone, PartialEq, Eq)]
pub struct HyprClientView {
    pub class: String,
    pub title: String,
    pub workspace: String,
    pub address: String,
}

/// Whether a document is an object without entries.
pub open spec fn is_empty_object(read: Result<json::JsonView, Seq<char>>) -> bool {
    match read {
        Ok(json::JsonView::Object(entries)) => entries.len() == 0,
        _ => false,
    }
}

/// Whether a document is an object without entries, given how the text reads.
pub fn empty_object(read: &Result<Json, String>) -> (r: bool)
    ensures
        r == (match *read {
            Ok(v) => v@ matches json::JsonView::Object(entries) && entries.len() == 0,
            Err(_) => false,
        }),
{
    match read {
        Ok(v) => {
            proof {
                json::lemma_said(*v);
            }
            match v {
                Json::Object(entries) => entries.len() == 0,
                _ => false,
            }
        },
        Err(_) => false,
    }
}

/// Whether a text is an object without entries, which stands for no active window.
pub fn is_empty_json_object(s: &str) -> (r: bool)
    ensures
        r == is_empty_object(json::json_read(s@)),
        s@ == "{}"@ ==> r,
{
    let read = parse_json(s);
    proof {
        lemma_braces(s@);
    }
    empty_object(&read)
}

proof fn lemma_braces(s: Seq<char>)
    requires
        json::reads_back(s),
    ensures
        s == "{}"@ ==> is_empty_object(json::json_read(s)),
{
    let v = json::JsonView::Object(Seq::empty());
    reveal_strlit("{}");
    reveal_strlit("{");
    reveal_strlit("}");
    assert(json::compact(v) =~= "{}"@);
    assert(s == "{}"@ ==> json::spells(s, v));
    assert(json::plain(v, json::DEPTH as nat));
}

/// What is shown of a reply: JSON laid out, anything else as it is, an error as its
/// text.
pub open spec fn shown(reply: Result<String, String>) -> Seq<char> {
    match reply {
        Ok(s) => ipc_console::laid_out(s@, json::json_read(s@)),
        Err(e) => e@,
    }
}

/// What is shown of a reply.
pub fn pretty_or_raw(reply: &Result<String, String>) -> (r: String)
    ensures
        r@ == shown(*reply),
        *reply matches Ok(s) ==> json::reads_back(s@),
{
    match reply {
        Ok(s) => pretty_text(s.as_str()),
        Err(e) => e.as_str().to_owned(),
    }
}

/// How the reply about the windows read.
#[derive(Debug, PartialEq, Eq)]
pub enum ClientsReply {
    Read(Vec<HyprClientView>),
    /// It could not be read, for this reason.
    Unreadable(String),
    /// There was none, for this reason.
    Failed(String),
}

/// What the page shows.
#[derive(Debug, PartialEq, Eq)]
pub struct ProcessesView {
    /// Whether the compositor answered anything.
    pub hypr_available: bool,
    pub hypr_active: String,
    /// Whether no window is active.
    pub hypr_active_empty: bool,
    pub hypr_clients_rows: Vec<HyprClientView>,
    pub hypr_clients_error: String,
    pub hypr_monitors: String,
    pub top_rows: Vec<ProcRow>,
    pub top_error: String,
}

/// What the page shows of three replies and of the table of processes. One reply
/// that fails does not blank the others.
pub fn render_page(
    active: Result<String, String>,
    clients: ClientsReply,
    monitors: Result<String, String>,
    top: Result<String, String>,
) -> (r: ProcessesView)
    ensures
        r.hypr_available == (active is Ok || !(clients is Failed) || monitors is Ok),
        r.hypr_active@ == shown(active),
        r.hypr_active_empty == is_empty_object(json::json_read(shown(active))),
        active matches Ok(reply) && reply@ == "{}"@ ==> r.hypr_active_empty,
        r.hypr_monitors@ == shown(monitors),
        match clients {
            ClientsReply::Read(list) => r.hypr_clients_rows == list
                && r.hypr_clients_error@.len() == 0,
            ClientsReply::Unreadable(e) => r.hypr_clients_rows@.len() == 0
                && r.hypr_clients_error@ == "failed to parse hypr-clients reply: "@ + e@,
            ClientsReply::Failed(e) => r.hypr_clients_rows@.len() == 0 && r.hypr_clients_error@
                == e@,
        },
        match top {
            Ok(out) => rows_shown(r.top_rows@) == table_rows(text::lines_of(out@))
                && r.top_error@.len() == 0,
            Err(e) => r.top_rows@.len() == 0 && r.top_error@ == "ps failed: "@ + e@,
        },
{
    let hypr_available = active.is_ok() || !matches!(clients, ClientsReply::Failed(_))
        || monitors.is_ok();
    let (hypr_clients_rows, hypr_clients_error) = match clients {
        ClientsReply::Read(list) => (list, String::new()),
        ClientsReply::Unreadable(e) => {
            let mut m = "failed to parse hypr-clients reply: ".to_owned();
            m.push_str(e.as_str());
            (Vec::new(), m)
        },
        ClientsReply::Failed(e) => (Vec::new(), e),
    };
    let (top_rows, top_error) = match &top {
        Ok(out) => (parse_top_processes(out.as_str()), String::new()),
        Err(e) => {
            let mut m = "ps failed: ".to_owned();
            m.push_str(e.as_str());
            (Vec::new(), m)
        },
    };
    let hypr_active = pretty_or_raw(&active);
    proof {
        reveal_strlit("{}");
        reveal_strlit("{");
        reveal_strlit("}");
        if let Ok(reply) = active {
            lemma_braces(reply@);
            if reply@ == "{}"@ {
                assert(hypr_active@ =~= "{}"@);
            }
        }
    }
    let hypr_active_empty = is_empty_json_object(hypr_active.as_str());
    ProcessesView {
        hypr_available,
        hypr_active,
        hypr_active_empty,
        hypr_clients_rows,
        hypr_clients_error,
        hypr_monitors: pretty_or_raw(&monitors),
        top_rows,
        top_error,
    }
}

/// A process is told of by its line: number, shares and the name, which may hold spaces;
/// `at` says which line each process is. The first line is the heading, and a line with less
/// tells of none.
pub proof fn law_processes_are_read_from_their_lines(lines: Seq<Seq<char>>) -> (at: Seq<int>)
    ensures
        at.len() == rows_of(lines).len(),
        forall|i: int|
            0 <= i < at.len() ==> {
                let words = text::words_of(lines[#[trigger] at[i]]);
                let row = rows_of(lines)[i];
                &&& 0 <= at[i] < lines.len()
                &&& words.len() >= 4
                &&& row.pid == words[0] && row.pcpu == words[1] && row.pmem == words[2]
                &&& row.comm == text::joined(words.skip(3), seq![' '])
            },
        forall|i: int, j: int| 0 <= i < j < at.len() ==> #[trigger] at[i] < #[trigger] at[j],
        forall|k: int|
            0 <= k < lines.len() && !at.contains(k) ==> text::words_of(#[trigger] lines[k]).len()
                < 4,
    decreases lines.len(),
{
    reveal_strlit(" ");
    assert(" "@ =~= seq![' ']);
    if lines.len() == 0 {
        Seq::empty()
    } else {
        let rest = lines.drop_last();
        let before = law_processes_are_read_from_their_lines(rest);
        let n = lines.len() - 1;
        let all = rows_of(lines);
        assert forall|i: int| 0 <= i < before.len() implies lines[#[trigger] before[i]]
            == rest[before[i]] && all[i] == rows_of(rest)[i] by {}
        if text::words_of(lines[n]).len() >= 4 {
            let at = before.push(n);
            assert forall|i: int| 0 <= i < at.len() implies {
                let words = text::words_of(lines[#[trigger] at[i]]);
                let row = all[i];
                &&& 0 <= at[i] < lines.len()
                &&& words.len() >= 4
                &&& row.pid == words[0] && row.pcpu == words[1] && row.pmem == words[2]
                &&& row.comm == text::joined(words.skip(3), seq![' '])
            } by {
                if i < before.len() {
                    assert(at[i] == before[i]);
                }
            }
            assert forall|k: int| 0 <= k < lines.len() && !at.contains(k) implies text::words_of(
                #[trigger] lines[k],
            ).len() < 4 by {
                if k < n {
                    assert(rest[k] == lines[k]);
                    if before.contains(k) {
                        let i = choose|i: int| 0 <= i < before.len() && before[i] == k;
                        assert(at[i] == k);
                    }
                } else {
                    assert(at[at.len() - 1] == k);
                }
            }
            at
        } else {
            assert forall|k: int| 0 <= k < lines.len() && !before.contains(k) implies text::words_of(
                #[trigger] lines[k],
            ).len() < 4 by {
                if k < n {
                    assert(rest[k] == lines[k]);
                }
            }
            before
        }
    }
}

/// The heading of the table is no process, whatever it says.
pub proof fn law_heading_is_no_process(heading: Seq<char>, lines: Seq<Seq<char>>)
    ensures
        table_rows(seq![heading] + lines) == rows_of(lines),
        table_rows(Seq::empty()).len() == 0,
{
    assert((seq![heading] + lines).skip(1) =~= lines);
}

/// A reply is shown laid out where it is JSON and as it came otherwise, and an error as its
/// text; an object without entries, and nothing else, stands for no active window.
pub proof fn law_replies_are_shown(
    reply: String,
    e: String,
    v: json::JsonView,
    why: Seq<char>,
)
    ensures
        json::json_read(reply@) == Ok::<json::JsonView, Seq<char>>(v) ==> shown(Ok(reply))
            == json::pretty(v, 0),
        json::json_read(reply@) is Err ==> shown(Ok(reply)) == reply@,
        shown(Err(e)) == e@,
        is_empty_object(Ok(v)) <==> v == json::JsonView::Object(Seq::empty()),
        !is_empty_object(Err(why)),
{
    if let json::JsonView::Object(entries) = v {
        if entries.len() == 0 {
            assert(entries =~= Seq::empty());
        }
    }
}

} // verus!
