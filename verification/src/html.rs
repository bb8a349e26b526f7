//! Text inside HTML.

use crate::text;
use vstd::prelude::*;

verus! {

/// How a character stands in HTML.
pub open spec fn html_char(c: char) -> Seq<char> {
    if c == '&' {
        "&amp;"@
    } else if c == '<' {
        "&lt;"@
    } else if c == '>' {
        "&gt;"@
    } else if c == '"' {
        "&quot;"@
    } else {
        seq![c]
    }
}

/// A text as it stands in HTML, be it in markup or in an attribute.
pub open spec fn escaped(s: Seq<char>) -> Seq<char>
    decreases s.len(),
{
    if s.len() == 0 {
        Seq::empty()
    } else {
        escaped(s.drop_last()) + html_char(s.last())
    }
}

/// A text as it stands in HTML, be it in markup or in an attribute.
pub fn esc(s: &str) -> (r: String)
    ensures
        r@ == escaped(s@),
{
    let v = text::chars_of(s);
    let mut out = String::new();
    let mut i: usize = 0;
    assert(v@.take(0) =~= Seq::empty());
    while i < v.len()
        invariant
            i <= v.len(),
            out@ == escaped(v@.take(i as int)),
        decreases v.len() - i,
    {
        let c = v[i];
        let ghost next = v@.take(i + 1);
        assert(next.drop_last() =~= v@.take(i as int));
        let ghost before = out@;
        if c == '&' {
            out.push_str("&amp;");
        } else if c == '<' {
            out.push_str("&lt;");
        } else if c == '>' {
            out.push_str("&gt;");
        } else if c == '"' {
            out.push_str("&quot;");
        } else {
            out.push(c);
            assert(out@ =~= before + seq![c]);
        }
        i += 1;
    }
    assert(v@.take(i as int) =~= v@);
    out
}

/// Whether a text holds nothing that opens or closes a tag or an attribute.
pub open spec fn inert(s: Seq<char>) -> bool {
    forall|i: int| 0 <= i < s.len() ==> s[i] != '<' && s[i] != '>' && s[i] != '"'
}

/// Whatever the text, what stands in the HTML is inert.
pub proof fn law_escaped_is_inert(s: Seq<char>)
    ensures
        inert(escaped(s)),
    decreases s.len(),
{
    if s.len() > 0 {
        law_escaped_is_inert(s.drop_last());
        reveal_strlit("&amp;");
        reveal_strlit("&lt;");
        reveal_strlit("&gt;");
        reveal_strlit("&quot;");
    }
}

/// What a browser takes a stretch of HTML for that holds no tag: the four entities stand
/// for their characters, the rest for itself.
pub open spec fn read(s: Seq<char>) -> Seq<char>
    decreases s.len(),
{
    if s.len() == 0 {
        Seq::empty()
    } else if s.len() >= 5 && s.take(5) == "&amp;"@ {
        seq!['&'] + read(s.skip(5))
    } else if s.len() >= 4 && s.take(4) == "&lt;"@ {
        seq!['<'] + read(s.skip(4))
    } else if s.len() >= 4 && s.take(4) == "&gt;"@ {
        seq!['>'] + read(s.skip(4))
    } else if s.len() >= 6 && s.take(6) == "&quot;"@ {
        seq!['"'] + read(s.skip(6))
    } else {
        seq![s[0]] + read(s.skip(1))
    }
}

proof fn lemma_escaped_front(s: Seq<char>)
    requires
        s.len() > 0,
    ensures
        escaped(s) == html_char(s[0]) + escaped(s.skip(1)),
    decreases s.len(),
{
    if s.len() == 1 {
        assert(s.drop_last() =~= Seq::empty());
        assert(s.skip(1) =~= Seq::empty());
        assert(escaped(s) =~= html_char(s[0]) + escaped(s.skip(1)));
    } else {
        lemma_escaped_front(s.drop_last());
        assert(s.drop_last().skip(1) =~= s.skip(1).drop_last());
        assert(escaped(s) =~= html_char(s[0]) + escaped(s.skip(1)));
    }
}

/// Whatever the text, a browser shows it as it is.
pub proof fn law_escaped_reads_back(s: Seq<char>)
    ensures
        read(escaped(s)) == s,
    decreases s.len(),
{
    reveal_strlit("&amp;");
    reveal_strlit("&lt;");
    reveal_strlit("&gt;");
    reveal_strlit("&quot;");
    if s.len() > 0 {
        lemma_escaped_front(s);
        law_escaped_reads_back(s.skip(1));
        let e = escaped(s);
        let head = html_char(s[0]);
        let rest = escaped(s.skip(1));
        assert(e.take(head.len() as int) =~= head);
        assert(e.skip(head.len() as int) =~= rest);
        assert(e[0] == head[0]);
        if head.len() == 1 {
            assert(e.len() >= 5 ==> e.take(5)[0] == e[0]);
            assert(e.len() >= 4 ==> e.take(4)[0] == e[0]);
            assert(e.len() >= 6 ==> e.take(6)[0] == e[0]);
        } else if s[0] == '<' {
            assert(e.len() >= 5 ==> e.take(5)[1] == head[1]);
        } else if s[0] == '>' {
            assert(e.len() >= 5 ==> e.take(5)[1] == head[1]);
            assert(e.take(4)[1] == 'g');
        } else if s[0] == '"' {
            assert(e.take(5)[1] == 'q');
            assert(e.take(4)[1] == 'q');
        }
        assert(read(e) =~= seq![s[0]] + read(rest));
        assert(s =~= seq![s[0]] + s.skip(1));
    }
}

/// A text between two tags, escaped.
pub open spec fn pre(s: Seq<char>) -> Seq<char> {
    "<pre>"@ + escaped(s) + "</pre>"@
}

/// A text as a preformatted block.
pub fn pre_block(s: &str) -> (r: String)
    ensures
        r@ == pre(s@),
{
    let mut out = "<pre>".to_owned();
    out.push_str(esc(s).as_str());
    out.push_str("</pre>");
    out
}

} // verus!
