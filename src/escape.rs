//! HTML escaping of the text that is placed into the preview page.

use vstd::prelude::*;

verus! {

/// Characters that have a meaning in HTML markup or in a quoted attribute.
pub open spec fn is_markup_char(c: char) -> bool {
    c == '&' || c == '<' || c == '>' || c == '"' || c == '\''
}

/// The text that stands in the page for one character.
pub open spec fn escape_char(c: char) -> Seq<char> {
    if c == '&' {
        seq!['&', 'a', 'm', 'p', ';']
    } else if c == '<' {
        seq!['&', 'l', 't', ';']
    } else if c == '>' {
        seq!['&', 'g', 't', ';']
    } else if c == '"' {
        seq!['&', 'q', 'u', 'o', 't', ';']
    } else if c == '\'' {
        seq!['&', '#', '3', '9', ';']
    } else {
        seq![c]
    }
}

/// The text that stands in the page for `s`: each character escaped in turn.
pub open spec fn escape_text(s: Seq<char>) -> Seq<char>
    decreases s.len(),
{
    if s.len() == 0 {
        Seq::empty()
    } else {
        escape_text(s.drop_last()) + escape_char(s.last())
    }
}

/// The text that stands for one character inside a single-quoted CSS
/// string: a quote, a backslash and line breaks become CSS escapes, each
/// closed by a space; any other character stands as it is.
pub open spec fn css_escape_char(c: char) -> Seq<char> {
    if c == '\'' {
        seq!['\\', '2', '7', ' ']
    } else if c == '\\' {
        seq!['\\', '5', 'c', ' ']
    } else if c == '\n' {
        seq!['\\', 'a', ' ']
    } else if c == '\r' {
        seq!['\\', 'd', ' ']
    } else {
        seq![c]
    }
}

/// The text that stands for `s` inside a single-quoted CSS string.
pub open spec fn css_escape_text(s: Seq<char>) -> Seq<char>
    decreases s.len(),
{
    if s.len() == 0 {
        Seq::empty()
    } else {
        css_escape_text(s.drop_last()) + css_escape_char(s.last())
    }
}

/// Relies on `String::push`: it appends one character to the string.
#[verifier::external_body]
pub(crate) fn push_char(s: &mut String, c: char)
    ensures
        final(s)@ == old(s)@.push(c),
{
    s.push(c);
}

/// Appends the escaped form of `c` to `out`.
pub fn push_escaped_char(out: &mut String, c: char)
    ensures
        final(out)@ == old(out)@ + escape_char(c),
{
    if c == '&' {
        out.append("&amp;");
        proof {
            reveal_strlit("&amp;");
        }
    } else if c == '<' {
        out.append("&lt;");
        proof {
            reveal_strlit("&lt;");
        }
    } else if c == '>' {
        out.append("&gt;");
        proof {
            reveal_strlit("&gt;");
        }
    } else if c == '"' {
        out.append("&quot;");
        proof {
            reveal_strlit("&quot;");
        }
    } else if c == '\'' {
        out.append("&#39;");
        proof {
            reveal_strlit("&#39;");
        }
    } else {
        push_char(out, c);
    }
    assert(out@ =~= old(out)@ + escape_char(c));
}

/// Appends the escaped form of `text` to `out`.
pub fn push_escaped(out: &mut String, text: &str)
    ensures
        final(out)@ == old(out)@ + escape_text(text@),
{
    let n = text.unicode_len();
    let mut i: usize = 0;
    while i < n
        invariant
            n == text@.len(),
            i <= n,
            out@ == old(out)@ + escape_text(text@.subrange(0, i as int)),
        decreases n - i,
    {
        let c = text.get_char(i);
        push_escaped_char(out, c);
        proof {
            let next = text@.subrange(0, i + 1);
            assert(next.drop_last() =~= text@.subrange(0, i as int));
            assert(next.last() == c);
        }
        i = i + 1;
    }
    assert(text@.subrange(0, n as int) =~= text@);
}

/// Appends the CSS-escaped form of `c` to `out`.
pub fn push_css_escaped_char(out: &mut String, c: char)
    ensures
        final(out)@ == old(out)@ + css_escape_char(c),
{
    if c == '\'' {
        out.append("\\27 ");
        proof {
            reveal_strlit("\\27 ");
        }
    } else if c == '\\' {
        out.append("\\5c ");
        proof {
            reveal_strlit("\\5c ");
        }
    } else if c == '\n' {
        out.append("\\a ");
        proof {
            reveal_strlit("\\a ");
        }
    } else if c == '\r' {
        out.append("\\d ");
        proof {
            reveal_strlit("\\d ");
        }
    } else {
        push_char(out, c);
    }
    assert(out@ =~= old(out)@ + css_escape_char(c));
}

/// Appends the CSS-escaped form of `text` to `out`.
pub fn push_css_escaped(out: &mut String, text: &str)
    ensures
        final(out)@ == old(out)@ + css_escape_text(text@),
{
    let n = text.unicode_len();
    let mut i: usize = 0;
    while i < n
        invariant
            n == text@.len(),
            i <= n,
            out@ == old(out)@ + css_escape_text(text@.subrange(0, i as int)),
        decreases n - i,
    {
        let c = text.get_char(i);
        push_css_escaped_char(out, c);
        proof {
            let next = text@.subrange(0, i + 1);
            assert(next.drop_last() =~= text@.subrange(0, i as int));
            assert(next.last() == c);
        }
        i = i + 1;
    }
    assert(text@.subrange(0, n as int) =~= text@);
}

/// CSS-escaped text holds no quote and no line break, so it cannot end the
/// CSS string it stands in; a backslash in it only opens an escape.
pub proof fn lemma_css_escaped_stays_in_string(s: Seq<char>)
    ensures
        forall|i: int|
            0 <= i < css_escape_text(s).len() ==> {
                let c = #[trigger] css_escape_text(s)[i];
                c != '\'' && c != '\n' && c != '\r'
            },
    decreases s.len(),
{
    if s.len() > 0 {
        lemma_css_escaped_stays_in_string(s.drop_last());
        let pre = css_escape_text(s.drop_last());
        let e = css_escape_char(s.last());
        assert forall|i: int| 0 <= i < css_escape_text(s).len() implies {
            let c = #[trigger] css_escape_text(s)[i];
            c != '\'' && c != '\n' && c != '\r'
        } by {
            if i >= pre.len() {
                assert(css_escape_text(s)[i] == e[i - pre.len()]);
            } else {
                assert(css_escape_text(s)[i] == pre[i]);
            }
        }
    }
}

/// Escaping one piece of text after another gives the escaped whole.
pub proof fn lemma_escape_concat(a: Seq<char>, b: Seq<char>)
    ensures
        escape_text(a + b) == escape_text(a) + escape_text(b),
    decreases b.len(),
{
    if b.len() == 0 {
        assert(a + b =~= a);
        assert(escape_text(b) =~= Seq::<char>::empty());
        assert(escape_text(a) + escape_text(b) =~= escape_text(a));
    } else {
        lemma_escape_concat(a, b.drop_last());
        assert((a + b).drop_last() =~= a + b.drop_last());
        assert((a + b).last() == b.last());
        assert(escape_text(a + b) =~= escape_text(a) + escape_text(b));
    }
}

/// Escaped text holds none of the characters that open a tag, close a tag,
/// or end a quoted attribute; so it cannot be read as markup.
pub proof fn lemma_escaped_has_no_markup(s: Seq<char>)
    ensures
        forall|i: int|
            0 <= i < escape_text(s).len() ==> {
                let c = #[trigger] escape_text(s)[i];
                c != '<' && c != '>' && c != '"' && c != '\''
            },
    decreases s.len(),
{
    if s.len() > 0 {
        lemma_escaped_has_no_markup(s.drop_last());
        let pre = escape_text(s.drop_last());
        let e = escape_char(s.last());
        assert forall|i: int| 0 <= i < escape_text(s).len() implies {
            let c = #[trigger] escape_text(s)[i];
            c != '<' && c != '>' && c != '"' && c != '\''
        } by {
            if i >= pre.len() {
                assert(escape_text(s)[i] == e[i - pre.len()]);
            } else {
                assert(escape_text(s)[i] == pre[i]);
            }
        }
    }
}

/// Text free of markup characters is left as it is.
pub proof fn lemma_escape_plain_text(s: Seq<char>)
    requires
        forall|i: int| 0 <= i < s.len() ==> !is_markup_char(#[trigger] s[i]),
    ensures
        escape_text(s) == s,
    decreases s.len(),
{
    if s.len() > 0 {
        lemma_escape_plain_text(s.drop_last());
        assert(!is_markup_char(s[s.len() - 1]));
        assert(s.drop_last().push(s.last()) =~= s);
        assert(escape_text(s) =~= s);
    }
}

} // verus!
