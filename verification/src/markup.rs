//! Rendering of user text as HTML: escaping, link detection and line breaks.

use crate::text::{
    chars_occur_at, chars_of, char_is_whitespace, is_whitespace, occurs_at, push_range, push_str,
    string_of,
};
use vstd::prelude::*;

verus! {

/// What one character becomes when escaped.
pub open spec fn escape_char(c: char) -> Seq<char> {
    if c == '&' {
        "&amp;"@
    } else if c == '<' {
        "&lt;"@
    } else if c == '>' {
        "&gt;"@
    } else if c == '"' {
        "&quot;"@
    } else if c == '\'' {
        "&#x27;"@
    } else {
        seq![c]
    }
}

/// A text with each of `&`, `<`, `>`, `"`, `'` replaced by its entity, in one
/// pass from left to right.
pub open spec fn escaped(s: Seq<char>) -> Seq<char>
    decreases s.len(),
{
    if s.len() == 0 {
        Seq::empty()
    } else {
        escaped(s.drop_last()) + escape_char(s.last())
    }
}

/// A URL runs up to the first white space or `<`.
pub open spec fn is_url_end(c: char) -> bool {
    is_whitespace(c) || c == '<'
}

/// The first position at or after `from` that holds a URL-ending character,
/// or the length of `s` when there is none.
pub open spec fn url_end(s: Seq<char>, from: int) -> int
    decreases s.len() - from,
{
    if from < 0 || from >= s.len() {
        s.len() as int
    } else if is_url_end(s[from]) {
        from
    } else {
        url_end(s, from + 1)
    }
}

/// Where [`url_end`] lies and what lies before it.
pub proof fn lemma_url_end(s: Seq<char>, from: int)
    requires
        0 <= from <= s.len(),
    ensures
        from <= url_end(s, from) <= s.len(),
        forall|k: int| from <= k < url_end(s, from) ==> !is_url_end(#[trigger] s[k]),
        url_end(s, from) < s.len() ==> is_url_end(s[url_end(s, from)]),
    decreases s.len() - from,
{
    if from < s.len() && !is_url_end(s[from]) {
        lemma_url_end(s, from + 1);
    }
}

/// A URL begins at `at`: the text goes on with `http://` or `https://`.
pub open spec fn begins_url(s: Seq<char>, at: int) -> bool {
    occurs_at(s, "http://"@, at) || occurs_at(s, "https://"@, at)
}

/// The opening tag of the link to `url`.
pub open spec fn link_open_tag(url: Seq<char>) -> Seq<char> {
    "<a href=\""@ + url + "\" target=\"_blank\" rel=\"noopener\">"@
}

/// The link written for `url`: the URL stands in the tag and as its text.
pub open spec fn anchor(url: Seq<char>) -> Seq<char> {
    link_open_tag(url) + url + "</a>"@
}

/// The text from `from` on with every URL turned into a link. An `http` that
/// begins no URL stands as it is, and the search goes on behind it.
pub open spec fn linked_from(s: Seq<char>, from: int) -> Seq<char>
    decreases s.len() - from,
{
    if from < 0 || from >= s.len() {
        Seq::empty()
    } else if begins_url(s, from) {
        let end = url_end(s, from);
        proof {
            lemma_url_not_empty(s, from);
        }
        anchor(s.subrange(from, end)) + linked_from(s, end)
    } else if occurs_at(s, "http"@, from) {
        proof {
            reveal_strlit("http");
        }
        "http"@ + linked_from(s, from + 4)
    } else {
        seq![s[from]] + linked_from(s, from + 1)
    }
}

/// A URL is never empty: it holds at least its scheme.
pub proof fn lemma_url_not_empty(s: Seq<char>, from: int)
    requires
        begins_url(s, from),
    ensures
        from + 7 <= url_end(s, from) <= s.len(),
{
    reveal_strlit("http://");
    reveal_strlit("https://");
    if occurs_at(s, "http://"@, from) {
        let p = s.subrange(from, from + 7);
        assert(p[0] == 'h' && p[1] == 't' && p[2] == 't' && p[3] == 'p' && p[4] == ':' && p[5]
            == '/' && p[6] == '/');
    } else {
        let p = s.subrange(from, from + 8);
        assert(p[0] == 'h' && p[1] == 't' && p[2] == 't' && p[3] == 'p' && p[4] == 's' && p[5]
            == ':' && p[6] == '/');
    }
    reveal_with_fuel(url_end, 8);
    lemma_url_end(s, from + 7);
}

/// The whole text with every URL turned into a link.
pub open spec fn linked(s: Seq<char>) -> Seq<char> {
    linked_from(s, 0)
}

/// What one character becomes when line breaks are written out.
pub open spec fn break_char(c: char) -> Seq<char> {
    if c == '\n' {
        "<br>"@
    } else {
        seq![c]
    }
}

/// A text with every newline replaced by `<br>`.
pub open spec fn with_breaks(s: Seq<char>) -> Seq<char>
    decreases s.len(),
{
    if s.len() == 0 {
        Seq::empty()
    } else {
        with_breaks(s.drop_last()) + break_char(s.last())
    }
}

/// The HTML shown for a message text: escaped, then linked, then broken
/// into lines.
pub open spec fn message_html(text: Seq<char>) -> Seq<char> {
    with_breaks(linked(escaped(text)))
}

fn escape_chars(s: &Vec<char>) -> (out: Vec<char>)
    ensures
        out@ == escaped(s@),
{
    let mut out: Vec<char> = Vec::new();
    let mut i: usize = 0;
    while i < s.len()
        invariant
            i <= s.len(),
            out@ == escaped(s@.take(i as int)),
        decreases s.len() - i,
    {
        let c = s[i];
        assert(s@.take(i + 1).drop_last() =~= s@.take(i as int));
        if c == '&' {
            push_str(&mut out, "&amp;");
        } else if c == '<' {
            push_str(&mut out, "&lt;");
        } else if c == '>' {
            push_str(&mut out, "&gt;");
        } else if c == '"' {
            push_str(&mut out, "&quot;");
        } else if c == '\'' {
            push_str(&mut out, "&#x27;");
        } else {
            out.push(c);
            assert(out@ =~= escaped(s@.take(i as int)) + seq![c]);
        }
        i += 1;
    }
    assert(s@.take(s.len() as int) =~= s@);
    out
}

fn find_url_end(s: &Vec<char>, from: usize) -> (end: usize)
    requires
        from <= s.len(),
    ensures
        end == url_end(s@, from as int),
        from <= end <= s.len(),
{
    let mut end: usize = from;
    while end < s.len() && !(char_is_whitespace(s[end]) || s[end] == '<')
        invariant
            from <= end <= s.len(),
            url_end(s@, end as int) == url_end(s@, from as int),
        decreases s.len() - end,
    {
        end += 1;
    }
    end
}

fn link_chars(s: &Vec<char>) -> (out: Vec<char>)
    ensures
        out@ == linked(s@),
{
    let http = chars_of("http");
    let plain_scheme = chars_of("http://");
    let secure_scheme = chars_of("https://");
    let mut out: Vec<char> = Vec::new();
    let mut i: usize = 0;
    while i < s.len()
        invariant
            i <= s.len(),
            http@ == "http"@,
            plain_scheme@ == "http://"@,
            secure_scheme@ == "https://"@,
            linked(s@) == out@ + linked_from(s@, i as int),
        decreases s.len() - i,
    {
        let ghost before = out@;
        if chars_occur_at(s, &plain_scheme, i) || chars_occur_at(s, &secure_scheme, i) {
            let end = find_url_end(s, i);
            proof {
                lemma_url_not_empty(s@, i as int);
            }
            push_str(&mut out, "<a href=\"");
            push_range(&mut out, s, i, end);
            push_str(&mut out, "\" target=\"_blank\" rel=\"noopener\">");
            push_range(&mut out, s, i, end);
            push_str(&mut out, "</a>");
            assert(out@ =~= before + anchor(s@.subrange(i as int, end as int)));
            assert(linked(s@) =~= out@ + linked_from(s@, end as int));
            i = end;
        } else if chars_occur_at(s, &http, i) {
            proof {
                reveal_strlit("http");
            }
            push_str(&mut out, "http");
            assert(linked(s@) =~= out@ + linked_from(s@, i + 4));
            i += 4;
        } else {
            out.push(s[i]);
            assert(linked(s@) =~= out@ + linked_from(s@, i + 1));
            i += 1;
        }
    }
    assert(linked(s@) =~= out@);
    out
}

fn break_chars(s: &Vec<char>) -> (out: Vec<char>)
    ensures
        out@ == with_breaks(s@),
{
    let mut out: Vec<char> = Vec::new();
    let mut i: usize = 0;
    while i < s.len()
        invariant
            i <= s.len(),
            out@ == with_breaks(s@.take(i as int)),
        decreases s.len() - i,
    {
        let c = s[i];
        assert(s@.take(i + 1).drop_last() =~= s@.take(i as int));
        if c == '\n' {
            push_str(&mut out, "<br>");
        } else {
            out.push(c);
            assert(out@ =~= with_breaks(s@.take(i as int)) + seq![c]);
        }
        i += 1;
    }
    assert(s@.take(s.len() as int) =~= s@);
    out
}

/// Escapes the five characters that HTML reads as markup.
pub fn escape_html(text: &str) -> (html: String)
    ensures
        html@ == escaped(text@),
{
    let chars = chars_of(text);
    let out = escape_chars(&chars);
    string_of(&out)
}

/// Renders a message text as HTML: the text is escaped, each URL becomes a
/// link that opens in a new tab, and each newline becomes `<br>`.
pub fn format_message_text(text: &str) -> (html: String)
    ensures
        html@ == message_html(text@),
{
    let chars = chars_of(text);
    let safe = escape_chars(&chars);
    let with_links = link_chars(&safe);
    let out = break_chars(&with_links);
    string_of(&out)
}

/// The edge of a tag.
pub open spec fn is_bracket(c: char) -> bool {
    c == '<' || c == '>'
}

/// A text without `<` and `>`.
pub open spec fn no_brackets(s: Seq<char>) -> bool {
    forall|i: int| 0 <= i < s.len() ==> !is_bracket(#[trigger] s[i])
}

/// A text that can stand as the URL of a link: it holds no white space and
/// none of `<`, `>`, `"` and `'`, so it cannot end the tag or its attribute.
pub open spec fn is_link_url(url: Seq<char>) -> bool {
    forall|i: int|
        0 <= i < url.len() ==> !is_markup_char(#[trigger] url[i]) && !is_whitespace(url[i])
}

/// The opening tag of a link to such a URL.
pub open spec fn is_link_open_tag(tag: Seq<char>) -> bool {
    exists|url: Seq<char>| is_link_url(url) && tag == #[trigger] link_open_tag(url)
}

/// Every `<` and `>` of `html` belongs to a tag that this module writes: the
/// text reads, from left to right, as characters other than `<` and `>`,
/// `<br>`, `</a>`, and opening tags of links.
pub open spec fn only_markup_brackets(html: Seq<char>) -> bool
    decreases html.len(),
{
    proof {
        reveal_strlit("<br>");
        reveal_strlit("</a>");
    }
    ||| html.len() == 0
    ||| (!is_bracket(html[0]) && only_markup_brackets(html.skip(1)))
    ||| (occurs_at(html, "<br>"@, 0) && only_markup_brackets(html.skip(4)))
    ||| (occurs_at(html, "</a>"@, 0) && only_markup_brackets(html.skip(4)))
    ||| exists|n: int|
        0 < n <= html.len() && is_link_open_tag(html.take(n)) && only_markup_brackets(
            #[trigger] html.skip(n),
        )
}

/// Escaping works character by character: the escaped form of a text is the
/// escaped forms of its parts, one after the other, so each of the five
/// characters is replaced once where it stands.
pub proof fn lemma_escaped_concat(a: Seq<char>, b: Seq<char>)
    ensures
        escaped(a + b) == escaped(a) + escaped(b),
        forall|c: char| escaped(seq![c]) == escape_char(c),
    decreases b.len(),
{
    assert forall|c: char| escaped(seq![c]) == escape_char(c) by {
        let one = seq![c];
        assert(one.len() == 1 && one.last() == c);
        assert(one.drop_last().len() == 0);
        assert(escaped(one.drop_last()) =~= Seq::<char>::empty());
        assert(escaped(one) =~= escape_char(c));
    }
    if b.len() == 0 {
        assert(a + b =~= a);
        assert(escaped(a) + escaped(b) =~= escaped(a));
    } else {
        lemma_escaped_concat(a, b.drop_last());
        assert((a + b).drop_last() =~= a + b.drop_last());
        assert(escaped(a + b) =~= escaped(a) + escaped(b));
    }
}

/// A character that can open or close a tag or an attribute.
pub open spec fn is_markup_char(c: char) -> bool {
    c == '<' || c == '>' || c == '"' || c == '\''
}

/// An escaped text holds no `<`, `>`, `"` or `'`.
pub proof fn lemma_escaped_has_no_markup(s: Seq<char>)
    ensures
        forall|i: int| 0 <= i < escaped(s).len() ==> !is_markup_char(#[trigger] escaped(s)[i]),
    decreases s.len(),
{
    if s.len() > 0 {
        reveal_strlit("&amp;");
        reveal_strlit("&lt;");
        reveal_strlit("&gt;");
        reveal_strlit("&quot;");
        reveal_strlit("&#x27;");
        lemma_escaped_has_no_markup(s.drop_last());
        let head = escaped(s.drop_last());
        let tail = escape_char(s.last());
        assert forall|i: int| 0 <= i < escaped(s).len() implies !is_markup_char(
            #[trigger] escaped(s)[i],
        ) by {
            if i < head.len() {
                assert(escaped(s)[i] == head[i]);
            } else {
                assert(escaped(s)[i] == tail[i - head.len()]);
            }
        }
    }
}

/// Line breaks are written character by character.
pub proof fn lemma_breaks_concat(a: Seq<char>, b: Seq<char>)
    ensures
        with_breaks(a + b) == with_breaks(a) + with_breaks(b),
    decreases b.len(),
{
    if b.len() == 0 {
        assert(a + b =~= a);
        assert(with_breaks(a) + with_breaks(b) =~= with_breaks(a));
    } else {
        lemma_breaks_concat(a, b.drop_last());
        assert((a + b).drop_last() =~= a + b.drop_last());
        assert(with_breaks(a + b) =~= with_breaks(a) + with_breaks(b));
    }
}

proof fn lemma_breaks_without_newline(s: Seq<char>)
    requires
        forall|i: int| 0 <= i < s.len() ==> #[trigger] s[i] != '\n',
    ensures
        with_breaks(s) == s,
    decreases s.len(),
{
    if s.len() > 0 {
        lemma_breaks_without_newline(s.drop_last());
        assert(s =~= s.drop_last() + seq![s.last()]);
    }
}

proof fn lemma_markup_concat(a: Seq<char>, b: Seq<char>)
    requires
        only_markup_brackets(a),
        only_markup_brackets(b),
    ensures
        only_markup_brackets(a + b),
    decreases a.len(),
{
    reveal_strlit("<br>");
    reveal_strlit("</a>");
    let ab = a + b;
    if a.len() == 0 {
        assert(ab =~= b);
    } else if !is_bracket(a[0]) && only_markup_brackets(a.skip(1)) {
        lemma_markup_concat(a.skip(1), b);
        assert(ab.skip(1) =~= a.skip(1) + b);
    } else if occurs_at(a, "<br>"@, 0) && only_markup_brackets(a.skip(4)) {
        lemma_markup_concat(a.skip(4), b);
        assert(ab.skip(4) =~= a.skip(4) + b);
        assert(ab.subrange(0, 4) =~= a.subrange(0, 4));
    } else if occurs_at(a, "</a>"@, 0) && only_markup_brackets(a.skip(4)) {
        lemma_markup_concat(a.skip(4), b);
        assert(ab.skip(4) =~= a.skip(4) + b);
        assert(ab.subrange(0, 4) =~= a.subrange(0, 4));
    } else {
        let n = choose|n: int|
            0 < n <= a.len() && is_link_open_tag(a.take(n)) && only_markup_brackets(
                #[trigger] a.skip(n),
            );
        lemma_markup_concat(a.skip(n), b);
        assert(ab.skip(n) =~= a.skip(n) + b);
        assert(ab.take(n) =~= a.take(n));
    }
}

proof fn lemma_plain_markup(s: Seq<char>)
    requires
        no_brackets(s),
    ensures
        only_markup_brackets(s),
    decreases s.len(),
{
    if s.len() > 0 {
        lemma_plain_markup(s.skip(1));
    }
}

proof fn lemma_breaks_of_plain(s: Seq<char>)
    requires
        no_brackets(s),
    ensures
        only_markup_brackets(with_breaks(s)),
    decreases s.len(),
{
    if s.len() > 0 {
        reveal_strlit("<br>");
        lemma_breaks_of_plain(s.drop_last());
        let tail = break_char(s.last());
        if s.last() == '\n' {
            assert(tail.subrange(0, 4) =~= tail);
            assert(tail.skip(4).len() == 0);
            assert(only_markup_brackets(tail.skip(4)));
        } else {
            lemma_plain_markup(tail);
        }
        lemma_markup_concat(with_breaks(s.drop_last()), tail);
    }
}

proof fn lemma_anchor_markup(url: Seq<char>)
    requires
        is_link_url(url),
    ensures
        only_markup_brackets(anchor(url)),
        with_breaks(anchor(url)) == anchor(url),
{
    reveal_strlit("<a href=\"");
    reveal_strlit("\" target=\"_blank\" rel=\"noopener\">");
    reveal_strlit("</a>");
    let open = link_open_tag(url);
    let close = "</a>"@;
    assert(no_brackets(url));
    assert(is_link_open_tag(open));
    assert(open.take(open.len() as int) =~= open);
    assert(open.skip(open.len() as int).len() == 0);
    assert(only_markup_brackets(open.skip(open.len() as int)));
    assert(only_markup_brackets(open));
    lemma_plain_markup(url);
    assert(close.subrange(0, 4) =~= close);
    assert(close.skip(4).len() == 0);
    assert(only_markup_brackets(close.skip(4)));
    assert(only_markup_brackets(close));
    lemma_markup_concat(open, url);
    lemma_markup_concat(open + url, close);
    lemma_breaks_without_newline(anchor(url));
}

proof fn lemma_linked_markup(s: Seq<char>, from: int)
    requires
        0 <= from <= s.len(),
        forall|i: int| 0 <= i < s.len() ==> !is_markup_char(#[trigger] s[i]),
    ensures
        only_markup_brackets(with_breaks(linked_from(s, from))),
    decreases s.len() - from,
{
    if from < s.len() {
        if begins_url(s, from) {
            let end = url_end(s, from);
            lemma_url_not_empty(s, from);
            lemma_url_end(s, from);
            let url = s.subrange(from, end);
            assert forall|i: int| 0 <= i < url.len() implies !is_markup_char(
                #[trigger] url[i],
            ) && !is_whitespace(url[i]) by {
                assert(url[i] == s[from + i]);
                assert(!is_url_end(s[from + i]));
            }
            lemma_anchor_markup(url);
            lemma_linked_markup(s, end);
            lemma_breaks_concat(anchor(url), linked_from(s, end));
            lemma_markup_concat(anchor(url), with_breaks(linked_from(s, end)));
        } else if occurs_at(s, "http"@, from) {
            reveal_strlit("http");
            lemma_linked_markup(s, from + 4);
            lemma_breaks_of_plain("http"@);
            lemma_breaks_concat("http"@, linked_from(s, from + 4));
            lemma_markup_concat(with_breaks("http"@), with_breaks(linked_from(s, from + 4)));
        } else {
            lemma_linked_markup(s, from + 1);
            lemma_breaks_of_plain(seq![s[from]]);
            lemma_breaks_concat(seq![s[from]], linked_from(s, from + 1));
            lemma_markup_concat(
                with_breaks(seq![s[from]]),
                with_breaks(linked_from(s, from + 1)),
            );
        }
    }
}

/// Whatever the text, the HTML shown for it has no `<` or `>` outside the
/// tags written here: what the user typed cannot open or close a tag.
pub proof fn lemma_message_html_is_safe(text: Seq<char>)
    ensures
        only_markup_brackets(message_html(text)),
{
    lemma_escaped_has_no_markup(text);
    lemma_linked_markup(escaped(text), 0);
}

} // verus!
