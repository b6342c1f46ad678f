use procurement_utils::markup::{escape_html, format_message_text};

#[test]
fn escape_html_of_markup() {
    assert_eq!(escape_html("<a href='x'>&\""), "&lt;a href=&#x27;x&#x27;&gt;&amp;&quot;");
}

#[test]
fn escape_html_leaves_plain_text() {
    assert_eq!(escape_html(""), "");
    assert_eq!(escape_html("Привет, мир! 100% ok;"), "Привет, мир! 100% ok;");
}

#[test]
fn escape_html_replaces_each_occurrence_once() {
    assert_eq!(escape_html("&&"), "&amp;&amp;");
    assert_eq!(escape_html("<<>>"), "&lt;&lt;&gt;&gt;");
    assert_eq!(escape_html("\"'\"'"), "&quot;&#x27;&quot;&#x27;");
    let input: &str = "a<b>c&d\"e'f";
    let out: String = escape_html(input);
    let added: usize = 3 + 3 + 4 + 5 + 5;
    assert_eq!(out.chars().count(), input.chars().count() + added);
    assert!(!out.contains('<') && !out.contains('>') && !out.contains('"') && !out.contains('\''));
}

#[test]
fn escape_html_is_not_a_fixed_point_on_escaped_text() {
    let once: String = escape_html("&");
    assert_eq!(once, "&amp;");
    assert_eq!(escape_html(&once), "&amp;amp;");
}

#[test]
fn escape_html_of_parts_is_parts_of_escape() {
    let a: &str = "x < y";
    let b: &str = " & 'z'";
    let whole: String = format!("{}{}", a, b);
    assert_eq!(escape_html(&whole), format!("{}{}", escape_html(a), escape_html(b)));
}

#[test]
fn message_text_with_link_and_newline() {
    assert_eq!(
        format_message_text("see https://x.test/a\nok"),
        "see <a href=\"https://x.test/a\" target=\"_blank\" rel=\"noopener\">https://x.test/a</a><br>ok"
    );
}

#[test]
fn message_text_http_without_scheme_is_literal() {
    assert_eq!(format_message_text("http only"), "http only");
    assert_eq!(format_message_text("httpx http:/ https:x http"), "httpx http:/ https:x http");
}

#[test]
fn message_text_empty() {
    assert_eq!(format_message_text(""), "");
}

#[test]
fn message_text_plain_http_link() {
    assert_eq!(
        format_message_text("http://a.b"),
        "<a href=\"http://a.b\" target=\"_blank\" rel=\"noopener\">http://a.b</a>"
    );
}

#[test]
fn message_text_link_keeps_trailing_punctuation() {
    assert_eq!(
        format_message_text("(https://a.b/c), next"),
        "(<a href=\"https://a.b/c),\" target=\"_blank\" rel=\"noopener\">https://a.b/c),</a> next"
    );
}

#[test]
fn message_text_two_links() {
    assert_eq!(
        format_message_text("http://a https://b"),
        "<a href=\"http://a\" target=\"_blank\" rel=\"noopener\">http://a</a> <a href=\"https://b\" target=\"_blank\" rel=\"noopener\">https://b</a>"
    );
}

#[test]
fn message_text_link_with_escaped_characters() {
    assert_eq!(
        format_message_text("https://a.b/?q=1&r=\"2\""),
        "<a href=\"https://a.b/?q=1&amp;r=&quot;2&quot;\" target=\"_blank\" rel=\"noopener\">https://a.b/?q=1&amp;r=&quot;2&quot;</a>"
    );
}

#[test]
fn message_text_link_ends_at_unicode_space() {
    assert_eq!(
        format_message_text("https://a.b\u{a0}x\u{3000}y"),
        "<a href=\"https://a.b\" target=\"_blank\" rel=\"noopener\">https://a.b</a>\u{a0}x\u{3000}y"
    );
}

#[test]
fn message_text_scheme_inside_word() {
    assert_eq!(
        format_message_text("xhttp://a"),
        "x<a href=\"http://a\" target=\"_blank\" rel=\"noopener\">http://a</a>"
    );
    assert_eq!(
        format_message_text("hthttps://a"),
        "ht<a href=\"https://a\" target=\"_blank\" rel=\"noopener\">https://a</a>"
    );
}

#[test]
fn message_text_neutralises_markup() {
    assert_eq!(
        format_message_text("<script>alert('x')</script>\n<b>"),
        "&lt;script&gt;alert(&#x27;x&#x27;)&lt;/script&gt;<br>&lt;b&gt;"
    );
}

fn strip_known_tags(html: &str) -> String {
    let mut rest: &str = html;
    let mut out: String = String::new();
    while !rest.is_empty() {
        if let Some(after) = rest.strip_prefix("<br>") {
            rest = after;
        } else if let Some(after) = rest.strip_prefix("</a>") {
            rest = after;
        } else if let Some(after) = rest.strip_prefix("<a href=\"") {
            let close: usize = after.find("\" target=\"_blank\" rel=\"noopener\">").unwrap();
            assert!(!after[..close].contains(['<', '>', '"']));
            rest = &after[close + "\" target=\"_blank\" rel=\"noopener\">".len()..];
        } else {
            let c: char = rest.chars().next().unwrap();
            out.push(c);
            rest = &rest[c.len_utf8()..];
        }
    }
    out
}

#[test]
fn message_text_has_no_brackets_outside_its_tags() {
    let inputs: Vec<&str> = vec![
        "<img src=x onerror=alert(1)>",
        "https://a.b/<script>",
        "a > b < c https://x.y/\"><b>\n</a><br>",
        "http://\"onmouseover=\"x\nhttps://>",
        "<a href=\"https://evil\" target=\"_blank\" rel=\"noopener\">",
    ];
    for input in inputs.iter() {
        let direct: String = format_message_text(input);
        let left: String = strip_known_tags(&direct);
        assert!(!left.contains('<') && !left.contains('>'), "{}", direct);
        let twice: String = format_message_text(&escape_html(input));
        let left_twice: String = strip_known_tags(&twice);
        assert!(!left_twice.contains('<') && !left_twice.contains('>'), "{}", twice);
    }
}
