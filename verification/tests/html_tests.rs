//! Rendering of the supported Markdown subset and HTML escaping.

use qubit_infra_pages::html::html_attr;
use qubit_infra_pages::html::html_text;
use qubit_infra_pages::html::markdown_to_html;
use qubit_infra_pages::html::page;

#[test]
fn escapes_text_markup_characters() {
    assert_eq!(html_text("a < b && c > d"), "a &lt; b &amp;&amp; c &gt; d");
}

#[test]
fn escapes_quotes_in_attributes() {
    assert_eq!(html_attr("say \"<hi>\" & go"), "say &quot;&lt;hi&gt;&quot; &amp; go");
    assert_eq!(html_text("say \"hi\""), "say \"hi\"");
}

#[test]
fn inline_markup_after_escaping() {
    assert_eq!(qubit_infra_pages::html::inline("**bold** and `code` <x>"), "<strong>bold</strong> and <code>code</code> &lt;x&gt;");
    assert_eq!(qubit_infra_pages::html::inline("***"), "<strong>*");
    assert_eq!(qubit_infra_pages::html::inline("**b** `c`"), "<strong>b</strong> <code>c</code>");
    assert_eq!(
        qubit_infra_pages::html::inline("**a** **b** `x` `y"),
        "<strong>a</strong> <strong>b</strong> <code>x</code> <code>y"
    );
}

#[test]
fn renders_headings_and_paragraphs() {
    let html = markdown_to_html("# Hello\n\nRust project.\n## Usage  \r\n  text with **bold**\n", "ignored");
    assert_eq!(
        html,
        "<h1>Hello</h1>\n<p>Rust project.</p>\n<h2>Usage</h2>\n<p>text with <strong>bold</strong></p>\n"
    );
}

#[test]
fn page_template_escapes_title() {
    let html = page("A & B", "<p>x</p>\n", "<a href=\"index.html\">English</a> ");
    assert!(html.starts_with("<!doctype html><html><head><meta charset=\"utf-8\"><title>A &amp; B</title>"));
    assert!(html.ends_with("<nav><a href=\"index.html\">English</a> </nav><p>x</p>\n</body></html>\n"));
}

#[test]
fn escaped_text_holds_no_markup() {
    for input in ["<script>alert(1)</script>", "a >= b", "&lt;", "plain"] {
        let escaped = html_text(input);
        assert!(!escaped.contains('<') && !escaped.contains('>'));
        let attr = html_attr(input);
        assert!(!attr.contains('<') && !attr.contains('>') && !attr.contains('"'));
    }
}

#[test]
fn plain_text_is_unchanged_by_escaping() {
    assert_eq!(html_text("Rust project, 100% safe."), "Rust project, 100% safe.");
    assert_eq!(html_text(""), "");
}

#[test]
fn markdown_lines_render_independently() {
    let a = "# Title\nfirst";
    let b = "## Sub\n\nsecond";
    let joined = format!("{a}\n{b}");
    assert_eq!(
        markdown_to_html(&joined, "t"),
        format!("{}{}", markdown_to_html(a, "t"), markdown_to_html(b, "t"))
    );
}

#[test]
fn blank_and_whitespace_lines_render_nothing() {
    assert_eq!(markdown_to_html("", "t"), "");
    assert_eq!(markdown_to_html("\n \t\n\u{3000}\r\n", "t"), "");
}

#[test]
fn title_is_not_emitted_by_markdown() {
    assert_eq!(markdown_to_html("text", "one"), markdown_to_html("text", "two"));
}

#[test]
fn heading_markers_need_a_space() {
    assert_eq!(markdown_to_html("#Title", "t"), "<p>#Title</p>\n");
    assert_eq!(markdown_to_html("###  Deep", "t"), "<p>###  Deep</p>\n");
    assert_eq!(markdown_to_html("#  ", "t"), "<p>#</p>\n");
    assert_eq!(markdown_to_html("# a < b", "t"), "<h1>a &lt; b</h1>\n");
}

#[test]
fn renders_non_ascii_text() {
    assert_eq!(markdown_to_html("# 你好\n\nRust 项目。", "t"), "<h1>你好</h1>\n<p>Rust 项目。</p>\n");
}

#[test]
fn attribute_escape_is_text_escape_then_quotes() {
    for input in ["\"<a>\" & 'b'", "", "x\"\"y", "&quot;"] {
        assert_eq!(html_attr(input), html_text(input).replace('"', "&quot;"));
    }
}

#[test]
fn unmarked_text_renders_as_escaped_text() {
    for input in ["a < b", "plain words", "R&D"] {
        assert_eq!(qubit_infra_pages::html::inline(input), html_text(input));
    }
}

#[test]
fn trimming_agrees_with_std_white_space() {
    let mut chars: Vec<char> = (0u32..0x3100).filter_map(char::from_u32).collect();
    chars.extend(['\u{feff}', '\u{200b}', '\u{fffd}']);
    for c in chars {
        let html = markdown_to_html(&format!("{c}a{c}"), "t");
        assert_eq!(html == "<p>a</p>\n", c.is_whitespace(), "character {:?}", c);
    }
}

fn decode(s: &str, attr: bool) -> String {
    let mut out = String::new();
    let mut rest = s;
    while let Some(c) = rest.chars().next() {
        let entities: &[(&str, char)] = &[("&amp;", '&'), ("&lt;", '<'), ("&gt;", '>'), ("&quot;", '"')];
        let found = entities
            .iter()
            .filter(|(e, _)| attr || *e != "&quot;")
            .find(|(e, _)| rest.starts_with(e));
        match found {
            Some((e, d)) => {
                out.push(*d);
                rest = &rest[e.len()..];
            }
            None => {
                out.push(c);
                rest = &rest[c.len_utf8()..];
            }
        }
    }
    out
}

#[test]
fn escaping_loses_nothing() {
    for input in ["a < b && \"c\" > d", "&amp;lt;", "&", "", "你好 & <x>", "&quot;\""] {
        assert_eq!(decode(&html_text(input), false), input);
        assert_eq!(decode(&html_attr(input), true), input);
    }
}
