//! Converts the supported README subset into standalone HTML.

use vstd::prelude::*;

use crate::text::extend_str;
use crate::text::lemma_pieces_concat;
use crate::text::lemma_pieces_len;
use crate::text::lemma_pieces_single;
use crate::text::pieces;
use crate::text::from_chars;
use crate::text::to_chars;

verus! {

// ---------------------------------------------------------------------------
// Escaping
// ---------------------------------------------------------------------------

/// What one character of text becomes in HTML text content.
pub open spec fn escaped_text_char(c: char) -> Seq<char> {
    if c == '&' {
        "&amp;"@
    } else if c == '<' {
        "&lt;"@
    } else if c == '>' {
        "&gt;"@
    } else {
        seq![c]
    }
}

/// Text with `&`, `<` and `>` replaced by their character references.
pub open spec fn escaped_text(s: Seq<char>) -> Seq<char>
    decreases s.len(),
{
    if s.len() == 0 {
        seq![]
    } else {
        escaped_text_char(s[0]) + escaped_text(s.drop_first())
    }
}

/// What one character of text becomes inside a double-quoted attribute.
pub open spec fn escaped_attr_char(c: char) -> Seq<char> {
    if c == '"' {
        "&quot;"@
    } else {
        escaped_text_char(c)
    }
}

/// Text escaped for use inside a double-quoted HTML attribute.
pub open spec fn escaped_attr(s: Seq<char>) -> Seq<char>
    decreases s.len(),
{
    if s.len() == 0 {
        seq![]
    } else {
        escaped_attr_char(s[0]) + escaped_attr(s.drop_first())
    }
}

/// `escaped_attr` or `escaped_text`, as `attr` chooses.
pub open spec fn escaped(s: Seq<char>, attr: bool) -> Seq<char> {
    if attr {
        escaped_attr(s)
    } else {
        escaped_text(s)
    }
}

/// Escapes the characters `v[lo..hi]` (as attribute text when `attr`),
/// appending them to `out`.
fn push_escaped(out: &mut Vec<char>, v: &Vec<char>, lo: usize, hi: usize, attr: bool)
    requires
        lo <= hi <= v@.len(),
    ensures
        final(out)@ == old(out)@ + escaped(v@.subrange(lo as int, hi as int), attr),
{
    let ghost whole = v@.subrange(lo as int, hi as int);
    let ghost start = out@;
    let mut i = lo;
    while i < hi
        invariant
            lo <= i <= hi <= v@.len(),
            whole == v@.subrange(lo as int, hi as int),
            start + escaped(whole, attr) == out@ + escaped(v@.subrange(i as int, hi as int), attr),
        decreases hi - i,
    {
        let ghost rest = v@.subrange(i as int, hi as int);
        assert(rest.drop_first() == v@.subrange(i + 1, hi as int));
        assert(rest[0] == v@[i as int]);
        let c = v[i];
        if c == '&' {
            extend_str(out, "&amp;");
        } else if c == '<' {
            extend_str(out, "&lt;");
        } else if c == '>' {
            extend_str(out, "&gt;");
        } else if attr && c == '"' {
            extend_str(out, "&quot;");
        } else {
            out.push(c);
        }
        i += 1;
    }
    assert(v@.subrange(hi as int, hi as int) == Seq::<char>::empty());
}

/// Escapes text characters that have HTML significance.
pub fn html_text(value: &str) -> (text: String)
    ensures
        text@ == escaped_text(value@),
{
    let v = to_chars(value);
    let mut out: Vec<char> = Vec::new();
    push_escaped(&mut out, &v, 0, v.len(), false);
    assert(v@.subrange(0, v@.len() as int) == v@);
    from_chars(out.as_slice())
}

/// Escapes text for safe use inside an HTML attribute.
pub fn html_attr(value: &str) -> (text: String)
    ensures
        text@ == escaped_attr(value@),
{
    let v = to_chars(value);
    let mut out: Vec<char> = Vec::new();
    push_escaped(&mut out, &v, 0, v.len(), true);
    assert(v@.subrange(0, v@.len() as int) == v@);
    from_chars(out.as_slice())
}

// ---------------------------------------------------------------------------
// Inline markup
// ---------------------------------------------------------------------------

/// Each `**`, taken left to right without overlap, turned into a tag:
/// `<strong>` where it opens bold text, `</strong>` where it closes it.
/// `open` tells whether bold text is open where `s` starts.
pub open spec fn strong_markup(s: Seq<char>, open: bool) -> Seq<char>
    decreases s.len(),
{
    if s.len() == 0 {
        seq![]
    } else if s.len() >= 2 && s[0] == '*' && s[1] == '*' {
        (if open {
            "</strong>"@
        } else {
            "<strong>"@
        }) + strong_markup(s.skip(2), !open)
    } else {
        seq![s[0]] + strong_markup(s.drop_first(), open)
    }
}

/// Each backtick turned into a tag: `<code>` where it opens a code span,
/// `</code>` where it closes one. `open` tells whether a code span is open
/// where `s` starts.
pub open spec fn code_markup(s: Seq<char>, open: bool) -> Seq<char>
    decreases s.len(),
{
    if s.len() == 0 {
        seq![]
    } else if s[0] == '`' {
        (if open {
            "</code>"@
        } else {
            "<code>"@
        }) + code_markup(s.drop_first(), !open)
    } else {
        seq![s[0]] + code_markup(s.drop_first(), open)
    }
}

/// The inline rendering of a line's text: escaped first, then `**` and
/// backtick markers turned into opening and closing tags in turn.
pub open spec fn inline_markup(s: Seq<char>) -> Seq<char> {
    code_markup(strong_markup(escaped_text(s), false), false)
}

/// `strong_markup(v, false)`.
fn strong_pass(v: &Vec<char>) -> (out: Vec<char>)
    ensures
        out@ == strong_markup(v@, false),
{
    let mut out: Vec<char> = Vec::new();
    let mut i: usize = 0;
    let mut open = false;
    let n = v.len();
    assert(v@.skip(0) == v@);
    while i < n
        invariant
            i <= n == v@.len(),
            strong_markup(v@, false) == out@ + strong_markup(v@.skip(i as int), open),
        decreases n - i,
    {
        let ghost rest = v@.skip(i as int);
        assert(rest[0] == v@[i as int]);
        if i + 1 < n && v[i] == '*' && v[i + 1] == '*' {
            assert(rest[1] == v@[i + 1]);
            assert(rest.skip(2) == v@.skip(i + 2));
            if open {
                extend_str(&mut out, "</strong>");
            } else {
                extend_str(&mut out, "<strong>");
            }
            open = !open;
            i += 2;
        } else {
            assert(rest.drop_first() == v@.skip(i + 1));
            out.push(v[i]);
            i += 1;
        }
    }
    assert(v@.skip(n as int) == Seq::<char>::empty());
    out
}

/// `code_markup(v, false)`.
fn code_pass(v: &Vec<char>) -> (out: Vec<char>)
    ensures
        out@ == code_markup(v@, false),
{
    let mut out: Vec<char> = Vec::new();
    let mut i: usize = 0;
    let mut open = false;
    let n = v.len();
    assert(v@.skip(0) == v@);
    while i < n
        invariant
            i <= n == v@.len(),
            code_markup(v@, false) == out@ + code_markup(v@.skip(i as int), open),
        decreases n - i,
    {
        let ghost rest = v@.skip(i as int);
        assert(rest[0] == v@[i as int]);
        assert(rest.drop_first() == v@.skip(i + 1));
        if v[i] == '`' {
            if open {
                extend_str(&mut out, "</code>");
            } else {
                extend_str(&mut out, "<code>");
            }
            open = !open;
        } else {
            out.push(v[i]);
        }
        i += 1;
    }
    assert(v@.skip(n as int) == Seq::<char>::empty());
    out
}

/// Appends `inline_markup(v[lo..hi])` to `out`.
fn push_inline(out: &mut Vec<char>, v: &Vec<char>, lo: usize, hi: usize)
    requires
        lo <= hi <= v@.len(),
    ensures
        final(out)@ == old(out)@ + inline_markup(v@.subrange(lo as int, hi as int)),
{
    let mut escaped: Vec<char> = Vec::new();
    push_escaped(&mut escaped, v, lo, hi, false);
    let strong = strong_pass(&escaped);
    let mut coded = code_pass(&strong);
    out.append(&mut coded);
}

/// Converts supported inline Markdown markers into HTML tags, after escaping
/// the text.
pub fn inline(value: &str) -> (html: String)
    ensures
        html@ == inline_markup(value@),
{
    let v = to_chars(value);
    let mut out: Vec<char> = Vec::new();
    push_inline(&mut out, &v, 0, v.len());
    assert(v@.subrange(0, v@.len() as int) == v@);
    from_chars(out.as_slice())
}

// ---------------------------------------------------------------------------
// Lines and blocks
// ---------------------------------------------------------------------------

/// Unicode `White_Space`, the set that `char::is_whitespace` and `str::trim`
/// use.
pub open spec fn is_white_space(c: char) -> bool {
    ||| ('\u{9}' <= c && c <= '\u{d}')
    ||| c == ' '
    ||| c == '\u{85}'
    ||| c == '\u{a0}'
    ||| c == '\u{1680}'
    ||| ('\u{2000}' <= c && c <= '\u{200a}')
    ||| c == '\u{2028}'
    ||| c == '\u{2029}'
    ||| c == '\u{202f}'
    ||| c == '\u{205f}'
    ||| c == '\u{3000}'
}

fn white_space(c: char) -> (b: bool)
    ensures
        b == is_white_space(c),
{
    ('\u{9}' <= c && c <= '\u{d}') || c == ' ' || c == '\u{85}' || c == '\u{a0}' || c
        == '\u{1680}' || ('\u{2000}' <= c && c <= '\u{200a}') || c == '\u{2028}' || c
        == '\u{2029}' || c == '\u{202f}' || c == '\u{205f}' || c == '\u{3000}'
}

/// `s` without its leading white space.
pub open spec fn trim_start(s: Seq<char>) -> Seq<char>
    decreases s.len(),
{
    if s.len() > 0 && is_white_space(s[0]) {
        trim_start(s.drop_first())
    } else {
        s
    }
}

/// `s` without its trailing white space.
pub open spec fn trim_end(s: Seq<char>) -> Seq<char>
    decreases s.len(),
{
    if s.len() > 0 && is_white_space(s.last()) {
        trim_end(s.drop_last())
    } else {
        s
    }
}

/// `s` without leading and trailing white space (`str::trim`).
pub open spec fn trimmed(s: Seq<char>) -> Seq<char> {
    trim_end(trim_start(s))
}

/// The HTML for one trimmed line: `# ` and `## ` start headings, an empty
/// line gives nothing, any other line is a paragraph.
pub open spec fn line_html(t: Seq<char>) -> Seq<char> {
    if t.len() >= 2 && t[0] == '#' && t[1] == ' ' {
        "<h1>"@ + inline_markup(t.skip(2)) + "</h1>\n"@
    } else if t.len() >= 3 && t[0] == '#' && t[1] == '#' && t[2] == ' ' {
        "<h2>"@ + inline_markup(t.skip(3)) + "</h2>\n"@
    } else if t.len() == 0 {
        seq![]
    } else {
        "<p>"@ + inline_markup(t) + "</p>\n"@
    }
}

/// The HTML of the lines `ls`, each trimmed, in order.
pub open spec fn lines_html(ls: Seq<Seq<char>>) -> Seq<char>
    decreases ls.len(),
{
    if ls.len() == 0 {
        seq![]
    } else {
        lines_html(ls.drop_last()) + line_html(trimmed(ls.last()))
    }
}

/// The HTML of a Markdown document. `str::lines` also drops a `\r` before
/// each newline and a last empty line; both are white space or empty after
/// trimming and give nothing, so splitting at every newline gives the same
/// HTML.
pub open spec fn markdown_html(markdown: Seq<char>) -> Seq<char> {
    lines_html(pieces(markdown, '\n'))
}

/// Finds the trimmed part `v[a..b]` of `v[lo..hi]`.
fn trim_range(v: &Vec<char>, lo: usize, hi: usize) -> (r: (usize, usize))
    requires
        lo <= hi <= v@.len(),
    ensures
        lo <= r.0 <= r.1 <= hi,
        v@.subrange(r.0 as int, r.1 as int) == trimmed(v@.subrange(lo as int, hi as int)),
{
    let mut a = lo;
    while a < hi && white_space(v[a])
        invariant
            lo <= a <= hi <= v@.len(),
            trim_start(v@.subrange(lo as int, hi as int)) == trim_start(
                v@.subrange(a as int, hi as int),
            ),
        decreases hi - a,
    {
        assert(v@.subrange(a as int, hi as int).drop_first() == v@.subrange(a + 1, hi as int));
        a += 1;
    }
    let mut b = hi;
    while b > a && white_space(v[b - 1])
        invariant
            lo <= a <= b <= hi <= v@.len(),
            trim_end(v@.subrange(a as int, hi as int)) == trim_end(v@.subrange(a as int, b as int)),
        decreases b - a,
    {
        assert(v@.subrange(a as int, b as int).drop_last() == v@.subrange(a as int, b - 1));
        b -= 1;
    }
    (a, b)
}

/// Appends `line_html(trimmed(v[lo..hi]))` to `out`.
fn push_line(out: &mut Vec<char>, v: &Vec<char>, lo: usize, hi: usize)
    requires
        lo <= hi <= v@.len(),
    ensures
        final(out)@ == old(out)@ + line_html(trimmed(v@.subrange(lo as int, hi as int))),
{
    let (a, b) = trim_range(v, lo, hi);
    let ghost t = v@.subrange(a as int, b as int);
    if b - a >= 2 && v[a] == '#' && v[a + 1] == ' ' {
        assert(t.skip(2) == v@.subrange(a + 2, b as int));
        extend_str(out, "<h1>");
        push_inline(out, v, a + 2, b);
        extend_str(out, "</h1>\n");
    } else if b - a >= 3 && v[a] == '#' && v[a + 1] == '#' && v[a + 2] == ' ' {
        assert(t.skip(3) == v@.subrange(a + 3, b as int));
        extend_str(out, "<h2>");
        push_inline(out, v, a + 3, b);
        extend_str(out, "</h2>\n");
    } else if a == b {
    } else {
        extend_str(out, "<p>");
        push_inline(out, v, a, b);
        extend_str(out, "</p>\n");
    }
}

/// Converts headings and paragraphs from the supported Markdown subset to
/// HTML.
///
/// The `title` argument is retained for the renderer interface but is not
/// emitted by this conversion step. Text is escaped before the limited
/// inline markup is applied.
pub fn markdown_to_html(markdown: &str, title: &str) -> (html: String)
    ensures
        html@ == markdown_html(markdown@),
{
    let v = to_chars(markdown);
    let n = v.len();
    let mut out: Vec<char> = Vec::new();
    let mut start: usize = 0;
    let mut i: usize = 0;
    assert(v@.subrange(0, 0) == Seq::<char>::empty());
    while i < n
        invariant
            start <= i <= n == v@.len(),
            pieces(v@.subrange(0, i as int), '\n').last() == v@.subrange(start as int, i as int),
            out@ == lines_html(pieces(v@.subrange(0, i as int), '\n').drop_last()),
        decreases n - i,
    {
        let ghost prefix = v@.subrange(0, i as int);
        let ghost next = v@.subrange(0, i + 1);
        assert(next.drop_last() == prefix);
        proof {
            lemma_pieces_len(prefix, '\n');
        }
        assert(next.last() == v@[i as int]);
        if v[i] == '\n' {
            push_line(&mut out, &v, start, i);
            assert(pieces(next, '\n').drop_last() == pieces(prefix, '\n'));
            assert(pieces(prefix, '\n') == pieces(prefix, '\n').drop_last().push(
                pieces(prefix, '\n').last(),
            ));
            start = i + 1;
            assert(v@.subrange(start as int, i + 1) == Seq::<char>::empty());
        } else {
            assert(v@.subrange(start as int, i + 1) == v@.subrange(start as int, i as int).push(
                v@[i as int],
            ));
            assert(pieces(next, '\n').drop_last() == pieces(prefix, '\n').drop_last());
        }
        i += 1;
    }
    push_line(&mut out, &v, start, n);
    let ghost ls = pieces(v@.subrange(0, n as int), '\n');
    proof {
        lemma_pieces_len(v@.subrange(0, n as int), '\n');
    }
    assert(v@.subrange(0, n as int) == v@);
    assert(ls == ls.drop_last().push(ls.last()));
    from_chars(out.as_slice())
}

// ---------------------------------------------------------------------------
// Page template
// ---------------------------------------------------------------------------

/// The standalone page: the escaped title, the navigation links and the
/// body, in the fixed template.
pub open spec fn page_html(title: Seq<char>, body: Seq<char>, links: Seq<char>) -> Seq<char> {
    "<!doctype html><html><head><meta charset=\"utf-8\"><title>"@ + escaped_text(title)
        + "</title><style>body{max-width:960px;margin:2rem auto;padding:0 1rem;font:16px system-ui;line-height:1.6}code{background:#eef;padding:.1rem .3rem}</style></head><body><nav>"@
        + links + "</nav>"@ + body + "</body></html>\n"@
}

/// Wraps rendered content in the standalone site page template.
pub fn page(title: &str, body: &str, links: &str) -> (html: String)
    ensures
        html@ == page_html(title@, body@, links@),
{
    let mut html = String::new();
    html.append("<!doctype html><html><head><meta charset=\"utf-8\"><title>");
    let escaped = html_text(title);
    html.append(escaped.as_str());
    html.append(
        "</title><style>body{max-width:960px;margin:2rem auto;padding:0 1rem;font:16px system-ui;line-height:1.6}code{background:#eef;padding:.1rem .3rem}</style></head><body><nav>",
    );
    html.append(links);
    html.append("</nav>");
    html.append(body);
    html.append("</body></html>\n");
    html
}

// ---------------------------------------------------------------------------
// Laws
// ---------------------------------------------------------------------------

/// Whether `s` holds no `<` and no `>`: no tag can start or end in it.
pub open spec fn free_of_markup(s: Seq<char>) -> bool {
    forall|i: int| 0 <= i < s.len() ==> #[trigger] s[i] != '<' && s[i] != '>'
}

/// Whether `s` holds none of `&`, `<` and `>`.
pub open spec fn plain_text(s: Seq<char>) -> bool {
    forall|i: int| 0 <= i < s.len() ==> #[trigger] s[i] != '&' && s[i] != '<' && s[i] != '>'
}

proof fn lemma_free_of_markup_concat(a: Seq<char>, b: Seq<char>)
    requires
        free_of_markup(a),
        free_of_markup(b),
    ensures
        free_of_markup(a + b),
{
    assert forall|i: int| 0 <= i < (a + b).len() implies #[trigger] (a + b)[i] != '<' && (a
        + b)[i] != '>' by {
        if i >= a.len() {
            assert((a + b)[i] == b[i - a.len()]);
        }
    }
}

/// Escaped text holds no `<` or `>`, so no markup can come from it; in an
/// attribute it holds no `"` either, so it cannot end the attribute.
pub proof fn lemma_escaped_free_of_markup(s: Seq<char>)
    ensures
        free_of_markup(escaped_text(s)),
        free_of_markup(escaped_attr(s)),
        forall|i: int| 0 <= i < escaped_attr(s).len() ==> #[trigger] escaped_attr(s)[i] != '"',
    decreases s.len(),
{
    reveal_strlit("&amp;");
    reveal_strlit("&lt;");
    reveal_strlit("&gt;");
    reveal_strlit("&quot;");
    if s.len() > 0 {
        lemma_escaped_free_of_markup(s.drop_first());
        let c = s[0];
        assert(free_of_markup(escaped_text_char(c)));
        assert(free_of_markup(escaped_attr_char(c)));
        lemma_free_of_markup_concat(escaped_text_char(c), escaped_text(s.drop_first()));
        lemma_free_of_markup_concat(escaped_attr_char(c), escaped_attr(s.drop_first()));
        let a = escaped_attr_char(c);
        let b = escaped_attr(s.drop_first());
        assert(forall|i: int| 0 <= i < a.len() ==> #[trigger] a[i] != '"');
        assert forall|i: int| 0 <= i < (a + b).len() implies #[trigger] (a + b)[i] != '"' by {
            if i >= a.len() {
                assert((a + b)[i] == b[i - a.len()]);
            }
        }
    }
}

/// Text without `&`, `<` and `>` is left as it is by escaping.
pub proof fn lemma_escaped_plain_text(s: Seq<char>)
    requires
        plain_text(s),
    ensures
        escaped_text(s) == s,
    decreases s.len(),
{
    if s.len() > 0 {
        assert(plain_text(s.drop_first()));
        lemma_escaped_plain_text(s.drop_first());
        assert(s == seq![s[0]] + s.drop_first());
    }
}

proof fn lemma_lines_html_concat(x: Seq<Seq<char>>, y: Seq<Seq<char>>)
    ensures
        lines_html(x + y) == lines_html(x) + lines_html(y),
    decreases y.len(),
{
    if y.len() == 0 {
        assert(x + y == x);
    } else {
        lemma_lines_html_concat(x, y.drop_last());
        assert((x + y).drop_last() == x + y.drop_last());
        assert((x + y).last() == y.last());
    }
}

/// Lines render independently: the HTML of two pieces of Markdown joined by
/// a newline is the HTML of the first followed by that of the second.
pub proof fn lemma_markdown_lines_independent(a: Seq<char>, b: Seq<char>)
    ensures
        markdown_html(a + seq!['\n'] + b) == markdown_html(a) + markdown_html(b),
{
    lemma_pieces_concat(a, b, '\n');
    lemma_lines_html_concat(pieces(a, '\n'), pieces(b, '\n'));
}

/// Whether `s` holds no `*` and no backtick.
pub open spec fn without_inline_markers(s: Seq<char>) -> bool {
    forall|i: int| 0 <= i < s.len() ==> #[trigger] s[i] != '*' && s[i] != '`'
}

proof fn lemma_markers_concat(a: Seq<char>, b: Seq<char>)
    requires
        without_inline_markers(a),
        without_inline_markers(b),
    ensures
        without_inline_markers(a + b),
{
    assert forall|i: int| 0 <= i < (a + b).len() implies #[trigger] (a + b)[i] != '*' && (a
        + b)[i] != '`' by {
        if i >= a.len() {
            assert((a + b)[i] == b[i - a.len()]);
        }
    }
}

proof fn lemma_escaped_without_markers(s: Seq<char>)
    requires
        without_inline_markers(s),
    ensures
        without_inline_markers(escaped_text(s)),
    decreases s.len(),
{
    reveal_strlit("&amp;");
    reveal_strlit("&lt;");
    reveal_strlit("&gt;");
    if s.len() > 0 {
        assert(without_inline_markers(s.drop_first()));
        lemma_escaped_without_markers(s.drop_first());
        assert(s[0] != '*' && s[0] != '`');
        assert(without_inline_markers(escaped_text_char(s[0])));
        lemma_markers_concat(escaped_text_char(s[0]), escaped_text(s.drop_first()));
    }
}

proof fn lemma_markup_identity(s: Seq<char>, open: bool)
    requires
        without_inline_markers(s),
    ensures
        strong_markup(s, open) == s,
        code_markup(s, open) == s,
    decreases s.len(),
{
    if s.len() > 0 {
        assert(without_inline_markers(s.drop_first()));
        lemma_markup_identity(s.drop_first(), open);
        assert(s[0] != '*' && s[0] != '`');
        assert(s == seq![s[0]] + s.drop_first());
    }
}

/// Text is escaped before the inline markup is applied: text without `**`
/// or backtick markers renders as its escaped form.
pub proof fn lemma_inline_of_unmarked_text(s: Seq<char>)
    requires
        without_inline_markers(s),
    ensures
        inline_markup(s) == escaped_text(s),
{
    lemma_escaped_without_markers(s);
    lemma_markup_identity(escaped_text(s), false);
}

/// Each `"` replaced by `&quot;` (`str::replace('"', "&quot;")`).
pub open spec fn quotes_escaped(s: Seq<char>) -> Seq<char>
    decreases s.len(),
{
    if s.len() == 0 {
        seq![]
    } else if s[0] == '"' {
        "&quot;"@ + quotes_escaped(s.drop_first())
    } else {
        seq![s[0]] + quotes_escaped(s.drop_first())
    }
}

proof fn lemma_quotes_concat(a: Seq<char>, b: Seq<char>)
    ensures
        quotes_escaped(a + b) == quotes_escaped(a) + quotes_escaped(b),
    decreases a.len(),
{
    if a.len() == 0 {
        assert(a + b == b);
    } else {
        lemma_quotes_concat(a.drop_first(), b);
        assert((a + b).drop_first() == a.drop_first() + b);
        assert((a + b)[0] == a[0]);
    }
}

proof fn lemma_quotes_of_literal(s: Seq<char>)
    requires
        forall|i: int| 0 <= i < s.len() ==> #[trigger] s[i] != '"',
    ensures
        quotes_escaped(s) == s,
    decreases s.len(),
{
    if s.len() > 0 {
        assert(s[0] != '"');
        lemma_quotes_of_literal(s.drop_first());
        assert(s == seq![s[0]] + s.drop_first());
    }
}

/// The attribute escape is the text escape followed by the escape of
/// double quotes.
pub proof fn lemma_attr_is_text_then_quotes(s: Seq<char>)
    ensures
        escaped_attr(s) == quotes_escaped(escaped_text(s)),
    decreases s.len(),
{
    if s.len() > 0 {
        reveal_strlit("&amp;");
        reveal_strlit("&lt;");
        reveal_strlit("&gt;");
        let c = s[0];
        lemma_attr_is_text_then_quotes(s.drop_first());
        lemma_quotes_concat(escaped_text_char(c), escaped_text(s.drop_first()));
        assert("&amp;"@ =~= seq!['&', 'a', 'm', 'p', ';']);
        assert("&lt;"@ =~= seq!['&', 'l', 't', ';']);
        assert("&gt;"@ =~= seq!['&', 'g', 't', ';']);
        if c == '&' || c == '<' || c == '>' {
            lemma_quotes_of_literal(escaped_text_char(c));
            assert(quotes_escaped(escaped_text_char(c)) == escaped_attr_char(c));
        } else {
            assert(seq![c].drop_first() == Seq::<char>::empty());
            assert(quotes_escaped(Seq::<char>::empty()) == Seq::<char>::empty());
            assert("&quot;"@ + Seq::<char>::empty() == "&quot;"@);
            assert(seq![c] + Seq::<char>::empty() == seq![c]);
            assert(quotes_escaped(seq![c]) == escaped_attr_char(c));
        }
    }
}

/// Whether every character of `s` is white space.
pub open spec fn blank(s: Seq<char>) -> bool {
    forall|i: int| 0 <= i < s.len() ==> is_white_space(#[trigger] s[i])
}

proof fn lemma_trim_blank(s: Seq<char>)
    requires
        blank(s),
    ensures
        trimmed(s).len() == 0,
    decreases s.len(),
{
    if s.len() > 0 {
        assert(is_white_space(s[0]));
        assert(blank(s.drop_first()));
        lemma_trim_blank(s.drop_first());
    }
}

proof fn lemma_blank_pieces(s: Seq<char>)
    requires
        blank(s),
    ensures
        forall|k: int| 0 <= k < pieces(s, '\n').len() ==> blank(#[trigger] pieces(s, '\n')[k]),
    decreases s.len(),
{
    lemma_pieces_len(s, '\n');
    if s.len() > 0 {
        let t = s.drop_last();
        assert(blank(t));
        lemma_blank_pieces(t);
        lemma_pieces_len(t, '\n');
        let init = pieces(t, '\n');
        assert(is_white_space(s.last()));
        if s.last() != '\n' {
            let last = init.last().push(s.last());
            assert(blank(init[init.len() - 1]));
            assert(blank(last)) by {
                assert forall|i: int| 0 <= i < last.len() implies is_white_space(#[trigger] last[i]) by {
                    if i < init.last().len() {
                        assert(last[i] == init.last()[i]);
                    }
                }
            }
            assert forall|k: int| 0 <= k < pieces(s, '\n').len() implies blank(
                #[trigger] pieces(s, '\n')[k],
            ) by {
                if k < init.len() - 1 {
                    assert(pieces(s, '\n')[k] == init[k]);
                }
            }
        } else {
            assert forall|k: int| 0 <= k < pieces(s, '\n').len() implies blank(
                #[trigger] pieces(s, '\n')[k],
            ) by {
                if k < init.len() {
                    assert(pieces(s, '\n')[k] == init[k]);
                }
            }
        }
    }
}

proof fn lemma_blank_lines_html(ls: Seq<Seq<char>>)
    requires
        forall|k: int| 0 <= k < ls.len() ==> blank(#[trigger] ls[k]),
    ensures
        lines_html(ls).len() == 0,
    decreases ls.len(),
{
    if ls.len() > 0 {
        let init = ls.drop_last();
        assert forall|k: int| 0 <= k < init.len() implies blank(#[trigger] init[k]) by {
            assert(init[k] == ls[k]);
        }
        lemma_blank_lines_html(init);
        assert(blank(ls[ls.len() - 1]));
        lemma_trim_blank(ls.last());
    }
}

/// Blank lines render nothing: Markdown made only of white space (line
/// breaks included) gives no HTML.
pub proof fn lemma_blank_markdown(s: Seq<char>)
    requires
        blank(s),
    ensures
        markdown_html(s).len() == 0,
{
    lemma_blank_pieces(s);
    lemma_blank_lines_html(pieces(s, '\n'));
}

/// Escaped text read back: `&amp;`, `&lt;` and `&gt;`, taken left to right,
/// become `&`, `<` and `>`; every other character stays.
pub open spec fn decoded_text(s: Seq<char>) -> Seq<char>
    decreases s.len(),
{
    if s.len() == 0 {
        seq![]
    } else if s.len() >= 5 && s[0] == '&' && s[1] == 'a' && s[2] == 'm' && s[3] == 'p' && s[4]
        == ';' {
        seq!['&'] + decoded_text(s.skip(5))
    } else if s.len() >= 4 && s[0] == '&' && s[1] == 'l' && s[2] == 't' && s[3] == ';' {
        seq!['<'] + decoded_text(s.skip(4))
    } else if s.len() >= 4 && s[0] == '&' && s[1] == 'g' && s[2] == 't' && s[3] == ';' {
        seq!['>'] + decoded_text(s.skip(4))
    } else {
        seq![s[0]] + decoded_text(s.drop_first())
    }
}

/// Escaped attribute text read back: as `decoded_text`, and `&quot;`
/// becomes `"`.
pub open spec fn decoded_attr(s: Seq<char>) -> Seq<char>
    decreases s.len(),
{
    if s.len() == 0 {
        seq![]
    } else if s.len() >= 5 && s[0] == '&' && s[1] == 'a' && s[2] == 'm' && s[3] == 'p' && s[4]
        == ';' {
        seq!['&'] + decoded_attr(s.skip(5))
    } else if s.len() >= 4 && s[0] == '&' && s[1] == 'l' && s[2] == 't' && s[3] == ';' {
        seq!['<'] + decoded_attr(s.skip(4))
    } else if s.len() >= 4 && s[0] == '&' && s[1] == 'g' && s[2] == 't' && s[3] == ';' {
        seq!['>'] + decoded_attr(s.skip(4))
    } else if s.len() >= 6 && s[0] == '&' && s[1] == 'q' && s[2] == 'u' && s[3] == 'o' && s[4]
        == 't' && s[5] == ';' {
        seq!['"'] + decoded_attr(s.skip(6))
    } else {
        seq![s[0]] + decoded_attr(s.drop_first())
    }
}

proof fn lemma_entities()
    ensures
        "&amp;"@ == seq!['&', 'a', 'm', 'p', ';'],
        "&lt;"@ == seq!['&', 'l', 't', ';'],
        "&gt;"@ == seq!['&', 'g', 't', ';'],
        "&quot;"@ == seq!['&', 'q', 'u', 'o', 't', ';'],
{
    reveal_strlit("&amp;");
    reveal_strlit("&lt;");
    reveal_strlit("&gt;");
    reveal_strlit("&quot;");
    assert("&amp;"@ =~= seq!['&', 'a', 'm', 'p', ';']);
    assert("&lt;"@ =~= seq!['&', 'l', 't', ';']);
    assert("&gt;"@ =~= seq!['&', 'g', 't', ';']);
    assert("&quot;"@ =~= seq!['&', 'q', 'u', 'o', 't', ';']);
}

/// Escaping loses nothing: reading escaped text back gives the text.
pub proof fn lemma_decoded_escaped_text(s: Seq<char>)
    ensures
        decoded_text(escaped_text(s)) == s,
    decreases s.len(),
{
    if s.len() > 0 {
        lemma_entities();
        let c = s[0];
        let e = escaped_text_char(c);
        let r = escaped_text(s.drop_first());
        let t = e + r;
        lemma_decoded_escaped_text(s.drop_first());
        assert(forall|i: int| 0 <= i < e.len() ==> t[i] == #[trigger] e[i]);
        assert(t.skip(e.len() as int) == r);
        if c != '&' && c != '<' && c != '>' {
            assert(t.drop_first() == r);
        }
        assert(decoded_text(t) == seq![c] + decoded_text(r));
        assert(s == seq![c] + s.drop_first());
    }
}

/// Escaping an attribute loses nothing: reading it back gives the text.
pub proof fn lemma_decoded_escaped_attr(s: Seq<char>)
    ensures
        decoded_attr(escaped_attr(s)) == s,
    decreases s.len(),
{
    if s.len() > 0 {
        lemma_entities();
        let c = s[0];
        let e = escaped_attr_char(c);
        let r = escaped_attr(s.drop_first());
        let t = e + r;
        lemma_decoded_escaped_attr(s.drop_first());
        assert(forall|i: int| 0 <= i < e.len() ==> t[i] == #[trigger] e[i]);
        assert(t.skip(e.len() as int) == r);
        if c != '&' && c != '<' && c != '>' && c != '"' {
            assert(t.drop_first() == r);
        }
        assert(decoded_attr(t) == seq![c] + decoded_attr(r));
        assert(s == seq![c] + s.drop_first());
    }
}

proof fn lemma_trim_unpadded(t: Seq<char>)
    requires
        t.len() > 0,
        !is_white_space(t[0]),
        !is_white_space(t.last()),
    ensures
        trimmed(t) == t,
{
}

/// The HTML of a single line `t` that is not padded with white space.
proof fn lemma_single_line(t: Seq<char>)
    requires
        t.len() > 0,
        !is_white_space(t[0]),
        !is_white_space(t.last()),
        forall|j: int| 0 <= j < t.len() ==> t[j] != '\n',
    ensures
        markdown_html(t) == line_html(t),
{
    lemma_pieces_single(t, '\n');
    lemma_trim_unpadded(t);
    assert(seq![t].drop_last() == Seq::<Seq<char>>::empty());
    assert(seq![t].last() == t);
    assert(lines_html(Seq::<Seq<char>>::empty()) == Seq::<char>::empty());
    assert(Seq::<char>::empty() + line_html(t) == line_html(t));
    assert(lines_html(seq![t]) == line_html(t));
}

/// Headings render their text through the same inline markup as
/// paragraphs: `# ` and `## ` followed by a one-line text `s` give an `h1`
/// and an `h2` of `s` escaped, with `**` and backticks turned into tags,
/// just as the paragraph of `s` holds it (when `s` itself is no heading).
pub proof fn lemma_headings_use_inline_markup(s: Seq<char>)
    requires
        s.len() > 0,
        !is_white_space(s.last()),
        forall|j: int| 0 <= j < s.len() ==> s[j] != '\n',
    ensures
        markdown_html(seq!['#', ' '] + s) == "<h1>"@ + inline_markup(s) + "</h1>\n"@,
        markdown_html(seq!['#', '#', ' '] + s) == "<h2>"@ + inline_markup(s) + "</h2>\n"@,
        !is_white_space(s[0]) && s[0] != '#' ==> markdown_html(s) == "<p>"@ + inline_markup(s)
            + "</p>\n"@,
{
    let h1 = seq!['#', ' '] + s;
    let h2 = seq!['#', '#', ' '] + s;
    assert forall|j: int| 0 <= j < h1.len() implies h1[j] != '\n' by {
        if j >= 2 {
            assert(h1[j] == s[j - 2]);
        }
    }
    assert forall|j: int| 0 <= j < h2.len() implies h2[j] != '\n' by {
        if j >= 3 {
            assert(h2[j] == s[j - 3]);
        }
    }
    assert(h1.last() == s.last() && h2.last() == s.last());
    lemma_single_line(h1);
    lemma_single_line(h2);
    assert(h1.skip(2) =~= s);
    assert(h2.skip(3) =~= s);
    if !is_white_space(s[0]) && s[0] != '#' {
        lemma_single_line(s);
    }
}

/// Whether `s` holds no `<`: no tag can start in it.
pub open spec fn free_of_tags(s: Seq<char>) -> bool {
    forall|i: int| 0 <= i < s.len() ==> #[trigger] s[i] != '<'
}

/// The page is well formed: its head holds the escaped title and a style
/// sheet free of tags, and closes the title, the style element and the head
/// before the body; the body holds the navigation links and then the
/// rendered content, and the document ends after them.
pub proof fn lemma_page_well_formed(title: Seq<char>, body: Seq<char>, links: Seq<char>)
    ensures
        exists|css: Seq<char>|
            free_of_tags(css) && page_html(title, body, links)
                == "<!doctype html><html><head><meta charset=\"utf-8\"><title>"@ + escaped_text(title)
                + "</title><style>"@ + css + "</style></head><body><nav>"@ + links + "</nav>"@ + body
                + "</body></html>\n"@,
        free_of_markup(escaped_text(title)),
{
    let whole = "</title><style>body{max-width:960px;margin:2rem auto;padding:0 1rem;font:16px system-ui;line-height:1.6}code{background:#eef;padding:.1rem .3rem}</style></head><body><nav>"@;
    let css = "body{max-width:960px;margin:2rem auto;padding:0 1rem;font:16px system-ui;line-height:1.6}code{background:#eef;padding:.1rem .3rem}"@;
    reveal_strlit("</title><style>body{max-width:960px;margin:2rem auto;padding:0 1rem;font:16px system-ui;line-height:1.6}code{background:#eef;padding:.1rem .3rem}</style></head><body><nav>");
    reveal_strlit("body{max-width:960px;margin:2rem auto;padding:0 1rem;font:16px system-ui;line-height:1.6}code{background:#eef;padding:.1rem .3rem}");
    reveal_strlit("</title><style>");
    reveal_strlit("</style></head><body><nav>");
    assert(whole =~= "</title><style>"@ + css + "</style></head><body><nav>"@);
    assert(free_of_tags(css));
    let head = "<!doctype html><html><head><meta charset=\"utf-8\"><title>"@;
    assert(page_html(title, body, links) == head + escaped_text(title) + "</title><style>"@ + css
        + "</style></head><body><nav>"@ + links + "</nav>"@ + body + "</body></html>\n"@);
    lemma_escaped_free_of_markup(title);
}

} // verus!
