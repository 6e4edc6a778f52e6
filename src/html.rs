//! Serialisation of a node sequence to HTML.
use vstd::prelude::*;
use crate::node::{Node, Tag, Attr, content_of, attr_lookup};
use crate::text::{chars_of, append_chars};

verus! {

/// Code text escaped for HTML: `&`, `<` and `>` become entities.
pub open spec fn escape_char(c: char) -> Seq<char> {
    if c == '&' {
        "&amp;"@
    } else if c == '<' {
        "&lt;"@
    } else if c == '>' {
        "&gt;"@
    } else {
        seq![c]
    }
}

pub open spec fn escaped(s: Seq<char>) -> Seq<char>
    decreases s.len(),
{
    if s.len() == 0 {
        Seq::empty()
    } else {
        escaped(s.drop_last()) + escape_char(s.last())
    }
}

/// Relies on `html_escape::encode_text`, which replaces each `&`, `<` and `>`
/// by its entity and keeps every other character.
#[verifier::external_body]
fn encode_text(s: &str) -> (r: String)
    ensures
        r@ == escaped(s@),
{
    html_escape::encode_text(s).into_owned()
}

/// The text of a code block as it stands in the HTML output.
pub fn escape_code(s: &str) -> (r: String)
    ensures
        r@ == escaped(s@),
{
    encode_text(s)
}

pub open spec fn is_bracket(c: char) -> bool {
    c == '[' || c == ']'
}

pub open spec fn bracket_run(s: Seq<char>, i: int) -> nat
    decreases s.len() - i,
{
    if 0 <= i < s.len() && is_bracket(s[i]) {
        1 + bracket_run(s, i + 1)
    } else {
        0
    }
}

pub open spec fn bracket_back(s: Seq<char>, i: int) -> nat
    decreases i,
{
    if 0 < i <= s.len() && is_bracket(s[i - 1]) {
        1 + bracket_back(s, i - 1)
    } else {
        0
    }
}

/// `s` without the `[` and `]` characters at either end.
pub open spec fn strip_brackets(s: Seq<char>) -> Seq<char> {
    let t = s.subrange(bracket_run(s, 0) as int, s.len() as int);
    t.subrange(0, t.len() - bracket_back(t, t.len() as int))
}

fn strip_brackets_exec(s: &Vec<char>) -> (r: Vec<char>)
    ensures
        r@ == strip_brackets(s@),
{
    let mut lo: usize = 0;
    while lo < s.len() && (s[lo] == '[' || s[lo] == ']')
        invariant
            lo <= s@.len(),
            bracket_run(s@, 0) == lo + bracket_run(s@, lo as int),
        decreases s@.len() - lo,
    {
        lo = lo + 1;
    }
    let t = crate::text::slice_of(s, lo, s.len());
    let mut hi: usize = t.len();
    while hi > 0 && (t[hi - 1] == '[' || t[hi - 1] == ']')
        invariant
            hi <= t@.len(),
            bracket_back(t@, t@.len() as int) == (t@.len() - hi) + bracket_back(t@, hi as int),
        decreases hi,
    {
        hi = hi - 1;
    }
    crate::text::slice_of(&t, 0, hi)
}

pub open spec fn digit_char(d: nat) -> char {
    if d == 0 { '0' } else if d == 1 { '1' } else if d == 2 { '2' } else if d == 3 { '3' }
    else if d == 4 { '4' } else if d == 5 { '5' } else if d == 6 { '6' } else if d == 7 { '7' }
    else if d == 8 { '8' } else { '9' }
}

/// The decimal digits of `n`.
pub open spec fn decimal(n: nat) -> Seq<char>
    decreases n,
{
    if n < 10 {
        seq![digit_char(n)]
    } else {
        decimal(n / 10).push(digit_char(n % 10))
    }
}

fn digit(d: usize) -> (c: char)
    requires
        d < 10,
    ensures
        c == digit_char(d as nat),
{
    if d == 0 { '0' } else if d == 1 { '1' } else if d == 2 { '2' } else if d == 3 { '3' }
    else if d == 4 { '4' } else if d == 5 { '5' } else if d == 6 { '6' } else if d == 7 { '7' }
    else if d == 8 { '8' } else { '9' }
}

fn decimal_exec(n: usize) -> (r: Vec<char>)
    ensures
        r@ == decimal(n as nat),
    decreases n,
{
    if n < 10 {
        let mut r: Vec<char> = Vec::new();
        r.push(digit(n));
        r
    } else {
        let mut r = decimal_exec(n / 10);
        r.push(digit(n % 10));
        r
    }
}

/// The element name of a tag.
pub open spec fn tag_name(t: Tag) -> Seq<char> {
    match t {
        Tag::Text => "text"@,
        Tag::Br => "br"@,
        Tag::Hr => "hr"@,
        Tag::Img => "img"@,
        Tag::A => "a"@,
        Tag::Blockquote => "blockquote"@,
        Tag::Ul => "ul"@,
        Tag::Ol => "ol"@,
        Tag::Li => "li"@,
        Tag::P => "p"@,
        Tag::Pre => "pre"@,
        Tag::Code => "code"@,
        Tag::Strong => "strong"@,
        Tag::Em => "em"@,
        Tag::U => "u"@,
        Tag::Heading(k) => "h"@ + decimal(k as nat),
    }
}

fn push_tag_name(out: &mut String, t: Tag)
    ensures
        final(out)@ == old(out)@ + tag_name(t),
{
    match t {
        Tag::Text => out.append("text"),
        Tag::Br => out.append("br"),
        Tag::Hr => out.append("hr"),
        Tag::Img => out.append("img"),
        Tag::A => out.append("a"),
        Tag::Blockquote => out.append("blockquote"),
        Tag::Ul => out.append("ul"),
        Tag::Ol => out.append("ol"),
        Tag::Li => out.append("li"),
        Tag::P => out.append("p"),
        Tag::Pre => out.append("pre"),
        Tag::Code => out.append("code"),
        Tag::Strong => out.append("strong"),
        Tag::Em => out.append("em"),
        Tag::U => out.append("u"),
        Tag::Heading(k) => {
            out.append("h");
            let d = decimal_exec(k);
            append_chars(out, &d);
            proof {
                assert(final(out)@ == old(out)@ + ("h"@ + decimal(k as nat)));
            }
        },
    }
}

/// The attribute name as written in HTML.
pub open spec fn attr_name(a: Attr) -> Seq<char> {
    match a {
        Attr::Href => "href"@,
        Attr::Src => "src"@,
        Attr::Alt => "alt"@,
        Attr::Class => "class"@,
    }
}

fn push_attr_name(out: &mut String, a: Attr)
    ensures
        final(out)@ == old(out)@ + attr_name(a),
{
    match a {
        Attr::Href => out.append("href"),
        Attr::Src => out.append("src"),
        Attr::Alt => out.append("alt"),
        Attr::Class => out.append("class"),
    }
}

/// The attributes of an image, each as ` name="value"` with brackets stripped
/// from the value.
pub open spec fn attrs_html(a: Seq<(Attr, String)>) -> Seq<char>
    decreases a.len(),
{
    if a.len() == 0 {
        Seq::empty()
    } else {
        attrs_html(a.drop_last()) + " "@ + attr_name(a.last().0) + "=\""@ + strip_brackets(
            a.last().1@,
        ) + "\""@
    }
}

/// The code children of a `pre` node, escaped, each inside `<code>`.
pub open spec fn codes_html(kids: Seq<Node>) -> Seq<char>
    decreases kids.len(),
{
    if kids.len() == 0 {
        Seq::empty()
    } else {
        let k = kids.last();
        codes_html(kids.drop_last()) + if k.tag == Tag::Code {
            "<code>"@ + escaped(content_of(k)) + "</code>"@
        } else {
            Seq::empty()
        }
    }
}

pub open spec fn class_html(n: Node) -> Seq<char> {
    match attr_lookup(n.attributes@, Attr::Class) {
        Some(c) => " class=\""@ + c + "\""@,
        None => Seq::empty(),
    }
}

pub open spec fn href_of(n: Node) -> Seq<char> {
    match attr_lookup(n.attributes@, Attr::Href) {
        Some(h) => h,
        None => Seq::empty(),
    }
}

/// The HTML of one node.
pub open spec fn html_of(n: Node) -> Seq<char>
    decreases n, 1int, 0int,
{
    let kids = kids_html(n, n.children@.len() as int);
    match n.tag {
        Tag::Text => content_of(n),
        Tag::Br => "<br>\n"@,
        Tag::Hr => "<hr>\n"@,
        Tag::Img => "<img"@ + attrs_html(n.attributes@) + "/>"@,
        Tag::A => "<a href=\""@ + strip_brackets(href_of(n)) + "\">"@ + strip_brackets(
            content_of(n),
        ) + "</a>"@,
        Tag::Blockquote => "<blockquote>"@ + content_of(n) + kids + "</blockquote>\n"@,
        Tag::Ul => "<ul>\n"@ + kids + "</ul>\n"@,
        Tag::Ol => "<ol>\n"@ + kids + "</ol>\n"@,
        Tag::Li => "<li>"@ + content_of(n) + kids + "</li>\n"@,
        Tag::P => "<p>"@ + kids + "</p>\n"@,
        Tag::Pre => "<pre"@ + class_html(n) + ">\n"@ + codes_html(n.children@) + "</pre>\n"@,
        _ => {
            if n.content is Some {
                "<"@ + tag_name(n.tag) + ">"@ + content_of(n) + "</"@ + tag_name(n.tag) + ">\n"@
            } else if n.children@.len() > 0 {
                "<"@ + tag_name(n.tag) + ">\n"@ + kids + "</"@ + tag_name(n.tag) + ">\n"@
            } else {
                Seq::empty()
            }
        },
    }
}

/// The HTML of the first `k` children of `n`, one after another.
pub open spec fn kids_html(n: Node, k: int) -> Seq<char>
    decreases n, 0int, k,
{
    if k <= 0 || k > n.children@.len() {
        Seq::empty()
    } else {
        kids_html(n, k - 1) + html_of(n.children@[k - 1])
    }
}

/// The HTML of a node sequence: each node's HTML, in order.
pub open spec fn html_seq(s: Seq<Node>) -> Seq<char>
    decreases s.len(),
{
    if s.len() == 0 {
        Seq::empty()
    } else {
        html_seq(s.drop_last()) + html_of(s.last())
    }
}

fn push_attrs(out: &mut String, n: &Node)
    ensures
        final(out)@ == old(out)@ + attrs_html(n.attributes@),
{
    let mut i: usize = 0;
    while i < n.attributes.len()
        invariant
            i <= n.attributes@.len(),
            out@ == old(out)@ + attrs_html(n.attributes@.subrange(0, i as int)),
        decreases n.attributes@.len() - i,
    {
        let ghost before = out@;
        out.append(" ");
        push_attr_name(out, n.attributes[i].0);
        out.append("=\"");
        let v = chars_of(n.attributes[i].1.as_str());
        let sv = strip_brackets_exec(&v);
        append_chars(out, &sv);
        out.append("\"");
        proof {
            let a = n.attributes@.subrange(0, i + 1);
            assert(a.drop_last() == n.attributes@.subrange(0, i as int));
            assert(out@ == before + (" "@ + attr_name(a.last().0) + "=\""@ + strip_brackets(
                a.last().1@) + "\""@));
        }
        i = i + 1;
    }
    proof {
        assert(n.attributes@.subrange(0, n.attributes@.len() as int) == n.attributes@);
    }
}

fn push_content(out: &mut String, n: &Node)
    ensures
        final(out)@ == old(out)@ + content_of(*n),
{
    match &n.content {
        Some(c) => out.append(c.as_str()),
        None => {
            proof {
                assert(out@ == out@ + Seq::<char>::empty());
            }
        },
    }
}

fn push_stripped(out: &mut String, s: &str)
    ensures
        final(out)@ == old(out)@ + strip_brackets(s@),
{
    let v = chars_of(s);
    let sv = strip_brackets_exec(&v);
    append_chars(out, &sv);
}

fn push_codes(out: &mut String, n: &Node)
    ensures
        final(out)@ == old(out)@ + codes_html(n.children@),
{
    let mut i: usize = 0;
    while i < n.children.len()
        invariant
            i <= n.children@.len(),
            out@ == old(out)@ + codes_html(n.children@.subrange(0, i as int)),
        decreases n.children@.len() - i,
    {
        let ghost before = out@;
        let c = &n.children[i];
        proof {
            let a = n.children@.subrange(0, i + 1);
            assert(a.drop_last() == n.children@.subrange(0, i as int));
        }
        if c.tag == Tag::Code {
            out.append("<code>");
            match &c.content {
                Some(t) => {
                    let e = escape_code(t.as_str());
                    out.append(e.as_str());
                },
                None => {
                    proof {
                        assert(escaped(Seq::<char>::empty()) == Seq::<char>::empty());
                    }
                },
            }
            out.append("</code>");
            proof {
                assert(out@ == before + ("<code>"@ + escaped(content_of(*c)) + "</code>"@));
            }
        } else {
            proof {
                assert(out@ == before + Seq::<char>::empty());
            }
        }
        i = i + 1;
    }
    proof {
        assert(n.children@.subrange(0, n.children@.len() as int) == n.children@);
    }
}

fn push_kids(out: &mut String, n: &Node)
    ensures
        final(out)@ == old(out)@ + kids_html(*n, n.children@.len() as int),
    decreases *n, 0int,
{
    let mut i: usize = 0;
    while i < n.children.len()
        invariant
            i <= n.children@.len(),
            out@ == old(out)@ + kids_html(*n, i as int),
        decreases n.children@.len() - i,
    {
        proof {
            assert(decreases_to!(*n => n.children@[i as int]));
        }
        render_node(&n.children[i], out);
        i = i + 1;
    }
}

fn render_text(n: &Node, out: &mut String)
    requires
        n.tag == Tag::Text,
    ensures
        final(out)@ == old(out)@ + html_of(*n),
{
    push_content(out, n);
}

fn render_img(n: &Node, out: &mut String)
    requires
        n.tag == Tag::Img,
    ensures
        final(out)@ == old(out)@ + html_of(*n),
{
    let ghost o = out@;
    out.append("<img");
    push_attrs(out, n);
    out.append("/>");
    proof {
        assert(out@ =~= o + html_of(*n));
    }
}

fn render_link(n: &Node, out: &mut String)
    requires
        n.tag == Tag::A,
    ensures
        final(out)@ == old(out)@ + html_of(*n),
{
    let ghost o = out@;
    let ghost e = Seq::<char>::empty();
    proof {
        assert(bracket_run(e, 0) == 0);
        assert(e.subrange(0, 0) =~= e);
        assert(strip_brackets(e) =~= e);
    }
    out.append("<a href=\"");
    match n.attribute(Attr::Href) {
        Some(h) => push_stripped(out, h.as_str()),
        None => {},
    }
    out.append("\">");
    match &n.content {
        Some(c) => push_stripped(out, c.as_str()),
        None => {},
    }
    out.append("</a>");
    proof {
        assert(out@ =~= o + html_of(*n));
    }
}

fn render_blockquote(n: &Node, out: &mut String)
    requires
        n.tag == Tag::Blockquote,
    ensures
        final(out)@ == old(out)@ + html_of(*n),
    decreases *n, 1int,
{
    let ghost o = out@;
    out.append("<blockquote>");
    push_content(out, n);
    push_kids(out, n);
    out.append("</blockquote>\n");
    proof {
        assert(out@ =~= o + html_of(*n));
    }
}

fn render_list(n: &Node, out: &mut String)
    requires
        n.tag == Tag::Ul || n.tag == Tag::Ol,
    ensures
        final(out)@ == old(out)@ + html_of(*n),
    decreases *n, 1int,
{
    let ghost o = out@;
    if n.tag == Tag::Ul {
        out.append("<ul>\n");
        push_kids(out, n);
        out.append("</ul>\n");
    } else {
        out.append("<ol>\n");
        push_kids(out, n);
        out.append("</ol>\n");
    }
    proof {
        assert(out@ =~= o + html_of(*n));
    }
}

fn render_list_item(n: &Node, out: &mut String)
    requires
        n.tag == Tag::Li,
    ensures
        final(out)@ == old(out)@ + html_of(*n),
    decreases *n, 1int,
{
    let ghost o = out@;
    out.append("<li>");
    push_content(out, n);
    push_kids(out, n);
    out.append("</li>\n");
    proof {
        assert(out@ =~= o + html_of(*n));
    }
}

fn render_paragraph(n: &Node, out: &mut String)
    requires
        n.tag == Tag::P,
    ensures
        final(out)@ == old(out)@ + html_of(*n),
    decreases *n, 1int,
{
    let ghost o = out@;
    out.append("<p>");
    push_kids(out, n);
    out.append("</p>\n");
    proof {
        assert(out@ =~= o + html_of(*n));
    }
}

fn render_pre(n: &Node, out: &mut String)
    requires
        n.tag == Tag::Pre,
    ensures
        final(out)@ == old(out)@ + html_of(*n),
{
    let ghost o = out@;
    out.append("<pre");
    match n.attribute(Attr::Class) {
        Some(c) => {
            out.append(" class=\"");
            out.append(c.as_str());
            out.append("\"");
        },
        None => {},
    }
    out.append(">\n");
    push_codes(out, n);
    out.append("</pre>\n");
    proof {
        assert(out@ =~= o + html_of(*n));
    }
}

fn render_generic(n: &Node, out: &mut String)
    requires
        !(n.tag is Text || n.tag is Br || n.tag is Hr || n.tag is Img || n.tag is A
            || n.tag is Blockquote || n.tag is Ul || n.tag is Ol || n.tag is Li || n.tag is P
            || n.tag is Pre),
    ensures
        final(out)@ == old(out)@ + html_of(*n),
    decreases *n, 1int,
{
    let ghost o = out@;
    match &n.content {
        Some(c) => {
            out.append("<");
            push_tag_name(out, n.tag);
            out.append(">");
            out.append(c.as_str());
            out.append("</");
            push_tag_name(out, n.tag);
            out.append(">\n");
        },
        None => {
            if n.children.len() > 0 {
                out.append("<");
                push_tag_name(out, n.tag);
                out.append(">\n");
                push_kids(out, n);
                out.append("</");
                push_tag_name(out, n.tag);
                out.append(">\n");
            }
        },
    }
    proof {
        assert(out@ =~= o + html_of(*n));
    }
}

/// Appends the HTML of `n` to `out`.
pub fn render_node(n: &Node, out: &mut String)
    ensures
        final(out)@ == old(out)@ + html_of(*n),
    decreases *n, 2int,
{
    match n.tag {
        Tag::Text => render_text(n, out),
        Tag::Br => {
            let ghost o = out@;
            out.append("<br>\n");
            proof {
                assert(out@ =~= o + html_of(*n));
            }
        },
        Tag::Hr => {
            let ghost o = out@;
            out.append("<hr>\n");
            proof {
                assert(out@ =~= o + html_of(*n));
            }
        },
        Tag::Img => render_img(n, out),
        Tag::A => render_link(n, out),
        Tag::Blockquote => render_blockquote(n, out),
        Tag::Ul | Tag::Ol => render_list(n, out),
        Tag::Li => render_list_item(n, out),
        Tag::P => render_paragraph(n, out),
        Tag::Pre => render_pre(n, out),
        _ => render_generic(n, out),
    }
}

/// The HTML of `nodes`, one node after another.
pub fn render(nodes: &[Node]) -> (r: String)
    ensures
        r@ == html_seq(nodes@),
{
    let mut out = String::new();
    let mut i: usize = 0;
    while i < nodes.len()
        invariant
            i <= nodes@.len(),
            out@ == html_seq(nodes@.subrange(0, i as int)),
        decreases nodes@.len() - i,
    {
        render_node(&nodes[i], &mut out);
        proof {
            let a = nodes@.subrange(0, i + 1);
            assert(a.drop_last() == nodes@.subrange(0, i as int));
        }
        i = i + 1;
    }
    proof {
        assert(nodes@.subrange(0, nodes@.len() as int) == nodes@);
    }
    out
}

} // verus!
