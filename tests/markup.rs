use markup_parser::html::escape_code;
use markup_parser::inline::segment;
use markup_parser::node::{Attr, Node, Tag};
use markup_parser::parser::MarkupParser;
use markup_parser::patterns::{match_fence_open, match_heading, match_link, match_rule};

fn html(input: &str) -> String {
    MarkupParser::new().parse_to_html(input)
}

fn text_leaf(tag: Tag, s: &str) -> Node {
    Node::leaf(tag, s.to_string())
}

#[test]
fn blank_input_gives_empty_output() {
    assert_eq!(html(""), "");
    assert_eq!(html("   "), "");
    assert_eq!(html(" \n\t\n  \r\n"), "");
}

#[test]
fn bold_text() {
    assert_eq!(html("js bold text sj"), "<p><strong>bold text</strong>\n</p>\n");
}

#[test]
fn single_list_item() {
    assert_eq!(html("ja list item"), "<ul>\n<li>list item</li>\n</ul>\n");
}

#[test]
fn quote_line() {
    assert_eq!(html("kl quote"), "<blockquote>quote</blockquote>\n");
}

#[test]
fn code_fence_round_trip() {
    let p = MarkupParser::new();
    let nodes = p.parse("jkd lang\nLINE1\nLINE2\ndkj");
    assert_eq!(nodes.len(), 1);
    assert_eq!(nodes[0].tag, Tag::Pre);
    assert_eq!(nodes[0].attribute(Attr::Class).map(|s| s.as_str()), Some("language-lang"));
    assert_eq!(nodes[0].children.len(), 1);
    assert_eq!(nodes[0].children[0].tag, Tag::Code);
    assert_eq!(nodes[0].children[0].content.as_deref(), Some("LINE1\nLINE2"));
    assert_eq!(
        p.to_html(&nodes),
        "<pre class=\"language-lang\">\n<code>LINE1\nLINE2</code></pre>\n"
    );
}

#[test]
fn code_without_language() {
    assert_eq!(html("jkd\nx = 1\ndkj"), "<pre>\n<code>x = 1</code></pre>\n");
}

#[test]
fn code_is_escaped() {
    assert_eq!(
        html("jkd\na < b && c > d\ndkj"),
        "<pre>\n<code>a &lt; b &amp;&amp; c &gt; d</code></pre>\n"
    );
}

#[test]
fn blank_lines_inside_code_are_kept() {
    assert_eq!(html("jkd\nx\n\ny\ndkj"), "<pre>\n<code>x\n\ny</code></pre>\n");
}

#[test]
fn escaping_twice_gives_the_same_text() {
    let a = escape_code("<a href='x'>&</a>");
    let b = escape_code("<a href='x'>&</a>");
    assert_eq!(a, b);
    assert_eq!(a, "&lt;a href='x'&gt;&amp;&lt;/a&gt;");
    let doc = "jkd rust\nif a < b { c & d }\ndkj";
    assert_eq!(html(doc), html(doc));
}

#[test]
fn heading_level_is_repeats_minus_one() {
    let nodes = MarkupParser::new().parse("jff Title");
    assert_eq!(nodes.len(), 1);
    assert_eq!(nodes[0].tag, Tag::Heading(2));
    assert_eq!(nodes[0].content.as_deref(), Some("Title"));
    assert_eq!(html("jff Title"), "<h2>Title</h2>\n");
    assert_eq!(html("jf One"), "<h1>One</h1>\n");
    assert_eq!(html("jffff   Deep  "), "<h4>Deep</h4>\n");
}

#[test]
fn nested_quote_structure() {
    let nodes = MarkupParser::new().parse("kll nested");
    assert_eq!(nodes.len(), 1);
    assert_eq!(nodes[0].tag, Tag::Blockquote);
    assert!(nodes[0].content.is_none());
    assert_eq!(nodes[0].children.len(), 1);
    assert_eq!(nodes[0].children[0].tag, Tag::Blockquote);
    assert_eq!(
        html("kll nested"),
        "<blockquote><blockquote>nested</blockquote>\n</blockquote>\n"
    );
}

#[test]
fn unterminated_fence_is_dropped() {
    let nodes = MarkupParser::new().parse("jkd py\nprint(1)\nprint(2)");
    assert!(nodes.is_empty());
    assert_eq!(html("intro\njkd py\nprint(1)"), "<p>intro</p>\n");
}

#[test]
fn link_must_fill_the_line() {
    assert_eq!(
        html("see jg [x] gh [y] hg"),
        "<p>see jg [x] gh [y] hg</p>\n"
    );
    assert_eq!(html("jg [text] gh [http://a.b] hg"), "<a href=\"http://a.b\">text</a>");
}

#[test]
fn image_line() {
    assert_eq!(
        html("jh [alt text] gh [pic.png] hj"),
        "<img alt=\"alt text\" src=\"pic.png\"/>"
    );
    assert_eq!(html("look jh [a] gh [b] hj"), "<p>look jh [a] gh [b] hj</p>\n");
}

#[test]
fn brackets_are_stripped_from_links() {
    assert_eq!(html("jg [[x]] gh [[u]] hg"), "<a href=\"u\">x</a>");
}

#[test]
fn list_run_collects_consecutive_items() {
    let nodes = MarkupParser::new().parse("ja a\nja b\nja c\nplain");
    assert_eq!(nodes.len(), 2);
    assert_eq!(nodes[0].tag, Tag::Ul);
    assert_eq!(nodes[0].children.len(), 3);
    assert_eq!(nodes[1].tag, Tag::P);
    assert_eq!(
        html("ja a\nja b\nja c\nplain"),
        "<ul>\n<li>a</li>\n<li>b</li>\n<li>c</li>\n</ul>\n<p>plain</p>\n"
    );
}

#[test]
fn blank_line_ends_a_list() {
    assert_eq!(
        html("jl one\n\njl two"),
        "<ol>\n<li>one</li>\n</ol>\n<br>\n<ol>\n<li>two</li>\n</ol>\n"
    );
}

#[test]
fn other_list_kind_ends_a_list() {
    assert_eq!(
        html("ja x\njl y"),
        "<ul>\n<li>x</li>\n</ul>\n<ol>\n<li>y</li>\n</ol>\n"
    );
}

#[test]
fn horizontal_rule() {
    assert_eq!(html("js"), "<hr>\n");
    assert_eq!(html("  js   "), "<hr>\n");
}

#[test]
fn italic_and_underline_between_text() {
    assert_eq!(
        html("a jd it dj b ju un uj c"),
        "<p>a <em>it</em>\n b <u>un</u>\n c</p>\n"
    );
}

#[test]
fn styled_text_in_list_items_and_quotes() {
    assert_eq!(
        html("ja js b sj tail"),
        "<ul>\n<li><strong>b</strong>\n tail</li>\n</ul>\n"
    );
    assert_eq!(html("kl jd i dj"), "<blockquote><em>i</em>\n</blockquote>\n");
}

#[test]
fn blank_line_gives_break() {
    assert_eq!(html("a\n\nb"), "<p>a</p>\n<br>\n<p>b</p>\n");
}

#[test]
fn stray_close_line_is_plain_text() {
    assert_eq!(html("dkj"), "<p>dkj</p>\n");
}

#[test]
fn unclosed_style_is_plain_text() {
    assert_eq!(html("js open only"), "<p>js open only</p>\n");
}

#[test]
fn windows_line_endings() {
    assert_eq!(html("a\r\nb\r\n"), "<p>a</p>\n<p>b</p>\n");
}

#[test]
fn render_generic_nodes() {
    let p = MarkupParser::new();
    assert_eq!(p.to_html(&[text_leaf(Tag::Code, "x")]), "<code>x</code>\n");
    let mut strong = Node::new(Tag::Strong);
    strong.children.push(text_leaf(Tag::Text, "y"));
    assert_eq!(p.to_html(&[strong]), "<strong>\ny</strong>\n");
    assert_eq!(p.to_html(&[Node::new(Tag::Em)]), "");
    assert_eq!(p.to_html(&[Node::new(Tag::Br), Node::new(Tag::Hr)]), "<br>\n<hr>\n");
}

#[test]
fn new_node_is_empty() {
    let n = Node::new(Tag::P);
    assert_eq!(n.tag, Tag::P);
    assert!(n.content.is_none());
    assert!(n.children.is_empty());
    assert!(n.attributes.is_empty());
}

#[test]
fn overlapping_spans_are_both_kept() {
    assert_eq!(
        html("js a jd b sj c dj"),
        "<p><strong>a jd b</strong>\n<em>b sj c</em>\n</p>\n"
    );
}

#[test]
fn fence_line_inside_code_is_body_text() {
    assert_eq!(html("jkd\njkd py\ndkj"), "<pre>\n<code>jkd py</code></pre>\n");
}

#[test]
fn line_matchers() {
    let v = |s: &str| s.chars().collect::<Vec<char>>();
    assert!(match_rule(&v("js  ")));
    assert!(!match_rule(&v("js x")));
    let (k, t) = match_heading(&v("jfff  Head  ")).unwrap();
    assert_eq!(k, 3);
    assert_eq!(t.iter().collect::<String>(), "Head");
    assert!(match_heading(&v("jx Head")).is_none());
    assert_eq!(match_fence_open(&v("jkd")), Some(None));
    assert_eq!(
        match_fence_open(&v("jkd rust_2")).map(|l| l.map(|c| c.iter().collect::<String>())),
        Some(Some("rust_2".to_string()))
    );
    assert!(match_fence_open(&v("jkd two words")).is_none());
    let (t, u) = match_link(&v("jg [a] b] gh [c] hg")).unwrap();
    assert_eq!(t.iter().collect::<String>(), "a] b");
    assert_eq!(u.iter().collect::<String>(), "c");
}

#[test]
fn segmenter_runs() {
    let line: Vec<char> = "x ju u uj".chars().collect();
    let runs = segment(&line);
    assert_eq!(runs.len(), 2);
    assert_eq!(runs[0].tag, Tag::Text);
    assert_eq!(runs[0].content.as_deref(), Some("x "));
    assert_eq!(runs[1].tag, Tag::U);
    assert_eq!(runs[1].content.as_deref(), Some("u"));
    let empty: Vec<char> = Vec::new();
    let runs = segment(&empty);
    assert_eq!(runs.len(), 1);
    assert_eq!(runs[0].content.as_deref(), Some(""));
}

#[test]
fn fence_language_may_be_any_word() {
    assert_eq!(
        html("jkd café\nx\ndkj"),
        "<pre class=\"language-café\">\n<code>x</code></pre>\n"
    );
    assert_eq!(
        html("jkd 日本語\ny\ndkj"),
        "<pre class=\"language-日本語\">\n<code>y</code></pre>\n"
    );
    assert_eq!(html("jkd c++\nx\ndkj"), "<p>jkd c++</p>\n<p>x</p>\n<p>dkj</p>\n");
}

#[test]
fn unterminated_fence_after_closed_block() {
    let doc = "ja a\njkd\nx\ndkj\njkd py\nprint(1)\n";
    assert_eq!(
        html(doc),
        "<ul>\n<li>a</li>\n</ul>\n<pre>\n<code>x</code></pre>\n"
    );
}

#[test]
fn list_run_then_blank_text() {
    assert_eq!(
        html("ja a\nja b\n   "),
        "<ul>\n<li>a</li>\n<li>b</li>\n</ul>\n<br>\n"
    );
}
