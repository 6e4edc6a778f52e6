//! The HTML of a document stated over its blocks, and the proof that the
//! rendered nodes give exactly that text.
use vstd::prelude::*;
use crate::node::{Node, Tag, Attr, content_of, attr_lookup};
use crate::text::trim;
use crate::inline::{are_runs, is_leaf};
use crate::block::{Block, Runs, node_is, nodes_are, holds_runs};
use crate::html::{html_of, html_seq, kids_html, tag_name, attrs_html, codes_html, class_html,
    href_of, strip_brackets, escaped};
use crate::parser::parse_doc;

verus! {

/// The HTML of a childless node of kind `t` whose content is `c`. Inline
/// runs are plain text (`c` itself) or styled spans (`<em>c</em>` and a
/// newline); the other kinds render as the node renderer has them.
pub open spec fn leaf_html(t: Tag, c: Seq<char>) -> Seq<char> {
    let e = Seq::<char>::empty();
    match t {
        Tag::Text => c,
        Tag::Br => "<br>\n"@,
        Tag::Hr => "<hr>\n"@,
        Tag::Img => "<img"@ + e + "/>"@,
        Tag::A => "<a href=\""@ + strip_brackets(e) + "\">"@ + strip_brackets(c) + "</a>"@,
        Tag::Blockquote => "<blockquote>"@ + c + e + "</blockquote>\n"@,
        Tag::Ul => "<ul>\n"@ + e + "</ul>\n"@,
        Tag::Ol => "<ol>\n"@ + e + "</ol>\n"@,
        Tag::Li => "<li>"@ + c + e + "</li>\n"@,
        Tag::P => "<p>"@ + e + "</p>\n"@,
        Tag::Pre => "<pre"@ + e + ">\n"@ + e + "</pre>\n"@,
        _ => "<"@ + tag_name(t) + ">"@ + c + "</"@ + tag_name(t) + ">\n"@,
    }
}

/// The HTML of inline runs, one after another.
pub open spec fn runs_html(r: Runs) -> Seq<char>
    decreases r.len(),
{
    if r.len() == 0 {
        Seq::empty()
    } else {
        runs_html(r.drop_last()) + leaf_html(r.last().0, r.last().1)
    }
}

/// The HTML of list items, one after another.
pub open spec fn items_html(items: Seq<Runs>) -> Seq<char>
    decreases items.len(),
{
    if items.len() == 0 {
        Seq::empty()
    } else {
        items_html(items.drop_last()) + "<li>"@ + runs_html(items.last()) + "</li>\n"@
    }
}

/// The HTML of one block.
pub open spec fn block_html(b: Block) -> Seq<char> {
    match b {
        Block::Br => "<br>\n"@,
        Block::Hr => "<hr>\n"@,
        Block::Heading(k, t) => leaf_html(Tag::Heading(k as usize), t),
        Block::Quote(r) => "<blockquote>"@ + runs_html(r) + "</blockquote>\n"@,
        Block::NestedQuote(r) => "<blockquote>"@ + ("<blockquote>"@ + runs_html(r)
            + "</blockquote>\n"@) + "</blockquote>\n"@,
        Block::List(ordered, items) => if ordered {
            "<ol>\n"@ + items_html(items) + "</ol>\n"@
        } else {
            "<ul>\n"@ + items_html(items) + "</ul>\n"@
        },
        Block::Link(t, u) => "<a href=\""@ + strip_brackets(u) + "\">"@ + strip_brackets(t)
            + "</a>"@,
        Block::Image(a, s) => "<img"@ + (" "@ + "alt"@ + "=\""@ + strip_brackets(a) + "\""@) + (
        " "@ + "src"@ + "=\""@ + strip_brackets(s) + "\""@) + "/>"@,
        Block::Para(r) => "<p>"@ + runs_html(r) + "</p>\n"@,
        Block::Code(lang, body) => "<pre"@ + match lang {
            Some(l) => " class=\""@ + ("language-"@ + l) + "\""@,
            None => Seq::empty(),
        } + ">\n"@ + ("<code>"@ + escaped(body) + "</code>"@) + "</pre>\n"@,
    }
}

/// The HTML of blocks, one after another.
pub open spec fn blocks_html(bs: Seq<Block>) -> Seq<char>
    decreases bs.len(),
{
    if bs.len() == 0 {
        Seq::empty()
    } else {
        blocks_html(bs.drop_last()) + block_html(bs.last())
    }
}

/// The HTML of a document: nothing for an empty or blank text, else the HTML
/// of its blocks.
pub open spec fn doc_html(text: Seq<char>) -> Seq<char> {
    if trim(text).len() == 0 {
        Seq::empty()
    } else {
        blocks_html(parse_doc(text))
    }
}

proof fn lemma_empty_html(n: Node)
    requires
        n.children@.len() == 0,
        n.attributes@.len() == 0,
    ensures
        kids_html(n, 0) == Seq::<char>::empty(),
        attrs_html(n.attributes@) == Seq::<char>::empty(),
        codes_html(n.children@) == Seq::<char>::empty(),
        class_html(n) == Seq::<char>::empty(),
        href_of(n) == Seq::<char>::empty(),
{
}

proof fn lemma_leaf_html(n: Node, t: Tag, c: Seq<char>)
    requires
        is_leaf(n, t, c),
    ensures
        html_of(n) == leaf_html(t, c),
{
    lemma_empty_html(n);
}

proof fn lemma_runs_html(p: Node, r: Runs, k: int)
    requires
        are_runs(p.children@, r),
        0 <= k <= r.len(),
    ensures
        kids_html(p, k) == runs_html(r.subrange(0, k)),
    decreases k,
{
    if k > 0 {
        lemma_runs_html(p, r, k - 1);
        assert(r.subrange(0, k).drop_last() =~= r.subrange(0, k - 1));
        lemma_leaf_html(p.children@[k - 1], r[k - 1].0, r[k - 1].1);
    } else {
        assert(r.subrange(0, 0) =~= Seq::<(Tag, Seq<char>)>::empty());
    }
}

proof fn lemma_holds_runs_html(n: Node, tag: Tag, r: Runs)
    requires
        holds_runs(n, tag, r),
    ensures
        kids_html(n, n.children@.len() as int) == runs_html(r),
        content_of(n) == Seq::<char>::empty(),
{
    lemma_runs_html(n, r, r.len() as int);
    assert(r.subrange(0, r.len() as int) =~= r);
}

proof fn lemma_items_html(p: Node, items: Seq<Runs>, k: int)
    requires
        p.children@.len() == items.len(),
        forall|i: int|
            0 <= i < items.len() ==> holds_runs(#[trigger] p.children@[i], Tag::Li, items[i]),
        0 <= k <= items.len(),
    ensures
        kids_html(p, k) == items_html(items.subrange(0, k)),
    decreases k,
{
    if k > 0 {
        lemma_items_html(p, items, k - 1);
        assert(items.subrange(0, k).drop_last() =~= items.subrange(0, k - 1));
        let li = p.children@[k - 1];
        assert(holds_runs(li, Tag::Li, items[k - 1]));
        lemma_holds_runs_html(li, Tag::Li, items[k - 1]);
        assert(html_of(li) == "<li>"@ + Seq::<char>::empty() + runs_html(items[k - 1])
            + "</li>\n"@);
        assert(html_of(li) =~= "<li>"@ + runs_html(items[k - 1]) + "</li>\n"@);
    } else {
        assert(items.subrange(0, 0) =~= Seq::<Runs>::empty());
    }
}

proof fn lemma_attr_first(a: Seq<(Attr, String)>, k: Attr)
    requires
        a.len() >= 1,
        a[0].0 == k,
    ensures
        attr_lookup(a, k) == Some(a[0].1@),
{
}

/// The HTML of a node is the HTML of the block it stands for.
pub proof fn lemma_block_html(n: Node, b: Block)
    requires
        node_is(n, b),
    ensures
        html_of(n) == block_html(b),
{
    match b {
        Block::Br => {},
        Block::Hr => {},
        Block::Heading(k, t) => {
            lemma_leaf_html(n, Tag::Heading(k as usize), t);
        },
        Block::Quote(r) => {
            lemma_holds_runs_html(n, Tag::Blockquote, r);
            assert(html_of(n) =~= block_html(b));
        },
        Block::NestedQuote(r) => {
            let inner = n.children@[0];
            lemma_holds_runs_html(inner, Tag::Blockquote, r);
            assert(html_of(inner) =~= "<blockquote>"@ + runs_html(r) + "</blockquote>\n"@);
            assert(kids_html(n, 0) == Seq::<char>::empty());
            assert(kids_html(n, 1) =~= html_of(inner));
            assert(html_of(n) =~= block_html(b));
        },
        Block::List(ordered, items) => {
            lemma_items_html(n, items, items.len() as int);
            assert(items.subrange(0, items.len() as int) =~= items);
            assert(html_of(n) =~= block_html(b));
        },
        Block::Link(t, u) => {
            lemma_attr_first(n.attributes@, Attr::Href);
            assert(href_of(n) == u);
            assert(html_of(n) =~= block_html(b));
        },
        Block::Image(a, s) => {
            let at = n.attributes@;
            assert(at[0].0 == Attr::Alt && at[0].1@ == a);
            assert(at[1].0 == Attr::Src && at[1].1@ == s);
            assert(at.drop_last().drop_last() =~= Seq::<(Attr, String)>::empty());
            assert(attrs_html(at.drop_last().drop_last()) == Seq::<char>::empty());
            assert(at.drop_last().last() == at[0]);
            assert(attrs_html(at.drop_last()) =~= " "@ + "alt"@ + "=\""@ + strip_brackets(a)
                + "\""@);
            assert(html_of(n) =~= block_html(b));
        },
        Block::Para(r) => {
            lemma_holds_runs_html(n, Tag::P, r);
            assert(html_of(n) =~= block_html(b));
        },
        Block::Code(lang, body) => {
            let c = n.children@[0];
            assert(n.children@.drop_last() =~= Seq::<Node>::empty());
            assert(codes_html(n.children@.drop_last()) == Seq::<char>::empty());
            assert(c.tag == Tag::Code && content_of(c) == body);
            assert(codes_html(n.children@) =~= "<code>"@ + escaped(body) + "</code>"@);
            match lang {
                Some(l) => {
                    lemma_attr_first(n.attributes@, Attr::Class);
                },
                None => {},
            }
            assert(html_of(n) =~= block_html(b));
        },
    }
}

/// The HTML of nodes is the HTML of the blocks they stand for.
pub proof fn lemma_nodes_html(v: Seq<Node>, bs: Seq<Block>)
    requires
        nodes_are(v, bs),
    ensures
        html_seq(v) == blocks_html(bs),
    decreases v.len(),
{
    if v.len() > 0 {
        assert(nodes_are(v.drop_last(), bs.drop_last()));
        lemma_nodes_html(v.drop_last(), bs.drop_last());
        lemma_block_html(v.last(), bs.last());
    }
}

} // verus!
