//! Block-level constructs: the shape of each kind of output block, the
//! dispatcher for single lines, list aggregation over consecutive lines, and
//! standalone links and images.
use vstd::prelude::*;
use crate::node::{Node, Tag, Attr, content_of, attrs_unique};
use crate::text::string_of;
use crate::patterns::{is_rule, heading_parts, nested_quote_text, quote_text, ulist_item,
    olist_item, link_parts, image_parts, match_rule, match_heading, match_nested_quote,
    match_quote, match_ulist, match_olist, match_link, match_image};
use crate::inline::{segments, segment, are_runs, is_leaf};

verus! {

/// The inline runs of a text, each a kind and its text.
pub type Runs = Seq<(Tag, Seq<char>)>;

/// What one top-level node of a document stands for.
pub enum Block {
    Br,
    Hr,
    /// Level and text.
    Heading(nat, Seq<char>),
    Quote(Runs),
    NestedQuote(Runs),
    /// Whether the list is ordered, and the runs of each item in order.
    List(bool, Seq<Runs>),
    /// Text and url.
    Link(Seq<char>, Seq<char>),
    /// Alt text and source.
    Image(Seq<char>, Seq<char>),
    Para(Runs),
    /// Language, if one was named, and the trimmed body.
    Code(Option<Seq<char>>, Seq<char>),
}

/// A node with no content and no attributes.
pub open spec fn is_bare(n: Node, tag: Tag) -> bool {
    &&& n.tag == tag
    &&& n.content is None
    &&& n.attributes@.len() == 0
}

/// A node with no content and no attributes whose children are `runs`.
pub open spec fn holds_runs(n: Node, tag: Tag, runs: Runs) -> bool {
    &&& is_bare(n, tag)
    &&& are_runs(n.children@, runs)
}

/// The attributes of a code block that names language `lang`.
pub open spec fn code_class(lang: Option<Seq<char>>) -> Seq<(Attr, Seq<char>)> {
    match lang {
        Some(l) => seq![(Attr::Class, "language-"@ + l)],
        None => Seq::empty(),
    }
}

pub open spec fn attrs_are(a: Seq<(Attr, String)>, b: Seq<(Attr, Seq<char>)>) -> bool {
    &&& a.len() == b.len()
    &&& forall|i: int| 0 <= i < a.len() ==> #[trigger] a[i].0 == b[i].0 && a[i].1@ == b[i].1
}

/// `n` is the node of block `b`.
pub open spec fn node_is(n: Node, b: Block) -> bool {
    match b {
        Block::Br => is_bare(n, Tag::Br) && n.children@.len() == 0,
        Block::Hr => is_bare(n, Tag::Hr) && n.children@.len() == 0,
        Block::Heading(k, t) => is_leaf(n, Tag::Heading(k as usize), t),
        Block::Quote(r) => holds_runs(n, Tag::Blockquote, r),
        Block::NestedQuote(r) => {
            &&& is_bare(n, Tag::Blockquote)
            &&& n.children@.len() == 1
            &&& holds_runs(n.children@[0], Tag::Blockquote, r)
        },
        Block::List(ordered, items) => {
            &&& is_bare(n, list_tag(ordered))
            &&& n.children@.len() == items.len()
            &&& forall|i: int|
                0 <= i < items.len() ==> holds_runs(#[trigger] n.children@[i], Tag::Li, items[i])
        },
        Block::Link(t, u) => {
            &&& n.tag == Tag::A
            &&& n.content is Some
            &&& content_of(n) == t
            &&& n.children@.len() == 0
            &&& attrs_are(n.attributes@, seq![(Attr::Href, u)])
        },
        Block::Image(a, s) => {
            &&& n.tag == Tag::Img
            &&& n.content is None
            &&& n.children@.len() == 0
            &&& attrs_are(n.attributes@, seq![(Attr::Alt, a), (Attr::Src, s)])
        },
        Block::Para(r) => holds_runs(n, Tag::P, r),
        Block::Code(lang, body) => {
            &&& n.tag == Tag::Pre
            &&& n.content is None
            &&& attrs_are(n.attributes@, code_class(lang))
            &&& n.children@.len() == 1
            &&& is_leaf(n.children@[0], Tag::Code, body)
        },
    }
}

/// The node kind of an ordered or unordered list.
pub open spec fn list_tag(ordered: bool) -> Tag {
    if ordered {
        Tag::Ol
    } else {
        Tag::Ul
    }
}

/// The nodes `v` are the blocks `bs`, one for one.
pub open spec fn nodes_are(v: Seq<Node>, bs: Seq<Block>) -> bool {
    &&& v.len() == bs.len()
    &&& forall|i: int| 0 <= i < v.len() ==> node_is(#[trigger] v[i], bs[i])
}

/// The single-line block that a line is, tried in order: rule, heading,
/// nested quote, quote.
pub open spec fn line_block(l: Seq<char>) -> Option<Block> {
    if is_rule(l) {
        Some(Block::Hr)
    } else if let Some((k, t)) = heading_parts(l) {
        Some(Block::Heading(k, t))
    } else if let Some(t) = nested_quote_text(l) {
        Some(Block::NestedQuote(segments(t)))
    } else if let Some(t) = quote_text(l) {
        Some(Block::Quote(segments(t)))
    } else {
        None
    }
}

/// The item text of `l` as an item of a list of kind `kind`.
pub open spec fn item_of(kind: Tag, l: Seq<char>) -> Option<Seq<char>> {
    if kind == Tag::Ul {
        ulist_item(l)
    } else {
        olist_item(l)
    }
}

/// The kind of list that `l` starts, unordered tried first.
pub open spec fn list_kind(l: Seq<char>) -> Option<Tag> {
    if ulist_item(l) is Some {
        Some(Tag::Ul)
    } else if olist_item(l) is Some {
        Some(Tag::Ol)
    } else {
        None
    }
}

/// How many lines from `i` on are items of a list of kind `kind`, one after
/// another.
pub open spec fn list_run(ls: Seq<Seq<char>>, i: int, kind: Tag) -> nat
    decreases ls.len() - i,
{
    if 0 <= i < ls.len() && item_of(kind, ls[i]) is Some {
        1 + list_run(ls, i + 1, kind)
    } else {
        0
    }
}

pub open spec fn item_text(kind: Tag, l: Seq<char>) -> Seq<char> {
    match item_of(kind, l) {
        Some(t) => t,
        None => Seq::empty(),
    }
}

/// The runs of the `n` list items at `ls[i..i + n]`.
pub open spec fn list_items(ls: Seq<Seq<char>>, i: int, n: nat, kind: Tag) -> Seq<Runs> {
    Seq::new(n, |j: int| segments(item_text(kind, ls[i + j])))
}

/// The node of a line with no block construct: a standalone link, else a
/// standalone image, else a paragraph.
pub open spec fn plain_block(l: Seq<char>) -> Block {
    if let Some((t, u)) = link_parts(l) {
        Block::Link(t, u)
    } else if let Some((a, s)) = image_parts(l) {
        Block::Image(a, s)
    } else {
        Block::Para(segments(l))
    }
}

/// The characters of each line.
pub open spec fn views(v: Seq<Vec<char>>) -> Seq<Seq<char>> {
    v.map_values(|l: Vec<char>| l@)
}

/// A node of kind `tag` whose children are the inline runs of `text`.
fn runs_node(tag: Tag, text: &Vec<char>) -> (r: Node)
    ensures
        holds_runs(r, tag, segments(text@)),
{
    let mut n = Node::new(tag);
    n.children = segment(text);
    n
}

/// The node of a rule, heading, nested quote or quote line.
pub fn parse_block_elements(line: &Vec<char>) -> (r: Option<Node>)
    ensures
        match line_block(line@) {
            Some(b) => r matches Some(n) && node_is(n, b),
            None => r is None,
        },
{
    if match_rule(line) {
        return Some(Node::new(Tag::Hr));
    }
    if let Some((k, t)) = match_heading(line) {
        return Some(Node::leaf(Tag::Heading(k), string_of(&t)));
    }
    if let Some(t) = match_nested_quote(line) {
        let inner = runs_node(Tag::Blockquote, &t);
        let mut outer = Node::new(Tag::Blockquote);
        outer.children.push(inner);
        return Some(outer);
    }
    if let Some(t) = match_quote(line) {
        return Some(runs_node(Tag::Blockquote, &t));
    }
    None
}

fn match_item(kind: Tag, l: &Vec<char>) -> (r: Option<Vec<char>>)
    ensures
        match r {
            Some(t) => item_of(kind, l@) == Some(t@),
            None => item_of(kind, l@) is None,
        },
{
    if kind == Tag::Ul {
        match_ulist(l)
    } else {
        match_olist(l)
    }
}

/// The list of kind `kind` made of the run of item lines that starts at
/// `lines[i]`, and how many lines it took.
fn parse_list_items(lines: &Vec<Vec<char>>, i: usize, kind: Tag) -> (r: (Node, usize))
    requires
        i < lines@.len(),
        kind == Tag::Ul || kind == Tag::Ol,
        item_of(kind, lines@[i as int]@) is Some,
    ensures
        r.1 == list_run(views(lines@), i as int, kind),
        node_is(r.0, Block::List(kind == Tag::Ol, list_items(views(lines@), i as int, r.1 as nat, kind))),
{
    let ghost ls = views(lines@);
    let mut list = Node::new(kind);
    let mut j: usize = i;
    while j < lines.len()
        invariant
            i <= j <= lines@.len(),
            ls == views(lines@),
            is_bare(list, kind),
            list_run(ls, i as int, kind) == (j - i) + list_run(ls, j as int, kind),
            list.children@.len() == j - i,
            forall|m: int|
                0 <= m < j - i ==> holds_runs(
                    #[trigger] list.children@[m],
                    Tag::Li,
                    segments(item_text(kind, ls[i + m])),
                ),
        ensures
            i <= j <= lines@.len(),
            j == lines@.len() || item_of(kind, ls[j as int]) is None,
        decreases lines@.len() - j,
    {
        match match_item(kind, &lines[j]) {
            Some(t) => {
                let item = runs_node(Tag::Li, &t);
                list.children.push(item);
                j = j + 1;
            },
            None => {
                break;
            },
        }
    }
    let n = j - i;
    proof {
        assert(list_run(ls, j as int, kind) == 0);
        let items = list_items(ls, i as int, n as nat, kind);
        assert forall|m: int| 0 <= m < items.len() implies holds_runs(
            #[trigger] list.children@[m],
            Tag::Li,
            items[m],
        ) by {
            assert(items[m] == segments(item_text(kind, ls[i + m])));
        }
    }
    (list, n)
}

/// The list that starts at `lines[i]`, if that line is a list item, and how
/// many lines it took.
pub fn parse_lists(lines: &Vec<Vec<char>>, i: usize) -> (r: Option<(Node, usize)>)
    requires
        i < lines@.len(),
    ensures
        match list_kind(lines@[i as int]@) {
            Some(kind) => r matches Some((n, c)) && c == list_run(views(lines@), i as int, kind)
                && node_is(n, Block::List(kind == Tag::Ol, list_items(views(lines@), i as int, c as nat, kind))),
            None => r is None,
        },
{
    if match_ulist(&lines[i]).is_some() {
        Some(parse_list_items(lines, i, Tag::Ul))
    } else if match_olist(&lines[i]).is_some() {
        Some(parse_list_items(lines, i, Tag::Ol))
    } else {
        None
    }
}

/// The node of a standalone link or image line.
pub fn parse_inline_elements(line: &Vec<char>) -> (r: Option<Node>)
    ensures
        match link_parts(line@) {
            Some((t, u)) => r matches Some(n) && node_is(n, Block::Link(t, u)),
            None => match image_parts(line@) {
                Some((a, s)) => r matches Some(n) && node_is(n, Block::Image(a, s)),
                None => r is None,
            },
        },
{
    if let Some((t, u)) = match_link(line) {
        let mut n = Node::leaf(Tag::A, string_of(&t));
        n.attributes.push((Attr::Href, string_of(&u)));
        return Some(n);
    }
    if let Some((a, s)) = match_image(line) {
        let mut n = Node::new(Tag::Img);
        n.attributes.push((Attr::Alt, string_of(&a)));
        n.attributes.push((Attr::Src, string_of(&s)));
        return Some(n);
    }
    None
}

/// The node of a line that no other construct claims.
pub fn parse_plain(line: &Vec<char>) -> (r: Node)
    ensures
        node_is(r, plain_block(line@)),
{
    match parse_inline_elements(line) {
        Some(n) => n,
        None => runs_node(Tag::P, line),
    }
}

pub proof fn lemma_list_run_bound(ls: Seq<Seq<char>>, i: int, kind: Tag)
    requires
        0 <= i <= ls.len(),
    ensures
        list_run(ls, i, kind) <= ls.len() - i,
    decreases ls.len() - i,
{
    if i < ls.len() && item_of(kind, ls[i]) is Some {
        lemma_list_run_bound(ls, i + 1, kind);
    }
}

/// The block that a line outside a code block starts, and how many lines it
/// takes: a single-line block, else the list that starts there, else a
/// link, image or paragraph.
pub open spec fn dispatch(ls: Seq<Seq<char>>, i: int) -> (Block, nat) {
    let l = ls[i];
    if let Some(b) = line_block(l) {
        (b, 1)
    } else if let Some(kind) = list_kind(l) {
        let n = 1 + list_run(ls, i + 1, kind);
        (Block::List(kind == Tag::Ol, list_items(ls, i, n, kind)), n)
    } else {
        (plain_block(l), 1)
    }
}

pub proof fn lemma_dispatch_len(ls: Seq<Seq<char>>, i: int)
    requires
        0 <= i < ls.len(),
    ensures
        1 <= dispatch(ls, i).1 <= ls.len() - i,
{
    lemma_list_run_bound(ls, i + 1, Tag::Ul);
    lemma_list_run_bound(ls, i + 1, Tag::Ol);
}

/// The node of the block that starts at `lines[i]`, and how many lines it
/// took.
pub fn parse_dispatch(lines: &Vec<Vec<char>>, i: usize) -> (r: (Node, usize))
    requires
        i < lines@.len(),
    ensures
        node_is(r.0, dispatch(views(lines@), i as int).0),
        r.1 == dispatch(views(lines@), i as int).1,
        i < i + r.1 <= lines@.len(),
{
    proof {
        lemma_dispatch_len(views(lines@), i as int);
        assert(views(lines@)[i as int] == lines@[i as int]@);
    }
    let line = &lines[i];
    if let Some(n) = parse_block_elements(line) {
        return (n, 1);
    }
    if let Some((n, c)) = parse_lists(lines, i) {
        proof {
            let kind = list_kind(line@)->0;
            assert(list_run(views(lines@), i as int, kind) == 1 + list_run(views(lines@), i + 1, kind));
        }
        return (n, c);
    }
    (parse_plain(line), 1)
}

/// The node of any block has attributes with distinct names.
pub proof fn lemma_node_attrs_unique(n: Node, b: Block)
    requires
        node_is(n, b),
    ensures
        attrs_unique(n.attributes@),
{
    if let Block::Image(a, s) = b {
        assert(n.attributes@[0].0 == Attr::Alt);
        assert(n.attributes@[1].0 == Attr::Src);
    }
}

} // verus!
