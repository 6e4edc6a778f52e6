//! The document parser: one pass over the trimmed lines, with the code-block
//! state carried from line to line.
use vstd::prelude::*;
use crate::node::{Node, Tag, Attr, attrs_unique};
use crate::text::{lines_of, chars_of, split_lines, trim, trim_chars, string_of, append_chars,
    extend_chars};
use crate::patterns::{fence_open, is_fence_close, match_fence_open, match_fence_close};
use crate::block::{Block, nodes_are, node_is, views, dispatch, lemma_dispatch_len, parse_dispatch,
    lemma_node_attrs_unique};
use crate::html::{html_seq, render};
use crate::output::{doc_html, lemma_nodes_html};

verus! {

/// The blocks of the lines `ls[i..]`. `in_code` says whether a code block is
/// open, `lang` is the language it named and `body` the lines taken into it
/// so far, each followed by a newline.
///
/// Outside a code block a blank line is a line break, a fence line opens a
/// code block, and any other line is a single-line block, else the list that
/// starts there, else a link, image or paragraph. Inside a code block the
/// closing line ends it and yields its node, and any other line joins the
/// body. A code block still open at the end yields nothing.
pub open spec fn parse_lines(
    ls: Seq<Seq<char>>,
    i: int,
    in_code: bool,
    lang: Option<Seq<char>>,
    body: Seq<char>,
) -> Seq<Block>
    decreases ls.len() - i,
    via parse_lines_decreases
{
    if i < 0 || i >= ls.len() {
        Seq::empty()
    } else {
        let l = ls[i];
        if in_code {
            if is_fence_close(l) {
                seq![Block::Code(lang, trim(body))] + parse_lines(ls, i + 1, false, None, Seq::empty())
            } else {
                parse_lines(ls, i + 1, true, lang, body + l + seq!['\n'])
            }
        } else if l.len() == 0 {
            seq![Block::Br] + parse_lines(ls, i + 1, false, None, Seq::empty())
        } else if let Some(lg) = fence_open(l) {
            parse_lines(ls, i + 1, true, lg, Seq::empty())
        } else {
            let (b, n) = dispatch(ls, i);
            seq![b] + parse_lines(ls, i + n, false, None, Seq::empty())
        }
    }
}

#[via_fn]
proof fn parse_lines_decreases(
    ls: Seq<Seq<char>>,
    i: int,
    in_code: bool,
    lang: Option<Seq<char>>,
    body: Seq<char>,
) {
    if 0 <= i < ls.len() {
        lemma_dispatch_len(ls, i);
    }
}

/// The blocks of a document.
pub open spec fn parse_doc(text: Seq<char>) -> Seq<Block> {
    parse_lines(lines_of(text), 0, false, None, Seq::empty())
}

pub open spec fn opt_view(o: Option<Vec<char>>) -> Option<Seq<char>> {
    match o {
        Some(v) => Some(v@),
        None => None,
    }
}

/// The node of a closed code block.
fn code_node(lang: &Option<Vec<char>>, body: &Vec<char>) -> (r: Node)
    ensures
        node_is(r, Block::Code(opt_view(*lang), trim(body@))),
{
    let mut pre = Node::new(Tag::Pre);
    match lang {
        Some(l) => {
            let mut class = String::new();
            class.append("language-");
            append_chars(&mut class, l);
            pre.attributes.push((Attr::Class, class));
        },
        None => {},
    }
    let code = Node::leaf(Tag::Code, string_of(&trim_chars(body)));
    pre.children.push(code);
    pre
}

/// The parser. It holds no state: every call works on its own input.
pub struct MarkupParser {}

impl MarkupParser {
    /// A parser; it needs no set-up.
    pub fn new() -> (r: MarkupParser) {
        MarkupParser {}
    }

    /// The top-level nodes of `text`, one per block of the document.
    pub fn parse(&self, text: &str) -> (r: Vec<Node>)
        ensures
            nodes_are(r@, parse_doc(text@)),
            forall|i: int| 0 <= i < r@.len() ==> attrs_unique(#[trigger] r@[i].attributes@),
    {
        let chars = chars_of(text);
        let lines = split_lines(&chars);
        let ghost ls = lines_of(text@);
        proof {
            assert(views(lines@) =~= ls);
        }
        let mut nodes: Vec<Node> = Vec::new();
        let ghost mut acc: Seq<Block> = Seq::empty();
        let mut in_code = false;
        let mut lang: Option<Vec<char>> = None;
        let mut body: Vec<char> = Vec::new();
        let mut i: usize = 0;
        proof {
            assert(acc + parse_doc(text@) =~= parse_doc(text@));
        }
        while i < lines.len()
            invariant
                i <= lines@.len(),
                ls == views(lines@),
                ls == lines_of(text@),
                nodes_are(nodes@, acc),
                acc + parse_lines(ls, i as int, in_code, opt_view(lang), body@) == parse_doc(
                    text@,
                ),
            decreases lines@.len() - i,
        {
            let ghost acc0 = acc;
            let ghost before = parse_lines(ls, i as int, in_code, opt_view(lang), body@);
            let line = &lines[i];
            proof {
                assert(line@ == ls[i as int]);
            }
            if in_code {
                if match_fence_close(line) {
                    let n = code_node(&lang, &body);
                    nodes.push(n);
                    proof {
                        acc = acc.push(Block::Code(opt_view(lang), trim(body@)));
                    }
                    in_code = false;
                    lang = None;
                    body = Vec::new();
                    proof {
                        assert(acc0 + before =~= acc + parse_lines(ls, i + 1, false, None, Seq::empty()));
                    }
                } else {
                    let ghost b0 = body@;
                    extend_chars(&mut body, line);
                    body.push('\n');
                    proof {
                        assert(body@ =~= b0 + line@ + seq!['\n']);
                        assert(acc0 + before =~= acc + parse_lines(ls, i + 1, true, opt_view(lang), body@));
                    }
                }
                i = i + 1;
            } else if line.len() == 0 {
                nodes.push(Node::new(Tag::Br));
                proof {
                    acc = acc.push(Block::Br);
                    assert(acc0 + before =~= acc + parse_lines(ls, i + 1, false, None, Seq::empty()));
                }
                i = i + 1;
            } else {
                match match_fence_open(line) {
                    Some(lg) => {
                        in_code = true;
                        lang = lg;
                        body = Vec::new();
                        proof {
                            assert(acc0 + before =~= acc + parse_lines(ls, i + 1, true, opt_view(lang), body@));
                        }
                        i = i + 1;
                    },
                    None => {
                        let (n, c) = parse_dispatch(&lines, i);
                        nodes.push(n);
                        proof {
                            acc = acc.push(dispatch(ls, i as int).0);
                            assert(acc0 + before =~= acc + parse_lines(ls, i + c, false, None, Seq::empty()));
                        }
                        i = i + c;
                    },
                }
            }
            proof {
                assert(acc0 + before =~= acc + parse_lines(ls, i as int, in_code, opt_view(lang), body@));
            }
        }
        proof {
            assert(acc + Seq::<Block>::empty() =~= acc);
            assert forall|k: int| 0 <= k < nodes@.len() implies attrs_unique(
                #[trigger] nodes@[k].attributes@,
            ) by {
                lemma_node_attrs_unique(nodes@[k], parse_doc(text@)[k]);
            }
        }
        nodes
    }

    /// The HTML of `input`: empty where the input is empty or whitespace,
    /// else the HTML of the nodes that `parse` gives.
    pub fn parse_to_html(&self, input: &str) -> (r: String)
        ensures
            r@ == doc_html(input@),
            trim(input@).len() == 0 ==> r@.len() == 0,
    {
        let chars = chars_of(input);
        if trim_chars(&chars).len() == 0 {
            return String::new();
        }
        let nodes = self.parse(input);
        let r = self.to_html(nodes.as_slice());
        proof {
            lemma_nodes_html(nodes@, parse_doc(input@));
        }
        r
    }

    /// The HTML of `nodes`, one node after another.
    pub fn to_html(&self, nodes: &[Node]) -> (r: String)
        ensures
            r@ == html_seq(nodes@),
    {
        render(nodes)
    }
}

} // verus!
