//! Properties of the parser that hold for every input.
use vstd::prelude::*;
use crate::node::{Node, Tag};
use crate::text::at;
use crate::patterns::{is_fence_close, fence_open, nested_quote_text, link_parts, image_parts};
use crate::inline::{segments, are_runs};
use crate::block::{Block, node_is, item_of, item_text, list_kind, list_run, list_items, line_block,
    plain_block, dispatch};
use crate::parser::{parse_lines, parse_doc};
use crate::html::{html_of, escaped, codes_html};
use crate::node::{Attr, content_of, attr_lookup};
use crate::text::{is_ws, ws_run, trim, pieces, raw_lines, lines_of, lemma_pieces_nonempty};
use crate::patterns::{heading_parts, char_run, after_sigil};
use crate::output::{block_html, lemma_block_html};

verus! {

proof fn lemma_run_exact(ls: Seq<Seq<char>>, i: int, n: nat, kind: Tag)
    requires
        0 <= i,
        i + n <= ls.len(),
        forall|j: int| i <= j < i + n ==> item_of(kind, #[trigger] ls[j]) is Some,
        i + n == ls.len() || item_of(kind, ls[i + n]) is None,
    ensures
        list_run(ls, i, kind) == n,
    decreases n,
{
    if n > 0 {
        lemma_run_exact(ls, i + 1, (n - 1) as nat, kind);
    }
}

/// A run of `n >= 1` consecutive lines that are items of one kind of list,
/// ended by the last line or by a line that is not such an item, becomes a
/// single list of `n` items in input order; the line that ends the run is not
/// taken and is parsed next.
pub proof fn law_list_run(ls: Seq<Seq<char>>, i: int, n: nat, kind: Tag)
    requires
        kind == Tag::Ul || kind == Tag::Ol,
        0 <= i,
        n >= 1,
        i + n <= ls.len(),
        forall|j: int| i <= j < i + n ==> item_of(kind, #[trigger] ls[j]) is Some,
        i + n == ls.len() || item_of(kind, ls[i + n]) is None,
    ensures
        parse_lines(ls, i, false, None, Seq::empty()) == seq![
            Block::List(kind == Tag::Ol, list_items(ls, i, n, kind)),
        ] + parse_lines(ls, i + n, false, None, Seq::empty()),
        list_items(ls, i, n, kind).len() == n,
        forall|j: int|
            0 <= j < n ==> #[trigger] list_items(ls, i, n, kind)[j] == segments(
                item_text(kind, ls[i + j]),
            ),
{
    let l = ls[i];
    assert(item_of(kind, l) is Some);
    assert(l.len() >= 2);
    assert(l[0] == 'j');
    assert(l.subrange(0, 2)[1] == l[1]);
    if kind == Tag::Ul {
        assert(l[1] == 'a');
    } else {
        assert(l[1] == 'l');
        assert(!at(l, 0, seq!['j', 'a']));
    }
    assert(!at(l, 0, seq!['j', 'k', 'd']));
    assert(!at(l, 0, seq!['j', 's']));
    assert(!at(l, 0, seq!['k', 'l']));
    assert(!at(l, 0, seq!['k', 'l', 'l']));
    assert(line_block(l) is None);
    assert(list_kind(l) == Some(kind));
    lemma_run_exact(ls, i + 1, (n - 1) as nat, kind);
}

/// Every node of a nested quote line is a quote with no content of its own
/// and exactly one child, itself a quote that holds the line's inline runs.
pub proof fn law_nested_quote(ls: Seq<Seq<char>>, i: int, n: Node)
    requires
        0 <= i < ls.len(),
        nested_quote_text(ls[i]) is Some,
        node_is(n, parse_lines(ls, i, false, None, Seq::empty())[0]),
    ensures
        parse_lines(ls, i, false, None, Seq::empty()) == seq![
            Block::NestedQuote(segments(nested_quote_text(ls[i])->0)),
        ] + parse_lines(ls, i + 1, false, None, Seq::empty()),
        n.tag == Tag::Blockquote,
        n.content is None,
        n.children@.len() == 1,
        n.children@[0].tag == Tag::Blockquote,
        n.children@[0].content is None,
        are_runs(n.children@[0].children@, segments(nested_quote_text(ls[i])->0)),
{
    let l = ls[i];
    assert(l.subrange(0, 3)[0] == l[0]);
    assert(l.subrange(0, 3)[1] == l[1]);
    assert(l[0] == 'k');
    assert(!at(l, 0, seq!['j', 'k', 'd']));
    assert(!at(l, 0, seq!['j', 's']));
    assert(l.len() > 0);
    let pl = parse_lines(ls, i, false, None, Seq::empty());
    assert(pl[0] == Block::NestedQuote(segments(nested_quote_text(ls[i])->0)));
}

/// A code block that is still open when the lines run out yields nothing:
/// its body is dropped without error.
pub proof fn law_unterminated_code(
    ls: Seq<Seq<char>>,
    i: int,
    lang: Option<Seq<char>>,
    body: Seq<char>,
)
    requires
        0 <= i <= ls.len(),
        forall|j: int| i <= j < ls.len() ==> !is_fence_close(#[trigger] ls[j]),
    ensures
        parse_lines(ls, i, true, lang, body) == Seq::<Block>::empty(),
    decreases ls.len() - i,
{
    if i < ls.len() {
        law_unterminated_code(ls, i + 1, lang, body + ls[i] + seq!['\n']);
    }
}

/// A fence line outside a code block, with no closing line after it, ends
/// the document's output: nothing is produced from it on.
pub proof fn law_unterminated_fence(ls: Seq<Seq<char>>, i: int)
    requires
        0 <= i < ls.len(),
        fence_open(ls[i]) is Some,
        forall|j: int| i < j < ls.len() ==> !is_fence_close(#[trigger] ls[j]),
    ensures
        parse_lines(ls, i, false, None, Seq::empty()) == Seq::<Block>::empty(),
{
    assert(ls[i].len() >= 3);
    law_unterminated_code(ls, i + 1, fence_open(ls[i])->0, Seq::empty());
}

/// A link or image is recognised only as a whole line: it begins with its
/// opening sigil and ends with its closing one.
pub proof fn law_link_anchored(l: Seq<char>)
    ensures
        link_parts(l) is Some ==> at(l, 0, seq!['j', 'g']) && at(
            l,
            l.len() - 2,
            seq!['h', 'g'],
        ),
        image_parts(l) is Some ==> at(l, 0, seq!['j', 'h']) && at(
            l,
            l.len() - 2,
            seq!['h', 'j'],
        ),
{
}

/// A line that begins with neither `j` nor `k`, such as running text with a
/// link in its middle or at its end, is a paragraph of its inline runs.
pub proof fn law_prose_is_paragraph(ls: Seq<Seq<char>>, i: int)
    requires
        0 <= i < ls.len(),
        ls[i].len() > 0,
        ls[i][0] != 'j',
        ls[i][0] != 'k',
    ensures
        parse_lines(ls, i, false, None, Seq::empty()) == seq![Block::Para(segments(ls[i]))]
            + parse_lines(ls, i + 1, false, None, Seq::empty()),
{
    let l = ls[i];
    assert(!at(l, 0, seq!['j', 'k', 'd']));
    assert(!at(l, 0, seq!['j', 's']));
    assert(!at(l, 0, seq!['j', 'a']));
    assert(!at(l, 0, seq!['j', 'l']));
    assert(!at(l, 0, seq!['j', 'g']));
    assert(!at(l, 0, seq!['j', 'h']));
    assert(!at(l, 0, seq!['k', 'l']));
    assert(!at(l, 0, seq!['k', 'l', 'l']));
    assert(line_block(l) is None);
    assert(list_kind(l) is None);
    assert(plain_block(l) == Block::Para(segments(l)));
}

/// Rendering a code block depends on its language and body alone: any two
/// nodes of the same code block give the same HTML, whose code text is the
/// escaped body.
pub proof fn law_code_render_pure(n1: Node, n2: Node, lang: Option<Seq<char>>, body: Seq<char>)
    requires
        node_is(n1, Block::Code(lang, body)),
        node_is(n2, Block::Code(lang, body)),
    ensures
        html_of(n1) == html_of(n2),
        html_of(n1) == block_html(Block::Code(lang, body)),
        block_html(Block::Code(lang, body)) == "<pre"@ + match lang {
            Some(l) => " class=\""@ + ("language-"@ + l) + "\""@,
            None => Seq::empty(),
        } + ">\n"@ + ("<code>"@ + escaped(body) + "</code>"@) + "</pre>\n"@,
{
    lemma_block_html(n1, Block::Code(lang, body));
    lemma_block_html(n2, Block::Code(lang, body));
}

proof fn lemma_codes_same(a: Seq<Node>, b: Seq<Node>)
    requires
        a.len() == b.len(),
        forall|i: int|
            0 <= i < a.len() ==> (#[trigger] a[i]).tag == b[i].tag && content_of(a[i])
                == content_of(b[i]),
    ensures
        codes_html(a) == codes_html(b),
    decreases a.len(),
{
    if a.len() > 0 {
        lemma_codes_same(a.drop_last(), b.drop_last());
        assert(a.last() == a[a.len() - 1]);
        assert(b.last() == b[b.len() - 1]);
    }
}

/// Rendering a code block is a function of its language class and the kinds
/// and texts of its children: two `pre` nodes that agree on these give the
/// same HTML.
pub proof fn law_pre_render_pure(n: Node, m: Node)
    requires
        n.tag == Tag::Pre,
        m.tag == Tag::Pre,
        attr_lookup(n.attributes@, Attr::Class) == attr_lookup(m.attributes@, Attr::Class),
        n.children@.len() == m.children@.len(),
        forall|i: int|
            0 <= i < n.children@.len() ==> (#[trigger] n.children@[i]).tag == m.children@[i].tag
                && content_of(n.children@[i]) == content_of(m.children@[i]),
    ensures
        html_of(n) == html_of(m),
{
    lemma_codes_same(n.children@, m.children@);
}

proof fn lemma_char_run_exact(s: Seq<char>, i: int, k: int, c: char)
    requires
        0 <= i,
        0 <= k,
        i + k < s.len(),
        forall|j: int| i <= j < i + k ==> #[trigger] s[j] == c,
        s[i + k] != c,
    ensures
        char_run(s, i, c) == k,
    decreases k,
{
    if k > 0 {
        lemma_char_run_exact(s, i + 1, k - 1, c);
    }
}

proof fn lemma_ws_run_skip(s: Seq<char>, i: int, m: int)
    requires
        0 <= i,
        0 <= m,
        i + m <= s.len(),
        forall|j: int| i <= j < i + m ==> is_ws(#[trigger] s[j]),
    ensures
        ws_run(s, i) == m + ws_run(s, i + m),
    decreases m,
{
    if m > 0 {
        lemma_ws_run_skip(s, i + 1, m - 1);
    }
}

proof fn lemma_ws_run_suffix(p: Seq<char>, t: Seq<char>, j: int)
    requires
        0 <= j <= t.len(),
    ensures
        ws_run(p + t, p.len() + j) == ws_run(t, j),
    decreases t.len() - j,
{
    if j < t.len() {
        assert((p + t)[p.len() + j] == t[j]);
        lemma_ws_run_suffix(p, t, j + 1);
    }
}

proof fn lemma_trim_start_idem(t: Seq<char>)
    ensures
        trim(t.subrange(ws_run(t, 0) as int, t.len() as int)) == trim(t),
{
    let u = t.subrange(ws_run(t, 0) as int, t.len() as int);
    crate::text::lemma_ws_run_bound(t, 0);
    assert(ws_run(u, 0) == 0) by {
        if u.len() > 0 {
            assert(u[0] == t[ws_run(t, 0) as int]);
        }
    }
    assert(u.subrange(0, u.len() as int) =~= u);
}

/// A line made of `j`, `k >= 1` letters `f`, whitespace, and a text that is
/// not blank, is a heading of level `k` (its number of leading sigil
/// characters less one) whose text is the trimmed text.
pub proof fn law_heading_level(k: nat, w: Seq<char>, t: Seq<char>)
    requires
        k >= 1,
        w.len() >= 1,
        forall|j: int| 0 <= j < w.len() ==> is_ws(#[trigger] w[j]),
        trim(t).len() > 0,
    ensures
        line_block(seq!['j'] + Seq::new(k, |j: int| 'f') + w + t) == Some(
            Block::Heading(k, trim(t)),
        ),
{
    let ki: int = k as int;
    let f = Seq::new(k, |j: int| 'f');
    let p = seq!['j'] + f + w;
    let s = p + t;
    assert(s =~= seq!['j'] + f + w + t);
    assert(s[0] == 'j');
    assert(s[1] == 'f');
    assert forall|j: int| 1 <= j < 1 + k implies #[trigger] s[j] == 'f' by {
        assert(s[j] == f[j - 1]);
    }
    assert(s[1 + ki] == w[0]);
    lemma_char_run_exact(s, 1, k as int, 'f');
    assert forall|j: int| 1 + k <= j < 1 + k + w.len() implies is_ws(#[trigger] s[j]) by {
        assert(s[j] == w[j - 1 - k]);
    }
    lemma_ws_run_skip(s, 1 + ki, w.len() as int);
    lemma_ws_run_suffix(p, t, 0);
    assert(p.len() == 1 + k + w.len());
    let r: int = 1 + ki + w.len() + ws_run(t, 0);
    crate::text::lemma_ws_run_bound(t, 0);
    assert(ws_run(t, 0) < t.len()) by {
        if ws_run(t, 0) == t.len() {
            assert(t.subrange(t.len() as int, t.len() as int).len() == 0);
        }
    }
    assert(s.subrange(r, s.len() as int) =~= t.subrange(ws_run(t, 0) as int, t.len() as int));
    lemma_trim_start_idem(t);
    assert(after_sigil(s, 1 + ki) == Some(trim(t)));
    assert(heading_parts(s) == Some((k, trim(t))));
    assert(!at(s, 0, seq!['j', 's'])) by {
        assert(s.subrange(0, 2)[1] == s[1]);
    }
}

proof fn lemma_pieces_concat(x: Seq<char>, y: Seq<char>)
    ensures
        pieces(x + seq!['\n'] + y) == pieces(x) + pieces(y),
    decreases y.len(),
{
    let z = x + seq!['\n'] + y;
    lemma_pieces_nonempty(x);
    if y.len() == 0 {
        assert(z.drop_last() =~= x);
        assert(pieces(y) =~= seq![Seq::<char>::empty()]);
        assert(pieces(z) =~= pieces(x) + pieces(y));
    } else {
        assert(z.drop_last() =~= x + seq!['\n'] + y.drop_last());
        lemma_pieces_concat(x, y.drop_last());
        lemma_pieces_nonempty(y.drop_last());
        assert(z.last() == y.last());
        let p = pieces(y.drop_last());
        if y.last() == '\n' {
            assert(pieces(z) =~= pieces(x) + pieces(y));
        } else {
            assert((pieces(x) + p).last() == p.last());
            assert(pieces(z) =~= pieces(x) + pieces(y));
        }
    }
}

/// The trimmed lines of `x`, newline, `y`: the trimmed pieces of `x`, then
/// the lines of `y`.
proof fn lemma_lines_concat(x: Seq<char>, y: Seq<char>)
    ensures
        lines_of(x + seq!['\n'] + y) == pieces(x).map_values(|l: Seq<char>| trim(l)) + lines_of(y),
{
    lemma_pieces_concat(x, y);
    lemma_pieces_nonempty(y);
    let z = x + seq!['\n'] + y;
    assert(pieces(z).last() == pieces(y).last());
    if pieces(y).last().len() == 0 {
        assert((pieces(x) + pieces(y)).drop_last() =~= pieces(x) + pieces(y).drop_last());
    }
    assert(raw_lines(z) =~= pieces(x) + raw_lines(y));
    assert(lines_of(z) =~= pieces(x).map_values(|l: Seq<char>| trim(l)) + lines_of(y));
}

proof fn lemma_list_run_shift(p: Seq<Seq<char>>, q: Seq<Seq<char>>, i: int, kind: Tag)
    requires
        0 <= i <= q.len(),
    ensures
        list_run(p + q, p.len() + i, kind) == list_run(q, i, kind),
    decreases q.len() - i,
{
    if i < q.len() {
        assert((p + q)[p.len() + i] == q[i]);
        lemma_list_run_shift(p, q, i + 1, kind);
    }
}

/// Parsing from a line of `q` does not look at the lines before it.
proof fn lemma_parse_shift(
    p: Seq<Seq<char>>,
    q: Seq<Seq<char>>,
    i: int,
    in_code: bool,
    lang: Option<Seq<char>>,
    body: Seq<char>,
)
    requires
        0 <= i <= q.len(),
    ensures
        parse_lines(p + q, p.len() + i, in_code, lang, body) == parse_lines(q, i, in_code, lang, body),
    decreases q.len() - i,
{
    if i < q.len() {
        let pq = p + q;
        let l = q[i];
        assert(pq[p.len() + i] == l);
        if in_code {
            if is_fence_close(l) {
                lemma_parse_shift(p, q, i + 1, false, None, Seq::empty());
            } else {
                lemma_parse_shift(p, q, i + 1, true, lang, body + l + seq!['\n']);
            }
        } else if l.len() == 0 {
            lemma_parse_shift(p, q, i + 1, false, None, Seq::empty());
        } else if let Some(lg) = fence_open(l) {
            lemma_parse_shift(p, q, i + 1, true, lg, Seq::empty());
        } else {
            crate::block::lemma_dispatch_len(q, i);
            lemma_list_run_shift(p, q, i + 1, Tag::Ul);
            lemma_list_run_shift(p, q, i + 1, Tag::Ol);
            let d = dispatch(q, i);
            if let Some(kind) = list_kind(l) {
                if line_block(l) is None {
                    let n = d.1;
                    assert(list_items(pq, p.len() + i, n, kind) =~= list_items(q, i, n, kind)) by {
                        assert forall|j: int| 0 <= j < n implies pq[p.len() + i + j] == #[trigger] q[i + j] by {}
                    }
                }
            }
            assert(dispatch(pq, p.len() + i) == d);
            lemma_parse_shift(p, q, i + d.1, false, None, Seq::empty());
        }
    }
}

/// In a text made of `x`, a newline and `y`, where every line of `x` is an
/// item of one kind of list and the first line of `y` (if any) is not, the
/// lines of `x` become a single list of one item per line, in order, and the
/// rest of the output is that of `y` alone. `x` by itself gives just that
/// list.
pub proof fn law_list_run_text(x: Seq<char>, y: Seq<char>, kind: Tag)
    requires
        kind == Tag::Ul || kind == Tag::Ol,
        forall|j: int|
            0 <= j < pieces(x).len() ==> item_of(kind, trim(#[trigger] pieces(x)[j])) is Some,
        lines_of(y).len() == 0 || item_of(kind, lines_of(y)[0]) is None,
    ensures
        parse_doc(x + seq!['\n'] + y) == seq![
            Block::List(
                kind == Tag::Ol,
                list_items(lines_of(x), 0, lines_of(x).len(), kind),
            ),
        ] + parse_doc(y),
        parse_doc(x) == seq![
            Block::List(
                kind == Tag::Ol,
                list_items(lines_of(x), 0, lines_of(x).len(), kind),
            ),
        ],
        lines_of(x).len() == pieces(x).len(),
{
    let px = pieces(x).map_values(|l: Seq<char>| trim(l));
    let n = px.len();
    lemma_pieces_nonempty(x);
    lemma_lines_concat(x, y);
    let ls = px + lines_of(y);
    assert(item_of(kind, px[n - 1]) is Some);
    assert(pieces(x).last().len() > 0) by {
        if pieces(x).last().len() == 0 {
            assert(trim(pieces(x).last()) =~= Seq::<char>::empty());
        }
    }
    assert(lines_of(x) =~= px);
    assert forall|j: int| 0 <= j < n implies item_of(kind, #[trigger] ls[j]) is Some by {
        assert(ls[j] == px[j]);
    }
    if lines_of(y).len() > 0 {
        assert(ls[n as int] == lines_of(y)[0]);
    }
    law_list_run(ls, 0, n, kind);
    lemma_parse_shift(px, lines_of(y), 0, false, None, Seq::empty());
    assert(list_items(ls, 0, n, kind) =~= list_items(px, 0, n, kind)) by {
        assert forall|j: int| 0 <= j < n implies ls[j] == px[j] by {}
    }
    assert forall|j: int| 0 <= j < n implies item_of(kind, #[trigger] px[j]) is Some by {}
    law_list_run(px, 0, n, kind);
    assert(parse_lines(px, n as int, false, None, Seq::empty()) == Seq::<Block>::empty());
    assert(seq![Block::List(kind == Tag::Ol, list_items(px, 0, n, kind))] + Seq::<Block>::empty()
        =~= seq![Block::List(kind == Tag::Ol, list_items(px, 0, n, kind))]);
}

/// Whether a code block is still open after the lines `ls[i..]`, starting
/// with one open or not as `in_code` says.
pub open spec fn code_open_at_end(ls: Seq<Seq<char>>, i: int, in_code: bool) -> bool
    decreases ls.len() - i,
    via code_open_at_end_decreases
{
    if i < 0 || i >= ls.len() {
        in_code
    } else {
        let l = ls[i];
        if in_code {
            code_open_at_end(ls, i + 1, !is_fence_close(l))
        } else if l.len() == 0 {
            code_open_at_end(ls, i + 1, false)
        } else if fence_open(l) is Some {
            code_open_at_end(ls, i + 1, true)
        } else {
            code_open_at_end(ls, i + dispatch(ls, i).1, false)
        }
    }
}

#[via_fn]
proof fn code_open_at_end_decreases(ls: Seq<Seq<char>>, i: int, in_code: bool) {
    if 0 <= i < ls.len() {
        crate::block::lemma_dispatch_len(ls, i);
    }
}

proof fn lemma_normal_ignores_state(
    ls: Seq<Seq<char>>,
    i: int,
    lang: Option<Seq<char>>,
    body: Seq<char>,
)
    ensures
        parse_lines(ls, i, false, lang, body) == parse_lines(ls, i, false, None, Seq::empty()),
{
}

proof fn lemma_list_run_prefix(p: Seq<Seq<char>>, q: Seq<Seq<char>>, j: int, kind: Tag)
    requires
        0 <= j <= p.len(),
        q.len() == 0 || list_kind(q[0]) is None,
    ensures
        list_run(p + q, j, kind) == list_run(p, j, kind),
    decreases p.len() - j,
{
    if j < p.len() {
        assert((p + q)[j] == p[j]);
        lemma_list_run_prefix(p, q, j + 1, kind);
    } else if q.len() > 0 {
        assert((p + q)[j] == q[0]);
    }
}

/// Parsing lines that end outside a code block, followed by lines whose first
/// is not a list item, gives the output of each part, one after the other.
proof fn lemma_parse_prefix(
    p: Seq<Seq<char>>,
    q: Seq<Seq<char>>,
    i: int,
    in_code: bool,
    lang: Option<Seq<char>>,
    body: Seq<char>,
)
    requires
        0 <= i <= p.len(),
        !code_open_at_end(p, i, in_code),
        q.len() == 0 || list_kind(q[0]) is None,
    ensures
        parse_lines(p + q, i, in_code, lang, body) == parse_lines(p, i, in_code, lang, body)
            + parse_lines(q, 0, false, None, Seq::empty()),
    decreases p.len() - i,
{
    let pq = p + q;
    if i == p.len() {
        lemma_parse_shift(p, q, 0, false, lang, body);
        lemma_normal_ignores_state(q, 0, lang, body);
        assert(Seq::<Block>::empty() + parse_lines(q, 0, false, None, Seq::empty())
            =~= parse_lines(q, 0, false, None, Seq::empty()));
    } else {
        let l = p[i];
        assert(pq[i] == l);
        if in_code {
            if is_fence_close(l) {
                lemma_parse_prefix(p, q, i + 1, false, None, Seq::empty());
                let rest = parse_lines(p, i + 1, false, None, Seq::empty());
                let tail = parse_lines(q, 0, false, None, Seq::empty());
                let c = seq![Block::Code(lang, trim(body))];
                assert(c + (rest + tail) =~= (c + rest) + tail);
            } else {
                lemma_parse_prefix(p, q, i + 1, true, lang, body + l + seq!['\n']);
            }
        } else if l.len() == 0 {
            lemma_parse_prefix(p, q, i + 1, false, None, Seq::empty());
            let rest = parse_lines(p, i + 1, false, None, Seq::empty());
            let tail = parse_lines(q, 0, false, None, Seq::empty());
            assert(seq![Block::Br] + (rest + tail) =~= (seq![Block::Br] + rest) + tail);
        } else if let Some(lg) = fence_open(l) {
            lemma_parse_prefix(p, q, i + 1, true, lg, Seq::empty());
        } else {
            crate::block::lemma_dispatch_len(p, i);
            lemma_list_run_prefix(p, q, i + 1, Tag::Ul);
            lemma_list_run_prefix(p, q, i + 1, Tag::Ol);
            let d = dispatch(p, i);
            if let Some(kind) = list_kind(l) {
                if line_block(l) is None {
                    let n = d.1;
                    assert(list_items(pq, i, n, kind) =~= list_items(p, i, n, kind)) by {
                        assert forall|j: int| 0 <= j < n implies #[trigger] pq[i + j] == p[i + j] by {}
                    }
                }
            }
            assert(dispatch(pq, i) == d);
            lemma_parse_prefix(p, q, i + d.1, false, None, Seq::empty());
            let rest = parse_lines(p, i + d.1, false, None, Seq::empty());
            let tail = parse_lines(q, 0, false, None, Seq::empty());
            assert(seq![d.0] + (rest + tail) =~= (seq![d.0] + rest) + tail);
        }
    }
}

proof fn lemma_pieces_single(s: Seq<char>)
    requires
        forall|j: int| 0 <= j < s.len() ==> #[trigger] s[j] != '\n',
    ensures
        pieces(s) == seq![s],
    decreases s.len(),
{
    if s.len() > 0 {
        lemma_pieces_single(s.drop_last());
        assert(s.drop_last().push(s.last()) =~= s);
        assert(s.last() == s[s.len() - 1]);
        assert(seq![s.drop_last()].update(0, s.drop_last().push(s.last())) =~= seq![s]);
    } else {
        assert(s =~= Seq::<char>::empty());
    }
}

/// A text made of a part `a` that is empty or ends with a newline and leaves
/// no code block open, then a fence line `f`, a newline and a rest `b` with no
/// closing line, gives the output of `a` alone: the unterminated code block
/// and everything after it are dropped, without error.
pub proof fn law_unterminated_fence_text(a: Seq<char>, f: Seq<char>, b: Seq<char>)
    requires
        a.len() == 0 || a.last() == '\n',
        !code_open_at_end(lines_of(a), 0, false),
        forall|j: int| 0 <= j < f.len() ==> #[trigger] f[j] != '\n',
        fence_open(trim(f)) is Some,
        forall|j: int| 0 <= j < lines_of(b).len() ==> !is_fence_close(#[trigger] lines_of(b)[j]),
    ensures
        parse_doc(a + f + seq!['\n'] + b) == parse_doc(a),
{
    lemma_pieces_single(f);
    lemma_lines_concat(f, b);
    let q = lines_of(f + seq!['\n'] + b);
    assert(pieces(f).map_values(|l: Seq<char>| trim(l)) =~= seq![trim(f)]);
    assert(q =~= seq![trim(f)] + lines_of(b));
    assert(q[0] == trim(f));
    assert forall|j: int| 1 <= j < q.len() implies !is_fence_close(#[trigger] q[j]) by {
        assert(q[j] == lines_of(b)[j - 1]);
    }
    law_unterminated_fence(q, 0);
    assert(!at(trim(f), 0, seq!['j', 'a']) && !at(trim(f), 0, seq!['j', 'l'])) by {
        assert(trim(f).subrange(0, 3)[1] == trim(f)[1]);
        assert(trim(f).subrange(0, 3)[1] == 'k');
    }
    assert(list_kind(q[0]) is None);
    if a.len() == 0 {
        assert(a + f + seq!['\n'] + b =~= f + seq!['\n'] + b);
        assert(lines_of(a) =~= Seq::<Seq<char>>::empty()) by {
            assert(pieces(a) =~= seq![Seq::<char>::empty()]);
        }
    } else {
        let a1 = a.drop_last();
        assert(a =~= a1 + seq!['\n'] + Seq::<char>::empty());
        assert(a + f + seq!['\n'] + b =~= a1 + seq!['\n'] + (f + seq!['\n'] + b));
        lemma_lines_concat(a1, Seq::<char>::empty());
        lemma_lines_concat(a1, f + seq!['\n'] + b);
        let p = pieces(a1).map_values(|l: Seq<char>| trim(l));
        assert(pieces(Seq::<char>::empty()) =~= seq![Seq::<char>::empty()]);
        assert(lines_of(Seq::<char>::empty()) =~= Seq::<Seq<char>>::empty());
        assert(lines_of(a) =~= p);
        lemma_parse_prefix(p, q, 0, false, None, Seq::empty());
        assert(parse_lines(p, 0, false, None, Seq::empty()) + Seq::<Block>::empty()
            =~= parse_lines(p, 0, false, None, Seq::empty()));
    }
}

} // verus!
