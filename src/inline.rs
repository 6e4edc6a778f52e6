//! Inline segmentation: a line of text split into plain runs and styled
//! spans (bold `js … sj`, italic `jd … dj`, underline `ju … uj`).
use vstd::prelude::*;
use crate::node::{Node, Tag, content_of};
use crate::text::{ws_run, at, skip_ws, string_of_range};
use crate::patterns::at2;

verus! {

/// A styled span found in a text: it covers `[start, end)`, its inner text is
/// `[lo, hi)`, and `tag` names its style.
#[derive(Clone, Copy, Debug)]
pub struct Span {
    pub start: usize,
    pub end: usize,
    pub lo: usize,
    pub hi: usize,
    pub tag: Tag,
}

/// The least `e >= from` (and at most the length of `s`) such that the
/// closing sigil `c` follows position `e` after a whitespace run.
pub open spec fn first_close(s: Seq<char>, from: int, c: Seq<char>) -> Option<int>
    decreases s.len() + 1 - from,
{
    if from < 0 || from > s.len() {
        None
    } else if at(s, from + ws_run(s, from), c) {
        Some(from)
    } else {
        first_close(s, from + 1, c)
    }
}

/// The span that opens with sigil `o` at `p` and closes with `c`: after the
/// opening sigil and any whitespace, the shortest non-empty text that is
/// followed by whitespace and the closing sigil. Only where there is none
/// does a single whitespace character just before a closing sigil count as
/// the text. Gives the inner text's bounds and the span's end.
pub open spec fn span_at(s: Seq<char>, p: int, o: Seq<char>, c: Seq<char>) -> Option<
    (int, int, int),
> {
    let c0 = p + 2 + ws_run(s, p + 2);
    if !at(s, p, o) {
        None
    } else {
        match first_close(s, c0 + 1, c) {
            Some(e) => Some((c0, e, e + ws_run(s, e) + 2)),
            None => if c0 > p + 2 && at(s, c0, c) {
                Some((c0 - 1, c0, c0 + 2))
            } else {
                None
            },
        }
    }
}

/// The spans of one style in `s[from..]`, leftmost first, none overlapping:
/// the search goes on where the previous span ended.
pub open spec fn spans(s: Seq<char>, from: int, o: Seq<char>, c: Seq<char>, tag: Tag) -> Seq<Span>
    decreases s.len() - from,
{
    if from < 0 || from >= s.len() {
        Seq::empty()
    } else {
        match span_at(s, from, o, c) {
            Some((lo, hi, end)) => if from < end <= s.len() {
                seq![
                    Span {
                        start: from as usize,
                        end: end as usize,
                        lo: lo as usize,
                        hi: hi as usize,
                        tag,
                    },
                ] + spans(s, end, o, c, tag)
            } else {
                Seq::empty()
            },
            None => spans(s, from + 1, o, c, tag),
        }
    }
}

/// Two span lists merged by start, the first list's span going first where
/// two start together.
pub open spec fn merge(a: Seq<Span>, b: Seq<Span>) -> Seq<Span>
    decreases a.len() + b.len(),
{
    if a.len() == 0 {
        b
    } else if b.len() == 0 {
        a
    } else if a[0].start <= b[0].start {
        seq![a[0]] + merge(a.drop_first(), b)
    } else {
        seq![b[0]] + merge(a, b.drop_first())
    }
}

/// The spans of all three styles ordered by start; at equal starts bold comes
/// before italic, and italic before underline.
pub open spec fn all_spans(s: Seq<char>) -> Seq<Span> {
    merge(
        merge(
            spans(s, 0, seq!['j', 's'], seq!['s', 'j'], Tag::Strong),
            spans(s, 0, seq!['j', 'd'], seq!['d', 'j'], Tag::Em),
        ),
        spans(s, 0, seq!['j', 'u'], seq!['u', 'j'], Tag::U),
    )
}

/// The runs of `t` from position `cur` on: for each span, the plain text
/// between `cur` and the span's start (if it starts later), then the span's
/// inner text under its style; `cur` moves to the span's end; after the last
/// span, the rest of `t` if any.
pub open spec fn walk(t: Seq<char>, sp: Seq<Span>, cur: int) -> Seq<(Tag, Seq<char>)>
    decreases sp.len(),
{
    if sp.len() == 0 {
        if cur < t.len() {
            seq![(Tag::Text, t.subrange(cur, t.len() as int))]
        } else {
            Seq::empty()
        }
    } else {
        let x = sp[0];
        let gap = if x.start > cur {
            seq![(Tag::Text, t.subrange(cur, x.start as int))]
        } else {
            Seq::empty()
        };
        gap + seq![(x.tag, t.subrange(x.lo as int, x.hi as int))] + walk(
            t,
            sp.drop_first(),
            x.end as int,
        )
    }
}

/// The inline runs of a text: its kind and text, in order. A text with no
/// runs at all (the empty text) is one empty plain run.
pub open spec fn segments(t: Seq<char>) -> Seq<(Tag, Seq<char>)> {
    let w = walk(t, all_spans(t), 0);
    if w.len() == 0 {
        seq![(Tag::Text, t)]
    } else {
        w
    }
}

/// Every span lies within a text of length `n`.
pub open spec fn in_bounds(sp: Seq<Span>, n: nat) -> bool {
    forall|i: int|
        0 <= i < sp.len() ==> {
            let x = #[trigger] sp[i];
            x.start <= x.end <= n && x.lo <= x.hi <= n
        }
}

/// `n` is a childless node of kind `tag` whose content is `c`.
pub open spec fn is_leaf(n: Node, tag: Tag, c: Seq<char>) -> bool {
    &&& n.tag == tag
    &&& n.content is Some
    &&& content_of(n) == c
    &&& n.children@.len() == 0
    &&& n.attributes@.len() == 0
}

/// The nodes `v` are the runs `m`, one for one.
pub open spec fn are_runs(v: Seq<Node>, m: Seq<(Tag, Seq<char>)>) -> bool {
    &&& v.len() == m.len()
    &&& forall|i: int| 0 <= i < v.len() ==> is_leaf(#[trigger] v[i], m[i].0, m[i].1)
}

proof fn lemma_first_close_ge(s: Seq<char>, from: int, c: Seq<char>)
    ensures
        first_close(s, from, c) matches Some(e) ==> from <= e && at(s, e + ws_run(s, e), c),
    decreases s.len() + 1 - from,
{
    if 0 <= from <= s.len() && !at(s, from + ws_run(s, from), c) {
        lemma_first_close_ge(s, from + 1, c);
    }
}

fn first_close_exec(s: &Vec<char>, from: usize, c1: char, c2: char) -> (r: Option<usize>)
    requires
        from <= s@.len() + 1,
    ensures
        match r {
            Some(e) => first_close(s@, from as int, seq![c1, c2]) == Some(e as int),
            None => first_close(s@, from as int, seq![c1, c2]) is None,
        },
{
    let n = s.len();
    if from > n {
        return None;
    }
    let mut e: usize = from;
    loop
        invariant
            n == s@.len(),
            from <= e <= s@.len(),
            first_close(s@, from as int, seq![c1, c2]) == first_close(s@, e as int, seq![c1, c2]),
        decreases s@.len() + 1 - e,
    {
        let k = skip_ws(s, e);
        if at2(s, k, c1, c2) {
            return Some(e);
        }
        if e == n {
            proof {
                assert(first_close(s@, n + 1, seq![c1, c2]) is None);
            }
            return None;
        }
        e = e + 1;
    }
}

fn span_at_exec(s: &Vec<char>, p: usize, o1: char, o2: char, c1: char, c2: char) -> (r: Option<
    (usize, usize, usize),
>)
    requires
        p < s@.len(),
    ensures
        match r {
            Some((lo, hi, end)) => span_at(s@, p as int, seq![o1, o2], seq![c1, c2]) == Some(
                (lo as int, hi as int, end as int),
            ) && p < end <= s@.len() && lo <= hi <= s@.len(),
            None => span_at(s@, p as int, seq![o1, o2], seq![c1, c2]) is None,
        },
{
    let n = s.len();
    if !at2(s, p, o1, o2) {
        return None;
    }
    let c0 = skip_ws(s, p + 2);
    proof {
        lemma_first_close_ge(s@, c0 + 1, seq![c1, c2]);
    }
    let fc = if c0 < n {
        first_close_exec(s, c0 + 1, c1, c2)
    } else {
        proof {
            assert(first_close(s@, c0 + 1, seq![c1, c2]) is None);
        }
        None
    };
    match fc {
        Some(e) => {
            let k = skip_ws(s, e);
            Some((c0, e, k + 2))
        },
        None => {
            if c0 > p + 2 && at2(s, c0, c1, c2) {
                Some((c0 - 1, c0, c0 + 2))
            } else {
                None
            }
        },
    }
}

fn spans_exec(s: &Vec<char>, o1: char, o2: char, c1: char, c2: char, tag: Tag) -> (r: Vec<Span>)
    ensures
        r@ == spans(s@, 0, seq![o1, o2], seq![c1, c2], tag),
        in_bounds(r@, s@.len()),
{
    let mut r: Vec<Span> = Vec::new();
    let mut from: usize = 0;
    proof {
        assert(r@ + spans(s@, 0, seq![o1, o2], seq![c1, c2], tag) =~= spans(s@, 0, seq![o1, o2], seq![c1, c2], tag));
    }
    while from < s.len()
        invariant
            from <= s@.len(),
            in_bounds(r@, s@.len()),
            r@ + spans(s@, from as int, seq![o1, o2], seq![c1, c2], tag) == spans(
                s@,
                0,
                seq![o1, o2],
                seq![c1, c2],
                tag,
            ),
        decreases s@.len() - from,
    {
        let ghost r0 = r@;
        match span_at_exec(s, from, o1, o2, c1, c2) {
            Some((lo, hi, end)) => {
                let x = Span { start: from, end, lo, hi, tag };
                r.push(x);
                proof {
                    assert(r0 + spans(s@, from as int, seq![o1, o2], seq![c1, c2], tag) =~= r@
                        + spans(s@, end as int, seq![o1, o2], seq![c1, c2], tag));
                }
                from = end;
            },
            None => {
                from = from + 1;
            },
        }
    }
    proof {
        assert(r@ + Seq::<Span>::empty() =~= r@);
    }
    r
}

fn merge_exec(a: &Vec<Span>, b: &Vec<Span>, n: Ghost<nat>) -> (r: Vec<Span>)
    requires
        in_bounds(a@, n@),
        in_bounds(b@, n@),
    ensures
        r@ == merge(a@, b@),
        in_bounds(r@, n@),
{
    let mut r: Vec<Span> = Vec::new();
    let mut i: usize = 0;
    let mut j: usize = 0;
    proof {
        assert(a@.subrange(0, a@.len() as int) =~= a@);
        assert(b@.subrange(0, b@.len() as int) =~= b@);
        assert(r@ + merge(a@, b@) =~= merge(a@, b@));
    }
    while i < a.len() || j < b.len()
        invariant
            i <= a@.len(),
            j <= b@.len(),
            in_bounds(a@, n@),
            in_bounds(b@, n@),
            in_bounds(r@, n@),
            r@ + merge(a@.subrange(i as int, a@.len() as int), b@.subrange(j as int, b@.len() as int))
                == merge(a@, b@),
        decreases a@.len() + b@.len() - i - j,
    {
        let ghost ra = a@.subrange(i as int, a@.len() as int);
        let ghost rb = b@.subrange(j as int, b@.len() as int);
        let ghost r0 = r@;
        if j >= b.len() || (i < a.len() && a[i].start <= b[j].start) {
            r.push(a[i]);
            proof {
                assert(r@[r@.len() - 1] == a@[i as int]);
                assert(ra.drop_first() =~= a@.subrange(i + 1, a@.len() as int));
                if rb.len() == 0 {
                    assert(merge(ra, rb) == ra);
                    assert(ra =~= seq![a@[i as int]] + ra.drop_first());
                    assert(merge(ra.drop_first(), rb) == ra.drop_first());
                }
                assert(r0 + merge(ra, rb) =~= r@ + merge(ra.drop_first(), rb));
            }
            i = i + 1;
        } else {
            r.push(b[j]);
            proof {
                assert(r@[r@.len() - 1] == b@[j as int]);
                assert(rb.drop_first() =~= b@.subrange(j + 1, b@.len() as int));
                if ra.len() == 0 {
                    assert(merge(ra, rb) == rb);
                    assert(rb =~= seq![b@[j as int]] + rb.drop_first());
                    assert(merge(ra, rb.drop_first()) == rb.drop_first());
                }
                assert(r0 + merge(ra, rb) =~= r@ + merge(ra, rb.drop_first()));
            }
            j = j + 1;
        }
    }
    proof {
        let ra = a@.subrange(i as int, a@.len() as int);
        let rb = b@.subrange(j as int, b@.len() as int);
        assert(ra.len() == 0 && rb.len() == 0);
        assert(r@ + merge(ra, rb) =~= r@);
    }
    r
}

/// Splits `t` into plain runs and styled spans.
pub fn segment(t: &Vec<char>) -> (r: Vec<Node>)
    ensures
        are_runs(r@, segments(t@)),
{
    let b = spans_exec(t, 'j', 's', 's', 'j', Tag::Strong);
    let it = spans_exec(t, 'j', 'd', 'd', 'j', Tag::Em);
    let u = spans_exec(t, 'j', 'u', 'u', 'j', Tag::U);
    let bi = merge_exec(&b, &it, Ghost(t@.len()));
    let sp = merge_exec(&bi, &u, Ghost(t@.len()));
    let mut nodes: Vec<Node> = Vec::new();
    let ghost mut acc: Seq<(Tag, Seq<char>)> = Seq::empty();
    let mut cur: usize = 0;
    let mut k: usize = 0;
    proof {
        assert(sp@.subrange(0, sp@.len() as int) =~= sp@);
        assert(acc + walk(t@, sp@, 0) =~= walk(t@, sp@, 0));
    }
    while k < sp.len()
        invariant
            k <= sp@.len(),
            cur <= t@.len(),
            in_bounds(sp@, t@.len()),
            sp@ == all_spans(t@),
            are_runs(nodes@, acc),
            acc + walk(t@, sp@.subrange(k as int, sp@.len() as int), cur as int) == walk(
                t@,
                sp@,
                0,
            ),
        decreases sp@.len() - k,
    {
        let x = sp[k];
        let ghost rest = sp@.subrange(k as int, sp@.len() as int);
        let ghost acc0 = acc;
        proof {
            assert(rest[0] == x);
            assert(rest.drop_first() =~= sp@.subrange(k + 1, sp@.len() as int));
        }
        if x.start > cur {
            let g = string_of_range(t, cur, x.start);
            nodes.push(Node::leaf(Tag::Text, g));
            proof {
                acc = acc.push((Tag::Text, t@.subrange(cur as int, x.start as int)));
            }
        }
        let c = string_of_range(t, x.lo, x.hi);
        nodes.push(Node::leaf(x.tag, c));
        proof {
            acc = acc.push((x.tag, t@.subrange(x.lo as int, x.hi as int)));
            assert(acc0 + walk(t@, rest, cur as int) =~= acc + walk(
                t@,
                sp@.subrange(k + 1, sp@.len() as int),
                x.end as int,
            ));
        }
        cur = x.end;
        k = k + 1;
    }
    let ghost acc1 = acc;
    proof {
        assert(sp@.subrange(k as int, sp@.len() as int).len() == 0);
    }
    if cur < t.len() {
        let g = string_of_range(t, cur, t.len());
        nodes.push(Node::leaf(Tag::Text, g));
        proof {
            acc = acc.push((Tag::Text, t@.subrange(cur as int, t@.len() as int)));
        }
    }
    proof {
        assert(acc =~= walk(t@, sp@, 0));
    }
    if nodes.len() == 0 {
        let g = string_of_range(t, 0, t.len());
        nodes.push(Node::leaf(Tag::Text, g));
        proof {
            assert(t@.subrange(0, t@.len() as int) =~= t@);
            acc = seq![(Tag::Text, t@)];
        }
    }
    nodes
}

} // verus!
