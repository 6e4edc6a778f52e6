//! The line grammar of the markup language: one recogniser per construct,
//! each stated as a spec function over the characters of a line.
use vstd::prelude::*;
use crate::text::{ws_run, ws_back, trim, at, trim_chars, slice_of, skip_ws, skip_ws_back,
    lemma_ws_back_bound};

verus! {

/// `s[i]` and `s[i + 1]` are `a` and `b`.
pub fn at2(s: &Vec<char>, i: usize, a: char, b: char) -> (r: bool)
    ensures
        r == at(s@, i as int, seq![a, b]),
{
    let r = i < s.len() && s.len() - i >= 2 && s[i] == a && s[i + 1] == b;
    proof {
        if i < s@.len() && s@.len() - i >= 2 {
            if s@[i as int] == a && s@[i + 1] == b {
                assert(s@.subrange(i as int, i + 2) =~= seq![a, b]);
            } else {
                assert(s@.subrange(i as int, i + 2)[0] == s@[i as int]);
                assert(s@.subrange(i as int, i + 2)[1] == s@[i + 1]);
            }
        }
    }
    r
}

/// `s[i..i + 3]` is `a`, `b`, `c`.
pub fn at3(s: &Vec<char>, i: usize, a: char, b: char, c: char) -> (r: bool)
    ensures
        r == at(s@, i as int, seq![a, b, c]),
{
    let r = i < s.len() && s.len() - i >= 3 && s[i] == a && s[i + 1] == b && s[i + 2] == c;
    proof {
        if i < s@.len() && s@.len() - i >= 3 {
            let t = s@.subrange(i as int, i + 3);
            if s@[i as int] == a && s@[i + 1] == b && s@[i + 2] == c {
                assert(t =~= seq![a, b, c]);
            } else {
                assert(t[0] == s@[i as int]);
                assert(t[1] == s@[i + 1]);
                assert(t[2] == s@[i + 2]);
            }
        }
    }
    r
}

/// Length of the run of `c` characters starting at `i`.
pub open spec fn char_run(s: Seq<char>, i: int, c: char) -> nat
    decreases s.len() - i,
{
    if 0 <= i < s.len() && s[i] == c {
        1 + char_run(s, i + 1, c)
    } else {
        0
    }
}

/// A line made of a sigil, at least one whitespace character, and then the
/// rest of the line, which is given back trimmed. Where the whitespace runs
/// to the end of the line, the rest is its last whitespace character, which
/// trims to nothing.
pub open spec fn after_sigil(s: Seq<char>, n: int) -> Option<Seq<char>> {
    let m = ws_run(s, n);
    let r: int = n + m as int;
    if m >= 1 && (r < s.len() || m >= 2) {
        Some(trim(s.subrange(r, s.len() as int)))
    } else {
        None
    }
}

/// A horizontal rule: `js` followed by nothing but whitespace.
pub open spec fn is_rule(s: Seq<char>) -> bool {
    at(s, 0, seq!['j', 's']) && ws_run(s, 2) == s.len() - 2
}

/// A heading: `j`, one or more `f`, whitespace, text. Gives the number of
/// `f` characters (the level) and the trimmed text.
pub open spec fn heading_parts(s: Seq<char>) -> Option<(nat, Seq<char>)> {
    let k = char_run(s, 1, 'f');
    if s.len() >= 1 && s[0] == 'j' && k >= 1 {
        match after_sigil(s, (1 + k) as int) {
            Some(t) => Some((k, t)),
            None => None,
        }
    } else {
        None
    }
}

/// An item of an unordered list: `ja`, whitespace, text.
pub open spec fn ulist_item(s: Seq<char>) -> Option<Seq<char>> {
    if at(s, 0, seq!['j', 'a']) { after_sigil(s, 2) } else { None }
}

/// An item of an ordered list: `jl`, whitespace, text.
pub open spec fn olist_item(s: Seq<char>) -> Option<Seq<char>> {
    if at(s, 0, seq!['j', 'l']) { after_sigil(s, 2) } else { None }
}

/// A quote: `kl`, whitespace, text.
pub open spec fn quote_text(s: Seq<char>) -> Option<Seq<char>> {
    if at(s, 0, seq!['k', 'l']) { after_sigil(s, 2) } else { None }
}

/// A quote nested once: `kll`, whitespace, text.
pub open spec fn nested_quote_text(s: Seq<char>) -> Option<Seq<char>> {
    if at(s, 0, seq!['k', 'l', 'l']) { after_sigil(s, 3) } else { None }
}

/// A Unicode word character: one that is `Alphabetic` or `Join_Control`, or
/// whose general category is `Decimal_Number`, `Mark` or
/// `Connector_Punctuation`. Language names are made of these.
pub uninterp spec fn word_char(c: char) -> bool;

pub open spec fn is_ascii_word(c: char) -> bool {
    ('a' <= c && c <= 'z') || ('A' <= c && c <= 'Z') || ('0' <= c && c <= '9') || c == '_'
}

/// The line that opens a code block: `jkd`, optionally followed by
/// whitespace and a language name that runs to the end of the line.
pub open spec fn fence_open(s: Seq<char>) -> Option<Option<Seq<char>>> {
    if !at(s, 0, seq!['j', 'k', 'd']) {
        None
    } else if s.len() == 3 {
        Some(None)
    } else {
        let r: int = 3 + ws_run(s, 3) as int;
        if r > 3 && r < s.len() && (forall|i: int| r <= i < s.len() ==> word_char(#[trigger] s[i])) {
            Some(Some(s.subrange(r, s.len() as int)))
        } else {
            None
        }
    }
}

/// The line that closes a code block.
pub open spec fn is_fence_close(s: Seq<char>) -> bool {
    s == seq!['d', 'k', 'j']
}

/// Where the text in brackets ends: `]` at `e`, whitespace, `gh`,
/// whitespace, and `[` at `b` where the second bracketed text, ending at
/// `q`, is not empty.
pub open spec fn mid_ok(s: Seq<char>, e: int, q: int) -> bool {
    let g: int = e + 1 + ws_run(s, e + 1) as int;
    let b: int = g + 2 + ws_run(s, g + 2) as int;
    &&& 0 <= e < s.len()
    &&& s[e] == ']'
    &&& at(s, g, seq!['g', 'h'])
    &&& b < s.len()
    &&& s[b] == '['
    &&& b + 1 < q
}

/// The `[` that opens the second bracketed text, given where the first ends.
pub open spec fn second_open(s: Seq<char>, e: int) -> int {
    let g: int = e + 1 + ws_run(s, e + 1) as int;
    g + 2 + ws_run(s, g + 2) as int
}

/// The least `e` in `[from, q)` for which `mid_ok` holds.
pub open spec fn first_mid(s: Seq<char>, from: int, q: int) -> Option<int>
    decreases q - from,
{
    if from >= q {
        None
    } else if mid_ok(s, from, q) {
        Some(from)
    } else {
        first_mid(s, from + 1, q)
    }
}

/// A whole line of the shape `<open> [text] gh [target] <close>`, with
/// optional whitespace between the parts. The first text ends at the
/// earliest `]` after which the line still has this shape; the second ends
/// at the `]` before the closing sigil. Both texts are given back trimmed.
pub open spec fn bracket_pair(s: Seq<char>, o: Seq<char>, c: Seq<char>) -> Option<
    (Seq<char>, Seq<char>),
> {
    let a: int = 2 + ws_run(s, 2) as int;
    let z: int = s.len() - 2;
    let q: int = z - ws_back(s, z) as int - 1;
    if at(s, 0, o) && a < s.len() && s[a] == '[' && z >= 0 && at(s, z, c) && 0 <= q && s[q]
        == ']' {
        match first_mid(s, a + 2, q) {
            Some(e) => Some(
                (
                    trim(s.subrange(a + 1, e)),
                    trim(s.subrange(second_open(s, e) + 1, q)),
                ),
            ),
            None => None,
        }
    } else {
        None
    }
}

/// A link line: `jg [text] gh [url] hg`. Gives the text and the url.
pub open spec fn link_parts(s: Seq<char>) -> Option<(Seq<char>, Seq<char>)> {
    bracket_pair(s, seq!['j', 'g'], seq!['h', 'g'])
}

/// An image line: `jh [alt] gh [src] hj`. Gives the alt text and the source.
pub open spec fn image_parts(s: Seq<char>) -> Option<(Seq<char>, Seq<char>)> {
    bracket_pair(s, seq!['j', 'h'], seq!['h', 'j'])
}

fn after_sigil_exec(s: &Vec<char>, n: usize) -> (r: Option<Vec<char>>)
    requires
        n <= s@.len(),
    ensures
        match r {
            Some(t) => after_sigil(s@, n as int) == Some(t@),
            None => after_sigil(s@, n as int) is None,
        },
{
    let r = skip_ws(s, n);
    let m = r - n;
    if m >= 1 && (r < s.len() || m >= 2) {
        let t = slice_of(s, r, s.len());
        Some(trim_chars(&t))
    } else {
        None
    }
}

/// Whether the line is a horizontal rule.
pub fn match_rule(s: &Vec<char>) -> (r: bool)
    ensures
        r == is_rule(s@),
{
    at2(s, 0, 'j', 's') && skip_ws(s, 2) == s.len()
}

/// The level and text of a heading line.
pub fn match_heading(s: &Vec<char>) -> (r: Option<(usize, Vec<char>)>)
    ensures
        match r {
            Some((k, t)) => heading_parts(s@) == Some((k as nat, t@)),
            None => heading_parts(s@) is None,
        },
{
    if s.len() == 0 || s[0] != 'j' {
        return None;
    }
    let mut j: usize = 1;
    while j < s.len() && s[j] == 'f'
        invariant
            1 <= j <= s@.len(),
            char_run(s@, 1, 'f') == (j - 1) + char_run(s@, j as int, 'f'),
        decreases s@.len() - j,
    {
        j = j + 1;
    }
    let k = j - 1;
    if k == 0 {
        return None;
    }
    match after_sigil_exec(s, j) {
        Some(t) => Some((k, t)),
        None => None,
    }
}

/// The text of an unordered list item.
pub fn match_ulist(s: &Vec<char>) -> (r: Option<Vec<char>>)
    ensures
        match r {
            Some(t) => ulist_item(s@) == Some(t@),
            None => ulist_item(s@) is None,
        },
{
    if at2(s, 0, 'j', 'a') { after_sigil_exec(s, 2) } else { None }
}

/// The text of an ordered list item.
pub fn match_olist(s: &Vec<char>) -> (r: Option<Vec<char>>)
    ensures
        match r {
            Some(t) => olist_item(s@) == Some(t@),
            None => olist_item(s@) is None,
        },
{
    if at2(s, 0, 'j', 'l') { after_sigil_exec(s, 2) } else { None }
}

/// The text of a quote line.
pub fn match_quote(s: &Vec<char>) -> (r: Option<Vec<char>>)
    ensures
        match r {
            Some(t) => quote_text(s@) == Some(t@),
            None => quote_text(s@) is None,
        },
{
    if at2(s, 0, 'k', 'l') { after_sigil_exec(s, 2) } else { None }
}

/// The text of a nested quote line.
pub fn match_nested_quote(s: &Vec<char>) -> (r: Option<Vec<char>>)
    ensures
        match r {
            Some(t) => nested_quote_text(s@) == Some(t@),
            None => nested_quote_text(s@) is None,
        },
{
    if at3(s, 0, 'k', 'l', 'l') { after_sigil_exec(s, 3) } else { None }
}

/// Relies on `regex_syntax::is_word_character`: whether `c` is a Unicode
/// word character; the ASCII letters, digits and `_` are.
#[verifier::external_body]
fn is_word_char(c: char) -> (r: bool)
    ensures
        r == word_char(c),
        is_ascii_word(c) ==> r,
{
    regex_syntax::is_word_character(c)
}

/// Whether the line opens a code block, and the language it names.
pub fn match_fence_open(s: &Vec<char>) -> (r: Option<Option<Vec<char>>>)
    ensures
        match r {
            Some(Some(l)) => fence_open(s@) == Some(Some(l@)),
            Some(None) => fence_open(s@) == Some(None::<Seq<char>>),
            None => fence_open(s@) is None,
        },
{
    if !at3(s, 0, 'j', 'k', 'd') {
        return None;
    }
    if s.len() == 3 {
        return Some(None);
    }
    let r = skip_ws(s, 3);
    if r == 3 || r >= s.len() {
        return None;
    }
    let mut i: usize = r;
    while i < s.len()
        invariant
            r <= i <= s@.len(),
            r == 3 + ws_run(s@, 3),
            3 < r < s@.len(),
            at(s@, 0, seq!['j', 'k', 'd']),
            s@.len() != 3,
            forall|j: int| r <= j < i ==> word_char(#[trigger] s@[j]),
        decreases s@.len() - i,
    {
        if !is_word_char(s[i]) {
            proof {
                assert(!word_char(s@[i as int]));
            }
            return None;
        }
        i = i + 1;
    }
    Some(Some(slice_of(s, r, s.len())))
}

/// Whether the line closes a code block.
pub fn match_fence_close(s: &Vec<char>) -> (r: bool)
    ensures
        r == is_fence_close(s@),
{
    let r = s.len() == 3 && at3(s, 0, 'd', 'k', 'j');
    proof {
        if s@.len() == 3 {
            assert(s@.subrange(0, 3) =~= s@);
        }
    }
    r
}

fn mid_ok_exec(s: &Vec<char>, e: usize, q: usize) -> (r: bool)
    requires
        q <= s@.len(),
    ensures
        r == mid_ok(s@, e as int, q as int),
{
    if e >= s.len() || s[e] != ']' {
        return false;
    }
    let g = skip_ws(s, e + 1);
    if !at2(s, g, 'g', 'h') {
        return false;
    }
    let b = skip_ws(s, g + 2);
    b < s.len() && s[b] == '[' && b + 1 < q
}

fn bracket_pair_exec(s: &Vec<char>, o1: char, o2: char, c1: char, c2: char) -> (r: Option<
    (Vec<char>, Vec<char>),
>)
    ensures
        match r {
            Some((t, u)) => bracket_pair(s@, seq![o1, o2], seq![c1, c2]) == Some((t@, u@)),
            None => bracket_pair(s@, seq![o1, o2], seq![c1, c2]) is None,
        },
{
    if s.len() < 2 || !at2(s, 0, o1, o2) {
        return None;
    }
    let a = skip_ws(s, 2);
    if a >= s.len() || s[a] != '[' {
        return None;
    }
    let z = s.len() - 2;
    if !at2(s, z, c1, c2) {
        return None;
    }
    let w = skip_ws_back(s, z);
    proof {
        lemma_ws_back_bound(s@, z as int);
    }
    if w == 0 || s[w - 1] != ']' {
        return None;
    }
    let q = w - 1;
    if a >= q || a + 1 >= q {
        return None;
    }
    let mut e: usize = a + 2;
    while e < q
        invariant
            a + 2 <= e,
            a < s@.len(),
            s@[a as int] == '[',
            a == 2 + ws_run(s@, 2),
            q == s@.len() - 2 - ws_back(s@, s@.len() - 2) - 1,
            q < s@.len(),
            s@[q as int] == ']',
            s@.len() >= 2,
            at(s@, 0, seq![o1, o2]),
            at(s@, s@.len() - 2, seq![c1, c2]),
            q < s@.len(),
            first_mid(s@, (a + 2) as int, q as int) == first_mid(s@, e as int, q as int),
        decreases q - e,
    {
        if mid_ok_exec(s, e, q) {
            proof {
                assert(first_mid(s@, e as int, q as int) == Some(e as int));
            }
            let g = skip_ws(s, e + 1);
            let b = skip_ws(s, g + 2);
            let t = slice_of(s, a + 1, e);
            let u = slice_of(s, b + 1, q);
            return Some((trim_chars(&t), trim_chars(&u)));
        }
        e = e + 1;
    }
    None
}

/// The text and url of a link line.
pub fn match_link(s: &Vec<char>) -> (r: Option<(Vec<char>, Vec<char>)>)
    ensures
        match r {
            Some((t, u)) => link_parts(s@) == Some((t@, u@)),
            None => link_parts(s@) is None,
        },
{
    bracket_pair_exec(s, 'j', 'g', 'h', 'g')
}

/// The alt text and source of an image line.
pub fn match_image(s: &Vec<char>) -> (r: Option<(Vec<char>, Vec<char>)>)
    ensures
        match r {
            Some((t, u)) => image_parts(s@) == Some((t@, u@)),
            None => image_parts(s@) is None,
        },
{
    bracket_pair_exec(s, 'j', 'h', 'h', 'j')
}

} // verus!
