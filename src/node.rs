//! The output tree: a node kind, optional text, attributes and children.
use vstd::prelude::*;

verus! {

/// The kind of a node; `Heading(k)` is the heading of level `k`.
#[derive(Clone, Copy, PartialEq, Eq, Structural, Debug)]
pub enum Tag {
    Text,
    Br,
    Hr,
    Img,
    A,
    Blockquote,
    Ul,
    Ol,
    Li,
    P,
    Pre,
    Code,
    Strong,
    Em,
    U,
    Heading(usize),
}

/// The attribute names that nodes carry.
#[derive(Clone, Copy, PartialEq, Eq, Structural, Debug)]
pub enum Attr {
    Href,
    Src,
    Alt,
    Class,
}

/// One node of the output tree. A text-bearing node has `content` and no
/// children; a container has children and no `content`.
#[derive(Debug)]
pub struct Node {
    pub tag: Tag,
    pub content: Option<String>,
    pub children: Vec<Node>,
    /// Attribute names with their values, in insertion order, names unique.
    pub attributes: Vec<(Attr, String)>,
}

/// The text of a node, empty where it has none.
pub open spec fn content_of(n: Node) -> Seq<char> {
    match n.content {
        Some(c) => c@,
        None => Seq::empty(),
    }
}

/// No two attributes share a name.
pub open spec fn attrs_unique(a: Seq<(Attr, String)>) -> bool {
    forall|i: int, j: int| 0 <= i < j < a.len() ==> #[trigger] a[i].0 != #[trigger] a[j].0
}

/// The value of the first attribute named `k`.
pub open spec fn attr_lookup(a: Seq<(Attr, String)>, k: Attr) -> Option<Seq<char>>
    decreases a.len(),
{
    if a.len() == 0 {
        None
    } else if a[0].0 == k {
        Some(a[0].1@)
    } else {
        attr_lookup(a.drop_first(), k)
    }
}

impl Node {
    /// A node of kind `tag` with no content, children or attributes.
    pub fn new(tag: Tag) -> (r: Node)
        ensures
            r.tag == tag,
            r.content is None,
            r.children@.len() == 0,
            r.attributes@.len() == 0,
            attrs_unique(r.attributes@),
    {
        Node { tag, content: None, children: Vec::new(), attributes: Vec::new() }
    }

    /// A node of kind `tag` whose content is `text`.
    pub fn leaf(tag: Tag, text: String) -> (r: Node)
        ensures
            r.tag == tag,
            r.content == Some(text),
            r.children@.len() == 0,
            r.attributes@.len() == 0,
            attrs_unique(r.attributes@),
    {
        Node { tag, content: Some(text), children: Vec::new(), attributes: Vec::new() }
    }

    /// The value of the attribute named `k`, if the node has one.
    pub fn attribute(&self, k: Attr) -> (r: Option<&String>)
        ensures
            match r {
                Some(v) => attr_lookup(self.attributes@, k) == Some(v@),
                None => attr_lookup(self.attributes@, k) is None,
            },
    {
        let mut i: usize = 0;
        proof {
            assert(self.attributes@.subrange(0, self.attributes@.len() as int)
                == self.attributes@);
        }
        while i < self.attributes.len()
            invariant
                i <= self.attributes@.len(),
                attr_lookup(self.attributes@, k) == attr_lookup(
                    self.attributes@.subrange(i as int, self.attributes@.len() as int),
                    k,
                ),
            decreases self.attributes@.len() - i,
        {
            let ghost rest = self.attributes@.subrange(i as int, self.attributes@.len() as int);
            proof {
                assert(rest.drop_first() == self.attributes@.subrange(
                    i + 1,
                    self.attributes@.len() as int,
                ));
            }
            if self.attributes[i].0 == k {
                return Some(&self.attributes[i].1);
            }
            i = i + 1;
        }
        None
    }
}

} // verus!
