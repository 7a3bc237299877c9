//! The styled document tree that box generation reads: nodes in an arena,
//! each with its computed style. A node's children come after it.
use vstd::prelude::*;

use crate::values::ComputedStyle;

verus! {

#[derive(Debug, Clone, Copy, PartialEq, Eq, Structural)]
pub enum NodeKind {
    Document,
    Element,
}

pub struct StyledNode {
    pub kind: NodeKind,
    pub tag_name: String,
    pub parent: Option<usize>,
    pub children: Vec<usize>,
    pub style: ComputedStyle,
}

pub struct Document {
    pub nodes: Vec<StyledNode>,
}

impl Document {
    /// Every child link points forward to an element that names its parent
    /// back: a document node is never a child.
    pub open spec fn wf(&self) -> bool {
        forall|i: int, j: int|
            0 <= i < self.nodes@.len() && 0 <= j < self.nodes@[i].children@.len() ==> {
                let c = #[trigger] self.nodes@[i].children@[j] as int;
                &&& i < c < self.nodes@.len()
                &&& self.nodes@[c].parent == Some(i as usize)
                &&& self.nodes@[c].kind == NodeKind::Element
            }
    }

    /// `n` has a box-generating display, as has every node on the way up to `top`.
    pub open spec fn shown_below(&self, top: int, n: int) -> bool
        decreases n,
    {
        &&& 0 <= n < self.nodes@.len()
        &&& !self.nodes@[n].style.display.spec_is_none()
        &&& n == top || match self.nodes@[n].parent {
            Some(p) => p < n && self.shown_below(top, p as int),
            None => false,
        }
    }

    /// `m` is `n` or one of its ancestors.
    pub open spec fn is_ancestor_or_self(&self, m: int, n: int) -> bool
        decreases n,
    {
        m == n || (0 <= n < self.nodes@.len() && match self.nodes@[n].parent {
            Some(p) => p < n && self.is_ancestor_or_self(m, p as int),
            None => false,
        })
    }

    /// The node that the tree of boxes starts from: a document's first child,
    /// which is its first element child since only elements are children, or
    /// the node itself.
    pub open spec fn effective_root(&self, root: int) -> Option<usize> {
        if self.nodes@[root].kind == NodeKind::Document {
            if self.nodes@[root].children@.len() > 0 {
                Some(self.nodes@[root].children@[0])
            } else {
                None
            }
        } else {
            Some(root as usize)
        }
    }

    /// `n` is the document's root element: its parent is the document node.
    pub open spec fn is_root_element(&self, n: int) -> bool {
        self.nodes@[n].parent matches Some(p) && p < self.nodes@.len() && self.nodes@[p as int].kind
            == NodeKind::Document
    }

    pub open spec fn is_body_node(&self, n: int) -> bool {
        self.nodes@[n].tag_name@ == "body"@
    }

    /// Whether node `n` is a `body` element.
    pub fn is_body(&self, n: usize) -> (r: bool)
        requires
            n < self.nodes@.len(),
        ensures
            r == self.is_body_node(n as int),
    {
        self.nodes[n].tag_name == "body".to_owned()
    }

    /// A document holding its document node alone.
    pub fn new(style: ComputedStyle) -> (r: Self)
        ensures
            r.wf(),
            r.nodes@.len() == 1,
            r.nodes@[0].kind == NodeKind::Document,
            r.nodes@[0].children@.len() == 0,
    {
        let n = StyledNode {
            kind: NodeKind::Document,
            tag_name: String::new(),
            parent: None,
            children: Vec::new(),
            style,
        };
        Document { nodes: vec![n] }
    }

    /// Adds an element as the last child of `parent` and returns its index.
    pub fn append_element(&mut self, parent: usize, tag_name: String, style: ComputedStyle) -> (r: usize)
        requires
            old(self).wf(),
            parent < old(self).nodes@.len(),
        ensures
            final(self).wf(),
            r == old(self).nodes@.len(),
            final(self).nodes@.len() == r + 1,
            final(self).nodes@[r as int].style == style,
            final(self).nodes@[r as int].tag_name@ == tag_name@,
            final(self).nodes@[r as int].kind == NodeKind::Element,
            final(self).nodes@[r as int].parent == Some(parent),
            final(self).nodes@[r as int].children@.len() == 0,
            final(self).nodes@[parent as int].children@ == old(self).nodes@[parent as int].children@.push(r),
            forall|i: int| 0 <= i < r && i != parent ==> final(self).nodes@[i] == old(self).nodes@[i],
            forall|i: int| 0 <= i < r ==> final(self).nodes@[i].style == old(self).nodes@[i].style
                && final(self).nodes@[i].kind == old(self).nodes@[i].kind
                && final(self).nodes@[i].parent == old(self).nodes@[i].parent,
    {
        let r = self.nodes.len();
        let n = StyledNode {
            kind: NodeKind::Element,
            tag_name,
            parent: Some(parent),
            children: Vec::new(),
            style,
        };
        self.nodes.push(n);
        self.nodes[parent].children.push(r);
        proof {
            let s = self.nodes@;
            let o = old(self).nodes@;
            assert forall|i: int, j: int|
                0 <= i < s.len() && 0 <= j < s[i].children@.len() implies {
                    let c = #[trigger] s[i].children@[j] as int;
                    &&& i < c < s.len()
                    &&& s[c].parent == Some(i as usize)
                    &&& s[c].kind == NodeKind::Element
                } by {
                if i != parent as int {
                    assert(s[i] == o[i]);
                } else if j < o[i].children@.len() {
                    assert(s[i].children@[j] == o[i].children@[j]);
                }
            }
        }
        r
    }
}

} // verus!
