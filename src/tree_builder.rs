//! Box generation: walks the styled document tree and builds the layout box
//! tree, wrapping runs of inline-level boxes in anonymous blocks.
use vstd::prelude::*;

use crate::dom::{Document, NodeKind};
use crate::layout_box::{
    arena_wf, children_are_inline, inline_child_in, shapes, with_child, BoxKind, BoxShape,
    LayoutBox, LayoutTree,
};

verus! {

/// The kind of box a node with this display generates.
pub open spec fn kind_for(d: crate::display::Display) -> BoxKind {
    if d.spec_is_inline() {
        BoxKind::Inline
    } else {
        BoxKind::Block
    }
}

/// The innermost block-level box on the stack, or -1 when there is none.
pub open spec fn nearest_block(a: Seq<BoxShape>, stack: Seq<usize>) -> int
    decreases stack.len(),
{
    if stack.len() == 0 {
        -1
    } else if a[stack.last() as int].kind != BoxKind::Inline {
        stack.last() as int
    } else {
        nearest_block(a, stack.drop_last())
    }
}

pub open spec fn anonymous_with(children: Seq<usize>) -> BoxShape {
    BoxShape { node: None, kind: BoxKind::AnonymousBlock, children }
}

/// Block parent `p` made ready for a block child: children that form an
/// inline run move, in order, under a new anonymous block, its only child.
pub open spec fn block_parent_prepared(a: Seq<BoxShape>, p: int) -> Seq<BoxShape> {
    if a[p].children.len() > 0 && children_are_inline(a, p) {
        a.push(anonymous_with(a[p].children)).update(
            p,
            BoxShape { node: a[p].node, kind: a[p].kind, children: seq![a.len() as usize] },
        )
    } else {
        a
    }
}

/// The arena after block box `nb` is placed under block parent `p`.
pub open spec fn place_block(a: Seq<BoxShape>, p: int, nb: usize) -> Seq<BoxShape> {
    let b = block_parent_prepared(a, p);
    b.update(p, with_child(b[p], nb))
}

/// The last child of `p` is an anonymous block that holds an inline run.
pub open spec fn inline_reuses_last(a: Seq<BoxShape>, p: int) -> bool {
    &&& a[p].children.len() > 0
    &&& a[a[p].children.last() as int].kind == BoxKind::AnonymousBlock
    &&& children_are_inline(a, a[p].children.last() as int)
}

/// The box that an inline child of `p` is appended to: `p` itself when its
/// children are inline, else its trailing anonymous block, else a new one.
pub open spec fn inline_target(a: Seq<BoxShape>, p: int) -> int {
    if children_are_inline(a, p) {
        p
    } else if inline_reuses_last(a, p) {
        a[p].children.last() as int
    } else {
        a.len() as int
    }
}

pub open spec fn inline_parent_prepared(a: Seq<BoxShape>, p: int) -> Seq<BoxShape> {
    if children_are_inline(a, p) || inline_reuses_last(a, p) {
        a
    } else {
        a.push(anonymous_with(Seq::empty())).update(p, with_child(a[p], a.len() as usize))
    }
}

/// The arena after inline box `nb` is placed under its immediate parent `p`.
pub open spec fn place_inline(a: Seq<BoxShape>, p: int, nb: usize) -> Seq<BoxShape> {
    let b = inline_parent_prepared(a, p);
    let t = inline_target(a, p);
    b.update(t, with_child(b[t], nb))
}

/// `b` keeps the boxes of `a` as they were, but for their children, and adds
/// anonymous boxes only.
pub open spec fn extends_nodes(a: Seq<BoxShape>, b: Seq<BoxShape>) -> bool {
    &&& a.len() <= b.len()
    &&& forall|i: int| #![trigger b[i]] 0 <= i < a.len() ==> b[i].node == a[i].node && b[i].kind == a[i].kind
    &&& forall|i: int|
        #![trigger b[i]]
        a.len() <= i < b.len() ==> b[i].node is None && b[i].kind == BoxKind::AnonymousBlock
}

/// The boxes of `a` keep their nodes and kinds in `b`.
pub open spec fn nodes_kept(a: Seq<BoxShape>, b: Seq<BoxShape>) -> bool {
    &&& a.len() <= b.len()
    &&& forall|i: int| #![trigger b[i]] 0 <= i < a.len() ==> b[i].node == a[i].node && b[i].kind == a[i].kind
}

/// Every box's node has a box-generating display, as has each node on the way
/// up to `top`.
pub open spec fn boxes_shown(doc: &Document, top: int, a: Seq<BoxShape>) -> bool {
    forall|i: int|
        #![trigger a[i].node]
        0 <= i < a.len() ==> match a[i].node {
            Some(n) => doc.shown_below(top, n as int),
            None => true,
        }
}

/// A box with a node has the kind its display asks for; one without is anonymous.
pub open spec fn kinds_match(doc: &Document, a: Seq<BoxShape>) -> bool {
    forall|i: int|
        #![trigger a[i].node]
        0 <= i < a.len() ==> match a[i].node {
            Some(n) => n < doc.nodes@.len() && a[i].kind == kind_for(doc.nodes@[n as int].style.display),
            None => a[i].kind == BoxKind::AnonymousBlock,
        }
}

proof fn lemma_nearest_block(a: Seq<BoxShape>, stack: Seq<usize>)
    requires
        stack.len() > 0,
        forall|k: int| 0 <= k < stack.len() ==> #[trigger] stack[k] < a.len(),
        a[stack[0] as int].kind != BoxKind::Inline,
    ensures
        0 <= nearest_block(a, stack) < a.len(),
        a[nearest_block(a, stack)].kind != BoxKind::Inline,
    decreases stack.len(),
{
    if stack.len() > 1 && a[stack.last() as int].kind == BoxKind::Inline {
        let s = stack.drop_last();
        assert(s[0] == stack[0]);
        assert forall|k: int| 0 <= k < s.len() implies #[trigger] s[k] < a.len() by {
            assert(s[k] == stack[k]);
        }
        lemma_nearest_block(a, s);
    }
}

proof fn lemma_place_block_wf(a: Seq<BoxShape>, p: int, nb: usize)
    requires
        arena_wf(a),
        0 <= p < a.len(),
        nb < a.len(),
    ensures
        arena_wf(place_block(a, p, nb)),
        extends_nodes(a, place_block(a, p, nb)),
{
    let b = block_parent_prepared(a, p);
    let r = place_block(a, p, nb);
    assert(arena_wf(b)) by {
        if a[p].children.len() > 0 && children_are_inline(a, p) {
            assert forall|i: int, j: int| 0 <= i < b.len() && 0 <= j < b[i].children.len()
                implies #[trigger] b[i].children[j] < b.len() by {
                if i == a.len() {
                    assert(b[i].children[j] == a[p].children[j]);
                } else if i != p {
                    assert(b[i] == a[i]);
                }
            }
        }
    }
    assert forall|i: int, j: int| 0 <= i < r.len() && 0 <= j < r[i].children.len()
        implies #[trigger] r[i].children[j] < r.len() by {
        if i == p {
            if j < b[p].children.len() {
                assert(r[i].children[j] == b[p].children[j]);
            }
        } else {
            assert(r[i] == b[i]);
        }
    }
}

proof fn lemma_place_inline_wf(a: Seq<BoxShape>, p: int, nb: usize)
    requires
        arena_wf(a),
        0 <= p < a.len(),
        nb < a.len(),
    ensures
        arena_wf(place_inline(a, p, nb)),
        extends_nodes(a, place_inline(a, p, nb)),
        0 <= inline_target(a, p) < place_inline(a, p, nb).len(),
{
    let b = inline_parent_prepared(a, p);
    let t = inline_target(a, p);
    let r = place_inline(a, p, nb);
    assert(arena_wf(b)) by {
        if !(children_are_inline(a, p) || inline_reuses_last(a, p)) {
            assert forall|i: int, j: int| 0 <= i < b.len() && 0 <= j < b[i].children.len()
                implies #[trigger] b[i].children[j] < b.len() by {
                if i == p {
                    if j < a[p].children.len() {
                        assert(b[i].children[j] == a[p].children[j]);
                    }
                } else if i != a.len() {
                    assert(b[i] == a[i]);
                }
            }
        }
    }
    if !children_are_inline(a, p) && inline_reuses_last(a, p) {
        assert(a[p].children[a[p].children.len() - 1] < a.len());
    }
    assert forall|i: int, j: int| 0 <= i < r.len() && 0 <= j < r[i].children.len()
        implies #[trigger] r[i].children[j] < r.len() by {
        if i == t {
            if j < b[t].children.len() {
                assert(r[i].children[j] == b[t].children[j]);
            }
        } else {
            assert(r[i] == b[i]);
        }
    }
}

/// The arena after box generation visits `node` with parent stack `stack`:
/// a node whose display is `none` adds nothing; any other gets a box of the
/// kind its display asks for, placed by the block or inline rule, and then
/// its children are visited with that box on top of the stack.
pub open spec fn visit(doc: &Document, a: Seq<BoxShape>, stack: Seq<usize>, node: int) -> Seq<BoxShape>
    decreases doc.nodes@.len() - node + 1, 0int,
{
    if !(0 <= node < doc.nodes@.len()) || doc.nodes@[node].style.display.spec_is_none() {
        a
    } else {
        let nb = a.len() as usize;
        let kind = kind_for(doc.nodes@[node].style.display);
        let a1 = a.push(BoxShape { node: Some(node as usize), kind, children: Seq::empty() });
        let a2 = if kind == BoxKind::Inline {
            place_inline(a1, stack.last() as int, nb)
        } else {
            place_block(a1, nearest_block(a1, stack), nb)
        };
        visit_children(doc, a2, stack.push(nb), node, doc.nodes@[node].children@)
    }
}

/// The arena after visiting, in order, the children `cs` of `parent`.
pub open spec fn visit_children(
    doc: &Document,
    a: Seq<BoxShape>,
    stack: Seq<usize>,
    parent: int,
    cs: Seq<usize>,
) -> Seq<BoxShape>
    decreases doc.nodes@.len() - parent, cs.len(),
{
    if cs.len() == 0 || !(0 <= parent < doc.nodes@.len()) {
        a
    } else {
        let before = visit_children(doc, a, stack, parent, cs.drop_last());
        if parent < cs.last() < doc.nodes@.len() {
            visit(doc, before, stack, cs.last() as int)
        } else {
            before
        }
    }
}

/// The arena that box generation builds below effective root `e`: its box,
/// a block, then its children visited in order.
pub open spec fn built_arena(doc: &Document, e: int) -> Seq<BoxShape> {
    visit_children(
        doc,
        seq![BoxShape { node: Some(e as usize), kind: BoxKind::Block, children: Seq::empty() }],
        seq![0usize],
        e,
        doc.nodes@[e].children@,
    )
}

pub struct TreeBuilder {
    parent_stack: Vec<usize>,
    boxes: Vec<LayoutBox>,
}

impl TreeBuilder {
    pub fn new() -> (r: Self)
        ensures
            r.stack()@.len() == 0,
            r.arena().len() == 0,
    {
        TreeBuilder { parent_stack: Vec::new(), boxes: Vec::new() }
    }

    pub closed spec fn stack(&self) -> Vec<usize> {
        self.parent_stack
    }

    pub closed spec fn arena(&self) -> Seq<BoxShape> {
        shapes(self.boxes@)
    }

    /// The arena is well formed, and the stack is non-empty, points into the
    /// arena and starts at a block-level box.
    pub closed spec fn ready(&self) -> bool {
        &&& arena_wf(shapes(self.boxes@))
        &&& self.parent_stack@.len() > 0
        &&& forall|k: int|
            0 <= k < self.parent_stack@.len() ==> #[trigger] self.parent_stack@[k] < self.boxes@.len()
        &&& self.boxes@[self.parent_stack@[0] as int].kind != BoxKind::Inline
    }

    fn append_child(&mut self, parent: usize, child: usize)
        requires
            parent < old(self).boxes@.len(),
        ensures
            shapes(final(self).boxes@) == shapes(old(self).boxes@).update(
                parent as int,
                with_child(shapes(old(self).boxes@)[parent as int], child),
            ),
            final(self).parent_stack == old(self).parent_stack,
    {
        self.boxes[parent].children.push(child);
        assert(shapes(self.boxes@) =~= shapes(old(self).boxes@).update(
            parent as int,
            with_child(shapes(old(self).boxes@)[parent as int], child),
        ));
    }

    /// Finds the innermost block-level box on the stack and, when its
    /// children form an inline run, wraps them in an anonymous block first.
    fn get_parent_for_block(&mut self) -> (p: usize)
        requires
            old(self).ready(),
        ensures
            p == nearest_block(shapes(old(self).boxes@), old(self).parent_stack@),
            shapes(final(self).boxes@) == block_parent_prepared(shapes(old(self).boxes@), p as int),
            final(self).parent_stack == old(self).parent_stack,
    {
        let ghost a = shapes(self.boxes@);
        let ghost s = self.parent_stack@;
        let mut i: usize = self.parent_stack.len();
        assert(s.take(i as int) =~= s);
        while i > 1 && self.boxes[self.parent_stack[i - 1]].is_inline()
            invariant
                1 <= i <= s.len(),
                s == self.parent_stack@,
                a == shapes(self.boxes@),
                self.ready(),
                nearest_block(a, s) == nearest_block(a, s.take(i as int)),
            decreases i,
        {
            assert(s.take(i as int).drop_last() =~= s.take(i - 1));
            i -= 1;
        }
        let p = self.parent_stack[i - 1];
        assert(s.take(i as int).last() == p);
        if i == 1 {
            assert(s.take(1)[0] == s[0]);
        }
        let n = self.boxes[p].children.len();
        if n > 0 && inline_child_in(&self.boxes, p) {
            let w = self.boxes.len();
            let mut kids: Vec<usize> = Vec::new();
            std::mem::swap(&mut kids, &mut self.boxes[p].children);
            self.boxes[p].children.push(w);
            let mut anon = LayoutBox::new(None, BoxKind::AnonymousBlock);
            anon.children = kids;
            self.boxes.push(anon);
            assert(self.boxes@[p as int].children@ =~= seq![w]);
            assert(shapes(self.boxes@) =~= block_parent_prepared(a, p as int));
        }
        p
    }

    /// Finds the box an inline child of the innermost box on the stack goes
    /// into: that box when its children are inline, else its trailing
    /// anonymous block, else a new anonymous block appended to it.
    fn get_parent_for_inline(&mut self) -> (t: usize)
        requires
            old(self).ready(),
        ensures
            t == inline_target(
                shapes(old(self).boxes@),
                old(self).parent_stack@.last() as int,
            ),
            shapes(final(self).boxes@) == inline_parent_prepared(
                shapes(old(self).boxes@),
                old(self).parent_stack@.last() as int,
            ),
            final(self).parent_stack == old(self).parent_stack,
    {
        let ghost a = shapes(self.boxes@);
        let p = self.parent_stack[self.parent_stack.len() - 1];
        if inline_child_in(&self.boxes, p) {
            return p;
        }
        let n = self.boxes[p].children.len();
        if n > 0 {
            let l = self.boxes[p].children[n - 1];
            if self.boxes[l].is_anonymous() && inline_child_in(&self.boxes, l) {
                return l;
            }
        }
        let w = self.boxes.len();
        self.boxes.push(LayoutBox::new(None, BoxKind::AnonymousBlock));
        self.boxes[p].children.push(w);
        assert(shapes(self.boxes@) =~= inline_parent_prepared(a, p as int));
        w
    }

    fn build_layout_tree(&mut self, doc: &Document, node: usize, Ghost(top): Ghost<int>)
        requires
            doc.wf(),
            node < doc.nodes@.len(),
            old(self).ready(),
            doc.nodes@[node as int].parent matches Some(p) && p < node && doc.shown_below(
                top,
                p as int,
            ),
            boxes_shown(doc, top, shapes(old(self).boxes@)),
            kinds_match(doc, shapes(old(self).boxes@)),
        ensures
            final(self).ready(),
            final(self).parent_stack@ == old(self).parent_stack@,
            boxes_shown(doc, top, shapes(final(self).boxes@)),
            kinds_match(doc, shapes(final(self).boxes@)),
            nodes_kept(shapes(old(self).boxes@), shapes(final(self).boxes@)),
            shapes(final(self).boxes@) == visit(doc, shapes(old(self).boxes@), old(self).parent_stack@, node as int),
        decreases doc.nodes@.len() - node,
    {
        if doc.nodes[node].style.display.is_none() {
            return;
        }
        let ghost a0 = shapes(self.boxes@);
        let nb = self.boxes.len();
        let inline = doc.nodes[node].style.display.is_inline();
        let kind = if inline {
            BoxKind::Inline
        } else {
            BoxKind::Block
        };
        self.boxes.push(LayoutBox::new(Some(node), kind));
        let ghost a1 = shapes(self.boxes@);
        assert(a1 =~= a0.push(BoxShape { node: Some(node), kind, children: Seq::empty() }));
        assert(arena_wf(a1)) by {
            assert forall|i: int, j: int| 0 <= i < a1.len() && 0 <= j < a1[i].children.len()
                implies #[trigger] a1[i].children[j] < a1.len() by {
                assert(a1[i] == a0[i]);
            }
        }
        assert(self.ready()) by {
            assert(self.boxes@[self.parent_stack@[0] as int].kind == a0[self.parent_stack@[0] as int].kind);
        }
        proof {
            lemma_nearest_block(a1, self.parent_stack@);
        }
        let parent = if inline {
            self.get_parent_for_inline()
        } else {
            self.get_parent_for_block()
        };
        proof {
            if inline {
                lemma_place_inline_wf(a1, self.parent_stack@.last() as int, nb);
                assert(parent < shapes(self.boxes@).len());
            } else {
                let p = nearest_block(a1, self.parent_stack@);
                lemma_place_block_wf(a1, p, nb);
                assert(parent < shapes(self.boxes@).len());
            }
        }
        self.append_child(parent, nb);
        proof {
            if inline {
                assert(shapes(self.boxes@) == place_inline(a1, self.parent_stack@.last() as int, nb));
            } else {
                let p = nearest_block(a1, self.parent_stack@);
                assert(shapes(self.boxes@) == place_block(a1, p, nb));
            }
            let a2 = shapes(self.boxes@);
            assert(extends_nodes(a1, a2));
            assert(a2[self.parent_stack@[0] as int].kind == a1[self.parent_stack@[0] as int].kind);
        }
        let ghost a2 = shapes(self.boxes@);
        assert(nodes_kept(a0, a2)) by {
            assert forall|i: int| #![trigger a2[i]] 0 <= i < a0.len() implies a2[i].node == a0[i].node && a2[i].kind == a0[i].kind by {
                assert(a1[i] == a0[i]);
                assert(a2[i].node == a1[i].node);
            }
        }
        assert(doc.shown_below(top, node as int));
        self.parent_stack.push(nb);
        assert(self.ready()) by {
            assert(self.parent_stack@[0] == old(self).parent_stack@[0]);
            assert forall|k: int| 0 <= k < self.parent_stack@.len() implies #[trigger] self.parent_stack@[k] < self.boxes@.len() by {
                if k < old(self).parent_stack@.len() {
                    assert(self.parent_stack@[k] == old(self).parent_stack@[k]);
                }
            }
        }
        assert(boxes_shown(doc, top, a2) && kinds_match(doc, a2)) by {
            assert forall|i: int| 0 <= i < a2.len() implies match #[trigger] a2[i].node {
                Some(m) => doc.shown_below(top, m as int) && m < doc.nodes@.len() && a2[i].kind
                    == kind_for(doc.nodes@[m as int].style.display),
                None => a2[i].kind == BoxKind::AnonymousBlock,
            } by {
                if i < a1.len() {
                    assert(a2[i].node == a1[i].node && a2[i].kind == a1[i].kind);
                    if i < a0.len() {
                        assert(a1[i] == a0[i]);
                    }
                }
            }
        }
        let ghost stack1 = self.parent_stack@;
        let ghost cs = doc.nodes@[node as int].children@;
        assert(a2 == if inline {
            place_inline(a1, old(self).parent_stack@.last() as int, nb)
        } else {
            place_block(a1, nearest_block(a1, old(self).parent_stack@), nb)
        });
        assert(cs.take(0) =~= Seq::<usize>::empty());
        let n = doc.nodes[node].children.len();
        let mut i: usize = 0;
        while i < n
            invariant
                doc.wf(),
                node < doc.nodes@.len(),
                n == doc.nodes@[node as int].children@.len(),
                i <= n,
                self.ready(),
                self.parent_stack@ == stack1,
                stack1 == old(self).parent_stack@.push(nb),
                doc.shown_below(top, node as int),
                boxes_shown(doc, top, shapes(self.boxes@)),
                kinds_match(doc, shapes(self.boxes@)),
                nodes_kept(a0, shapes(self.boxes@)),
                cs == doc.nodes@[node as int].children@,
                shapes(self.boxes@) == visit_children(doc, a2, stack1, node as int, cs.take(i as int)),
            decreases n - i,
        {
            let c = doc.nodes[node].children[i];
            assert(doc.nodes@[node as int].children@[i as int] == c);
            assert(cs.take(i + 1).drop_last() =~= cs.take(i as int));
            assert(cs.take(i + 1).last() == c);
            assert(node < c);
            self.build_layout_tree(doc, c, Ghost(top));
            i += 1;
        }
        assert(cs.take(n as int) =~= cs);
        self.parent_stack.pop();
        assert(self.parent_stack@ =~= old(self).parent_stack@);
        assert(self.ready()) by {
            assert(self.parent_stack@[0] == stack1[0]);
            assert forall|k: int| 0 <= k < self.parent_stack@.len() implies #[trigger] self.parent_stack@[k] < self.boxes@.len() by {
                assert(self.parent_stack@[k] == stack1[k]);
            }
        }
    }
    /// Builds the layout tree of the document below `root` (a document node
    /// stands for its first child). `None` when there is no such node or its
    /// display generates no box.
    pub fn build(self, doc: &Document, root: usize) -> (r: Option<LayoutTree>)
        requires
            doc.wf(),
            root < doc.nodes@.len(),
            doc.effective_root(root as int) matches Some(e) ==> !doc.nodes@[e as int].style.display.spec_is_inline(),
        ensures
            r is None <==> no_root_box(doc, root as int),
            r matches Some(t) ==> doc.effective_root(root as int) matches Some(e) && builds_from(doc, e as int, &t)
                && t.root == 0 && shapes(t.boxes@) == built_arena(doc, e as int)
                && doc.nodes@[e as int].kind == NodeKind::Element,
    {
        let mut this = self;
        this.parent_stack = Vec::new();
        this.boxes = Vec::new();
        let e = if doc.nodes[root].kind == NodeKind::Document {
            if doc.nodes[root].children.len() == 0 {
                return None;
            }
            doc.nodes[root].children[0]
        } else {
            root
        };
        assert(doc.effective_root(root as int) == Some(e));
        if doc.nodes[e].kind != NodeKind::Element {
            return None;
        }
        if doc.nodes[e].style.display.is_none() {
            return None;
        }
        let root_box = LayoutBox::new(Some(e), BoxKind::Block);
        this.boxes.push(root_box);
        this.parent_stack.push(0);
        let ghost top = e as int;
        assert(doc.shown_below(top, e as int));
        assert(this.ready()) by {
            assert(this.parent_stack@[0] == 0);
        }
        assert(boxes_shown(doc, top, shapes(this.boxes@)));
        assert(kinds_match(doc, shapes(this.boxes@)));
        let ghost cs = doc.nodes@[e as int].children@;
        let ghost a0 = shapes(this.boxes@);
        assert(a0 =~= seq![BoxShape { node: Some(e), kind: BoxKind::Block, children: Seq::empty() }]);
        assert(cs.take(0) =~= Seq::<usize>::empty());
        let n = doc.nodes[e].children.len();
        let mut i: usize = 0;
        while i < n
            invariant
                cs == doc.nodes@[e as int].children@,
                a0 == seq![BoxShape { node: Some(e), kind: BoxKind::Block, children: Seq::empty() }],
                shapes(this.boxes@) == visit_children(doc, a0, seq![0usize], e as int, cs.take(i as int)),
                doc.wf(),
                e < doc.nodes@.len(),
                n == doc.nodes@[e as int].children@.len(),
                i <= n,
                this.ready(),
                this.parent_stack@ == seq![0usize],
                doc.shown_below(top, e as int),
                boxes_shown(doc, top, shapes(this.boxes@)),
                kinds_match(doc, shapes(this.boxes@)),
                shapes(this.boxes@)[0].node == Some(e),
            decreases n - i,
        {
            let c = doc.nodes[e].children[i];
            assert(doc.nodes@[e as int].children@[i as int] == c);
            assert(cs.take(i + 1).drop_last() =~= cs.take(i as int));
            assert(cs.take(i + 1).last() == c);
            assert(e < c);
            this.build_layout_tree(doc, c, Ghost(top));
            assert(shapes(this.boxes@)[0].node == Some(e));
            i += 1;
        }
        assert(cs.take(n as int) =~= cs);
        let t = LayoutTree { boxes: this.boxes, root: 0 };
        assert(t.fits(doc)) by {
            assert forall|k: int| #![trigger t.boxes@[k]] 0 <= k < t.boxes@.len() && t.boxes@[k].kind != BoxKind::AnonymousBlock implies (t.boxes@[k].node matches Some(m) && m < doc.nodes@.len()) by {
                assert(shapes(t.boxes@)[k].node == t.boxes@[k].node);
            }
        }
        Some(t)
    }
}

/// There is no element to start from, or it generates no box.
pub open spec fn no_root_box(doc: &Document, root: int) -> bool {
    match doc.effective_root(root) {
        None => true,
        Some(e) => doc.nodes@[e as int].style.display.spec_is_none() || doc.nodes@[e as int].kind
            != NodeKind::Element,
    }
}

/// `t` is a tree of boxes generated below document node `top`: its root is
/// `top`'s box, each box has the kind its node's display asks for, and each
/// node with a box is shown, as is every node between it and `top`.
pub open spec fn builds_from(doc: &Document, top: int, t: &LayoutTree) -> bool {
    &&& t.wf()
    &&& t.boxes@[t.root as int].node == Some(top as usize)
    &&& boxes_shown(doc, top, shapes(t.boxes@))
    &&& kinds_match(doc, shapes(t.boxes@))
    &&& t.fits(doc)
}

proof fn lemma_ancestor_not_after(doc: &Document, m: int, n: int)
    requires
        doc.is_ancestor_or_self(m, n),
    ensures
        m <= n,
    decreases n,
{
    if m != n {
        let p = doc.nodes@[n].parent.unwrap() as int;
        lemma_ancestor_not_after(doc, m, p);
    }
}

proof fn lemma_shown_not_below_suppressed(doc: &Document, top: int, m: int, n: int)
    requires
        doc.shown_below(top, n),
        doc.nodes@[m].style.display.spec_is_none(),
        doc.is_ancestor_or_self(top, m),
    ensures
        !doc.is_ancestor_or_self(m, n),
    decreases n,
{
    if doc.is_ancestor_or_self(m, n) && m != n {
        let p = doc.nodes@[n].parent.unwrap() as int;
        lemma_ancestor_not_after(doc, m, p);
        lemma_ancestor_not_after(doc, top, m);
        if n != top {
            lemma_shown_not_below_suppressed(doc, top, m, p);
        }
    }
}

/// A node below the tree's top whose display generates no box has no box in
/// the tree, and neither has any node in its subtree.
pub proof fn lemma_suppressed_subtree_has_no_boxes(doc: &Document, top: int, t: &LayoutTree, m: int, i: int)
    requires
        builds_from(doc, top, t),
        0 <= m < doc.nodes@.len(),
        doc.nodes@[m].style.display.spec_is_none(),
        doc.is_ancestor_or_self(top, m),
        0 <= i < t.boxes@.len(),
    ensures
        t.boxes@[i].node matches Some(n) ==> !doc.is_ancestor_or_self(m, n as int),
{
    if let Some(n) = t.boxes@[i].node {
        assert(shapes(t.boxes@)[i].node == Some(n));
        lemma_shown_not_below_suppressed(doc, top, m, n as int);
    }
}

/// Two inline boxes placed one after the other under the same parent end up
/// in the same box, and the second placement adds no box to the arena.
pub proof fn lemma_inline_run_shares_wrapper(a: Seq<BoxShape>, p: int, n1: usize, n2: usize)
    requires
        arena_wf(a),
        a.len() < usize::MAX,
        0 <= p < a.len(),
        n1 < a.len(),
        n2 < a.len(),
        a[n1 as int].kind == BoxKind::Inline,
    ensures
        place_inline(place_inline(a, p, n1), p, n2).len() == place_inline(a, p, n1).len(),
        inline_target(place_inline(a, p, n1), p) == inline_target(a, p),
{
    let b = place_inline(a, p, n1);
    let t = inline_target(a, p);
    lemma_place_inline_wf(a, p, n1);
    assert(forall|i: int| 0 <= i < a.len() ==> #[trigger] b[i].kind == a[i].kind);
    if children_are_inline(a, p) {
        let j = choose|j: int| 0 <= j < a[p].children.len() && a[a[p].children[j] as int].kind == BoxKind::Inline;
        assert(b[p].children[j] == a[p].children[j]);
        assert(children_are_inline(b, p));
    } else if inline_reuses_last(a, p) {
        let l = a[p].children.last() as int;
        assert(l != p);
        assert(b[p] == a[p]);
        assert(!children_are_inline(b, p)) by {
            if children_are_inline(b, p) {
                let j = choose|j: int| 0 <= j < b[p].children.len() && b[b[p].children[j] as int].kind == BoxKind::Inline;
                assert(a[a[p].children[j] as int].kind == BoxKind::Inline);
            }
        }
        let j = choose|j: int| 0 <= j < a[l].children.len() && a[a[l].children[j] as int].kind == BoxKind::Inline;
        assert(b[l].children[j] == a[l].children[j]);
        assert(children_are_inline(b, l));
    } else {
        let w = a.len() as int;
        assert(b[p].children == a[p].children.push(w as usize));
        assert(b[w].kind == BoxKind::AnonymousBlock);
        assert(!children_are_inline(b, p)) by {
            if children_are_inline(b, p) {
                let j = choose|j: int| 0 <= j < b[p].children.len() && b[b[p].children[j] as int].kind == BoxKind::Inline;
                if j < a[p].children.len() {
                    assert(a[a[p].children[j] as int].kind == BoxKind::Inline);
                } else {
                    assert(b[p].children[j] == w);
                }
            }
        }
        assert(b[w].children == seq![n1]);
        assert(b[w].children[0] == n1);
        assert(children_are_inline(b, w));
    }
}

/// A block parent with no children takes a block child as it is: no
/// anonymous box is made.
pub proof fn lemma_empty_parent_gets_no_wrapper(a: Seq<BoxShape>, p: int, nb: usize)
    requires
        0 <= p < a.len(),
        a[p].children.len() == 0,
    ensures
        place_block(a, p, nb).len() == a.len(),
        place_block(a, p, nb)[p].children == seq![nb],
{
    assert(place_block(a, p, nb)[p].children =~= seq![nb]);
}

/// Once a block-level box is placed under its block parent, none of that
/// parent's children is inline-level.
pub proof fn lemma_block_placement_leaves_block_children(a: Seq<BoxShape>, p: int, nb: usize)
    requires
        arena_wf(a),
        a.len() < usize::MAX,
        0 <= p < a.len(),
        nb < a.len(),
        a[nb as int].kind != BoxKind::Inline,
    ensures
        !children_are_inline(place_block(a, p, nb), p),
{
    let r = place_block(a, p, nb);
    let b = block_parent_prepared(a, p);
    lemma_place_block_wf(a, p, nb);
    if children_are_inline(r, p) {
        let j = choose|j: int| 0 <= j < r[p].children.len() && r[r[p].children[j] as int].kind == BoxKind::Inline;
        let c = r[p].children[j] as int;
        assert(r[c].kind == BoxKind::Inline);
        if a[p].children.len() > 0 && children_are_inline(a, p) {
            assert(r[p].children == seq![a.len() as usize, nb]);
            assert(c == a.len() || c == nb);
        } else {
            assert(r[p].children == a[p].children.push(nb));
            if j < a[p].children.len() {
                assert(a[a[p].children[j] as int].kind == BoxKind::Inline);
            }
        }
    }
}

pub open spec fn is_inline_node(doc: &Document, c: usize) -> bool {
    doc.nodes@[c as int].style.display.spec_is_inline()
}

/// The number of maximal runs of inline-level nodes in `cs`.
pub open spec fn inline_runs(doc: &Document, cs: Seq<usize>) -> nat
    decreases cs.len(),
{
    if cs.len() == 0 {
        0
    } else {
        let rest = inline_runs(doc, cs.drop_last());
        if is_inline_node(doc, cs.last()) && !(cs.len() > 1 && is_inline_node(doc, cs[cs.len() - 2])) {
            rest + 1
        } else {
            rest
        }
    }
}

/// The state of block box `p` while its children are visited: it has no
/// inline-level child, and it ends in an anonymous block holding an inline
/// run exactly when the last visited child was inline-level.
pub open spec fn grouping_state(doc: &Document, r: Seq<BoxShape>, p: int, done: Seq<usize>) -> bool {
    &&& arena_wf(r)
    &&& 0 <= p < r.len()
    &&& r[p].kind == BoxKind::Block
    &&& !children_are_inline(r, p)
    &&& (inline_reuses_last(r, p) <==> (done.len() > 0 && is_inline_node(doc, done.last())))
}

proof fn lemma_grouping_step(doc: &Document, r: Seq<BoxShape>, stack: Seq<usize>, p: int, done: Seq<usize>, c: usize)
    requires
        grouping_state(doc, r, p, done),
        stack.len() > 0,
        stack.last() == p,
        r.len() + 2 < usize::MAX,
        c < doc.nodes@.len(),
        doc.nodes@[c as int].children@.len() == 0,
        !doc.nodes@[c as int].style.display.spec_is_none(),
    ensures
        grouping_state(doc, visit(doc, r, stack, c as int), p, done.push(c)),
        visit(doc, r, stack, c as int).len() == r.len() + 1 + (if is_inline_node(doc, c) && !(
        done.len() > 0 && is_inline_node(doc, done.last())) {
            1int
        } else {
            0int
        }),
{
    let nb = r.len() as usize;
    let kind = kind_for(doc.nodes@[c as int].style.display);
    let a1 = r.push(BoxShape { node: Some(c), kind, children: Seq::empty() });
    assert(arena_wf(a1)) by {
        assert forall|i: int, j: int| 0 <= i < a1.len() && 0 <= j < a1[i].children.len()
            implies #[trigger] a1[i].children[j] < a1.len() by {
            assert(a1[i] == r[i]);
        }
    }
    assert(a1[p] == r[p]);
    assert(!children_are_inline(a1, p)) by {
        if children_are_inline(a1, p) {
            let j = choose|j: int| 0 <= j < a1[p].children.len() && a1[a1[p].children[j] as int].kind == BoxKind::Inline;
            assert(r[p].children[j] < r.len());
            assert(a1[r[p].children[j] as int] == r[r[p].children[j] as int]);
        }
    }
    assert(inline_reuses_last(a1, p) == inline_reuses_last(r, p)) by {
        if r[p].children.len() > 0 {
            let l = r[p].children.last() as int;
            assert(r[p].children[r[p].children.len() - 1] < r.len());
            assert(a1[l] == r[l]);
            assert forall|j: int| 0 <= j < r[l].children.len() implies a1[a1[l].children[j] as int].kind == r[r[l].children[j] as int].kind by {
                assert(r[l].children[j] < r.len());
            }
            if children_are_inline(a1, l) {
                let j = choose|j: int| 0 <= j < a1[l].children.len() && a1[a1[l].children[j] as int].kind == BoxKind::Inline;
                assert(r[r[l].children[j] as int].kind == BoxKind::Inline);
            }
            if children_are_inline(r, l) {
                let j = choose|j: int| 0 <= j < r[l].children.len() && r[r[l].children[j] as int].kind == BoxKind::Inline;
                assert(a1[a1[l].children[j] as int].kind == BoxKind::Inline);
            }
        }
    }
    let cs = doc.nodes@[c as int].children@;
    let st = stack.push(nb);
    let a2 = visit(doc, r, stack, c as int);
    if kind == BoxKind::Inline {
        lemma_place_inline_wf(a1, p, nb);
        let b = place_inline(a1, p, nb);
        assert(a2 == visit_children(doc, b, st, c as int, cs));
        assert(a2 == b);
        let t = inline_target(a1, p);
        assert(forall|i: int| 0 <= i < a1.len() ==> #[trigger] b[i].kind == a1[i].kind);
        if inline_reuses_last(a1, p) {
            assert(t == a1[p].children.last());
            assert(t != p);
            assert(b[p] == a1[p]);
        } else {
            assert(t == a1.len());
            assert(b[p].children == a1[p].children.push(t as usize));
            assert(b[t].kind == BoxKind::AnonymousBlock);
        }
        assert(!children_are_inline(b, p)) by {
            if children_are_inline(b, p) {
                let j = choose|j: int| 0 <= j < b[p].children.len() && b[b[p].children[j] as int].kind == BoxKind::Inline;
                if j < a1[p].children.len() {
                    assert(b[p].children[j] == a1[p].children[j]);
                    assert(a1[a1[p].children[j] as int].kind == BoxKind::Inline);
                }
            }
        }
        assert(b[p].children.last() == t);
        assert(b[t].children.last() == nb);
        assert(b[t].children[b[t].children.len() - 1] == nb);
        assert(b[nb as int].kind == BoxKind::Inline);
        assert(children_are_inline(b, t));
        assert(done.push(c).last() == c);
    } else {
        assert(a1[stack.last() as int].kind != BoxKind::Inline);
        assert(nearest_block(a1, stack) == p);
        lemma_place_block_wf(a1, p, nb);
        let b = place_block(a1, p, nb);
        assert(a2 == visit_children(doc, b, st, c as int, cs));
        assert(a2 == b);
        assert(b[p].children == a1[p].children.push(nb));
        assert(b[nb as int].kind == BoxKind::Block);
        assert(!children_are_inline(b, p)) by {
            if children_are_inline(b, p) {
                let j = choose|j: int| 0 <= j < b[p].children.len() && b[b[p].children[j] as int].kind == BoxKind::Inline;
                if j < a1[p].children.len() {
                    assert(b[p].children[j] == a1[p].children[j]);
                    assert(a1[a1[p].children[j] as int].kind == BoxKind::Inline);
                }
            }
        }
        assert(b[p].children.last() == nb);
        assert(!inline_reuses_last(b, p));
        assert(done.push(c).last() == c);
    }
}

/// Box generation for a block element whose displayed children have no
/// children of their own: starting from its box with no children, on top of
/// the stack, visiting the children adds one box per child and one anonymous
/// block per maximal run of inline-level children, and leaves no
/// inline-level box directly under the element's box.
pub proof fn lemma_inline_runs_get_one_wrapper_each(
    doc: &Document,
    a: Seq<BoxShape>,
    stack: Seq<usize>,
    parent: int,
    cs: Seq<usize>,
)
    requires
        arena_wf(a),
        a.len() + 2 * cs.len() < usize::MAX,
        stack.len() > 0,
        0 <= stack.last() < a.len(),
        a[stack.last() as int].kind == BoxKind::Block,
        a[stack.last() as int].children.len() == 0,
        0 <= parent < doc.nodes@.len(),
        forall|k: int|
            0 <= k < cs.len() ==> parent < #[trigger] cs[k] < doc.nodes@.len()
                && doc.nodes@[cs[k] as int].children@.len() == 0
                && !doc.nodes@[cs[k] as int].style.display.spec_is_none(),
    ensures
        visit_children(doc, a, stack, parent, cs).len() == a.len() + cs.len() + inline_runs(doc, cs),
        !children_are_inline(visit_children(doc, a, stack, parent, cs), stack.last() as int),
{
    lemma_grouping(doc, a, stack, parent, cs);
}

proof fn lemma_grouping(doc: &Document, a: Seq<BoxShape>, stack: Seq<usize>, parent: int, cs: Seq<usize>)
    requires
        arena_wf(a),
        a.len() + 2 * cs.len() < usize::MAX,
        stack.len() > 0,
        0 <= stack.last() < a.len(),
        a[stack.last() as int].kind == BoxKind::Block,
        a[stack.last() as int].children.len() == 0,
        0 <= parent < doc.nodes@.len(),
        forall|k: int|
            0 <= k < cs.len() ==> parent < #[trigger] cs[k] < doc.nodes@.len()
                && doc.nodes@[cs[k] as int].children@.len() == 0
                && !doc.nodes@[cs[k] as int].style.display.spec_is_none(),
    ensures
        grouping_state(doc, visit_children(doc, a, stack, parent, cs), stack.last() as int, cs),
        visit_children(doc, a, stack, parent, cs).len() == a.len() + cs.len() + inline_runs(doc, cs),
        inline_runs(doc, cs) <= cs.len(),
    decreases cs.len(),
{
    let p = stack.last() as int;
    if cs.len() == 0 {
        assert(!inline_reuses_last(a, p));
    } else {
        let d = cs.drop_last();
        assert forall|k: int| 0 <= k < d.len() implies parent < #[trigger] d[k] < doc.nodes@.len()
            && doc.nodes@[d[k] as int].children@.len() == 0
            && !doc.nodes@[d[k] as int].style.display.spec_is_none() by {
            assert(d[k] == cs[k]);
        }
        lemma_grouping(doc, a, stack, parent, d);
        let c = cs.last();
        assert(cs[cs.len() - 1] == c);
        let before = visit_children(doc, a, stack, parent, d);
        lemma_grouping_step(doc, before, stack, p, d, c);
        if d.len() > 0 {
            assert(d.last() == cs[cs.len() - 2]);
        }
        assert(cs.drop_last() == d);
    }
}

} // verus!
