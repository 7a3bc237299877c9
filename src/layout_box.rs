//! The layout box tree: boxes in an arena, each owning the indices of its
//! children, with the geometry and line data that later passes fill in.
use vstd::prelude::*;

use crate::dom::Document;

verus! {

#[derive(Debug, Clone, Copy, PartialEq, Eq, Structural)]
pub enum BoxKind {
    Block,
    Inline,
    AnonymousBlock,
}

#[derive(Debug, Clone, Copy, PartialEq, Eq, Structural)]
pub struct Point {
    pub x: i32,
    pub y: i32,
}

#[derive(Debug, Clone, Copy, PartialEq, Eq, Structural)]
pub struct Size {
    pub width: i32,
    pub height: i32,
}

#[derive(Debug, Clone, Copy, PartialEq, Eq, Structural)]
pub struct Rect {
    pub x: i32,
    pub y: i32,
    pub width: i32,
    pub height: i32,
}

/// A box's absolute geometry, as the layout pass computed it.
#[derive(Debug, Clone, Copy, PartialEq, Eq, Structural)]
pub struct Dimensions {
    pub location: Point,
    pub padding_box: Rect,
    pub border_box: Rect,
}

#[derive(Debug, Clone, PartialEq, Eq)]
pub enum FragmentData {
    /// A piece of an inline-level box, by its index in the arena.
    Box(usize),
    /// A run of text belonging to the box at the index.
    Text(usize, String),
}

/// A piece of content placed on a line, at an offset within the line.
#[derive(Debug, Clone)]
pub struct Fragment {
    pub offset: Point,
    pub size: Size,
    pub data: FragmentData,
}

#[derive(Debug, Clone)]
pub struct Line {
    pub fragments: Vec<Fragment>,
}

pub struct LayoutBox {
    /// The document node the box was generated for; absent for anonymous boxes.
    pub node: Option<usize>,
    pub kind: BoxKind,
    pub children: Vec<usize>,
    pub dimensions: Dimensions,
    pub lines: Vec<Line>,
}

/// What box generation decides of a box: its node, its kind, its children.
pub struct BoxShape {
    pub node: Option<usize>,
    pub kind: BoxKind,
    pub children: Seq<usize>,
}

impl View for LayoutBox {
    type V = BoxShape;

    open spec fn view(&self) -> BoxShape {
        BoxShape { node: self.node, kind: self.kind, children: self.children@ }
    }
}

pub open spec fn shapes(a: Seq<LayoutBox>) -> Seq<BoxShape> {
    a.map_values(|b: LayoutBox| b@)
}

/// Every child index points into the arena.
pub open spec fn arena_wf(a: Seq<BoxShape>) -> bool {
    forall|i: int, j: int|
        0 <= i < a.len() && 0 <= j < a[i].children.len() ==> #[trigger] a[i].children[j] < a.len()
}

/// Some direct child of `p` is inline-level.
pub open spec fn children_are_inline(a: Seq<BoxShape>, p: int) -> bool {
    exists|j: int|
        0 <= j < a[p].children.len() && a[a[p].children[j] as int].kind == BoxKind::Inline
}

pub open spec fn with_child(b: BoxShape, c: usize) -> BoxShape {
    BoxShape { node: b.node, kind: b.kind, children: b.children.push(c) }
}

pub open spec fn zero_rect() -> Rect {
    Rect { x: 0, y: 0, width: 0, height: 0 }
}

pub open spec fn zero_dimensions() -> Dimensions {
    Dimensions { location: Point { x: 0, y: 0 }, padding_box: zero_rect(), border_box: zero_rect() }
}

pub fn empty_dimensions() -> (r: Dimensions)
    ensures
        r == zero_dimensions(),
{
    let z = Rect { x: 0, y: 0, width: 0, height: 0 };
    Dimensions { location: Point { x: 0, y: 0 }, padding_box: z, border_box: z }
}

impl LayoutBox {
    /// A box with no children and no geometry yet.
    pub fn new(node: Option<usize>, kind: BoxKind) -> (r: Self)
        ensures
            r@.node == node,
            r@.kind == kind,
            r@.children == Seq::<usize>::empty(),
            r.dimensions == zero_dimensions(),
            r.lines@.len() == 0,
    {
        LayoutBox {
            node,
            kind,
            children: Vec::new(),
            dimensions: empty_dimensions(),
            lines: Vec::new(),
        }
    }

    pub fn is_anonymous(&self) -> (r: bool)
        ensures
            r == (self.kind == BoxKind::AnonymousBlock),
    {
        match self.kind {
            BoxKind::AnonymousBlock => true,
            _ => false,
        }
    }

    pub fn is_inline(&self) -> (r: bool)
        ensures
            r == (self.kind == BoxKind::Inline),
    {
        match self.kind {
            BoxKind::Inline => true,
            _ => false,
        }
    }

    /// Block-level: a block box or an anonymous block.
    pub fn is_block(&self) -> (r: bool)
        ensures
            r == (self.kind != BoxKind::Inline),
    {
        !self.is_inline()
    }
}

/// A finished tree of boxes: the arena and the index of the root box.
pub struct LayoutTree {
    pub boxes: Vec<LayoutBox>,
    pub root: usize,
}

impl LayoutTree {
    pub open spec fn wf(&self) -> bool {
        &&& self.root < self.boxes@.len()
        &&& arena_wf(shapes(self.boxes@))
    }

    /// Each fragment on each line names a box of the tree, and a text
    /// fragment's box stands for a node of `doc`, whose style colors the text.
    pub open spec fn lines_fit(&self, doc: &Document) -> bool {
        forall|b: int, l: int, f: int|
            0 <= b < self.boxes@.len() && 0 <= l < self.boxes@[b].lines@.len() && 0 <= f
                < self.boxes@[b].lines@[l].fragments@.len() ==> self.fragment_fits(
                doc,
                #[trigger] self.boxes@[b].lines@[l].fragments@[f],
            )
    }

    pub open spec fn fragment_fits(&self, doc: &Document, fr: Fragment) -> bool {
        match fr.data {
            FragmentData::Box(i) => i < self.boxes@.len(),
            FragmentData::Text(i, _) => i < self.boxes@.len() && (self.boxes@[i as int].node matches Some(
                n,
            ) && n < doc.nodes@.len()),
        }
    }

    /// Every box but an anonymous one stands for a node of `doc`.
    pub open spec fn fits(&self, doc: &Document) -> bool {
        forall|i: int|
            #![trigger self.boxes@[i]]
            0 <= i < self.boxes@.len() && self.boxes@[i].kind != BoxKind::AnonymousBlock ==> (
            self.boxes@[i].node matches Some(n) && n < doc.nodes@.len())
    }

    pub fn children_count(&self, b: usize) -> (r: usize)
        requires
            b < self.boxes@.len(),
        ensures
            r == self.boxes@[b as int].children@.len(),
    {
        self.boxes[b].children.len()
    }

    /// The index of the `n`-th child of box `b`, if it has one.
    pub fn nth_child(&self, b: usize, n: usize) -> (r: Option<usize>)
        requires
            b < self.boxes@.len(),
        ensures
            n < self.boxes@[b as int].children@.len() ==> r == Some(self.boxes@[b as int].children@[n as int]),
            n >= self.boxes@[b as int].children@.len() ==> r is None,
    {
        if n < self.boxes[b].children.len() {
            Some(self.boxes[b].children[n])
        } else {
            None
        }
    }

    pub fn first_child(&self, b: usize) -> (r: Option<usize>)
        requires
            b < self.boxes@.len(),
        ensures
            self.boxes@[b as int].children@.len() > 0 ==> r == Some(self.boxes@[b as int].children@[0]),
            self.boxes@[b as int].children@.len() == 0 ==> r is None,
    {
        self.nth_child(b, 0)
    }

    /// Whether some direct child of box `p` is inline-level.
    pub fn children_are_inline(&self, p: usize) -> (r: bool)
        requires
            self.wf(),
            p < self.boxes@.len(),
        ensures
            r == children_are_inline(shapes(self.boxes@), p as int),
    {
        inline_child_in(&self.boxes, p)
    }
}

pub fn inline_child_in(boxes: &Vec<LayoutBox>, p: usize) -> (r: bool)
    requires
        arena_wf(shapes(boxes@)),
        p < boxes@.len(),
    ensures
        r == children_are_inline(shapes(boxes@), p as int),
{
    let ghost a = shapes(boxes@);
    let n = boxes[p].children.len();
    let mut j: usize = 0;
    while j < n
        invariant
            a == shapes(boxes@),
            arena_wf(a),
            p < boxes@.len(),
            n == a[p as int].children.len(),
            j <= n,
            forall|k: int| 0 <= k < j ==> a[a[p as int].children[k] as int].kind != BoxKind::Inline,
        decreases n - j,
    {
        let c = boxes[p].children[j];
        assert(a[p as int].children[j as int] == c);
        if boxes[c].is_inline() {
            return true;
        }
        j += 1;
    }
    false
}

} // verus!
