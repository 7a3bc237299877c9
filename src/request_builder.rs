//! The paint stage: walks a positioned layout tree and lists, in paint order,
//! the boxes and text runs to draw.
use vstd::prelude::*;

use crate::dom::{Document, NodeKind};
use crate::layout_box::{
    children_are_inline, inline_child_in, shapes, BoxKind, Fragment, FragmentData, LayoutTree,
    Line, Point, Rect, Size,
};
use crate::values::{
    length_px, resolved_color, BorderRadius, Length, BorderSide, BorderStyle, Color, ColorValue,
    ComputedStyle,
};

verus! {

/// A rectangle in absolute canvas coordinates.
#[derive(Debug, Clone, Copy, PartialEq, Eq, Structural)]
pub struct PaintRect {
    pub x: i64,
    pub y: i64,
    pub width: i64,
    pub height: i64,
}

/// The horizontal and vertical radius of one corner, in pixels.
#[derive(Debug, Clone, Copy, PartialEq, Eq, Structural)]
pub struct Radii {
    pub horizontal: i64,
    pub vertical: i64,
}

#[derive(Debug, Clone, Copy, PartialEq, Eq, Structural)]
pub struct Corners {
    pub top_left: Radii,
    pub top_right: Radii,
    pub bottom_left: Radii,
    pub bottom_right: Radii,
}

#[derive(Debug, Clone, Copy, PartialEq, Eq, Structural)]
pub struct RRect {
    pub rect: PaintRect,
    pub corners: Corners,
}

/// The shape a box's background fills: a plain rectangle, or one with
/// rounded corners.
#[derive(Debug, Clone, Copy, PartialEq, Eq, Structural)]
pub enum RectOrRRect {
    Rect(PaintRect),
    RRect(RRect),
}

#[derive(Debug, Clone, Copy, PartialEq, Eq, Structural)]
pub struct PaintBoxBorder {
    pub style: BorderStyle,
    pub color: Color,
}

/// The four edges of a box's border; an edge with no border style is absent.
#[derive(Debug, Clone, Copy, PartialEq, Eq, Structural)]
pub struct PaintBoxBorders {
    pub top: Option<PaintBoxBorder>,
    pub right: Option<PaintBoxBorder>,
    pub bottom: Option<PaintBoxBorder>,
    pub left: Option<PaintBoxBorder>,
}

#[derive(Debug, Clone, Copy, PartialEq, Eq, Structural)]
pub struct PaintBox {
    pub rect: RectOrRRect,
    pub background_color: Color,
    pub borders: PaintBoxBorders,
    pub border_rect: PaintRect,
}

#[derive(Debug, Clone)]
pub struct PaintText {
    pub content: String,
    pub font_size: i32,
    pub color: Color,
    pub rect: PaintRect,
}

/// What a text run to paint holds, its content as characters.
pub struct TextRun {
    pub content: Seq<char>,
    pub font_size: i32,
    pub color: Color,
    pub rect: PaintRect,
}

impl View for PaintText {
    type V = TextRun;

    open spec fn view(&self) -> TextRun {
        TextRun {
            content: self.content@,
            font_size: self.font_size,
            color: self.color,
            rect: self.rect,
        }
    }
}

pub open spec fn runs(v: Seq<PaintText>) -> Seq<TextRun> {
    v.map_values(|t: PaintText| t@)
}

/// The primitives to draw, in the order to draw them.
pub struct PaintRequest {
    pub boxes: Vec<PaintBox>,
    pub texts: Vec<PaintText>,
}

pub open spec fn rect_of(r: Rect) -> PaintRect {
    PaintRect { x: r.x as i64, y: r.y as i64, width: r.width as i64, height: r.height as i64 }
}

pub open spec fn canvas_rect(c: Size) -> PaintRect {
    PaintRect { x: 0, y: 0, width: c.width as i64, height: c.height as i64 }
}

/// A corner's radii: percentages are of the border box's width, the
/// horizontal radius is at most that width, and neither is below zero.
pub open spec fn radii_of(r: BorderRadius, width: i32) -> Radii {
    let h = length_px(r.horizontal, width);
    let v = length_px(r.vertical, width);
    let hc = if h < width {
        h
    } else {
        width as int
    };
    Radii {
        horizontal: (if hc < 0 {
            0
        } else {
            hc
        }) as i64,
        vertical: (if v < 0 {
            0
        } else {
            v
        }) as i64,
    }
}

pub open spec fn has_no_radius(s: ComputedStyle) -> bool {
    &&& s.radius_top_left.spec_is_zero()
    &&& s.radius_top_right.spec_is_zero()
    &&& s.radius_bottom_left.spec_is_zero()
    &&& s.radius_bottom_right.spec_is_zero()
}

/// The corners of a box with this style, absent when every radius is zero.
pub open spec fn corners_of(s: ComputedStyle, width: i32) -> Option<Corners> {
    if has_no_radius(s) {
        None
    } else {
        Some(
            Corners {
                top_left: radii_of(s.radius_top_left, width),
                top_right: radii_of(s.radius_top_right, width),
                bottom_left: radii_of(s.radius_bottom_left, width),
                bottom_right: radii_of(s.radius_bottom_right, width),
            },
        )
    }
}

pub open spec fn border_of(side: BorderSide) -> Option<PaintBoxBorder> {
    match side.style {
        None => None,
        Some(st) => Some(PaintBoxBorder { style: st, color: resolved_color(side.color) }),
    }
}

pub open spec fn borders_of(s: ComputedStyle) -> PaintBoxBorders {
    PaintBoxBorders {
        top: border_of(s.border_top),
        right: border_of(s.border_right),
        bottom: border_of(s.border_bottom),
        left: border_of(s.border_left),
    }
}

pub open spec fn style_of(doc: &Document, t: &LayoutTree, b: int) -> ComputedStyle {
    doc.nodes@[t.boxes@[b].node.unwrap() as int].style
}

/// The tree's root box is the document's root element and its background is
/// transparent, so the body paints the canvas.
pub open spec fn delegates_background(doc: &Document, t: &LayoutTree) -> bool {
    &&& t.boxes@[t.root as int].kind != BoxKind::AnonymousBlock
    &&& doc.is_root_element(t.boxes@[t.root as int].node.unwrap() as int)
    &&& style_of(doc, t, t.root as int).background_color == ColorValue::Transparent
}

/// The paint box of box `b`, at `over` when given and else at its padding
/// box. Anonymous boxes, and a root element whose background the body
/// paints, have none.
pub open spec fn paint_box_of(
    doc: &Document,
    t: &LayoutTree,
    canvas: Size,
    b: int,
    over: Option<PaintRect>,
) -> Option<PaintBox> {
    let lb = t.boxes@[b];
    if lb.kind == BoxKind::AnonymousBlock {
        None
    } else if b == t.root && delegates_background(doc, t) {
        None
    } else {
        let s = style_of(doc, t, b);
        let own = match over {
            Some(r) => r,
            None => rect_of(lb.dimensions.padding_box),
        };
        let rect = if doc.is_body_node(lb.node.unwrap() as int) && delegates_background(doc, t) {
            canvas_rect(canvas)
        } else {
            own
        };
        let geometry = match corners_of(s, lb.dimensions.border_box.width) {
            None => RectOrRRect::Rect(rect),
            Some(c) => RectOrRRect::RRect(RRect { rect, corners: c }),
        };
        Some(
            PaintBox {
                rect: geometry,
                background_color: resolved_color(s.background_color),
                borders: borders_of(s),
                border_rect: rect_of(lb.dimensions.border_box),
            },
        )
    }
}

pub open spec fn opt_seq<T>(o: Option<T>) -> Seq<T> {
    match o {
        Some(x) => seq![x],
        None => Seq::empty(),
    }
}

/// Where a fragment lands: the line's containing block location plus the
/// fragment's offset.
pub open spec fn fragment_rect(loc: Point, f: Fragment) -> PaintRect {
    PaintRect {
        x: (loc.x + f.offset.x) as i64,
        y: (loc.y + f.offset.y) as i64,
        width: f.size.width as i64,
        height: f.size.height as i64,
    }
}

pub open spec fn fragment_boxes(doc: &Document, t: &LayoutTree, canvas: Size, loc: Point, f: Fragment) -> Seq<PaintBox> {
    match f.data {
        FragmentData::Box(i) => if t.boxes@[i as int].kind != BoxKind::AnonymousBlock {
            opt_seq(paint_box_of(doc, t, canvas, i as int, Some(fragment_rect(loc, f))))
        } else {
            Seq::empty()
        },
        FragmentData::Text(_, _) => Seq::empty(),
    }
}

pub open spec fn fragment_texts(doc: &Document, t: &LayoutTree, loc: Point, f: Fragment) -> Seq<TextRun> {
    match f.data {
        FragmentData::Text(i, content) => {
            let s = style_of(doc, t, i as int);
            seq![TextRun { content: content@, font_size: s.font_size, color: resolved_color(s.color), rect: fragment_rect(loc, f) }]
        },
        FragmentData::Box(_) => Seq::empty(),
    }
}

pub open spec fn frags_boxes(doc: &Document, t: &LayoutTree, canvas: Size, loc: Point, fs: Seq<Fragment>) -> Seq<PaintBox>
    decreases fs.len(),
{
    if fs.len() == 0 {
        Seq::empty()
    } else {
        frags_boxes(doc, t, canvas, loc, fs.drop_last()) + fragment_boxes(doc, t, canvas, loc, fs.last())
    }
}

pub open spec fn frags_texts(doc: &Document, t: &LayoutTree, loc: Point, fs: Seq<Fragment>) -> Seq<TextRun>
    decreases fs.len(),
{
    if fs.len() == 0 {
        Seq::empty()
    } else {
        frags_texts(doc, t, loc, fs.drop_last()) + fragment_texts(doc, t, loc, fs.last())
    }
}

pub open spec fn lines_boxes(doc: &Document, t: &LayoutTree, canvas: Size, loc: Point, ls: Seq<Line>) -> Seq<PaintBox>
    decreases ls.len(),
{
    if ls.len() == 0 {
        Seq::empty()
    } else {
        lines_boxes(doc, t, canvas, loc, ls.drop_last()) + frags_boxes(doc, t, canvas, loc, ls.last().fragments@)
    }
}

pub open spec fn lines_texts(doc: &Document, t: &LayoutTree, loc: Point, ls: Seq<Line>) -> Seq<TextRun>
    decreases ls.len(),
{
    if ls.len() == 0 {
        Seq::empty()
    } else {
        lines_texts(doc, t, loc, ls.drop_last()) + frags_texts(doc, t, loc, ls.last().fragments@)
    }
}

/// A block box whose children are inline is painted from its lines.
pub open spec fn paints_lines(t: &LayoutTree, b: int) -> bool {
    t.boxes@[b].kind != BoxKind::Inline && children_are_inline(shapes(t.boxes@), b)
}

/// The paint boxes of the subtree at `b`, in tree order: the box itself, then
/// its lines' boxes or, for a box not painted from lines, each child's subtree
/// in turn. `fuel` bounds the depth.
pub open spec fn walk_boxes(doc: &Document, t: &LayoutTree, canvas: Size, b: int, fuel: nat) -> Seq<PaintBox>
    decreases fuel, 0nat,
{
    if fuel == 0 {
        Seq::empty()
    } else {
        let own = opt_seq(paint_box_of(doc, t, canvas, b, None));
        if paints_lines(t, b) {
            own + lines_boxes(doc, t, canvas, t.boxes@[b].dimensions.location, t.boxes@[b].lines@)
        } else {
            own + children_boxes(doc, t, canvas, t.boxes@[b].children@, (fuel - 1) as nat)
        }
    }
}

pub open spec fn children_boxes(doc: &Document, t: &LayoutTree, canvas: Size, cs: Seq<usize>, fuel: nat) -> Seq<PaintBox>
    decreases fuel, cs.len(),
{
    if cs.len() == 0 {
        Seq::empty()
    } else {
        children_boxes(doc, t, canvas, cs.drop_last(), fuel) + walk_boxes(doc, t, canvas, cs.last() as int, fuel)
    }
}

/// The text runs of the subtree at `b`, in tree order.
pub open spec fn walk_texts(doc: &Document, t: &LayoutTree, b: int, fuel: nat) -> Seq<TextRun>
    decreases fuel, 0nat,
{
    if fuel == 0 {
        Seq::empty()
    } else if paints_lines(t, b) {
        lines_texts(doc, t, t.boxes@[b].dimensions.location, t.boxes@[b].lines@)
    } else {
        children_texts(doc, t, t.boxes@[b].children@, (fuel - 1) as nat)
    }
}

pub open spec fn children_texts(doc: &Document, t: &LayoutTree, cs: Seq<usize>, fuel: nat) -> Seq<TextRun>
    decreases fuel, cs.len(),
{
    if cs.len() == 0 {
        Seq::empty()
    } else {
        children_texts(doc, t, cs.drop_last(), fuel) + walk_texts(doc, t, cs.last() as int, fuel)
    }
}

pub(crate) fn to_paint_rect(r: &Rect) -> (out: PaintRect)
    ensures
        out == rect_of(*r),
{
    PaintRect { x: r.x as i64, y: r.y as i64, width: r.width as i64, height: r.height as i64 }
}

fn resolve_radii(r: &BorderRadius, width: i32) -> (out: Radii)
    ensures
        out == radii_of(*r, width),
{
    let h = r.horizontal.to_px(width);
    let v = r.vertical.to_px(width);
    let hc = if h < width as i64 {
        h
    } else {
        width as i64
    };
    let hr = if hc < 0 {
        0
    } else {
        hc
    };
    let vr = if v < 0 {
        0
    } else {
        v
    };
    Radii { horizontal: hr, vertical: vr }
}

/// The corners of a box with style `s` and border-box width `width`; absent
/// when all four radii are zero, so the box fills a plain rectangle.
pub fn compute_border_radius_corner(s: &ComputedStyle, width: i32) -> (r: Option<Corners>)
    ensures
        r == corners_of(*s, width),
{
    let none = s.radius_top_left.is_zero() && s.radius_top_right.is_zero()
        && s.radius_bottom_left.is_zero() && s.radius_bottom_right.is_zero();
    if none {
        return None;
    }
    Some(
        Corners {
            top_left: resolve_radii(&s.radius_top_left, width),
            top_right: resolve_radii(&s.radius_top_right, width),
            bottom_left: resolve_radii(&s.radius_bottom_left, width),
            bottom_right: resolve_radii(&s.radius_bottom_right, width),
        },
    )
}

fn compute_border(side: &BorderSide) -> (r: Option<PaintBoxBorder>)
    ensures
        r == border_of(*side),
{
    match side.style {
        None => None,
        Some(st) => Some(PaintBoxBorder { style: st, color: side.color.resolve() }),
    }
}

/// The border edges of a box with style `s`.
pub fn compute_borders(s: &ComputedStyle) -> (r: PaintBoxBorders)
    ensures
        r == borders_of(*s),
{
    PaintBoxBorders {
        top: compute_border(&s.border_top),
        right: compute_border(&s.border_right),
        bottom: compute_border(&s.border_bottom),
        left: compute_border(&s.border_left),
    }
}

/// Collects the paint primitives of one layout tree.
pub struct RequestBuilder {
    boxes: Vec<PaintBox>,
    texts: Vec<PaintText>,
    root_element_use_body_background: bool,
    canvas_size: Size,
}

impl RequestBuilder {
    pub closed spec fn canvas(&self) -> Size {
        self.canvas_size
    }

    pub fn new(canvas_size: Size) -> (r: Self)
        ensures
            r.canvas() == canvas_size,
    {
        RequestBuilder {
            boxes: Vec::new(),
            texts: Vec::new(),
            root_element_use_body_background: false,
            canvas_size,
        }
    }

    /// Lists the paint boxes and text runs of `tree`, in paint order.
    pub fn build(self, doc: &Document, tree: &LayoutTree) -> (r: PaintRequest)
        requires
            tree.wf(),
            tree.fits(doc),
            tree.lines_fit(doc),
        ensures
            r.boxes@ == walk_boxes(doc, tree, self.canvas(), tree.root as int, tree.boxes@.len() as nat),
            runs(r.texts@) == walk_texts(doc, tree, tree.root as int, tree.boxes@.len() as nat),
    {
        let mut this = self;
        this.boxes = Vec::new();
        this.texts = Vec::new();
        let root = &tree.boxes[tree.root];
        assert(tree.boxes@[tree.root as int] == *root);
        this.root_element_use_body_background = if root.is_anonymous() {
            false
        } else {
            match root.node {
                Some(n) => {
                    let at_top = match doc.nodes[n].parent {
                        Some(p) => p < doc.nodes.len() && doc.nodes[p].kind == NodeKind::Document,
                        None => false,
                    };
                    at_top && doc.nodes[n].style.background_color.is_transparent()
                },
                None => false,
            }
        };
        assert(runs(this.texts@) =~= Seq::<TextRun>::empty());
        this.process(doc, tree, tree.root, tree.boxes.len());
        assert(this.boxes@ =~= walk_boxes(doc, tree, self.canvas(), tree.root as int, tree.boxes@.len() as nat));
        assert(runs(this.texts@) =~= walk_texts(doc, tree, tree.root as int, tree.boxes@.len() as nat));
        PaintRequest { boxes: this.boxes, texts: this.texts }
    }

    pub closed spec fn ready_for(&self, doc: &Document, tree: &LayoutTree) -> bool {
        &&& tree.wf()
        &&& tree.fits(doc)
        &&& tree.lines_fit(doc)
        &&& self.root_element_use_body_background == delegates_background(doc, tree)
    }

    /// The paint box of box `b`; `over` replaces its padding box as the
    /// rectangle to fill.
    fn build_paint_box(&self, doc: &Document, tree: &LayoutTree, b: usize, over: Option<PaintRect>) -> (r: Option<PaintBox>)
        requires
            self.ready_for(doc, tree),
            b < tree.boxes@.len(),
        ensures
            r == paint_box_of(doc, tree, self.canvas(), b as int, over),
    {
        let lb = &tree.boxes[b];
        assert(tree.boxes@[b as int] == *lb);
        if lb.is_anonymous() {
            return None;
        }
        if b == tree.root && self.root_element_use_body_background {
            return None;
        }
        let n = match lb.node {
            Some(n) => n,
            None => return None,
        };
        let s = &doc.nodes[n].style;
        let mut rect = match over {
            Some(r) => r,
            None => to_paint_rect(&lb.dimensions.padding_box),
        };
        if doc.is_body(n) && self.root_element_use_body_background {
            rect = PaintRect {
                x: 0,
                y: 0,
                width: self.canvas_size.width as i64,
                height: self.canvas_size.height as i64,
            };
        }
        let geometry = match compute_border_radius_corner(s, lb.dimensions.border_box.width) {
            Some(corners) => RectOrRRect::RRect(RRect { rect, corners }),
            None => RectOrRRect::Rect(rect),
        };
        Some(
            PaintBox {
                rect: geometry,
                background_color: s.background_color.resolve(),
                borders: compute_borders(s),
                border_rect: to_paint_rect(&lb.dimensions.border_box),
            },
        )
    }

    /// Paints a block box's inline content from its lines: a paint box for
    /// each fragment of a non-anonymous box, a text run for each text
    /// fragment, each placed at the block's location plus its offset.
    fn process_lines(&mut self, doc: &Document, tree: &LayoutTree, b: usize)
        requires
            old(self).ready_for(doc, tree),
            b < tree.boxes@.len(),
            paints_lines(tree, b as int),
        ensures
            final(self).ready_for(doc, tree),
            final(self).canvas() == old(self).canvas(),
            final(self).boxes@ == old(self).boxes@ + lines_boxes(
                doc,
                tree,
                old(self).canvas(),
                tree.boxes@[b as int].dimensions.location,
                tree.boxes@[b as int].lines@,
            ),
            runs(final(self).texts@) == runs(old(self).texts@) + lines_texts(
                doc,
                tree,
                tree.boxes@[b as int].dimensions.location,
                tree.boxes@[b as int].lines@,
            ),
    {
        let ghost canvas = self.canvas();
        let lines = &tree.boxes[b].lines;
        let loc = tree.boxes[b].dimensions.location;
        let ghost ls = lines@;
        assert(ls == tree.boxes@[b as int].lines@);
        assert(loc == tree.boxes@[b as int].dimensions.location);
        let nl = lines.len();
        let mut i: usize = 0;
        assert(ls.take(0) =~= Seq::<Line>::empty());
        while i < nl
            invariant
                self.ready_for(doc, tree),
                self.canvas() == canvas,
                nl == ls.len(),
                ls == lines@,
                b < tree.boxes@.len(),
                ls == tree.boxes@[b as int].lines@,
                i <= nl,
                self.boxes@ == old(self).boxes@ + lines_boxes(doc, tree, canvas, loc, ls.take(i as int)),
                runs(self.texts@) == runs(old(self).texts@) + lines_texts(doc, tree, loc, ls.take(i as int)),
            decreases nl - i,
        {
            let frags = &lines[i].fragments;
            let ghost fs = frags@;
            assert(fs == tree.boxes@[b as int].lines@[i as int].fragments@);
            let ghost boxes_before = self.boxes@;
            let ghost texts_before = runs(self.texts@);
            let nf = frags.len();
            let mut j: usize = 0;
            assert(fs.take(0) =~= Seq::<Fragment>::empty());
            assert(boxes_before =~= boxes_before + frags_boxes(doc, tree, canvas, loc, fs.take(0)));
            assert(texts_before =~= texts_before + frags_texts(doc, tree, loc, fs.take(0)));
            while j < nf
                invariant
                    self.ready_for(doc, tree),
                    self.canvas() == canvas,
                    nf == fs.len(),
                    fs == frags@,
                    b < tree.boxes@.len(),
                    i < tree.boxes@[b as int].lines@.len(),
                    fs == tree.boxes@[b as int].lines@[i as int].fragments@,
                    j <= nf,
                    self.boxes@ == boxes_before + frags_boxes(doc, tree, canvas, loc, fs.take(j as int)),
                    runs(self.texts@) == texts_before + frags_texts(doc, tree, loc, fs.take(j as int)),
                decreases nf - j,
            {
                let f = &frags[j];
                assert(fs.take(j + 1).drop_last() =~= fs.take(j as int));
                assert(fs.take(j + 1).last() == *f);
                let rect = PaintRect {
                    x: loc.x as i64 + f.offset.x as i64,
                    y: loc.y as i64 + f.offset.y as i64,
                    width: f.size.width as i64,
                    height: f.size.height as i64,
                };
                assert(rect == fragment_rect(loc, *f));
                assert(tree.fragment_fits(doc, tree.boxes@[b as int].lines@[i as int].fragments@[j as int]));
                let ghost bb = self.boxes@;
                let ghost tb = runs(self.texts@);
                match &f.data {
                    FragmentData::Box(k) => {
                        let k = *k;
                        if !tree.boxes[k].is_anonymous() {
                            match self.build_paint_box(doc, tree, k, Some(rect)) {
                                Some(pb) => {
                                    self.boxes.push(pb);
                                },
                                None => {},
                            }
                        }
                        assert(self.boxes@ =~= bb + fragment_boxes(doc, tree, canvas, loc, *f));
                        assert(runs(self.texts@) =~= tb + fragment_texts(doc, tree, loc, *f));
                    },
                    FragmentData::Text(k, content) => {
                        let k = *k;
                        // the text's box stands for a node: `lines_fit` rules out the other arm
                        match tree.boxes[k].node {
                            Some(n) => {
                                let s = &doc.nodes[n].style;
                                let text = PaintText {
                                    content: content.clone(),
                                    font_size: s.font_size,
                                    color: s.color.resolve(),
                                    rect,
                                };
                                self.texts.push(text);
                            },
                            None => {},
                        }
                        assert(self.boxes@ =~= bb + fragment_boxes(doc, tree, canvas, loc, *f));
                        assert(runs(self.texts@) =~= tb + fragment_texts(doc, tree, loc, *f));
                    },
                }
                j += 1;
            }
            assert(fs.take(nf as int) =~= fs);
            assert(ls.take(i + 1).drop_last() =~= ls.take(i as int));
            assert(ls.take(i + 1).last() == lines@[i as int]);
            assert(self.boxes@ =~= old(self).boxes@ + lines_boxes(doc, tree, canvas, loc, ls.take(i + 1)));
            assert(runs(self.texts@) =~= runs(old(self).texts@) + lines_texts(doc, tree, loc, ls.take(i + 1)));
            i += 1;
        }
        assert(ls.take(nl as int) =~= ls);
    }

    /// Paints the subtree at `b` in tree order, at most `fuel` levels deep.
    fn process(&mut self, doc: &Document, tree: &LayoutTree, b: usize, fuel: usize)
        requires
            old(self).ready_for(doc, tree),
            b < tree.boxes@.len(),
        ensures
            final(self).ready_for(doc, tree),
            final(self).canvas() == old(self).canvas(),
            final(self).boxes@ == old(self).boxes@ + walk_boxes(doc, tree, old(self).canvas(), b as int, fuel as nat),
            runs(final(self).texts@) == runs(old(self).texts@) + walk_texts(doc, tree, b as int, fuel as nat),
        decreases fuel,
    {
        let ghost canvas = self.canvas();
        if fuel == 0 {
            assert(self.boxes@ =~= old(self).boxes@ + walk_boxes(doc, tree, canvas, b as int, fuel as nat));
            assert(runs(self.texts@) =~= runs(old(self).texts@) + walk_texts(doc, tree, b as int, fuel as nat));
            return;
        }
        match self.build_paint_box(doc, tree, b, None) {
            Some(pb) => {
                self.boxes.push(pb);
            },
            None => {},
        }
        let ghost own = self.boxes@;
        assert(own =~= old(self).boxes@ + opt_seq(paint_box_of(doc, tree, canvas, b as int, None)));
        if tree.boxes[b].is_block() && inline_child_in(&tree.boxes, b) {
            self.process_lines(doc, tree, b);
            assert(self.boxes@ =~= old(self).boxes@ + walk_boxes(doc, tree, canvas, b as int, fuel as nat));
            assert(runs(self.texts@) =~= runs(old(self).texts@) + walk_texts(doc, tree, b as int, fuel as nat));
        } else {
            let ghost cs = tree.boxes@[b as int].children@;
            let ghost t0 = runs(self.texts@);
            let n = tree.boxes[b].children.len();
            let mut i: usize = 0;
            assert(cs.take(0) =~= Seq::<usize>::empty());
            assert(own =~= own + children_boxes(doc, tree, canvas, cs.take(0), (fuel - 1) as nat));
            assert(t0 =~= t0 + children_texts(doc, tree, cs.take(0), (fuel - 1) as nat));
            while i < n
                invariant
                    self.ready_for(doc, tree),
                    self.canvas() == canvas,
                    b < tree.boxes@.len(),
                    cs == tree.boxes@[b as int].children@,
                    n == cs.len(),
                    i <= n,
                    fuel > 0,
                    self.boxes@ == own + children_boxes(doc, tree, canvas, cs.take(i as int), (fuel - 1) as nat),
                    runs(self.texts@) == t0 + children_texts(doc, tree, cs.take(i as int), (fuel - 1) as nat),
                decreases n - i,
            {
                let c = tree.boxes[b].children[i];
                assert(cs[i as int] == c);
                assert(shapes(tree.boxes@)[b as int].children[i as int] == c);
                assert(cs.take(i + 1).drop_last() =~= cs.take(i as int));
                let ghost bb = self.boxes@;
                let ghost tb = runs(self.texts@);
                self.process(doc, tree, c, fuel - 1);
                assert(self.boxes@ =~= own + children_boxes(doc, tree, canvas, cs.take(i + 1), (fuel - 1) as nat));
                assert(runs(self.texts@) =~= t0 + children_texts(doc, tree, cs.take(i + 1), (fuel - 1) as nat));
                i += 1;
            }
            assert(cs.take(n as int) =~= cs);
            assert(self.boxes@ =~= old(self).boxes@ + walk_boxes(doc, tree, canvas, b as int, fuel as nat));
            assert(runs(self.texts@) =~= runs(old(self).texts@) + walk_texts(doc, tree, b as int, fuel as nat));
        }
    }
}

/// The rectangle a fill covers, rounded or not.
pub open spec fn geometry_rect(g: RectOrRRect) -> PaintRect {
    match g {
        RectOrRRect::Rect(r) => r,
        RectOrRRect::RRect(rr) => rr.rect,
    }
}

/// A box whose four corner radii are all zero fills a plain rectangle; one
/// with any non-zero radius fills a rounded rectangle, each corner's
/// horizontal radius at least zero and at most the border box's width (zero
/// when that width is negative).
pub proof fn lemma_rounded_rect_threshold(
    doc: &Document,
    t: &LayoutTree,
    canvas: Size,
    b: int,
    over: Option<PaintRect>,
)
    requires
        0 <= b < t.boxes@.len(),
        paint_box_of(doc, t, canvas, b, over) is Some,
    ensures
        ({
            let pb = paint_box_of(doc, t, canvas, b, over).unwrap();
            let w = t.boxes@[b].dimensions.border_box.width as i64;
            &&& (pb.rect is Rect <==> has_no_radius(style_of(doc, t, b)))
            &&& pb.rect matches RectOrRRect::RRect(rr) ==> {
                &&& 0 <= rr.corners.top_left.horizontal <= (if w < 0 { 0 } else { w })
                &&& 0 <= rr.corners.top_right.horizontal <= (if w < 0 { 0 } else { w })
                &&& 0 <= rr.corners.bottom_left.horizontal <= (if w < 0 { 0 } else { w })
                &&& 0 <= rr.corners.bottom_right.horizontal <= (if w < 0 { 0 } else { w })
            }
        }),
{
    let s = style_of(doc, t, b);
    let w = t.boxes@[b].dimensions.border_box.width;
    lemma_length_px_bounds(s.radius_top_left.horizontal, w);
    lemma_length_px_bounds(s.radius_top_right.horizontal, w);
    lemma_length_px_bounds(s.radius_bottom_left.horizontal, w);
    lemma_length_px_bounds(s.radius_bottom_right.horizontal, w);
}

proof fn lemma_length_px_bounds(l: Length, basis: i32)
    ensures
        -0x4000_0000_0000_0000 <= length_px(l, basis) <= 0x4000_0000_0000_0000,
{
    if let Length::Percent(p) = l {
        let x = p as int * basis as int;
        assert(-0x4000_0000_0000_0000 <= x <= 0x4000_0000_0000_0000) by (nonlinear_arith)
            requires
                -0x8000_0000 <= p <= 0x7fff_ffff,
                -0x8000_0000 <= basis <= 0x7fff_ffff,
                x == p as int * basis as int,
        ;
    }
}

/// When the tree's root box is the document's root element: with a
/// transparent root background the root element has no paint box and
/// the body's box fills the whole canvas from the origin. With any other
/// root background the root is painted at its own padding box, and so is the
/// body.
pub proof fn lemma_root_body_delegation(doc: &Document, t: &LayoutTree, canvas: Size, body: int)
    requires
        t.wf(),
        t.fits(doc),
        0 <= body < t.boxes@.len(),
        body != t.root,
        t.boxes@[body].kind != BoxKind::AnonymousBlock,
        t.boxes@[t.root as int].kind != BoxKind::AnonymousBlock,
        doc.is_root_element(t.boxes@[t.root as int].node.unwrap() as int),
        doc.is_body_node(t.boxes@[body].node.unwrap() as int),
    ensures
        style_of(doc, t, t.root as int).background_color == ColorValue::Transparent ==> {
            &&& paint_box_of(doc, t, canvas, t.root as int, None) is None
            &&& paint_box_of(doc, t, canvas, body, None) matches Some(pb) && geometry_rect(pb.rect)
                == canvas_rect(canvas)
        },
        style_of(doc, t, t.root as int).background_color != ColorValue::Transparent ==> {
            &&& paint_box_of(doc, t, canvas, t.root as int, None) matches Some(pr) && geometry_rect(
                pr.rect,
            ) == rect_of(t.boxes@[t.root as int].dimensions.padding_box)
            &&& paint_box_of(doc, t, canvas, body, None) matches Some(pb) && geometry_rect(pb.rect)
                == rect_of(t.boxes@[body].dimensions.padding_box)
        },
{
}

/// The boxes in pre-order below `b`: `b` itself, then each child's subtree
/// in turn, at most `fuel` levels deep.
pub open spec fn preorder(t: &LayoutTree, b: int, fuel: nat) -> Seq<int>
    decreases fuel, 0nat,
{
    if fuel == 0 {
        Seq::empty()
    } else {
        seq![b] + preorder_children(t, t.boxes@[b].children@, (fuel - 1) as nat)
    }
}

pub open spec fn preorder_children(t: &LayoutTree, cs: Seq<usize>, fuel: nat) -> Seq<int>
    decreases fuel, cs.len(),
{
    if cs.len() == 0 {
        Seq::empty()
    } else {
        preorder_children(t, cs.drop_last(), fuel) + preorder(t, cs.last() as int, fuel)
    }
}

/// The paint boxes of the listed boxes, in the listed order.
pub open spec fn boxes_in_order(doc: &Document, t: &LayoutTree, canvas: Size, order: Seq<int>) -> Seq<PaintBox>
    decreases order.len(),
{
    if order.len() == 0 {
        Seq::empty()
    } else {
        boxes_in_order(doc, t, canvas, order.drop_last()) + opt_seq(
            paint_box_of(doc, t, canvas, order.last(), None),
        )
    }
}

proof fn lemma_boxes_in_order_append(doc: &Document, t: &LayoutTree, canvas: Size, x: Seq<int>, y: Seq<int>)
    ensures
        boxes_in_order(doc, t, canvas, x + y) == boxes_in_order(doc, t, canvas, x) + boxes_in_order(
            doc,
            t,
            canvas,
            y,
        ),
    decreases y.len(),
{
    if y.len() == 0 {
        assert(x + y =~= x);
        assert(boxes_in_order(doc, t, canvas, x) + boxes_in_order(doc, t, canvas, y) =~= boxes_in_order(doc, t, canvas, x));
    } else {
        assert((x + y).drop_last() =~= x + y.drop_last());
        lemma_boxes_in_order_append(doc, t, canvas, x, y.drop_last());
        assert(boxes_in_order(doc, t, canvas, x + y) =~= boxes_in_order(doc, t, canvas, x) + boxes_in_order(doc, t, canvas, y));
    }
}

/// Paint order is tree order: where no box is painted from lines, the paint
/// boxes of the subtree at `b` are those of its boxes in pre-order (parent
/// before children, siblings left to right), anonymous boxes giving none.
pub proof fn lemma_paint_order_is_tree_order(doc: &Document, t: &LayoutTree, canvas: Size, b: int, fuel: nat)
    requires
        forall|i: int| 0 <= i < t.boxes@.len() ==> !#[trigger] paints_lines(t, i),
        0 <= b < t.boxes@.len(),
        t.wf(),
    ensures
        walk_boxes(doc, t, canvas, b, fuel) == boxes_in_order(doc, t, canvas, preorder(t, b, fuel)),
    decreases fuel, 0nat,
{
    if fuel > 0 {
        let cs = t.boxes@[b].children@;
        assert forall|k: int| 0 <= k < cs.len() implies #[trigger] cs[k] < t.boxes@.len() by {
            assert(shapes(t.boxes@)[b].children[k] == cs[k]);
        }
        lemma_children_in_tree_order(doc, t, canvas, cs, (fuel - 1) as nat);
        assert(!paints_lines(t, b));
        let pre = preorder_children(t, cs, (fuel - 1) as nat);
        lemma_boxes_in_order_append(doc, t, canvas, seq![b], pre);
        assert(seq![b].drop_last() =~= Seq::<int>::empty());
        assert(seq![b].last() == b);
        assert(boxes_in_order(doc, t, canvas, Seq::<int>::empty()) == Seq::<PaintBox>::empty());
        assert(boxes_in_order(doc, t, canvas, seq![b]) =~= opt_seq(paint_box_of(doc, t, canvas, b, None)));
    }
}

proof fn lemma_children_in_tree_order(doc: &Document, t: &LayoutTree, canvas: Size, cs: Seq<usize>, fuel: nat)
    requires
        forall|i: int| 0 <= i < t.boxes@.len() ==> !#[trigger] paints_lines(t, i),
        forall|k: int| 0 <= k < cs.len() ==> #[trigger] cs[k] < t.boxes@.len(),
        t.wf(),
    ensures
        children_boxes(doc, t, canvas, cs, fuel) == boxes_in_order(doc, t, canvas, preorder_children(t, cs, fuel)),
    decreases fuel, cs.len(),
{
    if cs.len() > 0 {
        let d = cs.drop_last();
        assert forall|k: int| 0 <= k < d.len() implies #[trigger] d[k] < t.boxes@.len() by {
            assert(d[k] == cs[k]);
        }
        lemma_children_in_tree_order(doc, t, canvas, d, fuel);
        assert(cs[cs.len() - 1] < t.boxes@.len());
        lemma_paint_order_is_tree_order(doc, t, canvas, cs.last() as int, fuel);
        lemma_boxes_in_order_append(doc, t, canvas, preorder_children(t, d, fuel), preorder(t, cs.last() as int, fuel));
    }
}

} // verus!
