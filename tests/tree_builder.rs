use moon::display::{BoxDisplay, Display};
use moon::dom::Document;
use moon::layout_box::{BoxKind, LayoutTree};
use moon::tree_builder::TreeBuilder;
use moon::values::{BorderRadius, BorderSide, ColorValue, ComputedStyle, Length};

fn style(display: Display) -> ComputedStyle {
    let side = BorderSide { style: None, color: ColorValue::Transparent };
    let zero = BorderRadius { horizontal: Length::Px(0), vertical: Length::Px(0) };
    ComputedStyle {
        display,
        background_color: ColorValue::Transparent,
        color: ColorValue::Transparent,
        font_size: 16,
        border_top: side,
        border_right: side,
        border_bottom: side,
        border_left: side,
        radius_top_left: zero,
        radius_top_right: zero,
        radius_bottom_left: zero,
        radius_bottom_right: zero,
    }
}

/// The shared test stylesheet: `div`, `p` and `body` are blocks, `span` and `a` inline.
fn display_for(tag: &str) -> Display {
    match tag {
        "span" | "a" => Display::new_inline(),
        _ => Display::new_block(),
    }
}

fn element(doc: &mut Document, parent: usize, tag: &str) -> usize {
    doc.append_element(parent, tag.to_string(), style(display_for(tag)))
}

fn build_tree(doc: &Document, root: usize) -> LayoutTree {
    TreeBuilder::new().build(doc, root).unwrap()
}

fn kind(t: &LayoutTree, b: usize) -> BoxKind {
    t.boxes[b].kind
}

#[test]
fn test_build_simple() {
    let mut doc = Document::new(style(Display::new_block()));
    let div = element(&mut doc, 0, "div");
    element(&mut doc, div, "span");
    let p = element(&mut doc, div, "p");
    element(&mut doc, p, "span");
    element(&mut doc, p, "span");
    element(&mut doc, p, "span");

    let root = build_tree(&doc, div);

    assert!(root.boxes[root.root].is_block());

    let first = root.first_child(root.root).unwrap();
    assert!(root.boxes[first].is_block());
    assert!(root.boxes[first].is_anonymous());
    assert!(root.boxes[root.nth_child(root.root, 1).unwrap()].is_block());
}

#[test]
fn test_block_break_inline() {
    let mut doc = Document::new(style(Display::new_block()));
    let div = element(&mut doc, 0, "div");
    element(&mut doc, div, "span");
    element(&mut doc, div, "p");
    element(&mut doc, div, "a");
    element(&mut doc, div, "a");
    element(&mut doc, div, "a");

    let root = build_tree(&doc, div);

    assert!(root.boxes[root.root].is_block());

    assert_eq!(root.children_count(root.root), 3);

    let first = root.first_child(root.root).unwrap();
    assert!(root.boxes[first].is_block());
    assert!(root.boxes[first].is_anonymous());

    assert!(root.boxes[root.nth_child(root.root, 1).unwrap()].is_block());

    let third = root.nth_child(root.root, 2).unwrap();
    assert!(root.boxes[third].is_block());
    assert!(root.boxes[third].is_anonymous());
}

#[test]
fn inline_runs_get_one_wrapper_each() {
    let mut doc = Document::new(style(Display::new_block()));
    let div = element(&mut doc, 0, "div");
    let s1 = element(&mut doc, div, "span");
    let s2 = element(&mut doc, div, "span");
    let p = element(&mut doc, div, "p");
    let a1 = element(&mut doc, div, "a");
    let a2 = element(&mut doc, div, "a");
    let a3 = element(&mut doc, div, "a");

    let t = build_tree(&doc, div);
    let kids = t.boxes[t.root].children.clone();
    assert_eq!(kids.len(), 3);

    assert_eq!(kind(&t, kids[0]), BoxKind::AnonymousBlock);
    let first: Vec<Option<usize>> = t.boxes[kids[0]].children.iter().map(|c| t.boxes[*c].node).collect();
    assert_eq!(first, vec![Some(s1), Some(s2)]);

    assert_eq!(kind(&t, kids[1]), BoxKind::Block);
    assert_eq!(t.boxes[kids[1]].node, Some(p));

    assert_eq!(kind(&t, kids[2]), BoxKind::AnonymousBlock);
    let last: Vec<Option<usize>> = t.boxes[kids[2]].children.iter().map(|c| t.boxes[*c].node).collect();
    assert_eq!(last, vec![Some(a1), Some(a2), Some(a3)]);
    for c in &t.boxes[kids[2]].children {
        assert_eq!(kind(&t, *c), BoxKind::Inline);
    }
}

#[test]
fn nested_blocks_wrap_their_own_inline_children() {
    let mut doc = Document::new(style(Display::new_block()));
    let div = element(&mut doc, 0, "div");
    let s0 = element(&mut doc, div, "span");
    let p = element(&mut doc, div, "p");
    let s1 = element(&mut doc, p, "span");
    let s2 = element(&mut doc, p, "span");

    let t = build_tree(&doc, div);
    assert_eq!(t.boxes[t.root].node, Some(div));
    assert_eq!(kind(&t, t.root), BoxKind::Block);
    let kids = t.boxes[t.root].children.clone();
    assert_eq!(kids.len(), 2);

    assert_eq!(kind(&t, kids[0]), BoxKind::AnonymousBlock);
    assert_eq!(t.boxes[kids[0]].children.len(), 1);
    assert_eq!(t.boxes[t.boxes[kids[0]].children[0]].node, Some(s0));

    assert_eq!(kind(&t, kids[1]), BoxKind::Block);
    assert_eq!(t.boxes[kids[1]].node, Some(p));
    let p_kids = t.boxes[kids[1]].children.clone();
    assert_eq!(p_kids.len(), 1);
    assert_eq!(kind(&t, p_kids[0]), BoxKind::AnonymousBlock);
    let wrapped: Vec<Option<usize>> = t.boxes[p_kids[0]].children.iter().map(|c| t.boxes[*c].node).collect();
    assert_eq!(wrapped, vec![Some(s1), Some(s2)]);
    assert_eq!(t.boxes.len(), 7);
}

#[test]
fn childless_block_parent_gets_no_wrapper() {
    let mut doc = Document::new(style(Display::new_block()));
    let div = element(&mut doc, 0, "div");
    let p = element(&mut doc, div, "p");

    let t = build_tree(&doc, div);
    assert_eq!(t.boxes.len(), 2);
    assert_eq!(t.boxes[t.root].children.len(), 1);
    let only = t.boxes[t.root].children[0];
    assert_eq!(t.boxes[only].node, Some(p));
    assert_eq!(kind(&t, only), BoxKind::Block);
    assert!(t.boxes.iter().all(|b| b.kind != BoxKind::AnonymousBlock));
}

#[test]
fn consecutive_inline_children_share_one_wrapper() {
    let mut doc = Document::new(style(Display::new_block()));
    let div = element(&mut doc, 0, "div");
    element(&mut doc, div, "span");
    element(&mut doc, div, "a");

    let t = build_tree(&doc, div);
    // the div, one anonymous block, two inline boxes
    assert_eq!(t.boxes.len(), 4);
    assert_eq!(t.boxes[t.root].children.len(), 1);
    let anon = t.boxes[t.root].children[0];
    assert_eq!(kind(&t, anon), BoxKind::AnonymousBlock);
    assert_eq!(t.boxes[anon].children.len(), 2);
}

#[test]
fn display_none_drops_the_whole_subtree() {
    let mut doc = Document::new(style(Display::new_block()));
    let div = element(&mut doc, 0, "div");
    let hidden = doc.append_element(div, "section".to_string(), style(Display::Box(BoxDisplay::NoBox)));
    let inner = element(&mut doc, hidden, "p");
    let deeper = element(&mut doc, inner, "span");
    let p = element(&mut doc, div, "p");

    let t = build_tree(&doc, div);
    for b in &t.boxes {
        assert_ne!(b.node, Some(hidden));
        assert_ne!(b.node, Some(inner));
        assert_ne!(b.node, Some(deeper));
    }
    assert_eq!(t.boxes.len(), 2);
    assert_eq!(t.boxes[t.boxes[t.root].children[0]].node, Some(p));
}

#[test]
fn hidden_root_gives_no_tree() {
    let mut doc = Document::new(style(Display::new_block()));
    let html = doc.append_element(0, "html".to_string(), style(Display::Box(BoxDisplay::NoBox)));
    element(&mut doc, html, "div");
    assert!(TreeBuilder::new().build(&doc, 0).is_none());
    assert!(TreeBuilder::new().build(&doc, html).is_none());
}

#[test]
fn empty_document_gives_no_tree() {
    let doc = Document::new(style(Display::new_block()));
    assert!(TreeBuilder::new().build(&doc, 0).is_none());
}

#[test]
fn document_node_starts_from_its_first_child() {
    let mut doc = Document::new(style(Display::new_block()));
    let html = element(&mut doc, 0, "html");
    let body = element(&mut doc, html, "body");
    let t = TreeBuilder::new().build(&doc, 0).unwrap();
    assert_eq!(t.boxes[t.root].node, Some(html));
    assert_eq!(t.boxes[t.boxes[t.root].children[0]].node, Some(body));
}

#[test]
fn block_inside_inline_goes_to_nearest_block() {
    let mut doc = Document::new(style(Display::new_block()));
    let div = element(&mut doc, 0, "div");
    let span = element(&mut doc, div, "span");
    let p = element(&mut doc, span, "p");

    let t = build_tree(&doc, div);
    let kids = t.boxes[t.root].children.clone();
    assert_eq!(kids.len(), 2);
    assert_eq!(kind(&t, kids[0]), BoxKind::AnonymousBlock);
    assert_eq!(t.boxes[t.boxes[kids[0]].children[0]].node, Some(span));
    assert_eq!(t.boxes[kids[1]].node, Some(p));
}
