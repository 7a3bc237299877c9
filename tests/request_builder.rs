use moon::background::paint_background;
use moon::command::{DisplayCommand, DrawCommand};
use moon::display::Display;
use moon::dom::Document;
use moon::layout_box::{Dimensions, Fragment, FragmentData, LayoutTree, Line, Point, Rect, Size};
use moon::request_builder::{compute_border_radius_corner, compute_borders, PaintRect, RectOrRRect, RequestBuilder};
use moon::tree_builder::TreeBuilder;
use moon::values::{BorderRadius, BorderSide, BorderStyle, Color, ColorValue, ComputedStyle, Length};

fn rgba(r: u8, g: u8, b: u8) -> ColorValue {
    ColorValue::Rgba(Color { r, g, b, a: 255 })
}

fn style(display: Display, background: ColorValue) -> ComputedStyle {
    let side = BorderSide { style: None, color: ColorValue::Transparent };
    let zero = BorderRadius { horizontal: Length::Px(0), vertical: Length::Px(0) };
    ComputedStyle {
        display,
        background_color: background,
        color: rgba(1, 2, 3),
        font_size: 16,
        border_top: side,
        border_right: side,
        border_bottom: side,
        border_left: side,
        radius_top_left: zero,
        radius_top_right: zero,
        radius_bottom_left: zero,
        radius_bottom_right: zero,
    }
}

fn dims(x: i32, y: i32, w: i32, h: i32) -> Dimensions {
    let r = Rect { x, y, width: w, height: h };
    Dimensions { location: Point { x, y }, padding_box: r, border_box: r }
}

fn rect(x: i64, y: i64, width: i64, height: i64) -> PaintRect {
    PaintRect { x, y, width, height }
}

fn fill_rect(g: &RectOrRRect) -> PaintRect {
    match g {
        RectOrRRect::Rect(r) => *r,
        RectOrRRect::RRect(rr) => rr.rect,
    }
}

fn canvas() -> Size {
    Size { width: 800, height: 600 }
}

/// html > body > [div > [p], div]; every box is a block.
fn blocks(root_background: ColorValue) -> (Document, LayoutTree) {
    let mut doc = Document::new(style(Display::new_block(), ColorValue::Transparent));
    let html = doc.append_element(0, "html".to_string(), style(Display::new_block(), root_background));
    let body = doc.append_element(html, "body".to_string(), style(Display::new_block(), rgba(0, 0, 1)));
    let d1 = doc.append_element(body, "div".to_string(), style(Display::new_block(), rgba(0, 0, 2)));
    doc.append_element(d1, "p".to_string(), style(Display::new_block(), rgba(0, 0, 3)));
    doc.append_element(body, "div".to_string(), style(Display::new_block(), rgba(0, 0, 4)));
    let mut t = TreeBuilder::new().build(&doc, 0).unwrap();
    for (i, b) in t.boxes.iter_mut().enumerate() {
        let k = i as i32;
        b.dimensions = dims(10 * k, 10 * k, 100 - k, 50 - k);
    }
    (doc, t)
}

#[test]
fn boxes_come_in_tree_order() {
    let (doc, t) = blocks(rgba(0, 0, 9));
    let req = RequestBuilder::new(canvas()).build(&doc, &t);
    let order: Vec<u8> = req.boxes.iter().map(|b| b.background_color.b).collect();
    assert_eq!(order, vec![9, 1, 2, 3, 4]);
    assert!(req.texts.is_empty());
}

#[test]
fn opaque_root_paints_itself_and_body_keeps_its_rect() {
    let (doc, t) = blocks(rgba(0, 0, 9));
    let req = RequestBuilder::new(canvas()).build(&doc, &t);
    assert_eq!(req.boxes.len(), 5);
    assert_eq!(fill_rect(&req.boxes[0].rect), rect(0, 0, 100, 50));
    assert_eq!(fill_rect(&req.boxes[1].rect), rect(10, 10, 99, 49));
}

#[test]
fn transparent_root_hands_the_canvas_to_body() {
    let (doc, t) = blocks(ColorValue::Transparent);
    let req = RequestBuilder::new(canvas()).build(&doc, &t);
    assert_eq!(req.boxes.len(), 4);
    assert_eq!(req.boxes[0].background_color, Color { r: 0, g: 0, b: 1, a: 255 });
    assert_eq!(fill_rect(&req.boxes[0].rect), rect(0, 0, 800, 600));
    assert_eq!(req.boxes[0].border_rect, rect(10, 10, 99, 49));
    assert_eq!(fill_rect(&req.boxes[1].rect), rect(20, 20, 98, 48));
}

#[test]
fn zero_radii_fill_a_plain_rect() {
    let s = style(Display::new_block(), rgba(0, 0, 0));
    assert!(compute_border_radius_corner(&s, 100).is_none());
    let (doc, t) = blocks(rgba(0, 0, 9));
    let req = RequestBuilder::new(canvas()).build(&doc, &t);
    assert!(req.boxes.iter().all(|b| matches!(b.rect, RectOrRRect::Rect(_))));
}

#[test]
fn nonzero_radius_fills_a_rounded_rect_clamped_to_width() {
    let mut s = style(Display::new_block(), rgba(0, 0, 0));
    s.radius_top_left = BorderRadius { horizontal: Length::Px(500), vertical: Length::Px(30) };
    s.radius_bottom_right = BorderRadius { horizontal: Length::Percent(50), vertical: Length::Percent(10) };
    let c = compute_border_radius_corner(&s, 200).unwrap();
    assert_eq!(c.top_left.horizontal, 200);
    assert_eq!(c.top_left.vertical, 30);
    assert_eq!(c.bottom_right.horizontal, 100);
    assert_eq!(c.bottom_right.vertical, 20);
    assert_eq!(c.top_right.horizontal, 0);
    assert_eq!(c.bottom_left.vertical, 0);

    let mut doc = Document::new(style(Display::new_block(), ColorValue::Transparent));
    doc.append_element(0, "div".to_string(), s);
    let mut t = TreeBuilder::new().build(&doc, 0).unwrap();
    t.boxes[0].dimensions = dims(5, 6, 200, 40);
    let req = RequestBuilder::new(canvas()).build(&doc, &t);
    assert_eq!(req.boxes.len(), 1);
    match req.boxes[0].rect {
        RectOrRRect::RRect(rr) => {
            assert_eq!(rr.rect, rect(5, 6, 200, 40));
            assert_eq!(rr.corners.top_left.horizontal, 200);
        }
        RectOrRRect::Rect(_) => panic!("expected a rounded rect"),
    }
}

#[test]
fn borders_without_style_are_left_out() {
    let mut s = style(Display::new_block(), rgba(0, 0, 0));
    s.border_top = BorderSide { style: Some(BorderStyle::Solid), color: rgba(7, 8, 9) };
    s.border_left = BorderSide { style: Some(BorderStyle::Dashed), color: ColorValue::Transparent };
    let b = compute_borders(&s);
    let top = b.top.unwrap();
    assert_eq!(top.style, BorderStyle::Solid);
    assert_eq!(top.color, Color { r: 7, g: 8, b: 9, a: 255 });
    assert!(b.right.is_none());
    assert!(b.bottom.is_none());
    let left = b.left.unwrap();
    assert_eq!(left.style, BorderStyle::Dashed);
    assert_eq!(left.color, Color { r: 0, g: 0, b: 0, a: 0 });
}

#[test]
fn inline_content_is_painted_from_lines() {
    let mut doc = Document::new(style(Display::new_block(), ColorValue::Transparent));
    let div = doc.append_element(0, "div".to_string(), style(Display::new_block(), rgba(0, 0, 5)));
    let span = doc.append_element(div, "span".to_string(), style(Display::new_inline(), rgba(0, 0, 6)));
    let mut t = TreeBuilder::new().build(&doc, 0).unwrap();
    assert_eq!(t.boxes[t.root].node, Some(div));
    let anon = t.boxes[t.root].children[0];
    let span_box = t.boxes[anon].children[0];
    assert_eq!(t.boxes[span_box].node, Some(span));
    t.boxes[t.root].dimensions = dims(0, 0, 300, 100);
    t.boxes[anon].dimensions = dims(10, 20, 280, 40);
    t.boxes[anon].lines = vec![Line {
        fragments: vec![
            Fragment { offset: Point { x: 3, y: 4 }, size: Size { width: 50, height: 18 }, data: FragmentData::Box(span_box) },
            Fragment { offset: Point { x: 60, y: 4 }, size: Size { width: 40, height: 18 }, data: FragmentData::Text(span_box, "hello".to_string()) },
            Fragment { offset: Point { x: 0, y: 0 }, size: Size { width: 1, height: 1 }, data: FragmentData::Box(anon) },
        ],
    }];
    let req = RequestBuilder::new(canvas()).build(&doc, &t);
    assert_eq!(req.boxes.len(), 2);
    assert_eq!(req.boxes[0].background_color.b, 5);
    assert_eq!(req.boxes[1].background_color.b, 6);
    assert_eq!(fill_rect(&req.boxes[1].rect), rect(13, 24, 50, 18));
    assert_eq!(req.texts.len(), 1);
    assert_eq!(req.texts[0].content, "hello");
    assert_eq!(req.texts[0].rect, rect(70, 24, 40, 18));
    assert_eq!(req.texts[0].font_size, 16);
    assert_eq!(req.texts[0].color, Color { r: 1, g: 2, b: 3, a: 255 });
}

#[test]
fn background_command_fills_padding_box() {
    let mut s = style(Display::new_block(), rgba(4, 5, 6));
    let mut doc = Document::new(style(Display::new_block(), ColorValue::Transparent));
    doc.append_element(0, "div".to_string(), s);
    let mut t = TreeBuilder::new().build(&doc, 0).unwrap();
    t.boxes[0].dimensions = Dimensions {
        location: Point { x: 0, y: 0 },
        padding_box: Rect { x: 1, y: 2, width: 30, height: 40 },
        border_box: Rect { x: 0, y: 0, width: 200, height: 50 },
    };
    match paint_background(&doc, &t, 0) {
        Some(DisplayCommand::Draw(DrawCommand::FillRect(r, c))) => {
            assert_eq!(r, rect(1, 2, 30, 40));
            assert_eq!(c, Color { r: 4, g: 5, b: 6, a: 255 });
        }
        _ => panic!("expected a plain fill"),
    }

    s.radius_top_right = BorderRadius { horizontal: Length::Percent(150), vertical: Length::Px(7) };
    doc.nodes[1].style = s;
    match paint_background(&doc, &t, 0) {
        Some(DisplayCommand::Draw(DrawCommand::FillRRect(rr, _))) => {
            assert_eq!(rr.rect, rect(1, 2, 30, 40));
            assert_eq!(rr.corners.top_right.horizontal, 300);
            assert_eq!(rr.corners.top_right.vertical, 7);
            assert_eq!(rr.corners.top_left.horizontal, 0);
        }
        _ => panic!("expected a rounded fill"),
    }
}

#[test]
fn background_command_skips_anonymous_boxes() {
    let mut doc = Document::new(style(Display::new_block(), ColorValue::Transparent));
    let div = doc.append_element(0, "div".to_string(), style(Display::new_block(), rgba(0, 0, 1)));
    doc.append_element(div, "span".to_string(), style(Display::new_inline(), rgba(0, 0, 2)));
    let t = TreeBuilder::new().build(&doc, 0).unwrap();
    let anon = t.boxes[t.root].children[0];
    assert!(t.boxes[anon].is_anonymous());
    assert!(paint_background(&doc, &t, anon).is_none());
    assert!(paint_background(&doc, &t, t.root).is_some());
}

#[test]
fn negative_radii_resolve_to_zero() {
    let mut s = style(Display::new_block(), rgba(0, 0, 0));
    s.radius_top_left = BorderRadius { horizontal: Length::Px(-20), vertical: Length::Percent(-10) };
    let c = compute_border_radius_corner(&s, 200).unwrap();
    assert_eq!(c.top_left.horizontal, 0);
    assert_eq!(c.top_left.vertical, 0);
    let c = compute_border_radius_corner(&s, -5).unwrap();
    assert_eq!(c.top_left.horizontal, 0);
}

#[test]
fn inner_element_root_does_not_hand_over_its_background() {
    let mut doc = Document::new(style(Display::new_block(), ColorValue::Transparent));
    let html = doc.append_element(0, "html".to_string(), style(Display::new_block(), rgba(0, 0, 9)));
    let div = doc.append_element(html, "div".to_string(), style(Display::new_block(), ColorValue::Transparent));
    doc.append_element(div, "body".to_string(), style(Display::new_block(), rgba(0, 0, 1)));
    let mut t = TreeBuilder::new().build(&doc, div).unwrap();
    for (i, b) in t.boxes.iter_mut().enumerate() {
        let k = i as i32;
        b.dimensions = dims(10 * k, 10 * k, 100 - k, 50 - k);
    }
    let req = RequestBuilder::new(canvas()).build(&doc, &t);
    assert_eq!(req.boxes.len(), 2);
    assert_eq!(req.boxes[0].background_color, Color { r: 0, g: 0, b: 0, a: 0 });
    assert_eq!(fill_rect(&req.boxes[0].rect), rect(0, 0, 100, 50));
    assert_eq!(fill_rect(&req.boxes[1].rect), rect(10, 10, 99, 49));
}
