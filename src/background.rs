//! The background fill of a single box, as one drawing command.
use vstd::prelude::*;

use crate::command::{DisplayCommand, DrawCommand};
use crate::dom::Document;
use crate::layout_box::LayoutTree;
use crate::request_builder::{has_no_radius, rect_of, to_paint_rect, Corners, RRect, Radii};
use crate::values::{length_px, resolved_color, BorderRadius, ComputedStyle};

verus! {

/// A corner's radii, both taken in pixels with percentages of `width`.
pub open spec fn corner_radii(r: BorderRadius, width: i32) -> Radii {
    Radii {
        horizontal: length_px(r.horizontal, width) as i64,
        vertical: length_px(r.vertical, width) as i64,
    }
}

pub open spec fn background_corners(s: ComputedStyle, width: i32) -> Corners {
    Corners {
        top_left: corner_radii(s.radius_top_left, width),
        top_right: corner_radii(s.radius_top_right, width),
        bottom_left: corner_radii(s.radius_bottom_left, width),
        bottom_right: corner_radii(s.radius_bottom_right, width),
    }
}

/// The fill of box `b`: its padding box in its background color, with
/// rounded corners when some radius is not zero.
pub open spec fn background_of(doc: &Document, t: &LayoutTree, b: int) -> DrawCommand {
    let lb = t.boxes@[b];
    let s = doc.nodes@[lb.node.unwrap() as int].style;
    let rect = rect_of(lb.dimensions.padding_box);
    let color = resolved_color(s.background_color);
    if has_no_radius(s) {
        DrawCommand::FillRect(rect, color)
    } else {
        DrawCommand::FillRRect(
            RRect { rect, corners: background_corners(s, lb.dimensions.border_box.width) },
            color,
        )
    }
}

fn to_radii(r: &BorderRadius, width: i32) -> (out: Radii)
    ensures
        out == corner_radii(*r, width),
{
    Radii { horizontal: r.horizontal.to_px(width), vertical: r.vertical.to_px(width) }
}

/// The background command of box `b`; none for a box without a document node.
pub fn paint_background(doc: &Document, t: &LayoutTree, b: usize) -> (r: Option<DisplayCommand>)
    requires
        b < t.boxes@.len(),
    ensures
        (t.boxes@[b as int].node matches Some(n) && n < doc.nodes@.len()) ==> (r matches Some(
            DisplayCommand::Draw(c),
        ) && c == background_of(doc, t, b as int)),
        !(t.boxes@[b as int].node matches Some(n) && n < doc.nodes@.len()) ==> r is None,
{
    let lb = &t.boxes[b];
    let n = match lb.node {
        Some(n) => n,
        None => return None,
    };
    if n >= doc.nodes.len() {
        return None;
    }
    let s = &doc.nodes[n].style;
    let color = s.background_color.resolve();
    let rect = to_paint_rect(&lb.dimensions.padding_box);
    let has_no_border_radius = s.radius_top_left.is_zero() && s.radius_bottom_left.is_zero()
        && s.radius_top_right.is_zero() && s.radius_bottom_right.is_zero();
    if has_no_border_radius {
        Some(DisplayCommand::Draw(DrawCommand::FillRect(rect, color)))
    } else {
        let width = lb.dimensions.border_box.width;
        let corners = Corners {
            top_left: to_radii(&s.radius_top_left, width),
            top_right: to_radii(&s.radius_top_right, width),
            bottom_left: to_radii(&s.radius_bottom_left, width),
            bottom_right: to_radii(&s.radius_bottom_right, width),
        };
        Some(DisplayCommand::Draw(DrawCommand::FillRRect(RRect { rect, corners }, color)))
    }
}

} // verus!
