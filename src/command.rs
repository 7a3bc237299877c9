//! Drawing commands handed to the rasterizer.
use vstd::prelude::*;

use crate::request_builder::{PaintRect, RRect};
use crate::values::Color;

verus! {

#[derive(Debug, Clone, Copy, PartialEq, Eq, Structural)]
pub enum DrawCommand {
    FillRect(PaintRect, Color),
    FillRRect(RRect, Color),
}

#[derive(Debug, Clone)]
pub enum DisplayCommand {
    Draw(DrawCommand),
    GroupDraw(Vec<DrawCommand>),
}

} // verus!
