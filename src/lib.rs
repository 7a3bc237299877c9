//! Layout and paint core of a small rendering engine: box generation from a
//! styled document tree, and translation of the positioned box tree into an
//! ordered list of paint primitives. Also holds the document-side structures
//! the engine uses (token lists, the HTML parser's stack of open elements)
//! and the engine's per-event decisions.

pub mod display;
pub mod token_list;
pub mod open_elements;
pub mod values;
pub mod dom;
pub mod layout_box;
pub mod tree_builder;
pub mod request_builder;
pub mod command;
pub mod background;
pub mod engine;
