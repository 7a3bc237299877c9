//! The render engine's decisions: what to do with the page, and what to tell
//! the client, for each event it receives. The caller owns the page and the
//! channels, performs each action in order and reports back.
use vstd::prelude::*;

use crate::layout_box::Size;

verus! {

pub enum InputEvent {
    ViewportResize(Size),
    /// A document to load, with the URL it was loaded from.
    LoadHTML { html: String, base_url: String },
}

pub enum OutputEvent {
    /// A freshly rendered frame, as RGBA bytes.
    FrameRendered(Vec<u8>),
    TitleChanged(String),
}

/// One step for the caller to carry out.
pub enum EngineAction {
    ResizePage(Size),
    LoadPage { html: String, base_url: String },
    /// Send the page's current frame, if it has one.
    EmitFrame,
    /// Send the page's title.
    EmitTitle,
}

pub struct RenderEngine {
    viewport: Size,
}

impl RenderEngine {
    pub closed spec fn spec_viewport(&self) -> Size {
        self.viewport
    }

    pub fn new(viewport: Size) -> (r: Self)
        ensures
            r.spec_viewport() == viewport,
    {
        RenderEngine { viewport }
    }

    pub fn viewport(&self) -> (r: Size)
        ensures
            r == self.spec_viewport(),
    {
        self.viewport
    }

    /// A resize re-renders the page at the new size and sends the frame; a
    /// load renders the new document, then sends its frame and its title.
    pub fn handle_event(&mut self, event: InputEvent) -> (r: Vec<EngineAction>)
        ensures
            match event {
                InputEvent::ViewportResize(size) => {
                    &&& final(self).spec_viewport() == size
                    &&& r@.len() == 2
                    &&& r@[0] matches EngineAction::ResizePage(s) && s == size
                    &&& r@[1] is EmitFrame
                },
                InputEvent::LoadHTML { html, base_url } => {
                    &&& final(self).spec_viewport() == old(self).spec_viewport()
                    &&& r@.len() == 3
                    &&& r@[0] matches EngineAction::LoadPage { html: h, base_url: u } && h@ == html@
                        && u@ == base_url@
                    &&& r@[1] is EmitFrame
                    &&& r@[2] is EmitTitle
                },
            },
    {
        match event {
            InputEvent::ViewportResize(size) => {
                self.viewport = size;
                vec![EngineAction::ResizePage(size), EngineAction::EmitFrame]
            },
            InputEvent::LoadHTML { html, base_url } => {
                vec![
                    EngineAction::LoadPage { html, base_url },
                    EngineAction::EmitFrame,
                    EngineAction::EmitTitle,
                ]
            },
        }
    }
}

/// The event that reports a frame: none while the page has no frame yet.
pub fn emit_new_frame(frame: Option<Vec<u8>>) -> (r: Option<OutputEvent>)
    ensures
        frame is None ==> r is None,
        frame matches Some(f) ==> (r matches Some(OutputEvent::FrameRendered(g)) && g@ == f@),
{
    match frame {
        Some(f) => Some(OutputEvent::FrameRendered(f)),
        None => None,
    }
}

pub fn emit_new_title(title: String) -> (r: OutputEvent)
    ensures
        r matches OutputEvent::TitleChanged(t) && t@ == title@,
{
    OutputEvent::TitleChanged(title)
}

} // verus!
