use moon::engine::{emit_new_frame, emit_new_title, EngineAction, InputEvent, OutputEvent, RenderEngine};
use moon::layout_box::Size;

#[test]
fn resize_renders_and_sends_a_frame() {
    let mut e = RenderEngine::new(Size { width: 1, height: 1 });
    let size = Size { width: 640, height: 480 };
    let actions = e.handle_event(InputEvent::ViewportResize(size));
    assert_eq!(actions.len(), 2);
    assert!(matches!(actions[0], EngineAction::ResizePage(s) if s == size));
    assert!(matches!(actions[1], EngineAction::EmitFrame));
    assert_eq!(e.viewport(), size);
}

#[test]
fn load_renders_then_sends_frame_and_title() {
    let mut e = RenderEngine::new(Size { width: 1, height: 1 });
    let actions = e.handle_event(InputEvent::LoadHTML {
        html: "<p>hi</p>".to_string(),
        base_url: "https://example.com/".to_string(),
    });
    assert_eq!(actions.len(), 3);
    match &actions[0] {
        EngineAction::LoadPage { html, base_url } => {
            assert_eq!(html, "<p>hi</p>");
            assert_eq!(base_url, "https://example.com/");
        }
        _ => panic!("expected a load"),
    }
    assert!(matches!(actions[1], EngineAction::EmitFrame));
    assert!(matches!(actions[2], EngineAction::EmitTitle));
    assert_eq!(e.viewport(), Size { width: 1, height: 1 });
}

#[test]
fn frame_is_sent_only_when_there_is_one() {
    assert!(emit_new_frame(None).is_none());
    match emit_new_frame(Some(vec![1, 2, 3, 4])) {
        Some(OutputEvent::FrameRendered(f)) => assert_eq!(f, vec![1, 2, 3, 4]),
        _ => panic!("expected a frame"),
    }
    match emit_new_title("Moon".to_string()) {
        OutputEvent::TitleChanged(t) => assert_eq!(t, "Moon"),
        _ => panic!("expected a title"),
    }
}
