use helium::events::ButtonState;
use helium::events::Element;
use helium::events::ElementState;
use helium::events::EventContext;
use helium::events::EventFn;
use helium::events::EventManager;
use helium::events::Key;
use helium::events::MouseButton;
use helium::events::NamedKey;
use helium::events::WindowEvent;
use helium::geometry::Position;
use helium::geometry::Size;
use helium::layout::LayoutNode;

fn single_node(id: &str, width: u32, height: u32) -> Vec<LayoutNode> {
    vec![LayoutNode::new(id, Position::new(0, 0), Size::new(width, height))]
}

#[test]
fn event_and_widget_ids_match() {}

#[test]
fn mouse_position_updates() {
    let layout = single_node("", 0, 0);
    let mut events = EventManager::new(EventContext::new(), &layout);

    let position = Position::new(50, 60);
    let cursor_event = WindowEvent::CursorMoved { position };

    events.process(&cursor_event, &layout);
    assert_eq!(events.mouse_pos, position);
}

#[test]
fn hover_state() {
    let layout = single_node("", 500, 500);
    let mut events = EventManager::new(EventContext::new(), &layout);

    // The pointer lands at (92.23, 63.2) in screen space; in whole-pixel
    // units that is (92, 63), well inside the 500 x 500 widget.
    let position = Position::new(92, 63);

    let cursor_event = WindowEvent::CursorMoved { position };
    events.process(&cursor_event, &layout);

    assert_eq!(events.elements[0].state, ElementState::Hovered);
}

#[test]
fn click_element_state() {
    let layout = single_node("", 0, 0);
    let mut events = EventManager::new(EventContext::new(), &layout);

    let click_event = WindowEvent::MouseInput {
        state: ButtonState::Pressed,
        button: MouseButton::Left,
    };
    events.elements[0].state = ElementState::Hovered;
    events.process(&click_event, &layout);
    assert_eq!(events.elements[0].state, ElementState::Clicked);

    let click_event = WindowEvent::MouseInput {
        state: ButtonState::Released,
        button: MouseButton::Left,
    };
    events.process(&click_event, &layout);
    assert_eq!(events.elements[0].state, ElementState::Hovered);
}

#[test]
fn elements_start_idle() {
    let layout = vec![
        LayoutNode::new("a", Position::new(0, 0), Size::new(10, 10)),
        LayoutNode::new("b", Position::new(20, 0), Size::new(10, 10)),
    ];
    let events = EventManager::new(EventContext::new(), &layout);
    assert_eq!(events.elements.len(), 2);
    for element in &events.elements {
        assert_eq!(element.state, ElementState::Default);
        assert_eq!(element.previous_state, ElementState::Default);
    }
}

#[test]
fn hover_fires_callback_once() {
    // Bounds (0,0)-(500,500); a move to (92.23, 63.2) — (92, 63) in whole
    // pixels — hovers the widget and fires its hover callback exactly once.
    let layout = single_node("w", 500, 500);
    let mut cx = EventContext::new();
    cx.add(EventFn::hover("w"));
    let mut events = EventManager::new(cx, &layout);

    let moved = WindowEvent::CursorMoved { position: Position::new(92, 63) };
    let fired = events.process(&moved, &layout);

    assert_eq!(events.elements[0].state, ElementState::Hovered);
    assert_eq!(fired, vec![0]);
}

#[test]
fn hover_not_refired_when_already_hovered() {
    let layout = single_node("w", 500, 500);
    let mut cx = EventContext::new();
    cx.add(EventFn::hover("w"));
    let mut events = EventManager::new(cx, &layout);

    let moved = WindowEvent::CursorMoved { position: Position::new(92, 63) };
    let fired = events.process(&moved, &layout);
    assert_eq!(fired, vec![0]);

    // The identical move again: still hovered, nothing fires.
    let fired_again = events.process(&moved, &layout);
    assert_eq!(events.elements[0].state, ElementState::Hovered);
    assert!(fired_again.is_empty());
}

#[test]
fn press_and_release_cycle() {
    // Hovered widget; press fires the click once and presses the widget;
    // release returns it to hovered.
    let layout = single_node("w", 100, 100);
    let mut cx = EventContext::new();
    cx.add(EventFn::click("w"));
    let mut events = EventManager::new(cx, &layout);

    let moved = WindowEvent::CursorMoved { position: Position::new(5, 5) };
    events.process(&moved, &layout);
    assert_eq!(events.elements[0].state, ElementState::Hovered);

    let press = WindowEvent::MouseInput {
        state: ButtonState::Pressed,
        button: MouseButton::Left,
    };
    let fired = events.process(&press, &layout);
    assert_eq!(events.elements[0].state, ElementState::Clicked);
    assert_eq!(fired, vec![0]);

    let release = WindowEvent::MouseInput {
        state: ButtonState::Released,
        button: MouseButton::Left,
    };
    let fired = events.process(&release, &layout);
    assert_eq!(events.elements[0].state, ElementState::Hovered);
    assert!(fired.is_empty());
}

#[test]
fn press_while_idle_is_ignored() {
    let layout = single_node("w", 100, 100);
    let mut cx = EventContext::new();
    cx.add(EventFn::click("w"));
    let mut events = EventManager::new(cx, &layout);

    let press = WindowEvent::MouseInput {
        state: ButtonState::Pressed,
        button: MouseButton::Left,
    };
    let fired = events.process(&press, &layout);
    assert_eq!(events.elements[0].state, ElementState::Default);
    assert!(fired.is_empty());
}

#[test]
fn transitions_without_callbacks() {
    // A widget with no registered callbacks still transitions, with zero
    // callback calls and no error.
    let layout = single_node("w", 100, 100);
    let mut events = EventManager::new(EventContext::new(), &layout);

    let moved = WindowEvent::CursorMoved { position: Position::new(1, 1) };
    let fired = events.process(&moved, &layout);
    assert_eq!(events.elements[0].state, ElementState::Hovered);
    assert!(fired.is_empty());

    let press = WindowEvent::MouseInput {
        state: ButtonState::Pressed,
        button: MouseButton::Left,
    };
    let fired = events.process(&press, &layout);
    assert_eq!(events.elements[0].state, ElementState::Clicked);
    assert!(fired.is_empty());
}

#[test]
fn move_far_outside_keeps_idle() {
    // A move far outside the only widget's bounds: the state stays (and
    // returns to) idle and nothing fires.
    let layout = single_node("w", 100, 100);
    let mut cx = EventContext::new();
    cx.add(EventFn::hover("w"));
    cx.add(EventFn::click("w"));
    let mut events = EventManager::new(cx, &layout);

    let far = WindowEvent::CursorMoved { position: Position::new(100000, 100000) };
    let fired = events.process(&far, &layout);
    assert_eq!(events.elements[0].state, ElementState::Default);
    assert!(fired.is_empty());

    // Hover it, then leave: back to idle, and leaving fires nothing.
    events.process(&WindowEvent::CursorMoved { position: Position::new(3, 3) }, &layout);
    assert_eq!(events.elements[0].state, ElementState::Hovered);
    let fired = events.process(&far, &layout);
    assert_eq!(events.elements[0].state, ElementState::Default);
    assert!(fired.is_empty());
}

#[test]
fn bounds_are_closed_intervals() {
    // A pointer exactly on the far corner is inside; one unit past is not.
    let layout = single_node("w", 500, 500);
    let mut events = EventManager::new(EventContext::new(), &layout);

    events.process(&WindowEvent::CursorMoved { position: Position::new(500, 500) }, &layout);
    assert_eq!(events.elements[0].state, ElementState::Hovered);

    events.process(&WindowEvent::CursorMoved { position: Position::new(501, 500) }, &layout);
    assert_eq!(events.elements[0].state, ElementState::Default);
}

#[test]
fn duplicate_callbacks_fire_in_registration_order() {
    let layout = single_node("w", 100, 100);
    let mut cx = EventContext::new();
    cx.add(EventFn::hover("w"));
    cx.add(EventFn::click("w"));
    cx.add(EventFn::hover("w"));
    cx.add(EventFn::hover("other"));
    let mut events = EventManager::new(cx, &layout);

    let moved = WindowEvent::CursorMoved { position: Position::new(1, 1) };
    let fired = events.process(&moved, &layout);
    assert_eq!(fired, vec![0, 2]);
}

#[test]
fn multiple_widgets_hover_independently() {
    let layout = vec![
        LayoutNode::new("a", Position::new(0, 0), Size::new(10, 10)),
        LayoutNode::new("b", Position::new(100, 100), Size::new(10, 10)),
    ];
    let mut cx = EventContext::new();
    cx.add(EventFn::hover("a"));
    cx.add(EventFn::hover("b"));
    let mut events = EventManager::new(cx, &layout);

    let fired = events.process(
        &WindowEvent::CursorMoved { position: Position::new(105, 105) },
        &layout,
    );
    assert_eq!(events.elements[0].state, ElementState::Default);
    assert_eq!(events.elements[1].state, ElementState::Hovered);
    assert_eq!(fired, vec![1]);
}

#[test]
fn keyboard_events_are_ignored() {
    let layout = single_node("w", 100, 100);
    let mut cx = EventContext::new();
    cx.add(EventFn::hover("w"));
    let mut events = EventManager::new(cx, &layout);

    let key = WindowEvent::KeyboardInput { key: Key::Named(NamedKey::Enter) };
    let fired = events.process(&key, &layout);
    assert!(fired.is_empty());
    assert_eq!(events.elements[0].state, ElementState::Default);
}

#[test]
fn run_hover_and_run_click_match_by_id_and_kind() {
    let hover = EventFn::hover("a");
    let click = EventFn::click("a");
    assert!(hover.run_hover("a"));
    assert!(!hover.run_hover("b"));
    assert!(!hover.run_click("a"));
    assert!(click.run_click("a"));
    assert!(!click.run_click("b"));
    assert!(!click.run_hover("a"));
}

#[test]
fn release_on_hovered_is_noop() {
    // A release affects only pressed widgets: a merely hovered widget keeps
    // its state, and nothing fires.
    let layout = single_node("w", 100, 100);
    let mut cx = EventContext::new();
    cx.add(EventFn::hover("w"));
    cx.add(EventFn::click("w"));
    let mut events = EventManager::new(cx, &layout);

    events.process(&WindowEvent::CursorMoved { position: Position::new(2, 2) }, &layout);
    assert_eq!(events.elements[0].state, ElementState::Hovered);

    let release = WindowEvent::MouseInput {
        state: ButtonState::Released,
        button: MouseButton::Left,
    };
    let fired = events.process(&release, &layout);
    assert_eq!(events.elements[0].state, ElementState::Hovered);
    assert!(fired.is_empty());
}

#[test]
fn release_on_idle_is_noop() {
    // An idle widget — including one whose press was cleared by the pointer
    // leaving its bounds — stays idle on a release.
    let layout = single_node("w", 100, 100);
    let mut events = EventManager::new(EventContext::new(), &layout);

    // Hover, press, then leave the bounds: the press collapses to idle.
    events.process(&WindowEvent::CursorMoved { position: Position::new(2, 2) }, &layout);
    let press = WindowEvent::MouseInput {
        state: ButtonState::Pressed,
        button: MouseButton::Left,
    };
    events.process(&press, &layout);
    assert_eq!(events.elements[0].state, ElementState::Clicked);
    events.process(&WindowEvent::CursorMoved { position: Position::new(5000, 5000) }, &layout);
    assert_eq!(events.elements[0].state, ElementState::Default);

    // The release that eventually arrives must not revive the press.
    let release = WindowEvent::MouseInput {
        state: ButtonState::Released,
        button: MouseButton::Left,
    };
    let fired = events.process(&release, &layout);
    assert_eq!(events.elements[0].state, ElementState::Default);
    assert!(fired.is_empty());
}

#[test]
fn sync_adds_each_missing_identity_once() {
    let layout = single_node("a", 10, 10);
    let mut events = EventManager::new(EventContext::new(), &layout);

    // A snapshot that repeats an identity still yields one element for it.
    let repeated = vec![
        LayoutNode::new("a", Position::new(0, 0), Size::new(10, 10)),
        LayoutNode::new("b", Position::new(20, 0), Size::new(10, 10)),
        LayoutNode::new("b", Position::new(40, 0), Size::new(10, 10)),
    ];
    events.sync(&repeated);
    assert_eq!(events.elements.len(), 2);
    assert_eq!(events.elements[0].id, "a");
    assert_eq!(events.elements[1].id, "b");
}

#[test]
fn sync_tracks_new_widgets_and_keeps_states() {
    let layout = single_node("a", 100, 100);
    let mut events = EventManager::new(EventContext::new(), &layout);

    // Hover the first widget, then let the snapshot grow by one widget.
    events.process(&WindowEvent::CursorMoved { position: Position::new(1, 1) }, &layout);
    assert_eq!(events.elements[0].state, ElementState::Hovered);

    let grown = vec![
        LayoutNode::new("a", Position::new(0, 0), Size::new(100, 100)),
        LayoutNode::new("b", Position::new(200, 200), Size::new(10, 10)),
    ];
    events.sync(&grown);
    assert_eq!(events.elements.len(), 2);
    assert_eq!(events.elements[0].id, "a");
    assert_eq!(events.elements[0].state, ElementState::Hovered);
    assert_eq!(events.elements[1].id, "b");
    assert_eq!(events.elements[1].state, ElementState::Default);

    // A second sync against the same snapshot changes nothing.
    events.sync(&grown);
    assert_eq!(events.elements.len(), 2);

    // The new widget takes part in dispatch.
    events.process(&WindowEvent::CursorMoved { position: Position::new(205, 205) }, &grown);
    assert_eq!(events.elements[0].state, ElementState::Default);
    assert_eq!(events.elements[1].state, ElementState::Hovered);
}

#[test]
fn element_transitions() {
    let mut e = Element::new("x");
    assert_eq!(e.state, ElementState::Default);
    assert_eq!(e.previous_state, ElementState::Default);

    e.hover();
    assert_eq!(e.state, ElementState::Hovered);
    assert_eq!(e.previous_state, ElementState::Default);

    e.click();
    assert_eq!(e.state, ElementState::Clicked);
    assert_eq!(e.previous_state, ElementState::Hovered);

    e.roll_back();
    assert_eq!(e.state, ElementState::Hovered);

    e.default();
    assert_eq!(e.state, ElementState::Default);
    assert_eq!(e.previous_state, ElementState::Hovered);
}
