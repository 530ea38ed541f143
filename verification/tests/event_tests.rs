use falling_leaf::systems::event_system::{
    parse_window_event, EngineEvent, EventSystem, WindowInput,
};

#[test]
fn listeners_in_registration_order() {
    let mut es = EventSystem::new();
    assert_eq!(es.trigger(1), (vec![], vec![]));
    es.add_listener(1, 10);
    es.add_listener(2, 20);
    es.add_listener(1, 11);
    es.add_modifier(1, 30);
    assert_eq!(es.trigger(1), (vec![10, 11], vec![30]));
    assert_eq!(es.trigger(2), (vec![20], vec![]));
    assert_eq!(es.trigger(3), (vec![], vec![]));
}

#[test]
fn window_events_become_engine_events() {
    match parse_window_event(WindowInput::Focused(true)) {
        Some(EngineEvent::WindowGainedFocus(_)) => {}
        other => panic!("unexpected {:?}", other),
    }
    match parse_window_event(WindowInput::Focused(false)) {
        Some(EngineEvent::WindowLostFocus(_)) => {}
        other => panic!("unexpected {:?}", other),
    }
    match parse_window_event(WindowInput::Resized { width: 800, height: 600 }) {
        Some(EngineEvent::WindowResize(r)) => assert_eq!((r.width, r.height), (800, 600)),
        other => panic!("unexpected {:?}", other),
    }
    match parse_window_event(WindowInput::Moved { x: -1, y: 5 }) {
        Some(EngineEvent::WindowMoved(m)) => assert_eq!((m.to_x, m.to_y), (u32::MAX, 5)),
        other => panic!("unexpected {:?}", other),
    }
    match parse_window_event(WindowInput::KeyboardInput {
        pressed: true,
        key_code: Some(7),
        is_synthetic: false,
        is_repeat: true,
    }) {
        Some(EngineEvent::KeyPress(k)) => assert_eq!((k.key, k.is_synthetic, k.is_repeat), (7, false, true)),
        other => panic!("unexpected {:?}", other),
    }
    match parse_window_event(WindowInput::KeyboardInput {
        pressed: false,
        key_code: Some(7),
        is_synthetic: true,
        is_repeat: false,
    }) {
        Some(EngineEvent::KeyRelease(k)) => assert_eq!(k.key, 7),
        other => panic!("unexpected {:?}", other),
    }
    assert!(parse_window_event(WindowInput::KeyboardInput {
        pressed: true,
        key_code: None,
        is_synthetic: false,
        is_repeat: false,
    })
    .is_none());
    match parse_window_event(WindowInput::MouseInput { pressed: false, button: 2 }) {
        Some(EngineEvent::MouseRelease(m)) => assert_eq!(m.button, 2),
        other => panic!("unexpected {:?}", other),
    }
    match parse_window_event(WindowInput::DroppedFile("f.txt".to_string())) {
        Some(EngineEvent::FileDropped(f)) => assert_eq!(f.path, "f.txt"),
        other => panic!("unexpected {:?}", other),
    }
    assert!(parse_window_event(WindowInput::Other).is_none());
}
