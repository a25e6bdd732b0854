use particle_sandbox::shell::{
    choose_format, recover, App, Command, Event, Key, Recovery, State, SurfaceFault,
};

#[test]
fn new_state_is_not_configured() {
    let state = State::new(800, 600);
    assert_eq!(state, State { width: 800, height: 600, is_surface_configured: false });
    assert!(!state.render());
}

#[test]
fn resize_to_a_size_with_an_area_configures() {
    let mut state = State::new(800, 600);
    assert!(state.resize(1024, 768));
    assert_eq!(state, State { width: 1024, height: 768, is_surface_configured: true });
    assert!(state.render());
}

#[test]
fn resize_to_a_size_without_an_area_is_ignored() {
    let mut state = State::new(800, 600);
    assert!(!state.resize(0, 768));
    assert!(!state.resize(1024, 0));
    assert!(!state.resize(0, 0));
    assert_eq!(state, State::new(800, 600));
    assert!(state.resize(1, 1));
    assert!(!state.resize(0, 5));
    assert_eq!(state, State { width: 1, height: 1, is_surface_configured: true });
}

#[test]
fn only_pressing_escape_exits() {
    let state = State::new(1, 1);
    assert!(state.handle_key(Key::Escape, true));
    assert!(!state.handle_key(Key::Escape, false));
    assert!(!state.handle_key(Key::Other, true));
    assert!(!state.handle_key(Key::Other, false));
}

#[test]
fn lost_and_outdated_surfaces_are_configured_anew() {
    assert_eq!(
        recover(SurfaceFault::Lost, 640, 480),
        Recovery::Reconfigure { width: 640, height: 480 }
    );
    assert_eq!(
        recover(SurfaceFault::Outdated, 0, 480),
        Recovery::Reconfigure { width: 0, height: 480 }
    );
}

#[test]
fn other_faults_are_reported() {
    assert_eq!(recover(SurfaceFault::Timeout, 640, 480), Recovery::Report);
    assert_eq!(recover(SurfaceFault::OutOfMemory, 640, 480), Recovery::Report);
    assert_eq!(recover(SurfaceFault::Other, 640, 480), Recovery::Report);
}

#[test]
fn the_first_srgb_format_is_chosen() {
    assert_eq!(choose_format(&vec![false, true, true]), 1);
    assert_eq!(choose_format(&vec![true, false]), 0);
    assert_eq!(choose_format(&vec![false, false, false, true]), 3);
}

#[test]
fn without_an_srgb_format_the_first_is_chosen() {
    assert_eq!(choose_format(&vec![false]), 0);
    assert_eq!(choose_format(&vec![false, false, false]), 0);
}

#[test]
fn events_before_the_window_exists_are_ignored() {
    let mut app = App::new();
    assert_eq!(app.state, None);
    assert_eq!(app.window_event(Event::CloseRequested), Command::Nothing);
    assert_eq!(app.window_event(Event::Resized { width: 5, height: 5 }), Command::Nothing);
    assert_eq!(app.window_event(Event::RedrawRequested), Command::Nothing);
    assert_eq!(
        app.window_event(Event::KeyboardInput { key: Key::Escape, is_pressed: true }),
        Command::Nothing
    );
    assert_eq!(app.state, None);
}

#[test]
fn events_are_dispatched_once_the_window_exists() {
    let mut app = App::new();
    app.resumed(800, 600);
    assert_eq!(app.state, Some(State::new(800, 600)));
    assert_eq!(app.window_event(Event::RedrawRequested), Command::Frame { draw: false });
    assert_eq!(
        app.window_event(Event::Resized { width: 0, height: 600 }),
        Command::Nothing
    );
    assert_eq!(app.state, Some(State::new(800, 600)));
    assert_eq!(
        app.window_event(Event::Resized { width: 400, height: 300 }),
        Command::Configure { width: 400, height: 300 }
    );
    assert_eq!(
        app.state,
        Some(State { width: 400, height: 300, is_surface_configured: true })
    );
    assert_eq!(app.window_event(Event::RedrawRequested), Command::Frame { draw: true });
    assert_eq!(app.window_event(Event::Other), Command::Nothing);
    assert_eq!(
        app.window_event(Event::KeyboardInput { key: Key::Other, is_pressed: true }),
        Command::Nothing
    );
    assert_eq!(
        app.window_event(Event::KeyboardInput { key: Key::Escape, is_pressed: false }),
        Command::Nothing
    );
    assert_eq!(
        app.window_event(Event::KeyboardInput { key: Key::Escape, is_pressed: true }),
        Command::Exit
    );
    assert_eq!(app.window_event(Event::CloseRequested), Command::Exit);
}
