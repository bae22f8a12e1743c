use uengine::editor::Project;
use uengine::rendering::{Window, WindowEvent};

#[test]
fn window_keeps_its_settings() {
    let window = Window::new("Engine", (800u32, 600u32));
    assert_eq!(window.title(), "Engine");
    assert_eq!(window.width(), 800);
    assert_eq!(window.height(), 600);
    assert!(!window.exited());
}

#[test]
fn window_closes_on_close_request_only() {
    let mut window = Window::new("Engine", (1u32, 1u32));
    assert!(!window.window_event(WindowEvent::Other));
    assert!(!window.exited());
    assert!(window.window_event(WindowEvent::CloseRequested));
    assert!(window.exited());
    assert!(!window.window_event(WindowEvent::Other));
    assert!(window.exited());
}

#[test]
fn project_path() {
    let project = Project::new("games/demo".to_string());
    assert_eq!(project.path(), "games/demo");
}
