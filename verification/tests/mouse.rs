use vellum_fe::app_core::WindowRect;
use vellum_fe::mouse::{mouse_step, DragState, MouseAction, MouseInput, MouseKind, Moving, ResizeEdge, Resizing};

fn rect(x: u16, y: u16, width: u16, height: u16) -> Option<WindowRect> {
    Some(WindowRect { x, y, width, height })
}

fn idle() -> DragState {
    DragState { resize: None, moving: None, focused: 0 }
}

fn ev(kind: MouseKind, col: u16, row: u16) -> MouseInput {
    MouseInput { kind, col, row }
}

#[test]
fn pressing_a_border_starts_a_resize_and_dragging_resizes_by_the_distance() {
    let rects = vec![rect(0, 0, 10, 5), None, rect(20, 0, 10, 5)];
    let (s, a) = mouse_step(idle(), ev(MouseKind::LeftDown, 29, 2), &rects);
    assert_eq!(a, MouseAction::Nothing);
    assert_eq!(s.resize, Some(Resizing { window: 2, edge: ResizeEdge::Right, col: 29, row: 2 }));
    let (s, a) = mouse_step(s, ev(MouseKind::LeftDrag, 32, 3), &rects);
    assert_eq!(a, MouseAction::Resize(2, ResizeEdge::Right, 0, 3));
    assert_eq!(s.resize.unwrap().col, 32);
    let (s, a) = mouse_step(s, ev(MouseKind::LeftDrag, 32, 9), &rects);
    assert_eq!(a, MouseAction::Nothing);
    let (s, _) = mouse_step(s, ev(MouseKind::LeftUp, 32, 9), &rects);
    assert_eq!(s.resize, None);
}

#[test]
fn top_corners_resize_and_the_rest_of_the_top_border_moves() {
    let rects = vec![rect(5, 2, 10, 6)];
    let (s, _) = mouse_step(idle(), ev(MouseKind::LeftDown, 5, 2), &rects);
    assert_eq!(s.resize.unwrap().edge, ResizeEdge::Top);
    let (s, _) = mouse_step(idle(), ev(MouseKind::LeftDown, 8, 2), &rects);
    assert_eq!(s.moving, Some(Moving { window: 0, col: 8, row: 2, start_x: 5, start_y: 2 }));
    let (s, a) = mouse_step(s, ev(MouseKind::LeftDrag, 10, 1), &rects);
    assert_eq!(a, MouseAction::Move(0, 2, -1));
    assert_eq!((s.moving.unwrap().col, s.moving.unwrap().row), (10, 1));
    let (_, a) = mouse_step(idle(), ev(MouseKind::LeftDown, 6, 7), &rects);
    assert_eq!(a, MouseAction::Nothing);
    let (s, _) = mouse_step(idle(), ev(MouseKind::LeftDown, 6, 7), &rects);
    assert_eq!(s.resize.unwrap().edge, ResizeEdge::Bottom);
}

#[test]
fn pressing_inside_focuses_and_scrolling_targets_the_window_under_the_pointer() {
    let rects = vec![rect(0, 0, 10, 5), rect(10, 0, 10, 5)];
    let (s, a) = mouse_step(idle(), ev(MouseKind::LeftDown, 14, 2), &rects);
    assert_eq!((s.focused, a), (1, MouseAction::Nothing));
    let (_, a) = mouse_step(idle(), ev(MouseKind::ScrollUp, 3, 3), &rects);
    assert_eq!(a, MouseAction::ScrollUp(0));
    let (_, a) = mouse_step(idle(), ev(MouseKind::ScrollDown, 50, 3), &rects);
    assert_eq!(a, MouseAction::Nothing);
    let (s, a) = mouse_step(idle(), ev(MouseKind::Other, 3, 3), &rects);
    assert_eq!((s, a), (idle(), MouseAction::Nothing));
}
