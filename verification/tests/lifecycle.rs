use webapp_wrapper::lifecycle::RestorePlan;
use webapp_wrapper::lifecycle::capture_on_move_or_resize;
use webapp_wrapper::lifecycle::restore_plan;
use webapp_wrapper::store::WindowState;

fn ws(x: i32, y: i32, width: u32, height: u32, maximized: bool) -> WindowState {
    WindowState { x, y, width, height, maximized }
}

#[test]
fn restore_small_size_keeps_size_but_moves() {
    let plan = restore_plan(Some(ws(100, 50, 150, 150, false)), Some((7, 8)), 32);
    assert_eq!(
        plan,
        RestorePlan { size: None, position: Some((132, 82)), maximize: false }
    );
}

#[test]
fn restore_applies_size_position_then_maximize() {
    let plan = restore_plan(Some(ws(100, 50, 300, 300, true)), None, 0);
    assert_eq!(
        plan,
        RestorePlan { size: Some((300, 300)), position: Some((100, 50)), maximize: true }
    );
}

#[test]
fn restore_size_needs_both_dimensions_large_enough() {
    let plan = restore_plan(Some(ws(0, 0, 500, 199, false)), None, 0);
    assert_eq!(plan.size, None);
    let plan = restore_plan(Some(ws(0, 0, 200, 200, false)), None, 0);
    assert_eq!(plan.size, Some((200, 200)));
}

#[test]
fn restore_without_record_cascades_from_current_position() {
    let plan = restore_plan(None, Some((10, 20)), 32);
    assert_eq!(
        plan,
        RestorePlan { size: None, position: Some((42, 52)), maximize: false }
    );
}

#[test]
fn restore_without_record_and_without_offset_does_nothing() {
    let plan = restore_plan(None, Some((10, 20)), 0);
    assert_eq!(plan, RestorePlan { size: None, position: None, maximize: false });
    let plan = restore_plan(None, None, 32);
    assert_eq!(plan, RestorePlan { size: None, position: None, maximize: false });
}

#[test]
fn minimized_window_is_never_captured() {
    let stored = Some(ws(10, 10, 400, 300, false));
    let r = capture_on_move_or_resize(true, false, stored, -32000, -32000, 160, 28);
    assert_eq!(r, None, "the stored geometry must stay untouched");
    let r = capture_on_move_or_resize(true, true, stored, -32000, -32000, 160, 28);
    assert_eq!(r, None);
}

#[test]
fn maximized_window_only_raises_the_flag() {
    let stored = Some(ws(10, 10, 400, 300, false));
    let r = capture_on_move_or_resize(false, true, stored, 0, 0, 1920, 1080);
    assert_eq!(r, Some(ws(10, 10, 400, 300, true)));
}

#[test]
fn maximized_window_without_record_captures_current_bounds() {
    let r = capture_on_move_or_resize(false, true, None, 5, 5, 800, 600);
    assert_eq!(r, Some(ws(5, 5, 800, 600, true)));
}

#[test]
fn normal_window_captures_current_bounds() {
    let stored = Some(ws(10, 10, 400, 300, true));
    let r = capture_on_move_or_resize(false, false, stored, 30, 40, 640, 480);
    assert_eq!(r, Some(ws(30, 40, 640, 480, false)));
}
