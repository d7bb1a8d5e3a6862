use topclock::layout::Layout;
use topclock::screen::{display_number, pick_work_area, window_position, Rect};
use topclock::window::{
    next_ini_step, ClockState, IniLocation, IniStep, WindowAction, WindowEvent, ESCAPE_KEY,
};

fn device(name: &str) -> Vec<u16> {
    let mut v: Vec<u16> = name.encode_utf16().collect();
    v.resize(32, 0);
    v
}

#[test]
fn timer_redraws_once_a_minute() {
    let mut s = ClockState::new();
    assert_eq!(s.handle(WindowEvent::Timer { minute: 0 }).action, WindowAction::Redraw);
    assert_eq!(s.last_minute, 0);
    assert_eq!(s.handle(WindowEvent::Timer { minute: 0 }).action, WindowAction::Nothing);
    assert_eq!(s.handle(WindowEvent::Timer { minute: 0 }).action, WindowAction::Nothing);
    assert_eq!(s.handle(WindowEvent::Timer { minute: 1 }).action, WindowAction::Redraw);
    assert_eq!(s.last_minute, 1);
}

#[test]
fn mouse_and_keys() {
    let mut s = ClockState::new();
    assert_eq!(s.handle(WindowEvent::LeftButtonDown).action, WindowAction::BeginDrag);
    assert_eq!(s.handle(WindowEvent::MiddleButtonUp).action, WindowAction::OpenConfig);
    assert_eq!(s.handle(WindowEvent::RightButtonUp).action, WindowAction::Quit);
    assert_eq!(s.handle(WindowEvent::KeyDown { key: ESCAPE_KEY }).action, WindowAction::Quit);
    assert_eq!(s.handle(WindowEvent::KeyDown { key: 0x41 }).action, WindowAction::PassOn);
    assert_eq!(s.handle(WindowEvent::Destroy).action, WindowAction::StopTimerAndQuit);
    assert_eq!(s.handle(WindowEvent::Other).action, WindowAction::PassOn);
    assert_eq!(s.last_minute, -1);
}

#[test]
fn paint_messages() {
    let mut s = ClockState::new();
    let r = s.handle(WindowEvent::EraseBackground);
    assert_eq!((r.action, r.result), (WindowAction::Nothing, 1));
    let r = s.handle(WindowEvent::Paint);
    assert_eq!((r.action, r.result), (WindowAction::ValidatePaint, 0));
}

fn resolve(outcomes: &[bool]) -> IniStep {
    let mut step = IniStep::CheckOverride;
    for ok in outcomes {
        step = next_ini_step(step, *ok);
    }
    step
}

#[test]
fn ini_search_order() {
    assert_eq!(resolve(&[true]), IniStep::Done(Some(IniLocation::Override)));
    assert_eq!(resolve(&[false, true]), IniStep::Done(Some(IniLocation::Portable)));
    assert_eq!(resolve(&[false, false, true]), IniStep::Done(Some(IniLocation::User)));
    assert_eq!(resolve(&[false, false, false]), IniStep::WritePortable);
    assert_eq!(resolve(&[false, false, false, true]), IniStep::Done(Some(IniLocation::Portable)));
    assert_eq!(resolve(&[false, false, false, false]), IniStep::CreateUserDir);
    assert_eq!(resolve(&[false, false, false, false, false]), IniStep::Done(None));
    assert_eq!(resolve(&[false, false, false, false, true, true]), IniStep::Done(Some(IniLocation::User)));
    assert_eq!(resolve(&[false, false, false, false, true, false]), IniStep::Done(None));
    assert_eq!(resolve(&[true, false, false, false]), IniStep::Done(Some(IniLocation::Override)));
}

#[test]
fn monitor_numbers_come_from_device_names() {
    assert_eq!(display_number(&device("\\\\.\\DISPLAY2")), 2);
    assert_eq!(display_number(&device("\\\\.\\DISPLAY12")), 12);
    assert_eq!(display_number(&device("\\\\.\\DISPLAY1\\DISPLAY3")), 3);
    assert_eq!(display_number(&device("\\\\.\\DISPLAY")), -1);
    assert_eq!(display_number(&device("\\\\.\\DISPLAYX")), -1);
    assert_eq!(display_number(&device("\\\\.\\MONITOR2")), -1);
    assert_eq!(display_number(&device("7")), 7);
    assert_eq!(display_number(&device("")), -1);
    assert_eq!(display_number(&[0x44, 0x49, 0x53, 0x50, 0x4C, 0x41, 0x59, 0x35]), 5);
    let mut d = device("\\\\.\\DISPLAY4");
    d[12] = 0;
    d[13] = 0x39;
    assert_eq!(display_number(&d), 4);
}

#[test]
fn work_area_prefers_the_chosen_monitor() {
    let m = Rect { left: 1920, top: 0, right: 3840, bottom: 1040 };
    let p = Rect { left: 0, top: 0, right: 1920, bottom: 1040 };
    assert_eq!(pick_work_area(2, Some(m), Some(p), 1920, 1080), m);
    assert_eq!(pick_work_area(0, Some(m), Some(p), 1920, 1080), p);
    assert_eq!(pick_work_area(3, None, Some(p), 1920, 1080), p);
    assert_eq!(
        pick_work_area(3, None, None, 1920, 1080),
        Rect { left: 0, top: 0, right: 1920, bottom: 1080 }
    );
}

#[test]
fn window_sits_in_the_top_right_corner() {
    let area = Rect { left: 0, top: 0, right: 1920, bottom: 1040 };
    let lay = Layout { w: 58, h: 16, text_x: -1, text_y: -5 };
    assert_eq!(window_position(area, lay, 0, 0), (1862, 0));
    assert_eq!(window_position(area, lay, 10, 5), (1852, 5));
}
