use connector::computer::batch::{Batch, Todo};
use connector::computer::unix;
use connector::computer::windows;
use connector::computer::{
    key, validate, Action, Button, Capability, Desktop, Direction, Frame, Geometry, Modifier, Point,
};

fn frame() -> Frame {
    Frame {
        geometry: Geometry { x: -1920, y: -100, width: 3840, height: 2160 },
        width: 1920,
        height: 1080,
    }
}

#[test]
fn maps_scaled_screenshot_with_negative_desktop_origin() {
    let frame = frame();
    assert_eq!(frame.point(Point { x: 100, y: 200 }).unwrap(), (-1720, 300));
    assert!(frame.point(Point { x: 1920, y: 0 }).is_err());
    assert!(validate(&vec![Action::Move { x: 1, y: 1 }], None).is_err());
    assert!(validate(
        &vec![Action::Key { keys: vec!["CTRL".to_string(), "A".to_string()] }],
        None
    )
    .is_ok());
    assert!(validate(
        &vec![Action::Type { text: "ok".to_string() }, Action::Wait { ms: 5001 }],
        None
    )
    .is_err());
}

#[test]
fn input_abi_and_virtual_desktop_pixel_mapping() {
    assert_eq!(
        std::mem::size_of::<windows::Input>(),
        if std::mem::size_of::<usize>() == 8 { 40 } else { 28 }
    );
    let geometry = Geometry { x: -1920, y: -200, width: 5760, height: 2160 };
    for point in [(-1920, -200), (-1919, -199), (0, 0), (3839, 1959)] {
        let (x, y) = windows::absolute_coordinates(geometry, point).unwrap();
        assert_eq!(
            i64::from(x) * i64::from(geometry.width) / 65_536,
            i64::from(point.0 - geometry.x)
        );
        assert_eq!(
            i64::from(y) * i64::from(geometry.height) / 65_536,
            i64::from(point.1 - geometry.y)
        );
    }
}

#[test]
fn units_lead_back_to_every_pixel_of_common_desktops() {
    for width in [1u32, 2, 800, 1920, 3840, 5760, 32_769] {
        let geometry = Geometry { x: 5, y: 0, width, height: 1 };
        for at in [0, 1, width / 2, width - 1] {
            let at = at.min(width - 1);
            let (x, _) = windows::absolute_coordinates(geometry, (5 + at as i32, 0)).unwrap();
            assert_eq!(i64::from(x) * i64::from(width) / 65_536, i64::from(at));
        }
    }
}

#[test]
fn names_of_keys_are_known() {
    assert_eq!(key("CTRL").unwrap().x11, "Control_L");
    assert_eq!(key("F12").unwrap().windows, 0x7b);
    assert!(key("F13").is_err());
    assert_eq!(key("A").unwrap().windows, 0x41);
    assert_eq!(key("ENTER").unwrap().windows, 0x0d);
    assert!(key("NO SUCH KEY").is_err());
    assert_eq!(Modifier::Super.name(), "SUPER");
}

#[test]
fn bad_actions_are_refused_before_anything_is_done() {
    let click = |count: u8| Action::Click {
        x: 1,
        y: 1,
        button: Button::Left,
        count,
        modifiers: Vec::new(),
    };
    assert!(validate(&vec![click(1)], Some(frame())).is_ok());
    assert!(validate(&vec![click(0)], Some(frame())).is_err());
    assert!(validate(&vec![click(4)], Some(frame())).is_err());
    let many: Vec<Action> = (0..33).map(|_| Action::Wait { ms: 1 }).collect();
    assert!(validate(&many, None).is_err());
    let scroll = Action::Scroll {
        x: 1,
        y: 1,
        direction: Direction::Up,
        amount: 0,
        modifiers: Vec::new(),
    };
    assert!(validate(&vec![scroll], Some(frame())).is_err());
    let mut batch = Batch::start(vec![Action::Move { x: 5000, y: 0 }], Some(frame()));
    assert!(batch.poll(false, 0) == Todo::Finish);
    assert_eq!(batch.completed, 0);
    assert!(batch.report().is_some());
}

#[test]
fn batches_run_in_order_and_stop_when_cancelled() {
    let actions = || vec![Action::Wait { ms: 7 }, Action::Move { x: 1, y: 1 }];
    let mut batch = Batch::start(actions(), Some(frame()));
    assert!(batch.poll(false, 0) == Todo::Wait(7));
    batch.waited(false);
    assert_eq!(batch.completed, 1);
    assert!(batch.poll(false, 8) == Todo::Measure);
    assert!(matches!(batch.current(), Action::Move { x: 1, y: 1 }));
    let used = batch.measured(Some(frame()), Ok(frame().geometry), false);
    assert!(used.is_some());
    batch.executed(Ok(()));
    assert!(batch.poll(false, 9) == Todo::Finish);
    assert_eq!(batch.completed, 2);
    assert!(batch.report().is_none());
    let output = batch.output(Err("no screen".to_string()));
    assert_eq!(output.completed, 2);
    assert!(output.screenshot.is_err());

    let mut batch = Batch::start(actions(), Some(frame()));
    assert!(batch.poll(true, 0) == Todo::Finish);
    assert_eq!(batch.completed, 0);
    assert!(batch.report().is_some());
}

#[test]
fn a_changed_desktop_stops_a_batch() {
    let mut batch = Batch::start(vec![Action::Move { x: 1, y: 1 }], Some(frame()));
    assert!(batch.poll(false, 0) == Todo::Measure);
    let other = Geometry { x: 0, y: 0, width: 10, height: 10 };
    assert!(batch.measured(Some(frame()), Ok(other), false).is_none());
    assert!(batch.report().is_some());
}

#[test]
fn long_batches_run_out_of_time() {
    let mut batch = Batch::start(vec![Action::Type { text: "a".to_string() }], None);
    assert!(batch.poll(false, 30_001) == Todo::Finish);
    assert!(batch.report().is_some());
}

#[test]
fn every_key_that_goes_down_comes_up() {
    let action = Action::Click {
        x: 0,
        y: 0,
        button: Button::Left,
        count: 2,
        modifiers: vec![Modifier::Ctrl],
    };
    let mut run = unix::Run::start(unix::plan(&action, frame()));
    let mut commands: Vec<Vec<String>> = Vec::new();
    while run.phase != unix::Phase::Over {
        commands.push(run.next_command().0);
        run.advance(Ok(()));
    }
    assert!(run.finish().is_ok());
    let lines: Vec<String> = commands.iter().map(|c| c.join(" ")).collect();
    assert_eq!(
        lines,
        [
            "keydown Control_L",
            "mousemove -1920 -100",
            "click --repeat 2 --delay 80 1",
            "mouseup 1 keyup Control_L",
        ]
    );
}

#[test]
fn a_failed_command_releases_what_is_held() {
    let action = Action::Key { keys: vec!["CTRL".to_string(), "A".to_string()] };
    let mut run = unix::Run::start(unix::plan(&action, frame()));
    let first = run.next_command().0;
    assert!(first.contains(&"keydown".to_string()), "{:?}", first);
    run.advance(Ok(()));
    run.advance(Err("lost".to_string()));
    let mut released = false;
    while run.phase != unix::Phase::Over {
        released = released || run.next_command().0.contains(&"keyup".to_string());
        run.advance(Ok(()));
    }
    assert!(released);
    assert_eq!(run.finish().unwrap_err(), "lost");
}

#[test]
fn windows_input_is_released_in_reverse() {
    let action = Action::Key { keys: vec!["CTRL".to_string(), "A".to_string()] };
    let mut run = windows::Run::start(windows::plan(&action, frame()));
    let mut keys: Vec<(u16, bool)> = Vec::new();
    while run.phase != windows::Phase::Over {
        if let windows::Todo::Send(windows::Input::Keyboard(input)) = run.next_todo() {
            keys.push((input.virtual_key, input.flags & windows::KEY_UP != 0));
        }
        run.advance(Ok(()));
    }
    assert!(run.finish().is_ok());
    assert_eq!(keys, [(0x11, false), (0x41, false), (0x41, true), (0x11, true)]);
}

#[test]
fn desktops_are_measured() {
    let whole = Geometry { x: 0, y: 0, width: 1920, height: 1080 };
    assert_eq!(unix::geometry_of(&b"1920 1080\n".to_vec()).unwrap(), whole);
    assert_eq!(unix::geometry_of(&b"\xff 1920 1080\n".to_vec()).unwrap(), whole);
    assert!(unix::geometry_of(&b"1920\xff 1080\n".to_vec()).is_err());
    assert_eq!(unix::display_size("1920 1080\n").unwrap(), whole);
    assert!(unix::display_size("1920\n").is_err());
    assert!(unix::display_size("0 1080\n").is_err());
    assert!(unix::check_session(true, false, true).is_err());
    assert!(unix::check_session(false, false, false).is_err());
    assert!(unix::check_session(false, false, true).is_ok());
    assert_eq!(
        windows::geometry_of(-5, 0, 10, 20),
        Some(Geometry { x: -5, y: 0, width: 10, height: 20 })
    );
    assert_eq!(windows::geometry_of(0, 0, 0, 20), None);
    assert!(windows::check_desktop_name("Default").is_ok());
    assert!(windows::check_desktop_name("Winlogon").is_err());
    assert!(windows::check_geometry(frame().geometry, frame()).is_ok());
}

#[test]
fn screenshots_map_to_the_desktop_that_they_show() {
    let g = Geometry { x: 0, y: 0, width: 100, height: 50 };
    let mut desktop = Desktop::new();
    assert!(Desktop::rechecks(Some(g), (100, 50)));
    assert!(!Desktop::rechecks(Some(g), (99, 50)));
    assert!(!Desktop::rechecks(None, (100, 50)));
    desktop.settle(Some(g), (100, 50), (50, 25), Some(g));
    assert_eq!(desktop.frame, Some(Frame { geometry: g, width: 50, height: 25 }));
    desktop.invalidate();
    assert_eq!(desktop.frame, None);
    desktop.settle(Some(g), (100, 50), (50, 25), None);
    assert_eq!(desktop.frame, None);
}

#[test]
fn capabilities_tell_why_not() {
    let none = Capability::default();
    assert!(!none.available);
    assert_eq!(none.reason.as_deref(), Some("client did not advertise desktop input"));
    let g: Result<Geometry, String> = Ok(Geometry { x: 0, y: 0, width: 1, height: 1 });
    assert!(Capability::detected(&g, false).available);
    let e: Result<Geometry, String> = Err("no display".to_string());
    assert_eq!(Capability::detected(&e, false).reason.as_deref(), Some("no display"));
    assert!(!Capability::unavailable("why").available);
}

#[test]
fn points_are_mapped_in_order() {
    let edge = Frame {
        geometry: Geometry { x: i32::MAX - 9, y: -5, width: 10, height: 7 },
        width: 25,
        height: 3,
    };
    let mut last = (i32::MIN, i32::MIN);
    for x in 0..25 {
        let now = edge.point(Point { x, y: x / 9 }).unwrap();
        assert!(now.0 >= last.0 && now.1 >= last.1);
        last = now;
    }
    assert_eq!(last.0, i32::MAX);
}
