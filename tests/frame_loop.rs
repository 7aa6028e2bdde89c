use bee2d::frame::{wait_span, FrameScheduler, FrameStep, Phase, WindowProps};

fn props(width: i32, height: i32, title: &str) -> WindowProps {
    WindowProps { width, height, title: title.to_string() }
}

fn running() -> FrameScheduler {
    let mut s = FrameScheduler::new(props(800, 800, "Bee2D"));
    assert!(s.begin_start());
    assert!(s.finish_start(100));
    s
}

#[test]
fn scheduler_runs_through_its_phases() {
    let mut s = FrameScheduler::new(props(800, 800, "Bee2D"));
    assert_eq!(s.phase(), Phase::Uninitialized);
    assert!(matches!(s.begin_frame(5, false, &props(800, 800, "Bee2D")), FrameStep::Idle));
    assert!(!s.finish_start(5));
    assert!(s.begin_start());
    assert_eq!(s.phase(), Phase::Starting);
    assert!(!s.begin_start());
    assert!(s.finish_start(100));
    assert_eq!(s.phase(), Phase::Running);
    assert!(matches!(s.begin_frame(400, true, &props(800, 800, "Bee2D")), FrameStep::Stop));
    assert_eq!(s.phase(), Phase::Stopped);
    assert!(matches!(s.begin_frame(500, false, &props(800, 800, "Bee2D")), FrameStep::Idle));
}

#[test]
fn frame_step_measures_time_since_last_frame() {
    let mut s = running();
    let same = props(800, 800, "Bee2D");
    match s.begin_frame(250, false, &same) {
        FrameStep::Run { delta_nanos, resize, retitle } => {
            assert_eq!(delta_nanos, 150);
            assert_eq!(resize, None);
            assert_eq!(retitle, None);
        }
        _ => panic!("expected a frame"),
    }
    match s.begin_frame(1000, false, &same) {
        FrameStep::Run { delta_nanos, .. } => assert_eq!(delta_nanos, 750),
        _ => panic!("expected a frame"),
    }
    match s.begin_frame(900, false, &same) {
        FrameStep::Run { delta_nanos, .. } => assert_eq!(delta_nanos, 0),
        _ => panic!("expected a frame"),
    }
}

#[test]
fn window_changes_are_applied_once() {
    let mut s = running();
    let wanted = props(640, 800, "Game");
    match s.begin_frame(200, false, &wanted) {
        FrameStep::Run { resize, retitle, .. } => {
            assert_eq!(resize, Some((640, 800)));
            assert_eq!(retitle, Some(String::from("Game")));
        }
        _ => panic!("expected a frame"),
    }
    match s.begin_frame(300, false, &wanted) {
        FrameStep::Run { resize, retitle, .. } => {
            assert_eq!(resize, None);
            assert_eq!(retitle, None);
        }
        _ => panic!("expected a frame"),
    }
}

#[test]
fn failure_stops_the_loop() {
    let mut s = running();
    s.fail();
    assert_eq!(s.phase(), Phase::Stopped);
    assert!(!s.begin_start());
}

#[test]
fn wait_spans() {
    assert_eq!(wait_span(0, true), (0, 16_666_667));
    assert_eq!(wait_span(3, false), (3, 0));
    assert_eq!(wait_span(0, false), (0, 0));
}
