use devclock::dev_window::{
    duration_parts, split_hms, since, DevEvent, DevWindow, Reaction, StartStop, Stopwatch,
    TimerFlow, Toggle, NANOS_PER_SEC,
};
use devclock::app::Command;

const S: u64 = NANOS_PER_SEC;

type R = Reaction<()>;

fn flow_of(r: &R) -> TimerFlow {
    assert_eq!(r.commands.len(), 1);
    match &r.commands[0] {
        Command::SetControlFlow(f) => *f,
        _ => panic!("expected a control flow command"),
    }
}

#[test]
fn new_stopwatch_counts_nothing() {
    let w = Stopwatch::new();
    assert_eq!(w.total(123 * S), 0);
    assert!(w.marks().is_empty());
}

#[test]
fn toggle_start_stop_resume() {
    let mut w = Stopwatch::new();
    assert!(w.toggle(10 * S) == Toggle::Started);
    assert_eq!(w.total(15 * S), 5 * S as u128);
    assert!(w.toggle(20 * S) == Toggle::Stopped { total: 10 * S as u128 });
    assert_eq!(w.total(100 * S), 10 * S as u128);
    assert!(w.toggle(30 * S) == Toggle::Resumed { paused_for: 10 * S, total: 10 * S as u128 });
    assert_eq!(w.total(31 * S), 11 * S as u128);
    assert!(w.marks().clone() == vec![
        StartStop::Start(10 * S),
        StartStop::Stop(20 * S),
        StartStop::Start(30 * S),
    ]);
}

#[test]
fn stopped_total_does_not_depend_on_now() {
    let mut w = Stopwatch::new();
    w.toggle(1);
    w.toggle(8);
    assert_eq!(w.total(0), 7);
    assert_eq!(w.total(8), 7);
    assert_eq!(w.total(u64::MAX), 7);
}

#[test]
fn running_total_grows_with_now() {
    let mut w = Stopwatch::new();
    w.toggle(100);
    assert_eq!(w.total(100), 0);
    assert_eq!(w.total(150), 50);
    assert_eq!(w.total(200), 100);
    // a clock reading earlier than the start counts nothing
    assert_eq!(w.total(50), 0);
}

#[test]
fn stop_then_resume_counts_on() {
    let mut w = Stopwatch::new();
    w.toggle(0);
    w.toggle(4 * S);
    let frozen = w.total(4 * S);
    w.toggle(10 * S);
    assert_eq!(w.total(13 * S), frozen + 3 * S as u128);
}

#[test]
fn reset_forgets_everything() {
    let mut w = Stopwatch::new();
    w.toggle(1);
    w.toggle(2);
    w.toggle(3);
    w.reset();
    assert!(w.marks().is_empty());
    assert_eq!(w.total(100), 0);
}

#[test]
fn since_saturates() {
    assert_eq!(since(3, 10), 7);
    assert_eq!(since(10, 3), 0);
}

#[test]
fn hms_split() {
    let nanos = (3 * 3600 + 25 * 60 + 7) as u128 * S as u128 + 999_999_999;
    assert_eq!(split_hms(nanos), (3, 25, 7));
    assert_eq!(split_hms(0), (0, 0, 0));
    let h = 100u128 * 3600 * S as u128;
    assert_eq!(split_hms(h), (100, 0, 0));
}

#[test]
fn duration_parts_splits_and_refuses_overflow() {
    assert_eq!(duration_parts(2_500_000_000), Some((2, 500_000_000)));
    assert_eq!(duration_parts(u64::MAX as u128 * S as u128), Some((u64::MAX, 0)));
    assert_eq!(duration_parts((u64::MAX as u128 + 1) * S as u128), None);
}

#[test]
fn mark_names() {
    assert_eq!(StartStop::Start(1).name(), "Start");
    assert_eq!(StartStop::Stop(1).name(), "Stop");
}

#[test]
fn frame_of_fresh_window() {
    let w = DevWindow::new(7, 640, 480);
    let f = w.frame(5 * S);
    assert_eq!(f.text, "0:0:0\n[]");
    assert_eq!(f.right, 640);
    assert_eq!(f.bottom, 480);
}

#[test]
fn frame_shows_time_and_marks() {
    let mut w = DevWindow::new(7, 640, 480);
    let _: R = w.window_event(DevEvent::KeyPressed { text: " ".to_string() }, 0);
    let _: R = w.window_event(DevEvent::KeyPressed { text: " ".to_string() }, 3725 * S);
    let _: R = w.window_event(DevEvent::KeyPressed { text: " ".to_string() }, 4000 * S);
    let f = w.frame(4001 * S);
    assert_eq!(f.text, "1:2:6\n[Start, Stop, Start]");
}

#[test]
fn frame_bounds_wrap_like_a_cast() {
    let w = DevWindow::new(1, u32::MAX, 0x8000_0000);
    let f = w.frame(0);
    assert_eq!(f.right, -1);
    assert_eq!(f.bottom, i32::MIN);
}

#[test]
fn space_first_start_waits_one_second() {
    let mut w = DevWindow::new(7, 10, 10);
    let r: R = w.window_event(DevEvent::KeyPressed { text: " ".to_string() }, 5);
    assert!(r.request_redraw);
    assert!(r.print.is_none());
    assert!(flow_of(&r) == TimerFlow::WaitFor { nanos: S });
    assert!(w.stopwatch.marks().clone() == vec![StartStop::Start(5)]);
}

#[test]
fn space_stop_prints_total_and_waits() {
    let mut w = DevWindow::new(7, 10, 10);
    let _: R = w.window_event(DevEvent::KeyPressed { text: " ".to_string() }, 0);
    let r: R = w.window_event(DevEvent::KeyPressed { text: " ".to_string() }, (3600 + 61) * S);
    assert_eq!(r.print.as_deref(), Some("total 1h 1m 1s"));
    assert!(flow_of(&r) == TimerFlow::Wait);
    assert!(r.request_redraw);
}

#[test]
fn space_resume_prints_pause_and_waits_to_next_tick() {
    let mut w = DevWindow::new(7, 10, 10);
    let _: R = w.window_event(DevEvent::KeyPressed { text: " ".to_string() }, 0);
    let _: R = w.window_event(DevEvent::KeyPressed { text: " ".to_string() }, 2 * S + 300);
    let r: R = w.window_event(DevEvent::KeyPressed { text: " ".to_string() }, 62 * S + 300);
    assert_eq!(r.print.as_deref(), Some("stopped for 0h 1m 0s"));
    assert!(flow_of(&r) == TimerFlow::WaitRemainder { whole_secs: 2, elapsed_nanos: 2 * S as u128 + 300 });
}

#[test]
fn r_resets_and_redraws() {
    let mut w = DevWindow::new(7, 10, 10);
    let _: R = w.window_event(DevEvent::KeyPressed { text: " ".to_string() }, 0);
    let r: R = w.window_event(DevEvent::KeyPressed { text: "r".to_string() }, 9);
    assert!(r.request_redraw);
    assert!(r.commands.is_empty());
    assert!(r.print.is_none());
    assert!(w.stopwatch.marks().is_empty());
}

#[test]
fn other_keys_do_nothing() {
    let mut w = DevWindow::new(7, 10, 10);
    let r: R = w.window_event(DevEvent::KeyPressed { text: "x".to_string() }, 9);
    assert!(!r.request_redraw && r.commands.is_empty() && r.print.is_none() && !r.drag_window);
    let r: R = w.window_event(DevEvent::KeyPressed { text: "  ".to_string() }, 9);
    assert!(!r.request_redraw && r.commands.is_empty());
    assert!(w.stopwatch.marks().is_empty());
}

#[test]
fn mouse_drags() {
    let mut w = DevWindow::new(7, 10, 10);
    let r: R = w.window_event(DevEvent::MousePressed, 0);
    assert!(r.drag_window);
    assert!(r.commands.is_empty() && !r.request_redraw);
}

#[test]
fn resize_records_size() {
    let mut w = DevWindow::new(7, 10, 10);
    let r: R = w.window_event(DevEvent::Resized { width: 800, height: 600 }, 0);
    assert_eq!(r.reconfigure, Some((800, 600)));
    assert_eq!((w.width, w.height), (800, 600));
    let f = w.frame(0);
    assert_eq!((f.right, f.bottom), (800, 600));
}

#[test]
fn redraw_draws_frame() {
    let mut w = DevWindow::new(7, 30, 40);
    let r: R = w.window_event(DevEvent::RedrawRequested, 0);
    let f = r.frame.expect("a frame");
    assert_eq!(f.text, "0:0:0\n[]");
    assert_eq!((f.right, f.bottom), (30, 40));
}

#[test]
fn close_removes_own_window() {
    let mut w = DevWindow::new(42, 30, 40);
    let r: R = w.window_event(DevEvent::CloseRequested, 0);
    assert_eq!(r.commands.len(), 1);
    assert!(matches!(r.commands[0], Command::RemoveWindow(42)));
}

#[test]
fn other_events_do_nothing() {
    let mut w = DevWindow::new(42, 30, 40);
    let r: R = w.window_event(DevEvent::Other, 0);
    assert!(r.commands.is_empty() && r.frame.is_none() && r.reconfigure.is_none());
}

#[test]
fn new_events_tick() {
    let mut w = DevWindow::new(42, 30, 40);
    let _: R = w.window_event(DevEvent::KeyPressed { text: " ".to_string() }, 0);
    let r: R = w.new_events(true, 3 * S + 250_000_000);
    assert!(r.request_redraw);
    assert!(flow_of(&r) == TimerFlow::WaitRemainder { whole_secs: 1, elapsed_nanos: 3_250_000_000 });
    let r: R = w.new_events(false, 3 * S);
    assert!(!r.request_redraw && r.commands.is_empty());
}

#[test]
fn instant_start_stop_counts_nothing() {
    let mut w = Stopwatch::new();
    w.toggle(0);
    w.toggle(5 * S);
    let before = w.total(9 * S);
    w.toggle(7 * S);
    w.toggle(7 * S);
    assert_eq!(w.total(9 * S), before);
    assert_eq!(w.total(u64::MAX), before);
}
