use laphone::mirror::{
    after_poll, on_read, on_window_event, recorder_args, recorder_size_arg, tap_args, tap_command,
    window_size, Key,
    MouseButton, PollAction, ReadEvent, ReaderAction, Session, UiAction, WindowEvent,
};

#[test]
fn tap_command_text() {
    assert_eq!(tap_command(540, 1200), b"input tap 540 1200".to_vec());
    assert_eq!(tap_command(0, -7), b"input tap 0 -7".to_vec());
    assert_eq!(tap_command(i32::MIN, i32::MAX), b"input tap -2147483648 2147483647".to_vec());
}

#[test]
fn recorder_size() {
    assert_eq!(recorder_size_arg(), b"1080x2400".to_vec());
    assert_eq!(window_size(), (540, 1200));
}

#[test]
fn window_events() {
    assert!(on_window_event(WindowEvent::Quit) == UiAction::Quit);
    assert!(on_window_event(WindowEvent::KeyDown { key: Some(Key::Escape) }) == UiAction::Quit);
    assert!(on_window_event(WindowEvent::KeyDown { key: Some(Key::Other) }) == UiAction::Ignore);
    assert!(on_window_event(WindowEvent::KeyDown { key: None }) == UiAction::Ignore);
    assert!(
        on_window_event(WindowEvent::MouseDown { button: MouseButton::Left, x: 10, y: 25 })
            == UiAction::Tap { x: 20, y: 50 }
    );
    assert!(
        on_window_event(WindowEvent::MouseDown { button: MouseButton::Other, x: 10, y: 25 })
            == UiAction::Ignore
    );
    assert!(on_window_event(WindowEvent::Other) == UiAction::Ignore);
}

#[test]
fn stall_detection() {
    assert!(after_poll(true, 9_000_000_000) == PollAction::DataArrived);
    assert!(after_poll(false, 5_000_000_000) == PollAction::Wait);
    assert!(after_poll(false, 5_000_000_001) == PollAction::Stalled);
    assert!(after_poll(false, 0) == PollAction::Wait);
}

#[test]
fn session_counts_and_reports() {
    let mut s = Session::new();
    for i in 1..=5u32 {
        assert!(s.on_decode_error());
        assert_eq!(s.decode_errors(), i);
    }
    assert!(!s.on_decode_error());
    assert_eq!(s.decode_errors(), 6);
    assert!(!s.on_frame(1));
    assert!(s.on_frame(2));
    assert_eq!(s.frames(), 2);
}

#[test]
fn reader_decisions() {
    assert!(on_read(ReadEvent::Chunk) == ReaderAction::Forward);
    assert!(on_read(ReadEvent::End) == ReaderAction::Restart);
    assert!(on_read(ReadEvent::Failed) == ReaderAction::Stop);
}

fn texts(args: Vec<Vec<u8>>) -> Vec<String> {
    args.into_iter().map(|a| String::from_utf8(a).unwrap()).collect()
}

#[test]
fn adb_argument_lists() {
    assert_eq!(
        texts(recorder_args(None)),
        vec![
            "exec-out",
            "screenrecord",
            "--output-format=h264",
            "--bit-rate",
            "8M",
            "--size",
            "1080x2400",
            "/dev/stdout"
        ]
    );
    assert_eq!(
        texts(recorder_args(Some(b"a7e77894")))[..3],
        ["-s", "a7e77894", "exec-out"]
    );
    assert_eq!(texts(tap_args(None, 20, 50)), vec!["shell", "input tap 20 50"]);
    assert_eq!(
        texts(tap_args(Some(b"X1"), -1, 0)),
        vec!["-s", "X1", "shell", "input tap -1 0"]
    );
}
