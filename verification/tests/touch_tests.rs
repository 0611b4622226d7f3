use laphone::protocol::{parse_command, parse_u32, split_at_spaces, Command};
use laphone::touch::{
    abstract_socket_path, clamp_to_device, encode_event, encode_user_dev, hover_events,
    setup_requests, swipe_steps, tap_events, touch_events, InputEvent, ABS_MT_POSITION_X,
    ABS_MT_POSITION_Y, ABS_MT_SLOT, ABS_MT_TRACKING_ID, ABS_X, ABS_Y, BTN_LEFT, BTN_TOUCH,
    EV_ABS, EV_KEY, EV_SYN, SYN_REPORT, UI_SET_ABSBIT, UI_SET_EVBIT,
};

fn ev(ev_type: u16, code: u16, value: i32) -> InputEvent {
    InputEvent { ev_type, code, value }
}

fn same(a: &[InputEvent], b: &[InputEvent]) -> bool {
    a.len() == b.len()
        && a.iter().zip(b).all(|(x, y)| x.ev_type == y.ev_type && x.code == y.code && x.value == y.value)
}

#[test]
fn clamps_onto_the_surface() {
    assert_eq!(clamp_to_device(-5, 30000), (0, 23999));
    assert_eq!(clamp_to_device(20000, -1), (10799, 0));
    assert_eq!(clamp_to_device(5400, 12000), (5400, 12000));
}

#[test]
fn touch_down_and_up_reports() {
    let down = touch_events(true, 5400, 12000);
    assert!(same(
        &down,
        &[
            ev(EV_ABS, ABS_X, 5400),
            ev(EV_ABS, ABS_Y, 12000),
            ev(EV_ABS, ABS_MT_SLOT, 0),
            ev(EV_ABS, ABS_MT_TRACKING_ID, 1),
            ev(EV_ABS, ABS_MT_POSITION_X, 5400),
            ev(EV_ABS, ABS_MT_POSITION_Y, 12000),
            ev(EV_KEY, BTN_TOUCH, 1),
            ev(EV_KEY, BTN_LEFT, 1),
            ev(EV_SYN, SYN_REPORT, 0),
        ]
    ));
    let up = touch_events(false, 99999, -3);
    assert!(same(
        &up,
        &[
            ev(EV_ABS, ABS_X, 10799),
            ev(EV_ABS, ABS_Y, 0),
            ev(EV_ABS, ABS_MT_SLOT, 0),
            ev(EV_ABS, ABS_MT_TRACKING_ID, -1),
            ev(EV_KEY, BTN_TOUCH, 0),
            ev(EV_KEY, BTN_LEFT, 0),
            ev(EV_SYN, SYN_REPORT, 0),
        ]
    ));
}

#[test]
fn hover_and_tap() {
    let h = hover_events(10, 20);
    assert!(same(
        &h,
        &[
            ev(EV_ABS, ABS_X, 10),
            ev(EV_ABS, ABS_Y, 20),
            ev(EV_ABS, ABS_MT_SLOT, 0),
            ev(EV_ABS, ABS_MT_POSITION_X, 10),
            ev(EV_ABS, ABS_MT_POSITION_Y, 20),
            ev(EV_SYN, SYN_REPORT, 0),
        ]
    ));
    let t = tap_events(10, 20);
    let mut expect = touch_events(true, 10, 20);
    expect.extend(touch_events(false, 10, 20));
    assert!(same(&t, &expect));
    assert_eq!(t.len(), 16);
}

#[test]
fn swipe_step_count() {
    assert_eq!(swipe_steps(0), 1);
    assert_eq!(swipe_steps(15), 1);
    assert_eq!(swipe_steps(120), 7);
    assert_eq!(swipe_steps(160), 10);
}

#[test]
fn event_bytes() {
    let b = encode_event(&ev(EV_ABS, ABS_MT_TRACKING_ID, -1));
    let mut expect = vec![0u8; 16];
    expect.extend_from_slice(&[3, 0, 0x39, 0, 0xff, 0xff, 0xff, 0xff]);
    assert_eq!(b, expect);
    let b = encode_event(&ev(EV_KEY, BTN_TOUCH, 1));
    assert_eq!(&b[16..], &[1, 0, 0x4a, 1, 1, 0, 0, 0]);
    let b = encode_event(&ev(EV_ABS, ABS_Y, 23999));
    assert_eq!(&b[16..], &[3, 0, 1, 0, 0xbf, 0x5d, 0, 0]);
}

#[test]
fn user_dev_record() {
    let b = encode_user_dev();
    assert_eq!(b.len(), 1116);
    assert_eq!(&b[..13], b"laphone-touch");
    assert!(b[13..80].iter().all(|&x| x == 0));
    assert_eq!(&b[80..92], &[1, 0, 0x50, 0x4c, 0x43, 0x54, 0, 0, 0, 0, 0, 0]);
    let absmax = |code: usize| {
        let o = 92 + 4 * code;
        i32::from_le_bytes([b[o], b[o + 1], b[o + 2], b[o + 3]])
    };
    assert_eq!(absmax(0x00), 10799);
    assert_eq!(absmax(0x01), 23999);
    assert_eq!(absmax(0x2f), 9);
    assert_eq!(absmax(0x39), 0xffff);
    assert_eq!(absmax(0x35), 10799);
    assert_eq!(absmax(0x36), 23999);
    assert_eq!(absmax(0x02), 0);
    assert!(b[348..].iter().all(|&x| x == 0));
}

#[test]
fn setup_request_order() {
    let r = setup_requests();
    assert_eq!(r.len(), 10);
    assert_eq!((r[0].request, r[0].arg), (UI_SET_EVBIT, 1));
    assert_eq!((r[1].request, r[1].arg), (UI_SET_EVBIT, 3));
    assert_eq!((r[9].request, r[9].arg), (UI_SET_ABSBIT, 0x36));
}

#[test]
fn socket_path() {
    assert_eq!(abstract_socket_path(b"laphone_input", 108), b"\0laphone_input".to_vec());
}

#[test]
fn splitting_keeps_empty_pieces() {
    assert_eq!(split_at_spaces(b""), vec![Vec::<u8>::new()]);
    assert_eq!(
        split_at_spaces(b"tap  1"),
        vec![b"tap".to_vec(), Vec::new(), b"1".to_vec()]
    );
}

#[test]
fn u32_reading() {
    assert_eq!(parse_u32(b"120"), Some(120));
    assert_eq!(parse_u32(b"+7"), Some(7));
    assert_eq!(parse_u32(b"4294967295"), Some(u32::MAX));
    assert_eq!(parse_u32(b"4294967296"), None);
    assert_eq!(parse_u32(b"99999999999x"), None);
    assert_eq!(parse_u32(b""), None);
    assert_eq!(parse_u32(b"+"), None);
    assert_eq!(parse_u32(b"-1"), None);
    assert_eq!(parse_u32(b"1.5"), None);
    for s in ["0", "17", "+000", "65536", "abc", "  3"] {
        assert_eq!(parse_u32(s.as_bytes()), s.parse::<u32>().ok());
    }
}

#[test]
fn commands() {
    match parse_command(b"screen 1080 2400") {
        Command::Screen { w, h } => {
            assert_eq!(w, b"1080".to_vec());
            assert_eq!(h, b"2400".to_vec());
        }
        _ => panic!("screen"),
    }
    match parse_command(b"tap 10.5 20 extra") {
        Command::Tap { x, y } => {
            assert_eq!(x, b"10.5".to_vec());
            assert_eq!(y, b"20".to_vec());
        }
        _ => panic!("tap"),
    }
    assert!(matches!(parse_command(b"down 1 2"), Command::Down { .. }));
    assert!(matches!(parse_command(b"move 1 2"), Command::Move { .. }));
    assert!(matches!(parse_command(b"up 1 2"), Command::Up { .. }));
    match parse_command(b"swipe 1 2 3 4 300") {
        Command::Swipe { x1, y2, dur_ms, .. } => {
            assert_eq!(x1, b"1".to_vec());
            assert_eq!(y2, b"4".to_vec());
            assert_eq!(dur_ms, 300);
        }
        _ => panic!("swipe"),
    }
    match parse_command(b"swipe 1 2 3 4 fast") {
        Command::Swipe { dur_ms, .. } => assert_eq!(dur_ms, 120),
        _ => panic!("swipe default"),
    }
    assert!(matches!(parse_command(b"swipe 1 2 3 4"), Command::Ignore));
    assert!(matches!(parse_command(b"tap 1"), Command::Ignore));
    assert!(matches!(parse_command(b"TAP 1 2"), Command::Ignore));
    assert!(matches!(parse_command(b""), Command::Ignore));
    assert!(matches!(parse_command(b"hello world again"), Command::Ignore));
}

#[test]
fn split_pieces_rejoin_to_the_line() {
    let line = b" swipe  1 2 ";
    let parts = split_at_spaces(line);
    assert!(parts.iter().all(|p| !p.contains(&b' ')));
    assert_eq!(parts.join(&b' '), line.to_vec());
}

#[test]
fn tap_command_numbers_read_back() {
    let text = laphone::mirror::tap_command(540, 1200);
    let parts = split_at_spaces(&text);
    assert_eq!(parts.len(), 4);
    assert_eq!(parse_u32(&parts[2]), Some(540));
    assert_eq!(parse_u32(&parts[3]), Some(1200));
    let size = laphone::mirror::recorder_size_arg();
    assert_eq!(parse_u32(&size[..4]), Some(1080));
}
