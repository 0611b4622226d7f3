//! The virtual touchscreen of the on-phone input server: the uinput device
//! record, the kernel input events that each gesture emits, and their bytes.
use vstd::prelude::*;

verus! {

/// Event type: key or button.
pub const EV_KEY: u16 = 0x01;
/// Event type: absolute axis.
pub const EV_ABS: u16 = 0x03;
/// Event type: synchronisation.
pub const EV_SYN: u16 = 0x00;
/// Button: touching the surface.
pub const BTN_TOUCH: u16 = 0x14a;
/// Button: left mouse button.
pub const BTN_LEFT: u16 = 0x110;
/// Axis: legacy X.
pub const ABS_X: u16 = 0x00;
/// Axis: legacy Y.
pub const ABS_Y: u16 = 0x01;
/// Axis: multi-touch slot.
pub const ABS_MT_SLOT: u16 = 0x2f;
/// Axis: multi-touch tracking id.
pub const ABS_MT_TRACKING_ID: u16 = 0x39;
/// Axis: multi-touch X.
pub const ABS_MT_POSITION_X: u16 = 0x35;
/// Axis: multi-touch Y.
pub const ABS_MT_POSITION_Y: u16 = 0x36;
/// Synchronisation code: end of one report.
pub const SYN_REPORT: u16 = 0x00;

/// `ioctl` request: enable an event type.
pub const UI_SET_EVBIT: i32 = 0x40045564;
/// `ioctl` request: enable a key code.
pub const UI_SET_KEYBIT: i32 = 0x40045565;
/// `ioctl` request: enable an absolute axis.
pub const UI_SET_ABSBIT: i32 = 0x40045567;
/// `ioctl` request: create the device.
pub const UI_DEV_CREATE: i32 = 0x5501;
/// `ioctl` request: destroy the device.
pub const UI_DEV_DESTROY: i32 = 0x5502;

/// Largest device X: ten device units per display pixel.
pub const DEV_MAX_X: i32 = 10799;
/// Largest device Y: ten device units per display pixel.
pub const DEV_MAX_Y: i32 = 23999;

/// One kernel input event, without its timestamp.
#[derive(PartialEq, Eq, Structural)]
pub struct InputEvent {
    pub ev_type: u16,
    pub code: u16,
    pub value: i32,
}

/// The event of type `t`, code `c` and value `v`.
pub open spec fn event(t: u16, c: u16, v: int) -> InputEvent {
    InputEvent { ev_type: t, code: c, value: v as i32 }
}

fn mk(ev_type: u16, code: u16, value: i32) -> (e: InputEvent)
    ensures
        e == event(ev_type, code, value as int),
{
    InputEvent { ev_type, code, value }
}

/// `v` brought into `[lo, hi]`.
pub open spec fn clamp(v: int, lo: int, hi: int) -> int {
    if v < lo {
        lo
    } else if v > hi {
        hi
    } else {
        v
    }
}

/// Device coordinates brought onto the surface: X into `[0, DEV_MAX_X]`,
/// Y into `[0, DEV_MAX_Y]`.
pub fn clamp_to_device(dx: i32, dy: i32) -> (c: (i32, i32))
    ensures
        c.0 == clamp(dx as int, 0, DEV_MAX_X as int),
        c.1 == clamp(dy as int, 0, DEV_MAX_Y as int),
{
    let x = if dx < 0 {
        0
    } else if dx > DEV_MAX_X {
        DEV_MAX_X
    } else {
        dx
    };
    let y = if dy < 0 {
        0
    } else if dy > DEV_MAX_Y {
        DEV_MAX_Y
    } else {
        dy
    };
    (x, y)
}

/// The report of one touch at on-surface device point `(x, y)`: both the
/// legacy axes (read in pointer mode) and, on slot 0 of multi-touch
/// protocol B, the tracking id (1 while down, -1 on release) with the
/// position while down; then `BTN_TOUCH` and `BTN_LEFT`, and the end of the
/// report.
pub open spec fn touch_report(down: bool, x: int, y: int) -> Seq<InputEvent> {
    let pressed: int = if down { 1 } else { 0 };
    seq![
        event(EV_ABS, ABS_X, x),
        event(EV_ABS, ABS_Y, y),
        event(EV_ABS, ABS_MT_SLOT, 0),
    ] + (if down {
        seq![
            event(EV_ABS, ABS_MT_TRACKING_ID, 1),
            event(EV_ABS, ABS_MT_POSITION_X, x),
            event(EV_ABS, ABS_MT_POSITION_Y, y),
        ]
    } else {
        seq![event(EV_ABS, ABS_MT_TRACKING_ID, -1)]
    }) + seq![
        event(EV_KEY, BTN_TOUCH, pressed),
        event(EV_KEY, BTN_LEFT, pressed),
        event(EV_SYN, SYN_REPORT, 0),
    ]
}

/// The report that moves the pointer to on-surface device point `(x, y)`
/// without pressing anything.
pub open spec fn hover_report(x: int, y: int) -> Seq<InputEvent> {
    seq![
        event(EV_ABS, ABS_X, x),
        event(EV_ABS, ABS_Y, y),
        event(EV_ABS, ABS_MT_SLOT, 0),
        event(EV_ABS, ABS_MT_POSITION_X, x),
        event(EV_ABS, ABS_MT_POSITION_Y, y),
        event(EV_SYN, SYN_REPORT, 0),
    ]
}

/// The events of a touch (down or release) at device point `(dx, dy)`,
/// clamped onto the surface.
pub fn touch_events(down: bool, dx: i32, dy: i32) -> (evs: Vec<InputEvent>)
    ensures
        evs@ == touch_report(
            down,
            clamp(dx as int, 0, DEV_MAX_X as int),
            clamp(dy as int, 0, DEV_MAX_Y as int),
        ),
{
    let (x, y) = clamp_to_device(dx, dy);
    let pressed: i32 = if down {
        1
    } else {
        0
    };
    let mut evs: Vec<InputEvent> = Vec::new();
    evs.push(mk(EV_ABS, ABS_X, x));
    evs.push(mk(EV_ABS, ABS_Y, y));
    evs.push(mk(EV_ABS, ABS_MT_SLOT, 0));
    if down {
        evs.push(mk(EV_ABS, ABS_MT_TRACKING_ID, 1));
        evs.push(mk(EV_ABS, ABS_MT_POSITION_X, x));
        evs.push(mk(EV_ABS, ABS_MT_POSITION_Y, y));
    } else {
        evs.push(mk(EV_ABS, ABS_MT_TRACKING_ID, -1));
    }
    evs.push(mk(EV_KEY, BTN_TOUCH, pressed));
    evs.push(mk(EV_KEY, BTN_LEFT, pressed));
    evs.push(mk(EV_SYN, SYN_REPORT, 0));
    assert(evs@ =~= touch_report(down, x as int, y as int));
    evs
}

/// The events that move the pointer to device point `(dx, dy)`, clamped
/// onto the surface, without pressing anything.
pub fn hover_events(dx: i32, dy: i32) -> (evs: Vec<InputEvent>)
    ensures
        evs@ == hover_report(
            clamp(dx as int, 0, DEV_MAX_X as int),
            clamp(dy as int, 0, DEV_MAX_Y as int),
        ),
{
    let (x, y) = clamp_to_device(dx, dy);
    let mut evs: Vec<InputEvent> = Vec::new();
    evs.push(mk(EV_ABS, ABS_X, x));
    evs.push(mk(EV_ABS, ABS_Y, y));
    evs.push(mk(EV_ABS, ABS_MT_SLOT, 0));
    evs.push(mk(EV_ABS, ABS_MT_POSITION_X, x));
    evs.push(mk(EV_ABS, ABS_MT_POSITION_Y, y));
    evs.push(mk(EV_SYN, SYN_REPORT, 0));
    assert(evs@ =~= hover_report(x as int, y as int));
    evs
}

/// The events of a tap at device point `(dx, dy)`, clamped onto the
/// surface: a touch down, then its release at the same point.
pub fn tap_events(dx: i32, dy: i32) -> (evs: Vec<InputEvent>)
    ensures
        evs@ == touch_report(
            true,
            clamp(dx as int, 0, DEV_MAX_X as int),
            clamp(dy as int, 0, DEV_MAX_Y as int),
        ) + touch_report(
            false,
            clamp(dx as int, 0, DEV_MAX_X as int),
            clamp(dy as int, 0, DEV_MAX_Y as int),
        ),
{
    let mut evs = touch_events(true, dx, dy);
    let mut up = touch_events(false, dx, dy);
    evs.append(&mut up);
    evs
}

/// Milliseconds between the moves of a swipe.
pub const SWIPE_STEP_MS: u32 = 16;

/// Number of moves of a swipe lasting `dur_ms`: one per
/// [`SWIPE_STEP_MS`], at least one.
pub fn swipe_steps(dur_ms: u32) -> (n: u32)
    ensures
        n == if dur_ms / SWIPE_STEP_MS >= 1 {
            dur_ms / SWIPE_STEP_MS
        } else {
            1
        },
{
    let n = dur_ms / SWIPE_STEP_MS;
    if n >= 1 {
        n
    } else {
        1
    }
}

/// Law: a touch report at an on-surface point is one complete report: it
/// ends with the end-of-report event and holds no other synchronisation;
/// every position it sets lies on the surface; both buttons read 1 exactly
/// when touching down; and the tracking id is set once, to 1 when down and
/// -1 on release.
pub proof fn lemma_touch_report_well_formed(down: bool, x: int, y: int)
    requires
        0 <= x <= DEV_MAX_X,
        0 <= y <= DEV_MAX_Y,
    ensures
        touch_report(down, x, y).last() == event(EV_SYN, SYN_REPORT, 0),
        forall|i: int|
            0 <= i < touch_report(down, x, y).len() - 1 ==> #[trigger] touch_report(
                down,
                x,
                y,
            )[i].ev_type != EV_SYN,
        forall|i: int|
            0 <= i < touch_report(down, x, y).len() && #[trigger] touch_report(down, x, y)[i].ev_type
                == EV_ABS && (touch_report(down, x, y)[i].code == ABS_X || touch_report(
                down,
                x,
                y,
            )[i].code == ABS_MT_POSITION_X) ==> 0 <= touch_report(down, x, y)[i].value
                <= DEV_MAX_X,
        forall|i: int|
            0 <= i < touch_report(down, x, y).len() && #[trigger] touch_report(down, x, y)[i].ev_type
                == EV_ABS && (touch_report(down, x, y)[i].code == ABS_Y || touch_report(
                down,
                x,
                y,
            )[i].code == ABS_MT_POSITION_Y) ==> 0 <= touch_report(down, x, y)[i].value
                <= DEV_MAX_Y,
        forall|i: int|
            0 <= i < touch_report(down, x, y).len() && #[trigger] touch_report(down, x, y)[i].ev_type
                == EV_KEY ==> touch_report(down, x, y)[i].value == (if down {
                1i32
            } else {
                0i32
            }),
        forall|i: int|
            0 <= i < touch_report(down, x, y).len() && #[trigger] touch_report(down, x, y)[i].code
                == ABS_MT_TRACKING_ID ==> touch_report(down, x, y)[i].value == (if down {
                1i32
            } else {
                -1i32
            }),
{
    let r = touch_report(down, x, y);
    if down {
        assert(r.len() == 9);
    } else {
        assert(r.len() == 7);
    }
}

/// Law: a hover report at an on-surface point is one complete report that
/// sets only on-surface positions and presses nothing.
pub proof fn lemma_hover_report_well_formed(x: int, y: int)
    requires
        0 <= x <= DEV_MAX_X,
        0 <= y <= DEV_MAX_Y,
    ensures
        hover_report(x, y).last() == event(EV_SYN, SYN_REPORT, 0),
        forall|i: int|
            0 <= i < hover_report(x, y).len() - 1 ==> #[trigger] hover_report(x, y)[i].ev_type
                == EV_ABS,
        forall|i: int|
            0 <= i < hover_report(x, y).len() && (#[trigger] hover_report(x, y)[i].code == ABS_X
                || hover_report(x, y)[i].code == ABS_MT_POSITION_X) ==> 0 <= hover_report(
                x,
                y,
            )[i].value <= DEV_MAX_X,
{
    assert(hover_report(x, y).len() == 6);
}

/// Law: a touch report (down or release) at raw device point `(dx, dy)`
/// sets the X axes to exactly `dx` and the Y axes to exactly `dy` when the
/// point is on the surface, and otherwise to the nearest edge (0 below,
/// `DEV_MAX_X` / `DEV_MAX_Y` past it): the legacy axes always, and the
/// multi-touch position axes while down. No X or Y axis carries any other
/// value.
pub proof fn lemma_touch_report_places_point(down: bool, dx: i32, dy: i32)
    ensures
        ({
            let ex: int = if dx < 0 {
                0
            } else if dx > DEV_MAX_X {
                DEV_MAX_X as int
            } else {
                dx as int
            };
            let ey: int = if dy < 0 {
                0
            } else if dy > DEV_MAX_Y {
                DEV_MAX_Y as int
            } else {
                dy as int
            };
            let r = touch_report(
                down,
                clamp(dx as int, 0, DEV_MAX_X as int),
                clamp(dy as int, 0, DEV_MAX_Y as int),
            );
            &&& exists|i: int| 0 <= i < r.len() && #[trigger] r[i] == event(EV_ABS, ABS_X, ex)
            &&& exists|i: int| 0 <= i < r.len() && #[trigger] r[i] == event(EV_ABS, ABS_Y, ey)
            &&& down ==> exists|i: int|
                0 <= i < r.len() && #[trigger] r[i] == event(EV_ABS, ABS_MT_POSITION_X, ex)
            &&& down ==> exists|i: int|
                0 <= i < r.len() && #[trigger] r[i] == event(EV_ABS, ABS_MT_POSITION_Y, ey)
            &&& forall|i: int|
                0 <= i < r.len() && #[trigger] r[i].ev_type == EV_ABS && (r[i].code == ABS_X
                    || r[i].code == ABS_MT_POSITION_X) ==> r[i].value == ex
            &&& forall|i: int|
                0 <= i < r.len() && #[trigger] r[i].ev_type == EV_ABS && (r[i].code == ABS_Y
                    || r[i].code == ABS_MT_POSITION_Y) ==> r[i].value == ey
        }),
{
    let x = clamp(dx as int, 0, DEV_MAX_X as int);
    let y = clamp(dy as int, 0, DEV_MAX_Y as int);
    let r = touch_report(down, x, y);
    if down {
        assert(r.len() == 9);
        assert(r[4] == event(EV_ABS, ABS_MT_POSITION_X, x));
        assert(r[5] == event(EV_ABS, ABS_MT_POSITION_Y, y));
    } else {
        assert(r.len() == 7);
    }
    assert(r[0] == event(EV_ABS, ABS_X, x));
    assert(r[1] == event(EV_ABS, ABS_Y, y));
}

/// Law: the hover report for raw device point `(dx, dy)` moves both the
/// legacy and the multi-touch axes to exactly `dx` and `dy` when the point
/// is on the surface, and otherwise to the nearest edge; no X or Y axis
/// carries any other value, and nothing is pressed.
pub proof fn lemma_hover_report_places_point(dx: i32, dy: i32)
    ensures
        ({
            let ex: int = if dx < 0 {
                0
            } else if dx > DEV_MAX_X {
                DEV_MAX_X as int
            } else {
                dx as int
            };
            let ey: int = if dy < 0 {
                0
            } else if dy > DEV_MAX_Y {
                DEV_MAX_Y as int
            } else {
                dy as int
            };
            let r = hover_report(
                clamp(dx as int, 0, DEV_MAX_X as int),
                clamp(dy as int, 0, DEV_MAX_Y as int),
            );
            &&& exists|i: int| 0 <= i < r.len() && #[trigger] r[i] == event(EV_ABS, ABS_X, ex)
            &&& exists|i: int| 0 <= i < r.len() && #[trigger] r[i] == event(EV_ABS, ABS_Y, ey)
            &&& exists|i: int|
                0 <= i < r.len() && #[trigger] r[i] == event(EV_ABS, ABS_MT_POSITION_X, ex)
            &&& exists|i: int|
                0 <= i < r.len() && #[trigger] r[i] == event(EV_ABS, ABS_MT_POSITION_Y, ey)
            &&& forall|i: int|
                0 <= i < r.len() && #[trigger] r[i].ev_type == EV_ABS && (r[i].code == ABS_X
                    || r[i].code == ABS_MT_POSITION_X) ==> r[i].value == ex
            &&& forall|i: int|
                0 <= i < r.len() && #[trigger] r[i].ev_type == EV_ABS && (r[i].code == ABS_Y
                    || r[i].code == ABS_MT_POSITION_Y) ==> r[i].value == ey
            &&& forall|i: int| 0 <= i < r.len() ==> #[trigger] r[i].ev_type != EV_KEY
        }),
{
    let x = clamp(dx as int, 0, DEV_MAX_X as int);
    let y = clamp(dy as int, 0, DEV_MAX_Y as int);
    let r = hover_report(x, y);
    assert(r.len() == 6);
    assert(r[0] == event(EV_ABS, ABS_X, x));
    assert(r[1] == event(EV_ABS, ABS_Y, y));
    assert(r[3] == event(EV_ABS, ABS_MT_POSITION_X, x));
    assert(r[4] == event(EV_ABS, ABS_MT_POSITION_Y, y));
}

/// Little-endian bytes of a 16-bit value.
pub open spec fn le16(v: int) -> Seq<u8> {
    seq![(v % 256) as u8, ((v / 256) % 256) as u8]
}

/// Little-endian bytes of a 32-bit value.
pub open spec fn le32(v: int) -> Seq<u8> {
    seq![
        (v % 256) as u8,
        ((v / 256) % 256) as u8,
        ((v / 65536) % 256) as u8,
        ((v / 16777216) % 256) as u8,
    ]
}

/// The two's-complement 32-bit pattern of `v`.
pub open spec fn bits32(v: i32) -> int {
    if v >= 0 {
        v as int
    } else {
        v + 4294967296
    }
}

/// Appends the little-endian bytes of `v`.
fn push_le16(out: &mut Vec<u8>, v: u16)
    ensures
        final(out)@ == old(out)@ + le16(v as int),
{
    out.push((v % 256) as u8);
    out.push((v / 256) as u8);
    assert(out@ =~= old(out)@ + le16(v as int));
}

/// Appends the little-endian bytes of the two's-complement pattern of `v`.
fn push_le32(out: &mut Vec<u8>, v: i32)
    ensures
        final(out)@ == old(out)@ + le32(bits32(v)),
{
    let u: u32 = if v >= 0 {
        v as u32
    } else {
        (v as i64 + 4294967296i64) as u32
    };
    assert(u as int == bits32(v));
    out.push((u % 256) as u8);
    out.push(((u / 256) % 256) as u8);
    out.push(((u / 65536) % 256) as u8);
    out.push((u / 16777216) as u8);
    assert(out@ =~= old(out)@ + le32(bits32(v)));
}

/// Appends `n` zero bytes.
fn push_zeros(out: &mut Vec<u8>, n: usize)
    ensures
        final(out)@ == old(out)@ + Seq::new(n as nat, |i: int| 0u8),
{
    let mut k: usize = 0;
    while k < n
        invariant
            k <= n,
            out@ == old(out)@ + Seq::new(k as nat, |i: int| 0u8),
        decreases n - k,
    {
        out.push(0u8);
        k += 1;
        assert(out@ =~= old(out)@ + Seq::new(k as nat, |i: int| 0u8));
    }
}

/// Bytes of a kernel `input_event` in the 64-bit little-endian layout: a
/// zero timestamp (two 8-byte words), the type, the code and the value.
pub open spec fn event_bytes(e: InputEvent) -> Seq<u8> {
    Seq::new(16, |i: int| 0u8) + le16(e.ev_type as int) + le16(e.code as int) + le32(
        bits32(e.value),
    )
}

/// Size of a kernel `input_event` in the 64-bit layout.
pub const INPUT_EVENT_SIZE: usize = 24;

/// The bytes written to the uinput device for `e`.
pub fn encode_event(e: &InputEvent) -> (b: Vec<u8>)
    ensures
        b@ == event_bytes(*e),
        b@.len() == INPUT_EVENT_SIZE,
{
    let mut b: Vec<u8> = Vec::new();
    push_zeros(&mut b, 16);
    push_le16(&mut b, e.ev_type);
    push_le16(&mut b, e.code);
    push_le32(&mut b, e.value);
    b
}

/// Law: the bytes of an event spell back its type, code and value.
pub proof fn lemma_event_bytes_denote(e: InputEvent)
    ensures
        event_bytes(e).len() == INPUT_EVENT_SIZE,
        forall|i: int| 0 <= i < 16 ==> #[trigger] event_bytes(e)[i] == 0,
        event_bytes(e)[16] + 256 * event_bytes(e)[17] == e.ev_type,
        event_bytes(e)[18] + 256 * event_bytes(e)[19] == e.code,
        event_bytes(e)[20] + 256 * event_bytes(e)[21] + 65536 * event_bytes(e)[22] + 16777216
            * event_bytes(e)[23] == bits32(e.value),
        bits32(e.value) - (if bits32(e.value) >= 2147483648 {
            4294967296int
        } else {
            0int
        }) == e.value,
{
    let b = event_bytes(e);
    let t = e.ev_type as int;
    let c = e.code as int;
    let v = bits32(e.value);
    assert(0 <= v < 4294967296);
    assert(b[16] == (t % 256) as u8 && b[17] == ((t / 256) % 256) as u8);
    assert(b[18] == (c % 256) as u8 && b[19] == ((c / 256) % 256) as u8);
    assert(b[20] == (v % 256) as u8);
    assert(b[21] == ((v / 256) % 256) as u8);
    assert(b[22] == ((v / 65536) % 256) as u8);
    assert(b[23] == ((v / 16777216) % 256) as u8);
    assert(v % 256 + 256 * ((v / 256) % 256) + 65536 * ((v / 65536) % 256) + 16777216 * ((v
        / 16777216) % 256) == v) by (nonlinear_arith)
        requires
            0 <= v < 4294967296,
    ;
}

/// Length of the device name field of `uinput_user_dev`.
pub const DEV_NAME_LEN: usize = 80;

/// Number of axes in each range table of `uinput_user_dev`.
pub const ABS_CNT: usize = 64;

/// Size of the classic `uinput_user_dev` record.
pub const USER_DEV_SIZE: usize = 1116;

/// Bus type of the device: USB.
pub const BUS_USB: u16 = 0x01;
/// Vendor id of the device.
pub const DEV_VENDOR: u16 = 0x4c50;
/// Product id of the device.
pub const DEV_PRODUCT: u16 = 0x5443;

/// The device name, `laphone-touch`.
pub open spec fn device_name() -> Seq<u8> {
    seq![108u8, 97u8, 112u8, 104u8, 111u8, 110u8, 101u8, 45u8, 116u8, 111u8, 117u8, 99u8, 104u8]
}

/// Largest value of axis `code`: the surface size for the position axes,
/// 9 for the slot, 0xffff for the tracking id, 0 for the others.
pub open spec fn abs_max(code: int) -> i32 {
    if code == ABS_X || code == ABS_MT_POSITION_X {
        DEV_MAX_X
    } else if code == ABS_Y || code == ABS_MT_POSITION_Y {
        DEV_MAX_Y
    } else if code == ABS_MT_SLOT {
        9
    } else if code == ABS_MT_TRACKING_ID {
        0xffff
    } else {
        0
    }
}

fn abs_max_exec(code: usize) -> (m: i32)
    ensures
        m == abs_max(code as int),
{
    if code == 0x00 || code == 0x35 {
        DEV_MAX_X
    } else if code == 0x01 || code == 0x36 {
        DEV_MAX_Y
    } else if code == 0x2f {
        9
    } else if code == 0x39 {
        0xffff
    } else {
        0
    }
}

/// Bytes of the first `n` entries of the axis maximum table.
pub open spec fn abs_max_table(n: int) -> Seq<u8>
    decreases n,
{
    if n <= 0 {
        Seq::empty()
    } else {
        abs_max_table(n - 1) + le32(bits32(abs_max(n - 1)))
    }
}

proof fn lemma_abs_max_table_len(n: int)
    requires
        0 <= n,
    ensures
        abs_max_table(n).len() == 4 * n,
    decreases n,
{
    if n > 0 {
        lemma_abs_max_table_len(n - 1);
    }
}

/// The classic `uinput_user_dev` record of the virtual touchscreen, in the
/// little-endian layout: the name padded with zeros to 80 bytes; bus,
/// vendor, product and version; no force-feedback effects; the axis
/// maxima; and all-zero minima, fuzz and flat tables.
pub open spec fn user_dev_bytes() -> Seq<u8> {
    device_name() + Seq::new((DEV_NAME_LEN - device_name().len()) as nat, |i: int| 0u8) + le16(
        BUS_USB as int,
    ) + le16(DEV_VENDOR as int) + le16(DEV_PRODUCT as int) + le16(0) + le32(0) + abs_max_table(
        ABS_CNT as int,
    ) + Seq::new((3 * 4 * ABS_CNT) as nat, |i: int| 0u8)
}

/// The bytes written to `/dev/uinput` to describe the touchscreen.
pub fn encode_user_dev() -> (b: Vec<u8>)
    ensures
        b@ == user_dev_bytes(),
        b@.len() == USER_DEV_SIZE,
{
    let mut b: Vec<u8> = Vec::new();
    b.push(108u8);
    b.push(97u8);
    b.push(112u8);
    b.push(104u8);
    b.push(111u8);
    b.push(110u8);
    b.push(101u8);
    b.push(45u8);
    b.push(116u8);
    b.push(111u8);
    b.push(117u8);
    b.push(99u8);
    b.push(104u8);
    assert(b@ =~= device_name());
    push_zeros(&mut b, DEV_NAME_LEN - 13);
    push_le16(&mut b, BUS_USB);
    push_le16(&mut b, DEV_VENDOR);
    push_le16(&mut b, DEV_PRODUCT);
    push_le16(&mut b, 0);
    push_le32(&mut b, 0);
    let ghost head = b@;
    let mut code: usize = 0;
    while code < ABS_CNT
        invariant
            code <= ABS_CNT,
            b@ == head + abs_max_table(code as int),
        decreases ABS_CNT - code,
    {
        push_le32(&mut b, abs_max_exec(code));
        code += 1;
        assert(b@ =~= head + abs_max_table(code as int));
    }
    push_zeros(&mut b, 3 * 4 * ABS_CNT);
    assert(b@ =~= user_dev_bytes());
    proof {
        lemma_abs_max_table_len(ABS_CNT as int);
    }
    b
}

/// One `ioctl` of the device setup: a request and its argument.
#[derive(PartialEq, Eq, Structural)]
pub struct SetupRequest {
    pub request: i32,
    pub arg: i32,
}

/// The `ioctl` calls that enable the device's events, in order: key and
/// absolute events; the touch and left buttons; the legacy and multi-touch
/// axes.
pub open spec fn setup_requests_spec() -> Seq<SetupRequest> {
    seq![
        SetupRequest { request: UI_SET_EVBIT, arg: EV_KEY as i32 },
        SetupRequest { request: UI_SET_EVBIT, arg: EV_ABS as i32 },
        SetupRequest { request: UI_SET_KEYBIT, arg: BTN_TOUCH as i32 },
        SetupRequest { request: UI_SET_KEYBIT, arg: BTN_LEFT as i32 },
        SetupRequest { request: UI_SET_ABSBIT, arg: ABS_X as i32 },
        SetupRequest { request: UI_SET_ABSBIT, arg: ABS_Y as i32 },
        SetupRequest { request: UI_SET_ABSBIT, arg: ABS_MT_SLOT as i32 },
        SetupRequest { request: UI_SET_ABSBIT, arg: ABS_MT_TRACKING_ID as i32 },
        SetupRequest { request: UI_SET_ABSBIT, arg: ABS_MT_POSITION_X as i32 },
        SetupRequest { request: UI_SET_ABSBIT, arg: ABS_MT_POSITION_Y as i32 },
    ]
}

/// The device delivers `e`: synchronisation is always on, and any other
/// event needs its type enabled (`UI_SET_EVBIT`) and its code enabled as an
/// axis (`UI_SET_ABSBIT`) or as a key (`UI_SET_KEYBIT`).
pub open spec fn delivered(setup: Seq<SetupRequest>, e: InputEvent) -> bool {
    ||| e.ev_type == EV_SYN
    ||| {
        &&& setup.contains(SetupRequest { request: UI_SET_EVBIT, arg: e.ev_type as i32 })
        &&& e.ev_type == EV_ABS ==> setup.contains(
            SetupRequest { request: UI_SET_ABSBIT, arg: e.code as i32 },
        )
        &&& e.ev_type == EV_KEY ==> setup.contains(
            SetupRequest { request: UI_SET_KEYBIT, arg: e.code as i32 },
        )
        &&& e.ev_type == EV_ABS || e.ev_type == EV_KEY
    }
}

/// Law: the device setup enables every event that a touch, release or
/// hover report emits, at any point.
pub proof fn lemma_setup_enables_every_reported_event(down: bool, x: int, y: int)
    ensures
        forall|i: int|
            0 <= i < touch_report(down, x, y).len() ==> delivered(
                setup_requests_spec(),
                #[trigger] touch_report(down, x, y)[i],
            ),
        forall|i: int|
            0 <= i < hover_report(x, y).len() ==> delivered(
                setup_requests_spec(),
                #[trigger] hover_report(x, y)[i],
            ),
{
    let s = setup_requests_spec();
    assert(s[0] == SetupRequest { request: UI_SET_EVBIT, arg: EV_KEY as i32 });
    assert(s[1] == SetupRequest { request: UI_SET_EVBIT, arg: EV_ABS as i32 });
    assert(s[2] == SetupRequest { request: UI_SET_KEYBIT, arg: BTN_TOUCH as i32 });
    assert(s[3] == SetupRequest { request: UI_SET_KEYBIT, arg: BTN_LEFT as i32 });
    assert(s[4] == SetupRequest { request: UI_SET_ABSBIT, arg: ABS_X as i32 });
    assert(s[5] == SetupRequest { request: UI_SET_ABSBIT, arg: ABS_Y as i32 });
    assert(s[6] == SetupRequest { request: UI_SET_ABSBIT, arg: ABS_MT_SLOT as i32 });
    assert(s[7] == SetupRequest { request: UI_SET_ABSBIT, arg: ABS_MT_TRACKING_ID as i32 });
    assert(s[8] == SetupRequest { request: UI_SET_ABSBIT, arg: ABS_MT_POSITION_X as i32 });
    assert(s[9] == SetupRequest { request: UI_SET_ABSBIT, arg: ABS_MT_POSITION_Y as i32 });
    let t = touch_report(down, x, y);
    let h = hover_report(x, y);
    if down {
        assert(t.len() == 9);
    } else {
        assert(t.len() == 7);
    }
    assert(h.len() == 6);
}

/// The `ioctl` calls that enable the device's events, in order.
pub fn setup_requests() -> (r: Vec<SetupRequest>)
    ensures
        r@ == setup_requests_spec(),
{
    let mut r: Vec<SetupRequest> = Vec::new();
    r.push(SetupRequest { request: UI_SET_EVBIT, arg: EV_KEY as i32 });
    r.push(SetupRequest { request: UI_SET_EVBIT, arg: EV_ABS as i32 });
    r.push(SetupRequest { request: UI_SET_KEYBIT, arg: BTN_TOUCH as i32 });
    r.push(SetupRequest { request: UI_SET_KEYBIT, arg: BTN_LEFT as i32 });
    r.push(SetupRequest { request: UI_SET_ABSBIT, arg: ABS_X as i32 });
    r.push(SetupRequest { request: UI_SET_ABSBIT, arg: ABS_Y as i32 });
    r.push(SetupRequest { request: UI_SET_ABSBIT, arg: ABS_MT_SLOT as i32 });
    r.push(SetupRequest { request: UI_SET_ABSBIT, arg: ABS_MT_TRACKING_ID as i32 });
    r.push(SetupRequest { request: UI_SET_ABSBIT, arg: ABS_MT_POSITION_X as i32 });
    r.push(SetupRequest { request: UI_SET_ABSBIT, arg: ABS_MT_POSITION_Y as i32 });
    assert(r@ =~= setup_requests_spec());
    r
}

/// The address of an abstract Unix socket named `name`: a zero byte, then
/// the name.
pub fn abstract_socket_path(name: &[u8], capacity: usize) -> (p: Vec<u8>)
    requires
        1 + name@.len() <= capacity,
    ensures
        p@ == seq![0u8] + name@,
        p@.len() <= capacity,
{
    let mut p: Vec<u8> = Vec::new();
    p.push(0u8);
    let mut i: usize = 0;
    while i < name.len()
        invariant
            i <= name@.len(),
            p@ == seq![0u8] + name@.subrange(0, i as int),
        decreases name@.len() - i,
    {
        p.push(name[i]);
        i += 1;
        assert(p@ =~= seq![0u8] + name@.subrange(0, i as int));
    }
    assert(name@.subrange(0, name@.len() as int) =~= name@);
    p
}

} // verus!
