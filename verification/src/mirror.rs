//! Decisions of the mirroring client: what a window event asks for, the
//! `adb` command text it sends, when to report, retitle, or give up.
use vstd::prelude::*;

verus! {

/// Phone screen width in pixels, as recorded.
pub const PHONE_W: u32 = 1080;

/// Phone screen height in pixels, as recorded.
pub const PHONE_H: u32 = 2400;

/// The window shows the phone screen divided by this factor.
pub const SCALE: u32 = 2;

/// Decimal digits of `n`, most significant first, without leading zeros.
pub open spec fn decimal(n: nat) -> Seq<u8>
    decreases n,
{
    if n < 10 {
        seq![(48 + n) as u8]
    } else {
        decimal(n / 10).push((48 + n % 10) as u8)
    }
}

/// Appends the decimal digits of `n`.
fn push_decimal(out: &mut Vec<u8>, n: u64)
    ensures
        final(out)@ == old(out)@ + decimal(n as nat),
    decreases n,
{
    if n >= 10 {
        push_decimal(out, n / 10);
    }
    let d: u8 = (n % 10) as u8;
    out.push(48u8 + d);
    assert(out@ =~= old(out)@ + decimal(n as nat)) by {
        if n >= 10 {
            assert(decimal(n as nat) == decimal((n / 10) as nat).push((48 + n % 10) as u8));
        }
    }
}

/// The number that a string of ASCII decimal digits denotes.
pub open spec fn digits_value(s: Seq<u8>) -> int
    decreases s.len(),
{
    if s.len() == 0 {
        0
    } else {
        digits_value(s.drop_last()) * 10 + (s.last() - 48)
    }
}

/// Law: the decimal text of `n` is a nonempty string of ASCII digits,
/// whose first digit is not zero unless `n` is, and that denotes `n`.
pub proof fn lemma_decimal_denotes(n: nat)
    ensures
        decimal(n).len() > 0,
        forall|i: int| 0 <= i < decimal(n).len() ==> 48 <= #[trigger] decimal(n)[i] <= 57,
        n > 0 ==> decimal(n)[0] != 48,
        digits_value(decimal(n)) == n,
    decreases n,
{
    if n >= 10 {
        lemma_decimal_denotes(n / 10);
        let d = decimal(n);
        assert(d.drop_last() =~= decimal(n / 10));
        assert forall|i: int| 0 <= i < d.len() implies 48 <= #[trigger] d[i] <= 57 by {
            if i < d.len() - 1 {
                assert(d[i] == decimal(n / 10)[i]);
            }
        }
        assert(d[0] == decimal(n / 10)[0]);
        assert(d.last() == 48 + n % 10);
        assert((n / 10) * 10 + n % 10 == n);
    } else {
        assert(decimal(n).drop_last() =~= Seq::<u8>::empty());
        assert(digits_value(Seq::<u8>::empty()) == 0);
    }
}

/// Decimal text of a signed number: a `-` before the digits of its
/// magnitude when negative.
pub open spec fn signed_decimal(n: int) -> Seq<u8> {
    if n < 0 {
        seq![45u8] + decimal((-n) as nat)
    } else {
        decimal(n as nat)
    }
}

/// Appends the decimal text of `n`.
fn push_signed_decimal(out: &mut Vec<u8>, n: i32)
    ensures
        final(out)@ == old(out)@ + signed_decimal(n as int),
{
    if n < 0 {
        out.push(45u8);
        let m: i64 = -(n as i64);
        push_decimal(out, m as u64);
        assert(out@ =~= old(out)@ + signed_decimal(n as int));
    } else {
        push_decimal(out, n as u64);
    }
}

/// The bytes of `input tap ` (the command, then a space).
pub open spec fn input_tap_prefix() -> Seq<u8> {
    seq![105u8, 110u8, 112u8, 117u8, 116u8, 32u8, 116u8, 97u8, 112u8, 32u8]
}

/// The `adb shell` command that taps at `(x, y)`: `input tap X Y`.
pub open spec fn tap_command_text(x: int, y: int) -> Seq<u8> {
    input_tap_prefix() + signed_decimal(x) + seq![32u8] + signed_decimal(y)
}

/// The ASCII text of the `adb shell` command that taps the phone at
/// `(x, y)`.
pub fn tap_command(x: i32, y: i32) -> (t: Vec<u8>)
    ensures
        t@ == tap_command_text(x as int, y as int),
{
    let mut t: Vec<u8> = Vec::new();
    t.push(105u8);
    t.push(110u8);
    t.push(112u8);
    t.push(117u8);
    t.push(116u8);
    t.push(32u8);
    t.push(116u8);
    t.push(97u8);
    t.push(112u8);
    t.push(32u8);
    assert(t@ =~= input_tap_prefix());
    push_signed_decimal(&mut t, x);
    t.push(32u8);
    push_signed_decimal(&mut t, y);
    assert(t@ =~= tap_command_text(x as int, y as int));
    t
}

/// The recording size argument, `WxH` of the phone screen.
pub open spec fn recorder_size_text() -> Seq<u8> {
    decimal(PHONE_W as nat) + seq![120u8] + decimal(PHONE_H as nat)
}

/// The ASCII size argument handed to `screenrecord --size`.
pub fn recorder_size_arg() -> (t: Vec<u8>)
    ensures
        t@ == recorder_size_text(),
{
    let mut t: Vec<u8> = Vec::new();
    push_decimal(&mut t, PHONE_W as u64);
    t.push(120u8);
    push_decimal(&mut t, PHONE_H as u64);
    assert(t@ =~= recorder_size_text());
    t
}

/// The argument `-s`.
pub open spec fn arg_flag_serial() -> Seq<u8> {
    seq![45u8, 115u8]
}

/// The argument `exec-out`.
pub open spec fn arg_exec_out() -> Seq<u8> {
    seq![101u8, 120u8, 101u8, 99u8, 45u8, 111u8, 117u8, 116u8]
}

/// The argument `screenrecord`.
pub open spec fn arg_screenrecord() -> Seq<u8> {
    seq![115u8, 99u8, 114u8, 101u8, 101u8, 110u8, 114u8, 101u8, 99u8, 111u8, 114u8, 100u8]
}

/// The argument `--output-format=h264`.
pub open spec fn arg_output_format() -> Seq<u8> {
    seq![45u8, 45u8, 111u8, 117u8, 116u8, 112u8, 117u8, 116u8, 45u8, 102u8, 111u8, 114u8, 109u8, 97u8, 116u8, 61u8, 104u8, 50u8, 54u8, 52u8]
}

/// The argument `--bit-rate`.
pub open spec fn arg_bit_rate_flag() -> Seq<u8> {
    seq![45u8, 45u8, 98u8, 105u8, 116u8, 45u8, 114u8, 97u8, 116u8, 101u8]
}

/// The argument `8M`.
pub open spec fn arg_bit_rate() -> Seq<u8> {
    seq![56u8, 77u8]
}

/// The argument `--size`.
pub open spec fn arg_size_flag() -> Seq<u8> {
    seq![45u8, 45u8, 115u8, 105u8, 122u8, 101u8]
}

/// The argument `/dev/stdout`.
pub open spec fn arg_stdout_path() -> Seq<u8> {
    seq![47u8, 100u8, 101u8, 118u8, 47u8, 115u8, 116u8, 100u8, 111u8, 117u8, 116u8]
}

/// The argument `shell`.
pub open spec fn arg_shell() -> Seq<u8> {
    seq![115u8, 104u8, 101u8, 108u8, 108u8]
}

/// The arguments that select the device, `-s SERIAL`, when a serial is given.
pub open spec fn device_args(serial: Option<Seq<u8>>) -> Seq<Seq<u8>> {
    match serial {
        Some(s) => seq![arg_flag_serial(), s],
        None => Seq::empty(),
    }
}

/// The `adb` arguments that record the screen as raw H.264 to standard
/// output, at the phone size and the bit rate of the mirror.
pub open spec fn recorder_args_spec(serial: Option<Seq<u8>>) -> Seq<Seq<u8>> {
    device_args(serial) + seq![
        arg_exec_out(),
        arg_screenrecord(),
        arg_output_format(),
        arg_bit_rate_flag(),
        arg_bit_rate(),
        arg_size_flag(),
        recorder_size_text(),
        arg_stdout_path(),
    ]
}

/// The `adb` arguments that tap the phone at `(x, y)`.
pub open spec fn tap_args_spec(serial: Option<Seq<u8>>, x: int, y: int) -> Seq<Seq<u8>> {
    device_args(serial) + seq![arg_shell(), tap_command_text(x, y)]
}

/// The view of an optional byte string.
pub open spec fn opt_view(serial: Option<&[u8]>) -> Option<Seq<u8>> {
    match serial {
        Some(s) => Some(s@),
        None => None,
    }
}

fn push_device_args(args: &mut Vec<Vec<u8>>, serial: Option<&[u8]>)
    ensures
        final(args)@.map_values(|a: Vec<u8>| a@) == old(args)@.map_values(|a: Vec<u8>| a@)
            + device_args(opt_view(serial)),
{
    let ghost before = args@.map_values(|a: Vec<u8>| a@);
    match serial {
        Some(s) => {
            let flag: Vec<u8> = vec![45u8, 115u8];
            assert(flag@ =~= arg_flag_serial());
            args.push(flag);
            let mut owned: Vec<u8> = Vec::new();
            let mut i: usize = 0;
            while i < s.len()
                invariant
                    i <= s@.len(),
                    owned@ == s@.subrange(0, i as int),
                decreases s@.len() - i,
            {
                owned.push(s[i]);
                i += 1;
                assert(owned@ =~= s@.subrange(0, i as int));
            }
            assert(owned@ =~= s@);
            args.push(owned);
            assert(args@.map_values(|a: Vec<u8>| a@) =~= before + device_args(opt_view(serial)));
        },
        None => {
            assert(args@.map_values(|a: Vec<u8>| a@) =~= before + device_args(opt_view(serial)));
        },
    }
}

/// The `adb` arguments, as ASCII or as given, that record the screen.
pub fn recorder_args(serial: Option<&[u8]>) -> (args: Vec<Vec<u8>>)
    ensures
        args@.map_values(|a: Vec<u8>| a@) == recorder_args_spec(opt_view(serial)),
{
    let mut args: Vec<Vec<u8>> = Vec::new();
    push_device_args(&mut args, serial);
    let ghost head = args@.map_values(|a: Vec<u8>| a@);
    let a: Vec<u8> = vec![101u8, 120u8, 101u8, 99u8, 45u8, 111u8, 117u8, 116u8];
    assert(a@ =~= arg_exec_out());
    args.push(a);
    let a: Vec<u8> = vec![115u8, 99u8, 114u8, 101u8, 101u8, 110u8, 114u8, 101u8, 99u8, 111u8, 114u8, 100u8];
    assert(a@ =~= arg_screenrecord());
    args.push(a);
    let a: Vec<u8> = vec![45u8, 45u8, 111u8, 117u8, 116u8, 112u8, 117u8, 116u8, 45u8, 102u8, 111u8, 114u8, 109u8, 97u8, 116u8, 61u8, 104u8, 50u8, 54u8, 52u8];
    assert(a@ =~= arg_output_format());
    args.push(a);
    let a: Vec<u8> = vec![45u8, 45u8, 98u8, 105u8, 116u8, 45u8, 114u8, 97u8, 116u8, 101u8];
    assert(a@ =~= arg_bit_rate_flag());
    args.push(a);
    let a: Vec<u8> = vec![56u8, 77u8];
    assert(a@ =~= arg_bit_rate());
    args.push(a);
    let a: Vec<u8> = vec![45u8, 45u8, 115u8, 105u8, 122u8, 101u8];
    assert(a@ =~= arg_size_flag());
    args.push(a);
    args.push(recorder_size_arg());
    let a: Vec<u8> = vec![47u8, 100u8, 101u8, 118u8, 47u8, 115u8, 116u8, 100u8, 111u8, 117u8, 116u8];
    assert(a@ =~= arg_stdout_path());
    args.push(a);
    assert(args@.map_values(|a: Vec<u8>| a@) =~= recorder_args_spec(opt_view(serial)));
    args
}

/// The `adb` arguments that tap the phone at `(x, y)`.
pub fn tap_args(serial: Option<&[u8]>, x: i32, y: i32) -> (args: Vec<Vec<u8>>)
    ensures
        args@.map_values(|a: Vec<u8>| a@) == tap_args_spec(opt_view(serial), x as int, y as int),
{
    let mut args: Vec<Vec<u8>> = Vec::new();
    push_device_args(&mut args, serial);
    let a: Vec<u8> = vec![115u8, 104u8, 101u8, 108u8, 108u8];
    assert(a@ =~= arg_shell());
    args.push(a);
    args.push(tap_command(x, y));
    assert(args@.map_values(|a: Vec<u8>| a@) =~= tap_args_spec(opt_view(serial), x as int, y as int));
    args
}

/// Size of the mirror window: the phone screen divided by [`SCALE`].
pub fn window_size() -> (wh: (u32, u32))
    ensures
        wh.0 == PHONE_W / SCALE,
        wh.1 == PHONE_H / SCALE,
{
    (PHONE_W / SCALE, PHONE_H / SCALE)
}

/// A key that the window reports.
pub enum Key {
    Escape,
    Other,
}

/// A mouse button that the window reports.
pub enum MouseButton {
    Left,
    Other,
}

/// What the window reports.
pub enum WindowEvent {
    /// The window was closed.
    Quit,
    /// A key went down; `None` when the window gave no key code.
    KeyDown { key: Option<Key> },
    /// A mouse button went down at window coordinates `(x, y)`.
    MouseDown { button: MouseButton, x: i32, y: i32 },
    /// Anything else.
    Other,
}

/// What the client does about a window event.
#[derive(PartialEq, Eq, Structural)]
pub enum UiAction {
    /// Leave the main loop.
    Quit,
    /// Tap the phone at phone coordinates `(x, y)`.
    Tap { x: i32, y: i32 },
    /// Nothing.
    Ignore,
}

/// A click at window coordinates `(x, y)` maps to phone coordinates that
/// fit in an `i32`.
pub open spec fn click_maps(x: i32, y: i32) -> bool {
    &&& i32::MIN <= x * SCALE <= i32::MAX
    &&& i32::MIN <= y * SCALE <= i32::MAX
}

/// The action a window event asks for: closing the window or Escape quits,
/// a left click taps the phone at the click point scaled by [`SCALE`], and
/// anything else is ignored.
pub fn on_window_event(ev: WindowEvent) -> (a: UiAction)
    requires
        ev matches WindowEvent::MouseDown { button: MouseButton::Left, x, y } ==> click_maps(x, y),
    ensures
        a == match ev {
            WindowEvent::Quit => UiAction::Quit,
            WindowEvent::KeyDown { key: Some(Key::Escape) } => UiAction::Quit,
            WindowEvent::MouseDown { button: MouseButton::Left, x, y } => UiAction::Tap {
                x: (x * SCALE) as i32,
                y: (y * SCALE) as i32,
            },
            _ => UiAction::Ignore,
        },
{
    match ev {
        WindowEvent::Quit => UiAction::Quit,
        WindowEvent::KeyDown { key: Some(Key::Escape) } => UiAction::Quit,
        WindowEvent::MouseDown { button: MouseButton::Left, x, y } => UiAction::Tap {
            x: x * (SCALE as i32),
            y: y * (SCALE as i32),
        },
        _ => UiAction::Ignore,
    }
}

/// Nanoseconds without stream data after which the client gives up.
pub const STALL_TIMEOUT_NANOS: u128 = 5_000_000_000;

/// What the client does after draining the stream channel.
#[derive(PartialEq, Eq, Structural)]
pub enum PollAction {
    /// Data came: restart the stall clock.
    DataArrived,
    /// Nothing came yet, keep waiting.
    Wait,
    /// Nothing came for longer than [`STALL_TIMEOUT_NANOS`]: exit.
    Stalled,
}

/// Decides after a drain, given whether any data came and how long ago the
/// last data came.
pub fn after_poll(got_data: bool, idle_nanos: u128) -> (a: PollAction)
    ensures
        got_data ==> a == PollAction::DataArrived,
        !got_data && idle_nanos > STALL_TIMEOUT_NANOS ==> a == PollAction::Stalled,
        !got_data && idle_nanos <= STALL_TIMEOUT_NANOS ==> a == PollAction::Wait,
{
    if got_data {
        PollAction::DataArrived
    } else if idle_nanos > STALL_TIMEOUT_NANOS {
        PollAction::Stalled
    } else {
        PollAction::Wait
    }
}

/// How many decode errors are reported; later ones are counted silently.
pub const REPORTED_DECODE_ERRORS: u32 = 5;

/// Seconds between window title updates.
pub const TITLE_PERIOD_SECS: u64 = 2;

/// Counters of the mirroring session.
pub struct Session {
    frames: u32,
    decode_errors: u32,
}

impl Session {
    /// Frames shown so far.
    pub closed spec fn frame_count(&self) -> nat {
        self.frames as nat
    }

    /// Decode errors seen so far.
    pub closed spec fn error_count(&self) -> nat {
        self.decode_errors as nat
    }

    /// A session with nothing shown and no error.
    pub fn new() -> (s: Session)
        ensures
            s.frame_count() == 0,
            s.error_count() == 0,
    {
        Session { frames: 0, decode_errors: 0 }
    }

    /// Frames shown so far.
    pub fn frames(&self) -> (n: u32)
        ensures
            n == self.frame_count(),
    {
        self.frames
    }

    /// Decode errors seen so far.
    pub fn decode_errors(&self) -> (n: u32)
        ensures
            n == self.error_count(),
    {
        self.decode_errors
    }

    /// Counts a shown frame; says whether the title is due, that is whether
    /// at least [`TITLE_PERIOD_SECS`] whole seconds passed since the last
    /// title update.
    pub fn on_frame(&mut self, secs_since_title: u64) -> (retitle: bool)
        requires
            old(self).frame_count() < u32::MAX,
        ensures
            final(self).frame_count() == old(self).frame_count() + 1,
            final(self).error_count() == old(self).error_count(),
            retitle == (secs_since_title >= TITLE_PERIOD_SECS),
    {
        self.frames = self.frames + 1;
        secs_since_title >= TITLE_PERIOD_SECS
    }

    /// Counts a decode error; says whether to report it: only the first
    /// [`REPORTED_DECODE_ERRORS`] are.
    pub fn on_decode_error(&mut self) -> (report: bool)
        requires
            old(self).error_count() < u32::MAX,
        ensures
            final(self).error_count() == old(self).error_count() + 1,
            final(self).frame_count() == old(self).frame_count(),
            report == (final(self).error_count() <= REPORTED_DECODE_ERRORS),
    {
        self.decode_errors = self.decode_errors + 1;
        self.decode_errors <= REPORTED_DECODE_ERRORS
    }
}

/// Milliseconds the reader waits before restarting an ended recorder.
pub const RESTART_PAUSE_MS: u64 = 500;

/// What a read from the recorder's output gave.
pub enum ReadEvent {
    /// A chunk of stream data.
    Chunk,
    /// The stream ended cleanly.
    End,
    /// The read failed.
    Failed,
}

/// What the reader does next.
#[derive(PartialEq, Eq, Structural)]
pub enum ReaderAction {
    /// Hand the chunk to the main loop and read on.
    Forward,
    /// Reap the recorder, pause [`RESTART_PAUSE_MS`], and start a new one.
    Restart,
    /// Reap the recorder and stop reading.
    Stop,
}

/// The reader's decision: chunks are forwarded, a clean end restarts the
/// recorder (the device slept or a recording cap was hit), a failed read
/// stops.
pub fn on_read(ev: ReadEvent) -> (a: ReaderAction)
    ensures
        a == match ev {
            ReadEvent::Chunk => ReaderAction::Forward,
            ReadEvent::End => ReaderAction::Restart,
            ReadEvent::Failed => ReaderAction::Stop,
        },
{
    match ev {
        ReadEvent::Chunk => ReaderAction::Forward,
        ReadEvent::End => ReaderAction::Restart,
        ReadEvent::Failed => ReaderAction::Stop,
    }
}

} // verus!
