# laphone

A USB phone-mirroring tool: the phone's `screenrecord` H.264 stream comes
over `adb exec-out`, is split into NAL units, decoded with OpenH264 and shown
in an SDL2 window; clicks become `adb shell input tap`. An optional input
server runs on the phone and drives a virtual uinput touchscreen from a line
protocol on an abstract Unix socket.

- `src/` — the verified library (Verus):
  - `annexb` — Annex-B start-code scanning and the NAL accumulator, with the
    laws that nothing is lost and every unit starts with its code;
  - `frame` — repacking padded YUV 4:2:0 planes into tight planes;
  - `decode` — the OpenH264 decoder behind trusted wrappers;
  - `mirror` — window-event, stall, error-report and reader decisions, and
    the `adb` command text;
  - `touch` — touch/hover/tap event reports, their kernel byte layout and the
    uinput device record;
  - `protocol` — the input server's line protocol.
- `app/` — the program: `adb`, SDL2, threads, sockets and `ioctl`s.
- `tests/` — tests of the library.
