# INZONE Buds battery tray — verified core

A Windows tray application that shows the battery levels of Sony INZONE Buds
(left earbud, right earbud, case), read from the USB dongle `VID=054C
PID=0EC2`, with a set of HID investigation commands.

The logic is a Verus library under `src/`; every function there carries a
contract that Verus proves.

- `models/battery_status.rs` — the battery status and the menu lines.
- `hid/inzone_hub.rs` — the 64-byte battery request (with its checksum), the
  decoding of battery responses, and the choice of the response that answers a
  request.
- `hid/inzone_parser.rs` — levels from the plain input report and the
  plausible-triplet heuristic over feature reports.
- `hid/hid_manager.rs` — HID collection filters and snapshots.
- `services/` — the polling decisions (status publication, low-battery
  hysteresis, query sequence numbers) and the notification text.
- `tray/` — the icon's RGBA pixels and the summary line.
- `cli/` — command-line parsing, report-descriptor walking, dump comparison,
  the pairing of two state directories, the grouping and analysis of feature
  series, what a capture does with each read, and the names and lines the
  commands write.
- `numeric.rs`, `text.rs` — integer parsing and decimal/hexadecimal rendering.

`app/` holds what talks to the outside world: hidapi, the tray and its event
loop, the settings file, the registry and toasts, logging, and the loops that
perform the library's decisions.
