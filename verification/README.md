# NetworkKit

Bluetooth, WiFi and local network discovery on Linux, with its parsing,
merging and decision logic verified by Verus.

## Layout

- `src/` — the verified library.
  - `text.rs`: text primitives (lines, tokens, trimming, number parsing)
    with their specifications.
  - `bluetooth.rs`: `bluetoothctl` output (device events, `info`, `show`,
    listings), address normalization, discovery merging.
  - `bluetooth_client.rs`: the Bluetooth operations as steps: each call
    takes what the earlier steps gave back and answers the next command,
    session, wait, or the result.
  - `wifi.rs`: `nmcli --terse` output (escape-aware splitting, network
    lines, deduplicated and sorted lists, the active connection).
  - `wifi_client.rs`: the WiFi operations as steps (daemon first, direct
    `nmcli` reads as fallback).
  - `localnet.rs`, `mdns.rs`: interfaces from `ip -j address` entries,
    broadcast and sweep targets, the neighbor table, mDNS query packets,
    response records and their merge.
  - `daemon.rs`: request frames and replies of the settings daemon.
  - `lang.rs`: message tables, `t`/`t_fmt`, locale choice, error messages.
  - `types.rs`, `util.rs`: the error type, command output checks, rfkill.
- `tests/` — tests of the library.
- `app/` — the I/O around it: processes, sysfs, sockets, the daemon
  socket, JSON decoding, async wrappers and the C API. It performs the
  steps the library asks for and hands the results back.
