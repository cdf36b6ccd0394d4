# tenover

Client library for the Garmin R10 launch monitor, verified with Verus. It
decodes the R10's BLE / MultiLink / GFDI / protobuf protocol and exposes shot
data through a synchronous, poll-based `Client` over any `Transport`.

## Layout

- `src/` — the verified library.
  - `cobs`, `crc`, `multilink`, `gfdi` — the transport stack: COBS framing,
    CRC-16/ARC, MultiLink handle routing and chunking, GFDI frames, the
    stream buffer, and the handshake messages.
  - `pb`, `proto` — the Smart protobuf container: a field walker over the
    wire format (with `prost`'s varint, key and skip primitives), the message
    types the R10 uses, the host's two requests, and the high-level events.
  - `client` — the client's decisions as functions from session state and
    incoming frame to frames to send and event to return, and `Client`,
    which reads, decides and writes.
  - `bluez`, `frp`, `ident` — what the BlueZ transport and the FRP device
    adapter decide: the device and characteristics to use, the BLE address
    in a device path, the envelopes for each event, and shot identifiers.
- `tests/` — tests of the library.
- `app/` — what runs around it: the BlueZ D-Bus transport (`zbus`, `libc`),
  the FRP device adapter (`flightrelay`), shot data as floats with serde
  support, displayable errors (`thiserror`), and the program loops.

Floats are kept out of the library: a shot's measurements are held as the
IEEE-754 bit patterns of their `f32` values; the app converts them.
