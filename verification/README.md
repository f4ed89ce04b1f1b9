# pulsebox

Verified client logic for the Pulse Box LED controller's desktop companion.

- `src/` — the library, verified with Verus:
  - `frame` — TLV framing of the TCP command protocol (type byte, little-endian
    16-bit length, payload), with the round-trip law of header encoding.
  - `status` — decoding of the controller's STATUS payload.
  - `session` — handshake check, sorting of pushed frames, command replies,
    and whether a connection survives a failed command.
  - `audio` — mono down-mixing and the numbered 512-sample UDP packets, with
    the law that splitting the input does not change what is sent.
  - `discovery` — one device entry per mDNS host name, the latest resolution
    winning.
  - `imaging`, `upload` — center crop, bin-averaging to the LED grid, row
    flips, and the still-image and GIF pipelines, with the law that pixels
    outside the centered square never change a still-image upload.
  - `text`, `codec` — the trusted calls into std, `image` and `base64`.
- `app/` — the Tauri commands, sockets, mDNS browsing and audio capture around
  the library.
- `tests/` — tests of the library on concrete values.
