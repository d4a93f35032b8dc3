# HiRodrop core

HiRodrop exchanges files with Android and Windows Quick Share devices over the
local network, without Bluetooth, Wi-Fi Direct or a cloud relay. This crate is
its protocol core, written in Verus: every function states what it does in a
`requires`/`ensures` contract, and Verus proves it.

## Layout

- `src/` — the verified library.
  - `wire_format.rs`, `quick_share_wire.rs`: the protobuf wire format and the
    Nearby Connections / Nearby Sharing messages, each with a model and a
    proof that decoding gives back what was encoded.
  - `quick_share_transport.rs`: the length-prefixed framing.
  - `quick_share_crypto.rs`: the UKEY2 handshake, the verification PIN and
    the authenticated SecureMessage channel (replays and forgeries are
    refused).
  - `quick_share.rs`, `quick_share_discovery.rs`, `quick_share_qr.rs`: the
    LAN advertisement and its endpoint-info record, and the QR rendezvous.
  - `quick_share_frames.rs`, `sealing.rs`: the frames both sides write, and
    how they are sealed on the channel.
  - `quick_share_receiver.rs`, `receive_session.rs`: what a receiver accepts,
    where it may save, and the receiving side of a connection as a state
    machine.
  - `quick_share_sender.rs`, `send_session.rs`: the files a send offers and
    how they are streamed, and the sending side as a state machine.
  - `status_board.rs`, `interface_text.rs`, `settings.rs`: what the
    application shows and says, in three languages, and its settings.
  - `primitives.rs`: the trusted wrappers around the cryptography, random
    numbers and I/O of std and of the outside crates.
- `tests/` — the tests, including whole transfers between a send session and
  a receive session.
- `app/` — the command-line program: sockets, files, mDNS, the terminal and
  the settings file, driving the library's sessions.
