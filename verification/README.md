# rasta_stack

A RaSTA (Rail Safe Transport Application) protocol stack in Rust whose
protocol logic is specified and proved with Verus.

- `src/rasta_core/` — the platform-independent core.
  - `redundancy_management.rs`: the Redundancy Layer (two channels, frame
    format, CRC-16/CRC-32 check codes, duplicate discard).
  - `pdu.rs`: packets of the Safety and Retransmission Layer and their
    little-endian wire format.
  - `safety_code.rs`: MD4 with a configurable initial value, and the
    safety-code modes.
  - `sequencing.rs`, `connection_state_machine.rs`, `retransmission.rs`,
    `heartbeat.rs`, `time_supervision.rs`: the building blocks of a
    connection.
  - `connection.rs`: one connection, reacting to packets, clock and timer.
- `src/application/`: the service API for the signalling application.
- `src/platform/`: the traits through which the core reaches transports,
  clocks and timers.
- `src/adapters/`: implementations on an embedded Ethernet driver and on the
  standard library's clocks.
- `app/`: a node that talks RaSTA over UDP.
- `tests/`: executable tests.

The functions in `src/` are verified against their `requires`/`ensures`
contracts, except the few small `#[verifier::external_body]` wrappers in
`src/adapters/` that call the standard library's clocks (`Instant`,
`SystemTime`, `Duration`); their contracts are trusted. The public
`proof fn`s state the laws of the protocol: frame and packet round trips,
frame numbering, the sequence-number window and duplicate discard, the
CRC-16 zero remainder, the CRC-32 residue and the detection of any corrupted
byte, and the allowed state transitions.

The platform traits `Transport`, `EmbeddedEthernetDriver` and `Timer` carry
contracts: a transport records every frame handed to it and every read made
on it, and a timer reports whether it runs and for how long. The redundancy
layer's contracts say what it hands to each channel and which channel it
reads, and state its answers as functions of what the channels returned. A
connection also records each clock reading and each answer of its handshake
timer. Implementations written outside Verus keep the traits' default
records, and the contracts are assumed of them.
