# bt_only_headers

A Bluetooth Low Energy peripheral stack at the level of HCI packets, with its
packet codecs, pairing cryptography and pairing state machine verified with
Verus.

## Layout

- `src/packer.rs`, `src/packer_impls.rs`: the `Packet` byte buffer with a
  read/write cursor, bit-width instructions and length fields, and the
  `FromToPacket` codecs of the primitive types. `src/bits.rs` and
  `src/endian.rs` hold the bit and little-endian models the contracts use.
- `src/packer_laws.rs`: what reading back gives of what was written.
- `src/hci_types.rs`, `src/hci_core.rs`, `src/fixed_utf8.rs`: HCI and SMP
  types with their codecs (commands, events, pairing PDUs, flags, opcodes,
  fixed-size names) and their roundtrip laws.
- `src/packets.rs`, `src/event.rs`, `src/primitives.rs`, `src/smp.rs`: byte
  level parsers and serializers of H4 packets, HCI events and SMP messages.
- `src/c1.rs`: the LE legacy pairing functions `e`, `c1`, `s1` and `ah` over
  AES-128.
- `src/gatt.rs`, `src/hid.rs`: the attribute database and the HID-over-GATT
  database it is filled with.
- `src/parrot.rs`: the setup sequence and the pairing state machine.
- `app/`: the program around the library: the HCI user channel socket and
  the loop that feeds the state machine.
- `tests/`: tests of the library on concrete values.
