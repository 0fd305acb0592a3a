# sw-cdp1802-emulator

An RCA CDP1802 emulator core written in Verus: CPU state, byte memory,
instruction execution, an ELF-style front panel, an RC-timed joystick board,
a RAM-backed 64 x 32 video view, and text dumps of the CPU and of memory.

## Layout

- `src/isa.rs` — the decoded instruction as the executor consumes it.
- `src/state.rs` — `CpuState` and its register, program-counter and flag
  accessors.
- `src/memory.rs` — `Memory`: reads outside it give 0, writes outside it are
  ignored.
- `src/board.rs` — the `BoardIo` trait, `FrontPanel` and `JoystickRcBoard`.
- `src/exec.rs` — the meaning of every instruction as spec functions, the
  executor, and `step`/`run` with and without boards.
- `src/laws.rs` — properties that span instructions and steps.
- `src/video.rs` — `VideoView`: pixels and the text frame.
- `src/dump.rs`, `src/text.rs` — the CPU and hex dumps and number formatting.
- `app/lib.rs` — binds the executor to the CDP1802 instruction-set crate's
  decoder and offers `step`/`run` without a decoder argument.

## Decoding

The executor takes its decoder as an argument: a function from the three bytes
at the program counter to the decoded instruction and its length, or a
`DecodeError`. The contracts of `step` and `run` state what happens for
every answer the decoder may give.
