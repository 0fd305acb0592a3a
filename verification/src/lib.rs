//! RCA CDP1802 emulator core: CPU state, memory, instruction execution,
//! front-panel and joystick boards, a RAM-backed video view and text dumps.
//!
//! The executor takes its instruction decoder as an argument: a function
//! from the three bytes at the program counter to the decoded instruction
//! and its length.

pub mod board;
pub mod dump;
pub mod exec;
pub mod isa;
pub mod instruction_laws;
pub mod laws;
pub mod memory;
pub mod state;
pub mod text;
pub mod video;

pub use board::{BoardIo, FrontPanel, JoystickAxis, JoystickRcBoard};
pub use dump::{format_cpu_state, format_hex_dump};
pub use exec::{
    run, run_with_front_panel, run_with_joystick, step, step_with_front_panel, step_with_io,
    step_with_joystick, ExecError,
};
pub use isa::{DecodeError, ExternalFlag, Instruction, LongBranchCondition, LongSkipCondition, Reg};
pub use memory::Memory;
pub use state::CpuState;
pub use video::{VideoView, VIDEO_BASE, VIDEO_HEIGHT, VIDEO_SIZE_BYTES, VIDEO_WIDTH};
