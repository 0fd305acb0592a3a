use sw_cdp1802_emulator::{
    run, run_with_front_panel, run_with_joystick, step, step_with_front_panel, step_with_io,
    step_with_joystick, CpuState, DecodeError, ExecError, ExternalFlag, FrontPanel, Instruction,
    JoystickRcBoard, LongBranchCondition, LongSkipCondition, Memory, Reg, VideoView, VIDEO_BASE,
};
use sw_cdp1802_emulator::Instruction as I;

// A decoder and encoder for the CDP1802 opcode map, as the test harness's
// stand-in for the instruction-set crate. It reads the three bytes that a
// step fetches; long branches (0xC_) use all three.

fn flag(n: u8) -> ExternalFlag {
    match n & 3 {
        0 => ExternalFlag::Ef1,
        1 => ExternalFlag::Ef2,
        2 => ExternalFlag::Ef3,
        _ => ExternalFlag::Ef4,
    }
}

fn decode(bytes: [u8; 3]) -> Result<(Instruction, u16), DecodeError> {
    let op = bytes[0];
    let n = op & 0x0F;
    let imm = bytes[1];
    let reg = Reg::new_masked(n);
    let (insn, size) = match op >> 4 {
        0x0 if n == 0 => (I::Idle, 1),
        0x0 => (I::LoadVia { reg }, 1),
        0x1 => (I::Increment { reg }, 1),
        0x2 => (I::Decrement { reg }, 1),
        0x3 => {
            let expected = n < 8;
            let insn = match n & 7 {
                0 if n == 0 => I::Branch { target: imm },
                0 => I::ShortSkip,
                1 => I::BranchQ { expected, target: imm },
                2 => I::BranchZero { expected, target: imm },
                3 => I::BranchDataFlag { expected, target: imm },
                _ => I::BranchExternalFlag { flag: flag(n & 3), expected, target: imm },
            };
            (insn, 2)
        }
        0x4 => (I::LoadAdvance { reg }, 1),
        0x5 => (I::Store { reg }, 1),
        0x6 => match n {
            0 => (I::Irx, 1),
            1..=7 => (I::Output { port: n }, 1),
            8 => (I::Reserved68, 1),
            _ => (I::Input { port: n - 8 }, 1),
        },
        0x7 => match n {
            0x0 => (I::Return, 1),
            0x1 => (I::DisableInterrupt, 1),
            0x2 => (I::LoadViaXAdvance, 1),
            0x3 => (I::StoreViaXDecrement, 1),
            0x4 => (I::AddWithCarry, 1),
            0x5 => (I::SubtractDWithBorrow, 1),
            0x6 => (I::ShiftRightWithCarry, 1),
            0x7 => (I::SubtractMemoryWithBorrow, 1),
            0x8 => (I::Save, 1),
            0x9 => (I::Mark, 1),
            0xA => (I::ResetQ, 1),
            0xB => (I::SetQ, 1),
            0xC => (I::AddWithCarryImmediate { value: imm }, 2),
            0xD => (I::SubtractDWithBorrowImmediate { value: imm }, 2),
            0xE => (I::ShiftLeftWithCarry, 1),
            _ => (I::SubtractMemoryWithBorrowImmediate { value: imm }, 2),
        },
        0x8 => (I::GetLow { reg }, 1),
        0x9 => (I::GetHigh { reg }, 1),
        0xA => (I::PutLow { reg }, 1),
        0xB => (I::PutHigh { reg }, 1),
        0xC => {
            let target = ((bytes[1] as u16) << 8) | bytes[2] as u16;
            let branch = |condition| (I::LongBranch { condition, target }, 3);
            let skip = |condition| (I::LongSkip { condition }, 1);
            match n {
                0x0 => branch(LongBranchCondition::Always),
                0x1 => branch(LongBranchCondition::Q),
                0x2 => branch(LongBranchCondition::Zero),
                0x3 => branch(LongBranchCondition::DataFlag),
                0x4 => (I::NoOperation, 1),
                0x5 => skip(LongSkipCondition::NotQ),
                0x6 => skip(LongSkipCondition::NotZero),
                0x7 => skip(LongSkipCondition::NotDataFlag),
                0x8 => skip(LongSkipCondition::Always),
                0x9 => branch(LongBranchCondition::NotQ),
                0xA => branch(LongBranchCondition::NotZero),
                0xB => branch(LongBranchCondition::NotDataFlag),
                0xC => skip(LongSkipCondition::InterruptEnabled),
                0xD => skip(LongSkipCondition::Q),
                0xE => skip(LongSkipCondition::Zero),
                _ => skip(LongSkipCondition::DataFlag),
            }
        }
        0xD => (I::SetP { reg }, 1),
        0xE => (I::SetX { reg }, 1),
        _ => match n {
            0x0 => (I::LoadViaX, 1),
            0x1 => (I::Or, 1),
            0x2 => (I::And, 1),
            0x3 => (I::Xor, 1),
            0x4 => (I::Add, 1),
            0x5 => (I::SubtractDNoBorrow, 1),
            0x6 => (I::ShiftRight, 1),
            0x7 => (I::SubtractMemoryNoBorrow, 1),
            0x8 => (I::LoadImmediate { value: imm }, 2),
            0x9 => (I::OrImmediate { value: imm }, 2),
            0xA => (I::AndImmediate { value: imm }, 2),
            0xB => (I::XorImmediate { value: imm }, 2),
            0xC => (I::AddImmediate { value: imm }, 2),
            0xD => (I::SubtractDImmediateNoBorrow { value: imm }, 2),
            0xE => (I::ShiftLeft, 1),
            _ => (I::SubtractMemoryNoBorrowImmediate { value: imm }, 2),
        },
    };
    Ok((insn, size))
}

fn flag_index(f: ExternalFlag) -> u8 {
    match f {
        ExternalFlag::Ef1 => 0,
        ExternalFlag::Ef2 => 1,
        ExternalFlag::Ef3 => 2,
        ExternalFlag::Ef4 => 3,
    }
}

fn encode(insn: &Instruction) -> Vec<u8> {
    match *insn {
        I::Idle => vec![0x00],
        I::LoadVia { reg } => vec![reg.index_u8()],
        I::Increment { reg } => vec![0x10 | reg.index_u8()],
        I::Decrement { reg } => vec![0x20 | reg.index_u8()],
        I::Branch { target } => vec![0x30, target],
        I::BranchExternalFlag { flag, expected, target } => {
            let base = if expected { 0x34 } else { 0x3C };
            vec![base + flag_index(flag), target]
        }
        I::LoadAdvance { reg } => vec![0x40 | reg.index_u8()],
        I::Store { reg } => vec![0x50 | reg.index_u8()],
        I::Output { port } => vec![0x60 | port],
        I::Input { port } => vec![0x68 | port],
        I::ResetQ => vec![0x7A],
        I::SetQ => vec![0x7B],
        I::GetLow { reg } => vec![0x80 | reg.index_u8()],
        I::GetHigh { reg } => vec![0x90 | reg.index_u8()],
        I::PutLow { reg } => vec![0xA0 | reg.index_u8()],
        I::PutHigh { reg } => vec![0xB0 | reg.index_u8()],
        I::SetP { reg } => vec![0xD0 | reg.index_u8()],
        I::SetX { reg } => vec![0xE0 | reg.index_u8()],
        I::Add => vec![0xF4],
        I::LoadImmediate { value } => vec![0xF8, value],
        I::AddImmediate { value } => vec![0xFC, value],
        I::ShiftLeft => vec![0xFE],
        other => panic!("no encoding in this harness for {other:?}"),
    }
}

fn write_insn(mem: &mut Memory, addr: u16, insn: Instruction) -> u16 {
    let bytes = encode(&insn);
    mem.load_bytes(addr, &bytes);
    addr.wrapping_add(bytes.len() as u16)
}

fn state_with_pc_away_from(reg: u8) -> CpuState {
    let mut state = CpuState::new();
    state.p = (reg.wrapping_add(1)) & 0x0F;
    state.write_reg(state.p, 0);
    state
}

/// A decoder that always yields `insn` with length `size`.
fn always(insn: Instruction, size: u16) -> impl Fn([u8; 3]) -> Result<(Instruction, u16), DecodeError> {
    move |_| Ok((insn, size))
}

#[test]
fn initial_state_matches_demo_entry_contract() {
    let state = CpuState::new();
    assert_eq!(state.p, 0);
    assert_eq!(state.x, 0);
    assert_eq!(state.pc(), 0);
    assert_eq!(state.r, [0; 16]);
    assert!(!state.q);
    assert_eq!(state.ef, [false; 4]);
    assert!(!state.halted);
}

#[test]
fn ldi_loads_d_and_advances_pc() {
    let mut mem = Memory::default();
    write_insn(&mut mem, 0, Instruction::LoadImmediate { value: 0x42 });
    let mut state = CpuState::new();
    step(&mut state, &mut mem, &decode).unwrap();
    assert_eq!(state.d, 0x42);
    assert_eq!(state.pc(), 2);
}

#[test]
fn phi_and_plo_write_register_halves_from_d() {
    let mut mem = Memory::default();
    let mut addr = 0;
    addr = write_insn(&mut mem, addr, Instruction::LoadImmediate { value: 0x20 });
    addr = write_insn(
        &mut mem,
        addr,
        Instruction::PutHigh {
            reg: Reg::new_masked(1),
        },
    );
    addr = write_insn(&mut mem, addr, Instruction::LoadImmediate { value: 0x34 });
    write_insn(
        &mut mem,
        addr,
        Instruction::PutLow {
            reg: Reg::new_masked(1),
        },
    );
    let mut state = CpuState::new();
    run(&mut state, &mut mem, 4, &decode).unwrap();
    assert_eq!(state.read_reg(1), 0x2034);
}

#[test]
fn phi_and_plo_cover_all_scratchpad_registers() {
    for reg in 0..16 {
        let mut mem = Memory::default();
        let mut addr = 0;
        addr = write_insn(&mut mem, addr, Instruction::LoadImmediate { value: 0x12 });
        addr = write_insn(
            &mut mem,
            addr,
            Instruction::PutHigh {
                reg: Reg::new_masked(reg),
            },
        );
        addr = write_insn(&mut mem, addr, Instruction::LoadImmediate { value: 0x34 });
        write_insn(
            &mut mem,
            addr,
            Instruction::PutLow {
                reg: Reg::new_masked(reg),
            },
        );
        let mut state = state_with_pc_away_from(reg);

        run(&mut state, &mut mem, 4, &decode).unwrap();

        assert_eq!(state.read_reg(reg), 0x1234, "R{reg:x}");
    }
}

#[test]
fn glo_loads_register_low_byte_into_d() {
    let mut mem = Memory::default();
    write_insn(
        &mut mem,
        0,
        Instruction::GetLow {
            reg: Reg::new_masked(1),
        },
    );
    let mut state = CpuState::new();
    state.write_reg(1, 0x12ab);

    step(&mut state, &mut mem, &decode).unwrap();

    assert_eq!(state.d, 0xab);
}

#[test]
fn str_stores_d_at_register_address() {
    let mut mem = Memory::default();
    write_insn(
        &mut mem,
        0,
        Instruction::Store {
            reg: Reg::new_masked(1),
        },
    );
    let mut state = CpuState::new();
    state.d = 0x7A;
    state.write_reg(1, 0x2000);
    step(&mut state, &mut mem, &decode).unwrap();
    assert_eq!(mem.read_byte(0x2000), 0x7A);
}

#[test]
fn str_covers_all_scratchpad_registers() {
    for reg in 0..16 {
        let mut mem = Memory::default();
        write_insn(
            &mut mem,
            0,
            Instruction::Store {
                reg: Reg::new_masked(reg),
            },
        );
        let mut state = state_with_pc_away_from(reg);
        let target = 0x2000 + reg as u16;
        state.d = 0x80 | reg;
        state.write_reg(reg, target);

        step(&mut state, &mut mem, &decode).unwrap();

        assert_eq!(mem.read_byte(target), 0x80 | reg, "R{reg:x}");
    }
}

#[test]
fn inc_increments_selected_register() {
    let mut mem = Memory::default();
    write_insn(
        &mut mem,
        0,
        Instruction::Increment {
            reg: Reg::new_masked(1),
        },
    );
    let mut state = CpuState::new();
    state.write_reg(1, 0xFFFF);
    step(&mut state, &mut mem, &decode).unwrap();
    assert_eq!(state.read_reg(1), 0);
}

#[test]
fn inc_covers_all_scratchpad_registers() {
    for reg in 0..16 {
        let mut mem = Memory::default();
        write_insn(
            &mut mem,
            0,
            Instruction::Increment {
                reg: Reg::new_masked(reg),
            },
        );
        let mut state = state_with_pc_away_from(reg);
        state.write_reg(reg, 0x12FF);

        step(&mut state, &mut mem, &decode).unwrap();

        assert_eq!(state.read_reg(reg), 0x1300, "R{reg:x}");
    }
}

#[test]
fn sex_selects_x_register() {
    let mut mem = Memory::default();
    write_insn(
        &mut mem,
        0,
        Instruction::SetX {
            reg: Reg::new_masked(2),
        },
    );
    let mut state = CpuState::new();

    step(&mut state, &mut mem, &decode).unwrap();

    assert_eq!(state.x, 2);
}

#[test]
fn add_adds_memory_at_rx_and_sets_df_on_carry() {
    let mut mem = Memory::default();
    write_insn(&mut mem, 0, Instruction::Add);
    mem.write_byte(0x1234, 0x22);
    let mut state = CpuState::new();
    state.d = 0xf0;
    state.x = 1;
    state.write_reg(1, 0x1234);

    step(&mut state, &mut mem, &decode).unwrap();

    assert_eq!(state.d, 0x12);
    assert!(state.df);
}

#[test]
fn adi_adds_immediate_and_shl_shifts_d_through_df() {
    let mut mem = Memory::default();
    let mut addr = 0;
    addr = write_insn(&mut mem, addr, Instruction::AddImmediate { value: 0x03 });
    write_insn(&mut mem, addr, Instruction::ShiftLeft);
    let mut state = CpuState::new();
    state.d = 0x7f;

    step(&mut state, &mut mem, &decode).unwrap();
    assert_eq!(state.d, 0x82);
    assert!(!state.df);

    step(&mut state, &mut mem, &decode).unwrap();
    assert_eq!(state.d, 0x04);
    assert!(state.df);
}

#[test]
fn br_replaces_low_byte_in_current_pc_page() {
    let mut mem = Memory::default();
    write_insn(&mut mem, 0x1200, Instruction::Branch { target: 0x34 });
    let mut state = CpuState::new();
    state.set_pc(0x1200);
    step(&mut state, &mut mem, &decode).unwrap();
    assert_eq!(state.pc(), 0x1234);
}

#[test]
fn seq_and_req_set_and_reset_q() {
    let mut mem = Memory::default();
    let mut addr = 0;
    addr = write_insn(&mut mem, addr, Instruction::SetQ);
    write_insn(&mut mem, addr, Instruction::ResetQ);
    let mut state = CpuState::new();

    step(&mut state, &mut mem, &decode).unwrap();
    assert!(state.q);
    assert_eq!(state.pc(), 1);

    step(&mut state, &mut mem, &decode).unwrap();
    assert!(!state.q);
    assert_eq!(state.pc(), 2);
}

#[test]
fn ef_branch_takes_when_expected_flag_matches() {
    let mut mem = Memory::default();
    write_insn(
        &mut mem,
        0x1200,
        Instruction::BranchExternalFlag {
            flag: ExternalFlag::Ef4,
            expected: true,
            target: 0x34,
        },
    );
    let mut state = CpuState::new();
    state.set_pc(0x1200);
    state.set_external_flag(ExternalFlag::Ef4, true);

    step(&mut state, &mut mem, &decode).unwrap();

    assert_eq!(state.pc(), 0x1234);
}

#[test]
fn ef_branch_falls_through_when_expected_flag_does_not_match() {
    let mut mem = Memory::default();
    write_insn(
        &mut mem,
        0x1200,
        Instruction::BranchExternalFlag {
            flag: ExternalFlag::Ef2,
            expected: true,
            target: 0x34,
        },
    );
    let mut state = CpuState::new();
    state.set_pc(0x1200);

    step(&mut state, &mut mem, &decode).unwrap();

    assert_eq!(state.pc(), 0x1202);
}

#[test]
fn negated_ef_branch_takes_when_flag_is_clear() {
    let mut mem = Memory::default();
    write_insn(
        &mut mem,
        0x1200,
        Instruction::BranchExternalFlag {
            flag: ExternalFlag::Ef1,
            expected: false,
            target: 0x40,
        },
    );
    let mut state = CpuState::new();
    state.set_pc(0x1200);

    step(&mut state, &mut mem, &decode).unwrap();

    assert_eq!(state.pc(), 0x1240);
}

#[test]
fn out_writes_memory_at_rx_to_hex_display_and_increments_rx() {
    let mut mem = Memory::default();
    write_insn(&mut mem, 0, Instruction::Output { port: 1 });
    mem.write_byte(0x2000, 0xAB);
    let mut state = CpuState::new();
    state.x = 1;
    state.write_reg(1, 0x2000);
    let mut board = FrontPanel::new();

    step_with_front_panel(&mut state, &mut mem, Some(&mut board), &decode).unwrap();

    assert_eq!(board.hex_display, 0xAB);
    assert_eq!(state.read_reg(1), 0x2001);
    assert_eq!(state.pc(), 1);
}

#[test]
fn inp_reads_latch_to_d_and_memory_at_rx() {
    let mut mem = Memory::default();
    write_insn(&mut mem, 0, Instruction::Input { port: 1 });
    let mut state = CpuState::new();
    state.x = 1;
    state.write_reg(1, 0x2000);
    let mut board = FrontPanel::new();
    board.input_latch = 0x5C;
    board.keypad = 0x0C;

    step_with_front_panel(&mut state, &mut mem, Some(&mut board), &decode).unwrap();

    assert_eq!(state.d, 0x5C);
    assert_eq!(mem.read_byte(0x2000), 0x5C);
    assert_eq!(state.read_reg(1), 0x2000);
}

#[test]
fn front_panel_maps_input_pressed_to_ef4_and_q_to_led() {
    let mut mem = Memory::default();
    let mut addr = 0;
    addr = write_insn(&mut mem, addr, Instruction::SetQ);
    write_insn(
        &mut mem,
        addr,
        Instruction::BranchExternalFlag {
            flag: ExternalFlag::Ef4,
            expected: true,
            target: 0x20,
        },
    );
    let mut state = CpuState::new();
    let mut board = FrontPanel::new();
    board.input_pressed = true;

    step_with_front_panel(&mut state, &mut mem, Some(&mut board), &decode).unwrap();
    assert!(board.q_led);

    step_with_front_panel(&mut state, &mut mem, Some(&mut board), &decode).unwrap();
    assert_eq!(state.pc(), 0x20);
    assert!(state.external_flag(ExternalFlag::Ef4));
}

#[test]
fn idl_halts_and_second_step_errors() {
    let mut mem = Memory::default();
    write_insn(&mut mem, 0, Instruction::Idle);
    let mut state = CpuState::new();
    step(&mut state, &mut mem, &decode).unwrap();
    assert!(state.halted);
    assert_eq!(state.pc(), 1);
    assert_eq!(step(&mut state, &mut mem, &decode), Err(ExecError::Halted));
}

#[test]
fn contract_demo_bytes_run_to_expected_memory_state() {
    let bytes = [
        0xF8, 0x20, 0xB1, 0xF8, 0x00, 0xA1, 0xF8, 0x42, 0x51, 0x11, 0xF8, 0x43, 0x51, 0x11, 0xF8,
        0x44, 0x51, 0x30, 0x13, 0x00,
    ];
    let mut mem = Memory::default();
    mem.load_bytes(0, &bytes);
    let mut state = CpuState::new();
    let steps = run(&mut state, &mut mem, 100, &decode).unwrap();
    assert_eq!(steps, 14);
    assert!(state.halted);
    assert_eq!(mem.read_range(0x2000, 3), vec![0x42, 0x43, 0x44]);
    assert_eq!(state.read_reg(1), 0x2002);
}

const FRONT_PANEL_BYTES: [u8; 12] = [
    0xF8, 0x20, 0xB1, 0xF8, 0x00, 0xA1, 0xF8, 0xAB, 0x51, 0x61, 0x69, 0x00,
];

#[test]
fn assembled_front_panel_program_outputs_and_inputs_port_one() {
    let mut mem = Memory::default();
    mem.load_bytes(0, &FRONT_PANEL_BYTES);
    let mut state = CpuState::new();
    state.x = 1;
    let mut board = FrontPanel::new();
    board.input_latch = 0x5C;
    board.input_pressed = true;

    let steps =
        run_with_front_panel(&mut state, &mut mem, &mut board, 100, &decode).expect("run demo");

    assert_eq!(steps, 9);
    assert!(state.halted);
    assert_eq!(board.hex_display, 0xAB);
    assert_eq!(state.d, 0x5C);
    assert_eq!(mem.read_byte(0x2000), 0xAB);
    assert_eq!(mem.read_byte(0x2001), 0x5C);
    assert_eq!(state.read_reg(1), 0x2001);
}

const IO_BOARD_BYTES: &[u8] = &[
    0x7B, 0xF8, 0x20, 0xB1, 0xF8, 0x00, 0xA1, 0xF8, 0xAA, 0x51, 0x61, 0xF8, 0x55, 0x51, 0x61, 0x37,
    0x12, 0x7A, 0x69, 0x00,
];

#[test]
fn io_board_demo_runs_to_contract_state() {
    let mut mem = Memory::default();
    mem.load_bytes(0, IO_BOARD_BYTES);
    let mut state = CpuState::new();
    state.x = 1;
    let mut board = FrontPanel::new();
    board.input_latch = 0x3C;
    board.keypad = 0x0C;
    board.input_pressed = true;

    let steps = run_with_front_panel(&mut state, &mut mem, &mut board, 100, &decode)
        .expect("run I/O board demo");

    assert_eq!(steps, 14);
    assert!(state.halted);
    assert_eq!(state.d, 0x3C);
    assert_eq!(state.p, 0);
    assert_eq!(state.x, 1);
    assert_eq!(state.read_reg(1), 0x2002);
    assert!(state.q);
    assert!(state.ef[3]);

    assert_eq!(board.hex_display, 0x55);
    assert_eq!(board.input_latch, 0x3C);
    assert_eq!(board.keypad, 0x0C);
    assert!(board.input_pressed);
    assert!(board.q_led);

    assert_eq!(mem.read_range(VIDEO_BASE, 3), vec![0xAA, 0x55, 0x3C]);

    let rendered = VideoView::elf_64x32().render_text(&mem);
    let lines: Vec<&str> = rendered.lines().collect();
    assert_eq!(&lines[0][..24], "#.#.#.#..#.#.#.#..####..");
    assert!(lines[1..].iter().all(|line| *line == ".".repeat(64)));
}

const RUN_DEMO_BYTES: &[u8] = &[
    0xF8, 0x20, 0xB1, 0xF8, 0x00, 0xA1, 0xF8, 0x42, 0x51, 0x11, 0xF8, 0x43, 0x51, 0x11, 0xF8, 0x44,
    0x51, 0x30, 0x13, 0x00,
];

#[test]
fn assembled_demo_runs_to_contract_state() {
    let mut mem = Memory::default();
    mem.load_bytes(0, RUN_DEMO_BYTES);
    let mut state = CpuState::new();
    let steps = run(&mut state, &mut mem, 100, &decode).expect("run demo");

    assert_eq!(steps, 14);
    assert!(state.halted, "program did not halt within 100 steps");
    assert_eq!(mem.read_range(0x2000, 3), vec![0x42, 0x43, 0x44]);
    assert_eq!(state.read_reg(1), 0x2002);
}

#[test]
fn joystick_step_uses_ef4_to_observe_ready_signal() {
    // OUT 2 / B4 READY / IDL / READY: IDL
    let bytes = [0x62, 0x37, 0x04, 0x00, 0x00];
    let mut memory = Memory::default();
    memory.load_bytes(0, &bytes);
    let mut state = CpuState::new();
    state.x = 15;
    let mut board = JoystickRcBoard::new(0, 0);

    step_with_joystick(&mut state, &mut memory, Some(&mut board), &decode).expect("out");
    step_with_joystick(&mut state, &mut memory, Some(&mut board), &decode).expect("branch");

    assert_eq!(state.pc(), 4);
}

// ---------------------------------------------------------------------------
// Further cases.
// ---------------------------------------------------------------------------

#[test]
fn decode_error_is_reported_and_nothing_runs() {
    let mut mem = Memory::default();
    mem.load_bytes(0, &[0xC0, 0x12]);
    let rejecting = |bytes: [u8; 3]| -> Result<(Instruction, u16), DecodeError> {
        Err(DecodeError { bytes })
    };
    let mut state = CpuState::new();
    let before = state.clone();
    assert_eq!(
        step(&mut state, &mut mem, &rejecting),
        Err(ExecError::Decode(DecodeError { bytes: [0xC0, 0x12, 0x00] }))
    );
    assert_eq!(state, before);
    assert_eq!(
        run(&mut state, &mut mem, 5, &rejecting),
        Err(ExecError::Decode(DecodeError { bytes: [0xC0, 0x12, 0x00] }))
    );
    assert_eq!(state, before);
}

#[test]
fn long_branch_bytes_are_decoded_and_taken() {
    let mut mem = Memory::default();
    // LBR 0x1234 ; at 0x1234: LBZ 0x2000 with D == 0 ; at 0x2000: IDL
    mem.load_bytes(0, &[0xC0, 0x12, 0x34]);
    mem.load_bytes(0x1234, &[0xC2, 0x20, 0x00]);
    let mut state = CpuState::new();
    step(&mut state, &mut mem, &decode).unwrap();
    assert_eq!(state.pc(), 0x1234);
    step(&mut state, &mut mem, &decode).unwrap();
    assert_eq!(state.pc(), 0x2000);
    assert_eq!(run(&mut state, &mut mem, 10, &decode), Ok(1));
    assert!(state.halted);
}

#[test]
fn long_branch_not_taken_steps_over_its_target() {
    let mut mem = Memory::default();
    // LBNZ 0x4000 with D == 0, then LSKP over two bytes, then NOP
    mem.load_bytes(0, &[0xCA, 0x40, 0x00, 0xC8, 0xFF, 0xFF, 0xC4]);
    let mut state = CpuState::new();
    step(&mut state, &mut mem, &decode).unwrap();
    assert_eq!(state.pc(), 3);
    step(&mut state, &mut mem, &decode).unwrap();
    assert_eq!(state.pc(), 6);
    step(&mut state, &mut mem, &decode).unwrap();
    assert_eq!(state.pc(), 7);
    assert_eq!(state.instr_count, 3);
}

#[test]
fn multi_register_demo_runs_to_expected_state() {
    // For each of R2, R3, RA and RF: LDI 0x20; PHI Rn; LDI lo; PLO Rn;
    // LDI 0x5n; STR Rn; INC Rn. Then IDL.
    let program: [u8; 41] = [
        0xF8, 0x20, 0xB2, 0xF8, 0x10, 0xA2, 0xF8, 0x52, 0x52, 0x12, //
        0xF8, 0x20, 0xB3, 0xF8, 0x20, 0xA3, 0xF8, 0x53, 0x53, 0x13, //
        0xF8, 0x20, 0xBA, 0xF8, 0x30, 0xAA, 0xF8, 0x5A, 0x5A, 0x1A, //
        0xF8, 0x20, 0xBF, 0xF8, 0x40, 0xAF, 0xF8, 0x5F, 0x5F, 0x1F, //
        0x00,
    ];
    let mut mem = Memory::default();
    mem.load_bytes(0, &program);
    let mut state = CpuState::new();
    let steps = run(&mut state, &mut mem, 100, &decode).expect("run multi-register demo");

    assert_eq!(steps, 29);
    assert!(state.halted);
    assert_eq!(mem.read_byte(0x2010), 0x52);
    assert_eq!(mem.read_byte(0x2020), 0x53);
    assert_eq!(mem.read_byte(0x2030), 0x5a);
    assert_eq!(mem.read_byte(0x2040), 0x5f);
    assert_eq!(state.read_reg(2), 0x2011);
    assert_eq!(state.read_reg(3), 0x2021);
    assert_eq!(state.read_reg(10), 0x2031);
    assert_eq!(state.read_reg(15), 0x2041);
}

#[test]
fn run_in_two_parts_matches_one_run() {
    let program: [u8; 21] = [
        0xF8, 0x20, 0xB2, 0xF8, 0x10, 0xA2, 0xF8, 0x52, 0x52, 0x12, //
        0xF8, 0x20, 0xB3, 0xF8, 0x20, 0xA3, 0xF8, 0x53, 0x53, 0x13, //
        0x00,
    ];
    let mut mem_a = Memory::default();
    mem_a.load_bytes(0, &program);
    let mut mem_b = mem_a.clone();
    let mut state_a = CpuState::new();
    let mut state_b = CpuState::new();

    let first = run(&mut state_a, &mut mem_a, 5, &decode).unwrap();
    let second = run(&mut state_a, &mut mem_a, 20, &decode).unwrap();
    let whole = run(&mut state_b, &mut mem_b, 25, &decode).unwrap();

    assert_eq!((first, second), (5, 10));
    assert_eq!(whole, first + second);
    assert_eq!(state_a, state_b);
    assert_eq!(mem_a, mem_b);
}

#[test]
fn joystick_ef4_reads_ready_bucket_plus_one_steps_after_out() {
    // OUT 3 (Y = 255, bucket 3), then SEQ three times, then B4 to 0x40.
    let mut mem = Memory::default();
    mem.load_bytes(0, &[0x63, 0x7B, 0x7B, 0x7B, 0x37, 0x40]);
    let mut state = CpuState::new();
    state.x = 15;
    let mut board = JoystickRcBoard::new(0, 255);
    for _ in 0..3 {
        step_with_joystick(&mut state, &mut mem, Some(&mut board), &decode).unwrap();
        assert!(!board.ready());
    }
    step_with_joystick(&mut state, &mut mem, Some(&mut board), &decode).unwrap();
    assert!(board.ready());
    step_with_joystick(&mut state, &mut mem, Some(&mut board), &decode).unwrap();
    assert_eq!(state.pc(), 0x40);
    assert!(board.q_led);
}

#[test]
fn runs_from_the_same_machine_agree() {
    let mut mem_a = Memory::default();
    mem_a.load_bytes(0, &[0xF8, 0x07, 0xFC, 0xFA, 0x52, 0x7B, 0x00]);
    let mut mem_b = mem_a.clone();
    let mut state_a = CpuState::new();
    state_a.write_reg(2, 0x3000);
    let mut state_b = state_a.clone();
    let ra = run(&mut state_a, &mut mem_a, 4, &decode);
    let rb = run(&mut state_b, &mut mem_b, 4, &decode);
    assert_eq!(ra, Ok(4));
    assert_eq!(ra, rb);
    assert_eq!(state_a, state_b);
    assert_eq!(mem_a, mem_b);
    assert_eq!(mem_a.read_byte(0x3000), 0x01);
    assert!(state_a.df);
}

#[test]
fn run_with_a_huge_budget_stops_at_the_halt() {
    let mut mem = Memory::default();
    mem.load_bytes(0, &[0x00]);
    let mut state = CpuState::new();
    state.instr_count = 1;
    assert_eq!(run(&mut state, &mut mem, u64::MAX, &decode), Ok(1));
    assert!(state.halted);
    assert_eq!(state.instr_count, 2);
}

#[test]
fn run_stops_when_the_counter_is_full() {
    let mut mem = Memory::default();
    // An endless loop: BR 0.
    mem.load_bytes(0, &[0x30, 0x00]);
    let mut state = CpuState::new();
    state.instr_count = u64::MAX - 3;
    assert_eq!(run(&mut state, &mut mem, 10, &decode), Ok(3));
    assert_eq!(state.instr_count, u64::MAX);
    assert!(!state.halted);
}

#[test]
fn exec_error_converts_from_decode_error() {
    let e: ExecError = DecodeError { bytes: [1, 2, 3] }.into();
    assert_eq!(e, ExecError::Decode(DecodeError { bytes: [1, 2, 3] }));
}

#[test]
fn run_stops_at_step_budget() {
    // An endless loop: BR 00.
    let mut mem = Memory::default();
    mem.load_bytes(0, &[0x30, 0x00]);
    let mut state = CpuState::new();
    assert_eq!(run(&mut state, &mut mem, 7, &decode), Ok(7));
    assert_eq!(state.instr_count, 7);
    assert!(!state.halted);
    assert_eq!(run(&mut state, &mut mem, 0, &decode), Ok(0));
}

#[test]
fn run_on_halted_cpu_takes_no_step() {
    let mut mem = Memory::default();
    let mut state = CpuState::new();
    state.halted = true;
    assert_eq!(run(&mut state, &mut mem, 10, &decode), Ok(0));
    assert_eq!(state.instr_count, 0);
}

#[test]
fn adc_and_sd_family_use_df_as_carry_and_borrow() {
    let mut mem = Memory::default();
    // ADCI 0x01 with DF = 1: 0xFF + 1 + 1 = 0x101.
    mem.load_bytes(0, &[0x7C, 0x01]);
    let mut state = CpuState::new();
    state.d = 0xFF;
    state.df = true;
    step(&mut state, &mut mem, &decode).unwrap();
    assert_eq!(state.d, 0x01);
    assert!(state.df);

    // SMI 0x05 from 0x03: borrow, D = 0xFE, DF = 0.
    mem.load_bytes(2, &[0xFF, 0x05]);
    state.d = 0x03;
    step(&mut state, &mut mem, &decode).unwrap();
    assert_eq!(state.d, 0xFE);
    assert!(!state.df);

    // SDBI 0x10 with DF = 0 (borrow in): 0x10 - 0xFE - 1 = 0x11, borrow out.
    mem.load_bytes(4, &[0x7D, 0x10]);
    step(&mut state, &mut mem, &decode).unwrap();
    assert_eq!(state.d, 0x11);
    assert!(!state.df);

    // SDI 0x20: 0x20 - 0x11 = 0x0F, no borrow.
    mem.load_bytes(6, &[0xFD, 0x20]);
    step(&mut state, &mut mem, &decode).unwrap();
    assert_eq!(state.d, 0x0F);
    assert!(state.df);
}

#[test]
fn shifts_move_bits_through_df() {
    let mut mem = Memory::default();
    // SHR, SHRC, SHLC
    mem.load_bytes(0, &[0xF6, 0x76, 0x7E]);
    let mut state = CpuState::new();
    state.d = 0x03;
    step(&mut state, &mut mem, &decode).unwrap();
    assert_eq!(state.d, 0x01);
    assert!(state.df);
    step(&mut state, &mut mem, &decode).unwrap();
    assert_eq!(state.d, 0x80);
    assert!(state.df);
    step(&mut state, &mut mem, &decode).unwrap();
    assert_eq!(state.d, 0x01);
    assert!(state.df);
}

#[test]
fn logic_ops_combine_d_with_memory_and_immediates() {
    let mut mem = Memory::default();
    mem.write_byte(0x3000, 0x0F);
    // SEX R2, OR, ANI 0x3C, XRI 0xFF
    mem.load_bytes(0, &[0xE2, 0xF1, 0xFA, 0x3C, 0xFB, 0xFF]);
    let mut state = CpuState::new();
    state.write_reg(2, 0x3000);
    state.d = 0xA0;
    run(&mut state, &mut mem, 4, &decode).unwrap();
    assert_eq!(state.d, !(0xAF & 0x3C));
}

#[test]
fn lda_stxd_ldxa_move_data_and_step_pointers() {
    let mut mem = Memory::default();
    mem.write_byte(0x4000, 0x99);
    // LDA R3, SEX R4, STXD, LDXA
    mem.load_bytes(0, &[0x43, 0xE4, 0x73, 0x72]);
    let mut state = CpuState::new();
    state.write_reg(3, 0x4000);
    state.write_reg(4, 0x5000);
    run(&mut state, &mut mem, 3, &decode).unwrap();
    assert_eq!(state.read_reg(3), 0x4001);
    assert_eq!(mem.read_byte(0x5000), 0x99);
    assert_eq!(state.read_reg(4), 0x4FFF);
    step(&mut state, &mut mem, &decode).unwrap();
    assert_eq!(state.d, 0x00);
    assert_eq!(state.read_reg(4), 0x5000);
}

#[test]
fn mark_saves_t_and_ret_reloads_x_and_p() {
    let mut mem = Memory::default();
    // MARK, then RET through R2
    mem.load_bytes(0, &[0x79, 0x70]);
    let mut state = CpuState::new();
    state.t = 0x00;
    state.x = 0x5;
    state.p = 0x0;
    state.write_reg(2, 0x6000);
    state.interrupt_enabled = false;
    step(&mut state, &mut mem, &decode).unwrap();
    // T := (X, P), saved at R2; X := P; R2 decremented.
    assert_eq!(state.t, 0x50);
    assert_eq!(mem.read_byte(0x6000), 0x50);
    assert_eq!(state.read_reg(2), 0x5FFF);
    assert_eq!(state.x, 0);
    assert_eq!(state.p, 0);
    // RET through R2, which points at the saved byte.
    state.x = 2;
    state.write_reg(2, 0x6000);
    step(&mut state, &mut mem, &decode).unwrap();
    assert_eq!(state.x, 5);
    assert_eq!(state.p, 0);
    assert_eq!(state.read_reg(2), 0x6001);
    assert!(state.interrupt_enabled);
}

#[test]
fn mark_packs_x_and_p_into_t() {
    let mut mem = Memory::default();
    mem.load_bytes(0, &[0x79]);
    let mut state = CpuState::new();
    state.t = 0;
    state.x = 1;
    state.write_reg(2, 0x7000);
    step(&mut state, &mut mem, &decode).unwrap();
    assert_eq!(state.t, 0x10);
    assert_eq!(mem.read_byte(0x7000), 0x10);
    assert_eq!(state.x, 0);
    assert_eq!(state.read_reg(2), 0x6FFF);
}

#[test]
fn long_branch_and_skip_follow_their_conditions() {
    let mut mem = Memory::default();
    let mut state = CpuState::new();
    state.d = 0;
    let lbz = always(Instruction::LongBranch { condition: LongBranchCondition::Zero, target: 0xBEEF }, 3);
    step(&mut state, &mut mem, &lbz).unwrap();
    assert_eq!(state.pc(), 0xBEEF);

    let lbnz = always(Instruction::LongBranch { condition: LongBranchCondition::NotZero, target: 0x1111 }, 3);
    step(&mut state, &mut mem, &lbnz).unwrap();
    assert_eq!(state.pc(), 0xBEF2);

    let lsie = always(Instruction::LongSkip { condition: LongSkipCondition::InterruptEnabled }, 1);
    step(&mut state, &mut mem, &lsie).unwrap();
    assert_eq!(state.pc(), 0xBEF5);
    state.interrupt_enabled = false;
    step(&mut state, &mut mem, &lsie).unwrap();
    assert_eq!(state.pc(), 0xBEF6);
}

#[test]
fn sep_switches_the_program_counter_register() {
    let mut mem = Memory::default();
    mem.load_bytes(0, &[0xD3]);
    mem.load_bytes(0x0100, &[0xF8, 0x77]);
    let mut state = CpuState::new();
    state.write_reg(3, 0x0100);
    step(&mut state, &mut mem, &decode).unwrap();
    assert_eq!(state.p, 3);
    assert_eq!(state.pc(), 0x0100);
    step(&mut state, &mut mem, &decode).unwrap();
    assert_eq!(state.d, 0x77);
    assert_eq!(state.pc(), 0x0102);
}

#[test]
fn inp_without_board_reads_zero_and_out_only_moves_rx() {
    let mut mem = Memory::default();
    mem.write_byte(0x2000, 0x44);
    mem.load_bytes(0, &[0x63, 0x6A]);
    let mut state = CpuState::new();
    state.x = 1;
    state.write_reg(1, 0x2000);
    state.d = 0x99;
    step(&mut state, &mut mem, &decode).unwrap();
    assert_eq!(state.read_reg(1), 0x2001);
    step(&mut state, &mut mem, &decode).unwrap();
    assert_eq!(state.d, 0);
    assert_eq!(mem.read_byte(0x2001), 0);
}

#[test]
fn step_with_io_drives_any_board() {
    let mut mem = Memory::default();
    mem.load_bytes(0, &[0x61]);
    mem.write_byte(0x2000, 0x5E);
    let mut state = CpuState::new();
    state.x = 1;
    state.write_reg(1, 0x2000);
    let mut board = FrontPanel::new();
    step_with_io(&mut state, &mut mem, Some(&mut board), &decode).unwrap();
    assert_eq!(board.hex_display, 0x5E);
    step_with_io::<FrontPanel, _>(&mut state, &mut mem, None, &decode).unwrap();
    assert_eq!(state.instr_count, 2);
}

#[test]
fn joystick_run_measures_bucket_through_ef4() {
    // OUT 2, then poll EF4 three times; the landing address encodes the bucket.
    // 0: OUT 2; 1: B4 0x10; 3: B4 0x20; 5: B4 0x30; 7: IDL
    let mut mem = Memory::default();
    mem.load_bytes(0, &[0x62, 0x37, 0x10, 0x37, 0x20, 0x37, 0x30, 0x00]);
    mem.load_bytes(0x10, &[0x00]);
    mem.load_bytes(0x20, &[0x00]);
    mem.load_bytes(0x30, &[0x00]);
    for (x, landing) in [(0u8, 0x11u16), (64, 0x21), (128, 0x31), (255, 0x08)] {
        let mut memory = mem.clone();
        let mut state = CpuState::new();
        state.x = 15;
        let mut board = JoystickRcBoard::new(x, 0);
        run_with_joystick(&mut state, &mut memory, &mut board, 50, &decode).unwrap();
        assert!(state.halted);
        assert_eq!(state.pc(), landing, "x = {x}");
    }
}
