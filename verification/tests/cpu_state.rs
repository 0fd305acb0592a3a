use sw_cdp1802_emulator::{CpuState, ExternalFlag};

#[test]
fn initial_state_includes_full_control_flags() {
    let state = CpuState::new();

    assert_eq!(state.r, [0; 16]);
    assert_eq!(state.d, 0);
    assert!(!state.df);
    assert_eq!(state.p, 0);
    assert_eq!(state.x, 0);
    assert_eq!(state.t, 0);
    assert!(!state.q);
    assert_eq!(state.ef, [false; 4]);
    assert!(state.interrupt_enabled);
    assert!(!state.interrupt_pending);
    assert!(!state.halted);
    assert_eq!(state.instr_count, 0);
}

#[test]
fn state_helpers_mutate_flags_and_interrupt_latch() {
    let mut state = CpuState::new();

    state.set_data_flag(true);
    assert!(state.data_flag());

    state.set_interrupt_enabled(false);
    assert!(!state.interrupt_enabled);

    state.request_interrupt();
    assert!(state.interrupt_pending);

    state.clear_interrupt_request();
    assert!(!state.interrupt_pending);
}

#[test]
fn default_equals_new() {
    assert_eq!(CpuState::default(), CpuState::new());
}

#[test]
fn register_index_uses_low_nibble_only() {
    let mut state = CpuState::new();
    state.write_reg(0x13, 0xBEEF);
    assert_eq!(state.read_reg(3), 0xBEEF);
    assert_eq!(state.r[3], 0xBEEF);
    assert_eq!(state.read_reg(0xF3), 0xBEEF);
    for i in 0..16u8 {
        if i != 3 {
            assert_eq!(state.read_reg(i), 0);
        }
    }
}

#[test]
fn pc_follows_p_and_advance_wraps() {
    let mut state = CpuState::new();
    state.p = 5;
    state.set_pc(0xFFFE);
    assert_eq!(state.r[5], 0xFFFE);
    assert_eq!(state.pc(), 0xFFFE);
    state.advance_pc(3);
    assert_eq!(state.pc(), 0x0001);
    assert_eq!(state.r[0], 0);
}

#[test]
fn external_flags_read_back_and_stay_separate() {
    let mut state = CpuState::new();
    state.set_external_flag(ExternalFlag::Ef2, true);
    assert!(state.external_flag(ExternalFlag::Ef2));
    assert!(!state.external_flag(ExternalFlag::Ef1));
    assert!(!state.external_flag(ExternalFlag::Ef3));
    assert!(!state.external_flag(ExternalFlag::Ef4));
    assert_eq!(state.ef, [false, true, false, false]);
    state.set_external_flag(ExternalFlag::Ef2, false);
    assert_eq!(state.ef, [false; 4]);
}
