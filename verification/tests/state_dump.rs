use sw_cdp1802_emulator::{format_cpu_state, format_hex_dump, CpuState};

#[test]
fn cpu_state_dump_includes_current_architectural_state() {
    let mut state = CpuState::new();
    state.d = 0x42;
    state.df = true;
    state.p = 0x2;
    state.x = 0xf;
    state.t = 0x2f;
    state.q = true;
    state.ef = [true, false, true, false];
    state.interrupt_enabled = false;
    state.interrupt_pending = true;
    state.halted = true;
    state.instr_count = 7;
    for i in 0..16 {
        state.write_reg(i, 0x1000 + i as u16);
    }

    let dump = format_cpu_state(&state);

    for expected in [
        "D           = 0x42",
        "DF          = true",
        "P           = 0x2",
        "X           = 0xf",
        "T           = 0x2f",
        "Q           = true",
        "EF1         = true",
        "EF2         = false",
        "EF3         = true",
        "EF4         = false",
        "IE          = false",
        "IRQ pending = true",
        "halted      = true",
        "instr_count = 7",
        "R0         = 0x1000",
        "R1         = 0x1001",
        "R2         = 0x1002",
        "R3         = 0x1003",
        "R4         = 0x1004",
        "R5         = 0x1005",
        "R6         = 0x1006",
        "R7         = 0x1007",
        "R8         = 0x1008",
        "R9         = 0x1009",
        "RA         = 0x100a",
        "RB         = 0x100b",
        "RC         = 0x100c",
        "RD         = 0x100d",
        "RE         = 0x100e",
        "RF         = 0x100f",
    ] {
        assert!(
            dump.contains(expected),
            "missing `{expected}` from dump:\n{dump}"
        );
    }
}

#[test]
fn hex_dump_includes_address_bytes_and_ascii() {
    let dump = format_hex_dump(0x2000, &[0x41, 0x00, 0x7e]);

    assert_eq!(
        dump,
        "  2000: 41 00 7e                                         |A.~|\n"
    );
}

#[test]
fn cpu_dump_of_reset_state_is_exact() {
    let dump = format_cpu_state(&CpuState::new());
    let mut expected = String::from(
        "D           = 0x00\nDF          = false\nP           = 0x0\nX           = 0x0\n\
         T           = 0x00\nQ           = false\nEF1         = false\nEF2         = false\n\
         EF3         = false\nEF4         = false\nIE          = true\nIRQ pending = false\n\
         halted      = false\ninstr_count = 0\n",
    );
    for name in [
        "R0", "R1", "R2", "R3", "R4", "R5", "R6", "R7", "R8", "R9", "RA", "RB", "RC", "RD", "RE",
        "RF",
    ] {
        expected.push_str(&format!("{name}         = 0x0000\n"));
    }
    assert_eq!(dump, expected);
}

#[test]
fn cpu_dump_prints_wide_values_without_truncation() {
    let mut state = CpuState::new();
    state.p = 0x1f;
    state.instr_count = 18_446_744_073_709_551_615;
    state.write_reg(0, 0xABCD);
    let dump = format_cpu_state(&state);
    assert!(dump.contains("P           = 0x1f\n"));
    assert!(dump.contains("instr_count = 18446744073709551615\n"));
    assert!(dump.contains("R0         = 0xabcd\n"));
}

#[test]
fn hex_dump_splits_lines_every_sixteen_bytes() {
    let bytes: Vec<u8> = (0x20u8..0x32).collect();
    let dump = format_hex_dump(0xFFF8, &bytes);
    assert_eq!(
        dump,
        "  fff8: 20 21 22 23 24 25 26 27 28 29 2a 2b 2c 2d 2e 2f  | !\"#$%&'()*+,-./|\n\
         \x20 10008: 30 31                                            |01|\n"
    );
    assert_eq!(format_hex_dump(0, &[]), "");
}
