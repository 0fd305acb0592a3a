use sw_cdp1802_emulator::Memory;

#[test]
fn new_memory_is_zeroed_with_requested_size() {
    let mem = Memory::new(16);
    assert_eq!(mem.size_bytes(), 16);
    assert_eq!(mem.read_range(0, 16), vec![0; 16]);
    assert_eq!(Memory::default().size_bytes(), 65_536);
}

#[test]
fn write_then_read_returns_written_byte_and_keeps_neighbours() {
    let mut mem = Memory::new(8);
    mem.write_byte(3, 0xAA);
    assert_eq!(mem.read_byte(3), 0xAA);
    assert_eq!(mem.read_byte(2), 0);
    assert_eq!(mem.read_byte(4), 0);
}

#[test]
fn outside_memory_reads_zero_and_writes_are_ignored() {
    let mut mem = Memory::new(4);
    mem.write_byte(10, 0x55);
    assert_eq!(mem.read_byte(10), 0);
    assert_eq!(mem.read_range(0, 4), vec![0; 4]);
    assert_eq!(mem.size_bytes(), 4);
}

#[test]
fn load_bytes_truncates_at_end_of_memory() {
    let mut mem = Memory::new(6);
    mem.load_bytes(4, &[1, 2, 3, 4]);
    assert_eq!(mem.read_range(0, 6), vec![0, 0, 0, 0, 1, 2]);
    mem.load_bytes(9, &[7]);
    assert_eq!(mem.read_range(0, 6), vec![0, 0, 0, 0, 1, 2]);
}

#[test]
fn load_then_read_range_round_trips() {
    let mut mem = Memory::default();
    mem.load_bytes(0x1234, &[9, 8, 7]);
    assert_eq!(mem.read_range(0x1234, 3), vec![9, 8, 7]);
    assert_eq!(mem.read_byte(0x1233), 0);
    assert_eq!(mem.read_byte(0x1237), 0);
}

#[test]
fn read_range_and_fetch_wrap_at_64k() {
    let mut mem = Memory::default();
    mem.write_byte(0xFFFF, 0x11);
    mem.write_byte(0x0000, 0x22);
    mem.write_byte(0x0001, 0x33);
    assert_eq!(mem.read_range(0xFFFF, 3), vec![0x11, 0x22, 0x33]);
    assert_eq!(mem.fetch_bytes(0xFFFF), [0x11, 0x22]);
    assert_eq!(mem.fetch_window(0xFFFF), [0x11, 0x22, 0x33]);
}

#[test]
fn decode_at_hands_the_decoder_the_three_bytes_at_the_address() {
    let mut mem = Memory::default();
    mem.load_bytes(0x40, &[0xC0, 0x42, 0x17]);
    let seen = mem.decode_at(0x40, &|b: [u8; 3]| Err(sw_cdp1802_emulator::DecodeError { bytes: b }));
    assert_eq!(seen, Err(sw_cdp1802_emulator::DecodeError { bytes: [0xC0, 0x42, 0x17] }));
}
