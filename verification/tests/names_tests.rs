use netgame::names::allocate;

#[test]
fn allocate_port_zero() {
    assert_eq!(allocate(0), "Anubis0");
}

#[test]
fn allocate_wraparound_takes_suffix_one() {
    // Byte-swapped index 21 wraps the 21-name list: first name, suffix 1.
    assert_eq!(allocate(0x1500), "Anubis1");
}

#[test]
fn allocate_swaps_port_bytes() {
    // Port 0x0102 gives index 0x0201 = 513 = 24 * 21 + 9.
    assert_eq!(allocate(0x0102), "Thoth24");
}

#[test]
fn allocate_is_deterministic() {
    assert_eq!(allocate(54321), allocate(54321));
}
