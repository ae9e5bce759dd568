use zk_tui::format::{count, hex_groups};

#[test]
fn counts_and_hex_are_grouped() {
    assert_eq!(count(1_234_567), "1,234,567");
    assert_eq!(count(999), "999");
    assert_eq!(hex_groups(&[0xde, 0xad, 0xbe, 0xef, 0x01]), "deadbeef 01");
}

#[test]
fn whole_groups_and_no_bytes() {
    assert_eq!(hex_groups(&[]), "");
    assert_eq!(hex_groups(&[0, 1, 2, 3, 4, 5, 6, 7]), "00010203 04050607");
    assert_eq!(count(0), "0");
    assert_eq!(count(u64::MAX), "18,446,744,073,709,551,615");
}
