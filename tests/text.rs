use lora_tools::bits::new_num_from;
use lora_tools::text::{parse_u32, push_dec, push_list, push_padded};

#[test]
fn parse_literals() {
    assert_eq!(parse_u32("ff", 16), Some(255));
    assert_eq!(parse_u32("+10", 10), Some(10));
    assert_eq!(parse_u32("FFFFFFFF", 16), Some(u32::MAX));
    assert_eq!(parse_u32("100000000", 16), None);
    assert_eq!(parse_u32("4294967296", 10), None);
    assert_eq!(parse_u32("", 16), None);
    assert_eq!(parse_u32("-1", 10), None);
    assert_eq!(parse_u32("1 2", 10), None);
    assert_eq!(parse_u32("z", 36), Some(35));
}

#[test]
fn write_numbers() {
    let mut s = String::from("x");
    push_padded(&mut s, 0xAB, 16, 4);
    assert_eq!(s, "x00AB");
    let mut s = String::new();
    push_padded(&mut s, 5, 2, 4);
    assert_eq!(s, "0101");
    let mut s = String::new();
    push_dec(&mut s, 1_000_007);
    assert_eq!(s, "1000007");
    let mut s = String::new();
    push_list(&mut s, &vec![1, 20, 300]);
    assert_eq!(s, "[1, 20, 300]");
    let mut s = String::new();
    push_list(&mut s, &vec![]);
    assert_eq!(s, "[]");
}

#[test]
fn extract_bit_ranges() {
    assert_eq!(new_num_from(0xF000_0000, 1..=4), 0xF);
    assert_eq!(new_num_from(0x0060_0053, 9..=11), 3);
    assert_eq!(new_num_from(0x0060_0053, 12..=32), 0x53);
    assert_eq!(new_num_from(0xDEAD_BEEF, 1..=32), 0xDEAD_BEEF);
    assert_eq!(new_num_from(0xDEAD_BEEF, 32..=32), 1);
}
