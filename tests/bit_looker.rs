use lora_tools::bit_looker::{bits_as_num, index_pow, BitHover, Bittable, Shiftable};

#[test]
fn bits_as_num_test() {
    assert_eq!(bits_as_num(&[false, false, false]), 0);
    assert_eq!(bits_as_num(&[false, false, true]), 1);
    assert_eq!(bits_as_num(&[false, true, false]), 2);
}

#[test]
fn bits_as_num_keeps_last_128_bits() {
    let mut bits = vec![true];
    bits.extend(vec![false; 127]);
    bits.push(true);
    assert_eq!(bits.len(), 129);
    assert_eq!(bits_as_num(&bits), 1);
    assert_eq!(bits_as_num(&[true; 128]), u128::MAX);
    assert_eq!(bits_as_num(&[]), 0);
}

#[test]
fn index_pow_values() {
    assert_eq!(index_pow(0), 1);
    assert_eq!(index_pow(10), 1024);
    assert_eq!(index_pow(63), 1u64 << 63);
}

#[test]
fn shift_and_push() {
    let mut bits = vec![true, false, false];
    bits.shift_left(true);
    assert_eq!(bits, vec![false, false, true]);
    bits.shift_right(true);
    assert_eq!(bits, vec![true, false, false]);
    bits.push_left(false);
    assert_eq!(bits, vec![false, true, false, false]);
    bits.push_right(true);
    assert_eq!(bits, vec![false, true, false, false, true]);
    bits.pop_left();
    assert_eq!(bits, vec![true, false, false, true]);
    bits.pop_right();
    assert_eq!(bits, vec![true, false, false]);
    bits.invert();
    assert_eq!(bits, vec![false, true, true]);
}

#[test]
fn shift_on_empty_row() {
    let mut bits: Vec<bool> = vec![];
    bits.shift_left(true);
    assert_eq!(bits, vec![true]);
    let mut bits: Vec<bool> = vec![];
    bits.shift_right(false);
    assert_eq!(bits, vec![false]);
    let mut bits: Vec<bool> = vec![];
    bits.pop_left();
    bits.pop_right();
    assert!(bits.is_empty());
}

#[test]
fn reset_rows() {
    let mut bits = vec![true, false];
    bits.empty_and_set(8);
    assert_eq!(bits, vec![false; 8]);
    bits.empty_and_set_with(3, true);
    assert_eq!(bits, vec![true; 3]);
    bits.empty_and_set(0);
    assert!(bits.is_empty());
}

#[test]
fn bool_digit_and_flip() {
    let mut b = false;
    assert_eq!(b.bit_display(), "0");
    b.flip();
    assert!(b);
    assert_eq!(b.bit_display(), "1");
}

#[test]
fn hover_tracking() {
    let mut hover = BitHover(0);
    assert!(!hover.hover_has_entered(0));
    assert!(hover.hover_has_entered(3));
    hover.start_hover(3);
    assert_eq!(hover.0, 3);
    assert!(!hover.hover_has_entered(3));
}
