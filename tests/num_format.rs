use lora_tools::num_format::ToFormattedString;

#[test]
fn thousands_separators() {
    assert_eq!(1_234_567u64.to_formatted_string(), "1,234,567");
    assert_eq!(33_554_432u32.to_formatted_string(), "33,554,432");
    assert_eq!(999u128.to_formatted_string(), "999");
    assert_eq!((-1_024i128).to_formatted_string(), "-1,024");
}
