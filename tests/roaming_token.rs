use lora_tools::roaming_token::{parse_token, token_from_groups, TOKEN_PATTERN};

fn b58_of(bytes: &[u8]) -> String {
    bs58::encode(bytes).with_check().into_string()
}

fn animal_of(s: &str) -> String {
    s.parse::<angry_purple_tiger::AnimalName>().unwrap().to_string()
}

#[test]
fn test_parse_token() {
    //let input = "0x55533931353A3A313731373836373039363937383A3A313A3A01B9369F0B077DA6E65CA5D895565F507D912F32B190066F2DFD9520227A36AAC0".to_string();
    let input = "0x45553836383A3A323638393537393432343A3A31323739363333652D303661302D313165652D393839642D6637316363643537613231383A3A0072C4AE468379170A7F7955A4375C084A8327CAE9ACF0432DC91CFF2E66512257".to_string();
    let token = parse_token(&input);
    println!("{token:?}");
}

#[test]
fn token_fields() {
    let input = "0x45553836383A3A323638393537393432343A3A31323739363333652D303661302D313165652D393839642D6637316363643537613231383A3A0072C4AE468379170A7F7955A4375C084A8327CAE9ACF0432DC91CFF2E66512257";
    let token = parse_token(input).unwrap();
    assert_eq!(token.region, "EU868");
    assert_eq!(token.packet_time, 2_689_579_424);
    assert_eq!(token.route_id, "1279633e-06a0-11ee-989d-f71ccd57a218");
    let key = hex::decode("0072C4AE468379170A7F7955A4375C084A8327CAE9ACF0432DC91CFF2E66512257").unwrap();
    let mut binary = vec![0u8];
    binary.extend(key);
    assert_eq!(token.b58, b58_of(&binary));
    assert_eq!(token.animal_name, animal_of(&token.b58));
    assert_eq!(token.animal_name.matches('-').count(), 2);
}

#[test]
fn token_with_short_route() {
    let input = "0x55533931353A3A313731373836373039363937383A3A313A3A01B9369F0B077DA6E65CA5D895565F507D912F32B190066F2DFD9520227A36AAC0";
    let token = parse_token(input).unwrap();
    assert_eq!(token.region, "US915");
    assert_eq!(token.packet_time, 1_717_867_096_978);
    assert_eq!(token.route_id, "1");
}

#[test]
fn token_prefix_is_optional_and_repeatable() {
    // "EU::1::2::" then a one-byte key
    let plain = parse_token("45553A3A313A3A323A3A07").unwrap();
    let twice = parse_token("0x0x45553A3A313A3A323A3A07").unwrap();
    assert_eq!(plain.region, "EU");
    assert_eq!(plain.packet_time, 1);
    assert_eq!(plain.route_id, "2");
    assert_eq!(plain.b58, b58_of(&[0, 7]));
    assert_eq!(twice.b58, plain.b58);
    assert_eq!(twice.animal_name, plain.animal_name);
}

#[test]
fn unreadable_tokens() {
    assert!(parse_token("").is_none());
    assert!(parse_token("0x").is_none());
    assert!(parse_token("0x0x").is_none());
    assert!(parse_token("zz").is_none());
    assert!(parse_token("455").is_none());
    assert!(parse_token("4142").is_none());
    // packet time "x" is no number
    assert!(parse_token("45553A3A783A3A323A3A07").is_none());
}

#[test]
fn token_match_skips_bytes_that_are_not_text() {
    // the layout is not anchored: the match starts after the 0xFF byte
    let token = parse_token("FF3A3A313A3A323A3A07").unwrap();
    assert_eq!(token.region, "");
    assert_eq!(token.packet_time, 1);
    assert_eq!(token.route_id, "2");
}

#[test]
fn token_from_given_groups() {
    let bytes = b"EU::12::r::\x01\x02".to_vec();
    let groups = vec![Some((0, 13)), Some((0, 2)), Some((4, 6)), Some((8, 9)), Some((11, 13))];
    let token = token_from_groups(&bytes, &groups).unwrap();
    assert_eq!(token.region, "EU");
    assert_eq!(token.packet_time, 12);
    assert_eq!(token.route_id, "r");
    assert_eq!(token.b58, b58_of(&[0, 1, 2]));
    let missing = vec![Some((0, 13)), Some((0, 2)), None, Some((8, 9)), Some((11, 13))];
    assert!(token_from_groups(&bytes, &missing).is_none());
    let outside = vec![Some((0, 13)), Some((0, 2)), Some((4, 6)), Some((8, 9)), Some((11, 14))];
    assert!(token_from_groups(&bytes, &outside).is_none());
    assert!(token_from_groups(&bytes, &vec![]).is_none());
    assert!(TOKEN_PATTERN.contains("pubkeybin"));
}
