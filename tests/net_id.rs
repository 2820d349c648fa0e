use lora_tools::net_id::{
    addr_offset_for_mem_type, nwk_id_offset_for_mem_type, CommonNetId, Devaddr, NetID, ParseError,
};
use std::str::FromStr;

#[test]
fn class_zero_encoding() {
    let d = Devaddr::with_fields(0, 5, 0);
    let w = d.num();
    assert_eq!(w >> 31, 0);
    assert_eq!((w >> 25) & 0x3F, 5);
    assert_eq!(w & 0x1FF_FFFF, 0);
    assert_eq!(d.as_hex(), "0A000000");
}

#[test]
fn short_id_from_hex() {
    let n = NetID::new("00003C").unwrap();
    assert_eq!(n.mem_type, 0);
    assert_eq!(n.id, 60);
    assert_eq!(n.dec, 60);
}

#[test]
fn class_seven_round_trip() {
    let d = Devaddr::with_fields(7, 0x1FFFF, 0);
    let w = d.num();
    assert_eq!(w >> 24, 0b1111_1110);
    assert_eq!(w, 0xFEFF_FF80);
    let back = Devaddr::decode(w);
    assert_eq!(back, Devaddr { mem_type: 7, nwk_addr: 0x1FFFF, addr: 0 });
}

#[test]
fn range_sizes() {
    assert_eq!(NetID::with_fields(6, 0).range_size(), 1024);
    assert_eq!(NetID::with_fields(0, 0).range_size(), 33_554_432);
    for c in 0..8u8 {
        let n = NetID::with_fields(c, 1);
        let bits = addr_offset_for_mem_type(c) as u32;
        assert_eq!(n.range_size(), 1u32 << bits);
        assert_eq!(n.end_addr().addr - n.start_addr().addr + 1, n.range_size());
    }
}

#[test]
fn unparseable_text() {
    assert_eq!(Devaddr::new("zz"), Err(ParseError));
    assert_eq!(NetID::new("zz"), Err(ParseError));
    assert_eq!(Devaddr::new(""), Err(ParseError));
    assert_eq!(NetID::new("+"), Err(ParseError));
    assert_eq!(NetID::new("100000000"), Err(ParseError));
    assert!(Devaddr::from_str("zz").is_err());
    assert_eq!(NetID::from_str("zz"), Err("Invalid Net ID".to_string()));
    assert_eq!(Devaddr::from_str("-1"), Err("Invalid Devaddr".to_string()));
}

#[test]
fn devaddr_text_forms() {
    let d = Devaddr::new("78000001").unwrap();
    assert_eq!(d, Devaddr { mem_type: 0, nwk_addr: 60, addr: 1 });
    let lower = Devaddr::new("+fc014c00").unwrap();
    assert_eq!(lower, Devaddr { mem_type: 6, nwk_addr: 0x53, addr: 0 });
    // ten decimal digits do not fit as hexadecimal, so they are read in decimal
    let dec = Devaddr::new("4294967295").unwrap();
    assert_eq!(dec, Devaddr { mem_type: 7, nwk_addr: 0x1FFFF, addr: 0x7F });
    // eight leading ones read as class 7, whose prefix is written `11111110`
    assert_eq!(dec.num(), 0xFEFF_FFFF);
    assert_eq!(Devaddr::from_str("78000001").unwrap(), d);
}

#[test]
fn round_trip_every_class() {
    for c in 0..8u8 {
        let nwk_max = (1u32 << nwk_id_offset_for_mem_type(c)) - 1;
        let addr_max = (1u32 << addr_offset_for_mem_type(c)) - 1;
        for (n, a) in [(0, 0), (nwk_max, addr_max), (nwk_max / 2, 1), (1, addr_max / 3)] {
            let d = Devaddr::with_fields(c, n, a);
            assert_eq!(d, Devaddr { mem_type: c, nwk_addr: n, addr: a });
            assert_eq!(Devaddr::decode(d.num()), d);
            assert_eq!(Devaddr::new(&d.as_hex()).unwrap(), d);
        }
    }
}

#[test]
fn oversized_fields_keep_their_class() {
    for c in 0..8u8 {
        let d = Devaddr::with_fields(c, u32::MAX, u32::MAX);
        assert_eq!(Devaddr::decode(d.num()).mem_type, c);
        assert_eq!(d.nwk_addr, (1u32 << nwk_id_offset_for_mem_type(c)) - 1);
        assert_eq!(d.addr, (1u32 << addr_offset_for_mem_type(c)) - 1);
    }
}

#[test]
fn leading_ones_select_the_class() {
    assert_eq!(Devaddr::decode(0x7FFF_FFFF).mem_type, 0);
    assert_eq!(Devaddr::decode(0x8000_0000).mem_type, 1);
    assert_eq!(Devaddr::decode(0xC000_0000).mem_type, 2);
    assert_eq!(Devaddr::decode(0xFC00_0000).mem_type, 6);
    assert_eq!(Devaddr::decode(0xFE00_0000).mem_type, 7);
    assert_eq!(Devaddr::decode(0xFFFF_FFFF).mem_type, 7);
}

#[test]
fn range_boundaries() {
    let n = NetID::new("00003C").unwrap();
    let start = n.start_addr();
    let end = n.end_addr();
    assert_eq!(start.as_hex(), "78000000");
    assert_eq!(end.as_hex(), "79FFFFFF");
    assert_eq!(start.addr, 0);
    assert_eq!(end.addr, (1 << 25) - 1);
    assert_eq!(start.net_id(), n);
    assert_eq!(end.net_id(), n);

    let n = NetID::new("C00053").unwrap();
    assert_eq!(n.mem_type, 6);
    assert_eq!(n.id, 0x53);
    assert_eq!(n.start_addr().as_hex(), "FC014C00");
    assert_eq!(n.end_addr().as_hex(), "FC014FFF");
    assert_eq!(n.end_addr().net_id(), n);
}

#[test]
fn short_id_forms() {
    let n = NetID::new("600053").unwrap();
    assert_eq!(n.mem_type, 3);
    assert_eq!(n.id, 0x53);
    assert_eq!(n.as_hex(), "600053");
    assert_eq!(n.as_dec(), "6291539");
    assert_eq!(n.as_arr(), "[96, 0, 83]");
    assert_eq!(n.num(), 0x60_0053);
    assert_eq!(n.as_bin(), "011000000000000001010011");
    assert_eq!(n.rfu_bits(), 0);
    assert_eq!(NetID::new("000024").unwrap().rfu_bits(), 18);
}

#[test]
fn short_id_keeps_24_bits() {
    let n = NetID::new("FFE00001").unwrap();
    assert_eq!(n.mem_type, 7);
    assert_eq!(n.id, 1);
    assert_eq!(n.dec, 0xE0_0001);
    assert_eq!(n.as_hex(), "E00001");
    let m = NetID::with_fields(2, 0x20_0005);
    assert_eq!(m.id, 5);
    assert_eq!(m.num(), 0x40_0005);
    assert_eq!(NetID::from_str("400005").unwrap(), m);
}

#[test]
fn devaddr_forms() {
    let d = Devaddr::new("FC014C2A").unwrap();
    assert_eq!(d.as_dec(), "4227943466");
    assert_eq!(d.as_arr(), "[252, 1, 76, 42]");
    assert_eq!(d.as_bin(), "11111100000000010100110000101010");
    assert_eq!(d.bin_fields(), (7, 22));
    assert_eq!(Devaddr::with_fields(0, 0, 0).as_dec(), "0");
    assert_eq!(Devaddr::with_fields(0, 0, 0).as_arr(), "[0, 0, 0, 0]");
}

#[test]
fn width_tables() {
    let nwk = [6, 6, 9, 11, 12, 13, 15, 17];
    let addr = [25, 24, 20, 17, 15, 13, 10, 7];
    for c in 0..8u8 {
        assert_eq!(nwk_id_offset_for_mem_type(c), nwk[c as usize]);
        assert_eq!(addr_offset_for_mem_type(c), addr[c as usize]);
        assert_eq!(c as usize + 1 + nwk[c as usize] + addr[c as usize], 32);
    }
}

#[test]
fn common_net_id_fields() {
    let c = CommonNetId::new("Helium", "00003C");
    assert_eq!(c.name, "Helium");
    assert_eq!(c.net_id, "00003C");
}

#[test]
fn short_id_width_is_21_bits() {
    let n = NetID::new("1FFFFF").unwrap();
    assert_eq!(n.mem_type, 0);
    assert_eq!(n.id, 0x1F_FFFF);
    let m = NetID::with_fields(5, 0x1F_FFFF);
    assert_eq!(m.id, 0x1F_FFFF);
    assert_eq!(m.as_hex(), "BFFFFF");
    assert_eq!(NetID::new(&m.as_hex()).unwrap(), m);
}

#[test]
fn owner_needs_id_within_network_width() {
    // class 0 keeps six bits of network id in a device address
    let n = NetID::with_fields(0, 64);
    assert_eq!(n.start_addr().nwk_addr, 0);
    assert_ne!(n.start_addr().net_id(), n);
    let m = NetID::with_fields(0, 63);
    assert_eq!(m.start_addr().net_id(), m);
    assert_eq!(m.end_addr().net_id(), m);
}
