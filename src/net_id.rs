use vstd::prelude::*;
use vstd::arithmetic::power2::{pow2, lemma2_to64, lemma_pow2_adds, lemma_pow2_pos};
use vstd::arithmetic::div_mod::lemma_fundamental_div_mod_converse;
use vstd::bits::{lemma_u32_shr_is_div, lemma_u32_shl_is_mul};
use crate::bits::{extract, new_num_from};
use crate::text::{
    parses_u32, parsed_value, parse_u32, padded_chars, dec_chars, list_chars, push_padded, push_dec,
    push_list,
};

verus! {

/// Width of the network-id field of a device address of class `c`.
pub open spec fn nwk_bits(c: int) -> nat {
    if c == 0 {
        6
    } else if c == 1 {
        6
    } else if c == 2 {
        9
    } else if c == 3 {
        11
    } else if c == 4 {
        12
    } else if c == 5 {
        13
    } else if c == 6 {
        15
    } else {
        17
    }
}

/// Width of the device-address field of a device address of class `c`.
pub open spec fn addr_bits(c: int) -> nat {
    if c == 0 {
        25
    } else if c == 1 {
        24
    } else if c == 2 {
        20
    } else if c == 3 {
        17
    } else if c == 4 {
        15
    } else if c == 5 {
        13
    } else if c == 6 {
        10
    } else {
        7
    }
}

/// The prefix of class `c` as a number of `c + 1` bits: `c` ones, then a zero.
pub open spec fn prefix_bits(c: int) -> nat {
    if c == 0 {
        0
    } else if c == 1 {
        2
    } else if c == 2 {
        6
    } else if c == 3 {
        14
    } else if c == 4 {
        30
    } else if c == 5 {
        62
    } else if c == 6 {
        126
    } else {
        254
    }
}

/// The class that the prefix of a 32-bit word selects: its number of leading
/// one bits, at most seven.
pub open spec fn class_of(w: int) -> nat {
    if w >= 0xFE00_0000 {
        7
    } else if w >= 0xFC00_0000 {
        6
    } else if w >= 0xF800_0000 {
        5
    } else if w >= 0xF000_0000 {
        4
    } else if w >= 0xE000_0000 {
        3
    } else if w >= 0xC000_0000 {
        2
    } else if w >= 0x8000_0000 {
        1
    } else {
        0
    }
}

/// The class of a word is its number of leading one bits, at most seven.
pub proof fn lemma_class_is_leading_ones(w: u32)
    ensures
        class_of(w as int) == if w.leading_ones() < 7 {
            w.leading_ones() as nat
        } else {
            7
        },
{
    let lo = w.leading_ones();
    vstd::std_specs::bits::axiom_u32_leading_ones(w);
    assert(lo <= 32);
    assert((!w) >> ((32 - lo) as u32) == 0);
    assert(lo < 32 ==> (w >> ((31 - lo) as u32)) & 1 == 0);
    assert({
        &&& lo >= 7 ==> w >= 0xFE00_0000
        &&& lo == 6 ==> 0xFC00_0000 <= w < 0xFE00_0000
        &&& lo == 5 ==> 0xF800_0000 <= w < 0xFC00_0000
        &&& lo == 4 ==> 0xF000_0000 <= w < 0xF800_0000
        &&& lo == 3 ==> 0xE000_0000 <= w < 0xF000_0000
        &&& lo == 2 ==> 0xC000_0000 <= w < 0xE000_0000
        &&& lo == 1 ==> 0x8000_0000 <= w < 0xC000_0000
        &&& lo == 0 ==> w < 0x8000_0000
    }) by (bit_vector)
        requires
            lo <= 32,
            (!w) >> ((32 - lo) as u32) == 0,
            lo < 32 ==> (w >> ((31 - lo) as u32)) & 1 == 0,
    ;
}

/// Width of the network-id field for `mem_type`.
pub fn nwk_id_offset_for_mem_type(mem_type: u8) -> (r: usize)
    requires
        mem_type <= 7,
    ensures
        r == nwk_bits(mem_type as int),
{
    match mem_type {
        0 => 6,
        1 => 6,
        2 => 9,
        3 => 11,
        4 => 12,
        5 => 13,
        6 => 15,
        _ => 17,
    }
}

/// Width of the device-address field for `mem_type`.
pub fn addr_offset_for_mem_type(mem_type: u8) -> (r: usize)
    requires
        mem_type <= 7,
    ensures
        r == addr_bits(mem_type as int),
{
    match mem_type {
        0 => 25,
        1 => 24,
        2 => 20,
        3 => 17,
        4 => 15,
        5 => 13,
        6 => 10,
        _ => 7,
    }
}

/// The widths of each class add up to the 32 bits of a word.
pub proof fn lemma_widths(c: int)
    requires
        0 <= c <= 7,
    ensures
        c + 1 + nwk_bits(c) + addr_bits(c) == 32,
        prefix_bits(c) < pow2((c + 1) as nat),
        pow2(nwk_bits(c)) * pow2(addr_bits(c)) == pow2((31 - c) as nat),
{
    lemma2_to64();
    lemma_pow2_adds(nwk_bits(c), addr_bits(c));
}

/// A network identifier that is worth keeping at hand, under a name.
pub struct CommonNetId {
    pub name: String,
    pub net_id: String,
}

impl CommonNetId {
    pub fn new(name: &str, net_id: &str) -> (r: CommonNetId)
        ensures
            r.name@ == name@,
            r.net_id@ == net_id@,
    {
        CommonNetId { name: name.to_string(), net_id: net_id.to_string() }
    }
}

/// A text that does not read as a number.
#[derive(Debug, Clone, Copy, PartialEq, Eq, Structural)]
pub struct ParseError;

/// A device address: the class, the network id that owns it, and the address
/// of the device within that network.
#[derive(Debug, Clone, Copy, PartialEq, Eq, Structural)]
pub struct Devaddr {
    pub mem_type: u8,
    pub nwk_addr: u32,
    pub addr: u32,
}

/// The number that a device-address text stands for: hexadecimal if it reads
/// as such, decimal otherwise.
pub open spec fn devaddr_text_value(s: Seq<char>) -> int {
    if parses_u32(s, 16) {
        parsed_value(s, 16) as int
    } else {
        parsed_value(s, 10) as int
    }
}

impl Devaddr {
    /// Each field fits within the width that the class gives it.
    pub open spec fn wf(self) -> bool {
        &&& self.mem_type <= 7
        &&& self.nwk_addr < pow2(nwk_bits(self.mem_type as int))
        &&& self.addr < pow2(addr_bits(self.mem_type as int))
    }

    /// The 32-bit word: the class prefix, then the network id, then the
    /// device address.
    pub open spec fn word(self) -> int {
        let c = self.mem_type as int;
        (prefix_bits(c) * pow2(nwk_bits(c)) + self.nwk_addr) * pow2(addr_bits(c)) + self.addr
    }

    /// The fields that a word holds: the class of its prefix, the network id
    /// in the bits right after the prefix, the device address in the low bits.
    pub open spec fn decoded(w: int) -> Devaddr {
        let c = class_of(w) as int;
        Devaddr {
            mem_type: c as u8,
            nwk_addr: extract(w, c + 2, c + 1 + nwk_bits(c)) as u32,
            addr: extract(w, 33 - addr_bits(c), 32) as u32,
        }
    }

    /// The address of class `c` made of the given fields, each cut down to
    /// the width that the class gives it.
    pub open spec fn from_fields(c: u8, n: int, a: int) -> Devaddr {
        Devaddr {
            mem_type: c,
            nwk_addr: (n % pow2(nwk_bits(c as int)) as int) as u32,
            addr: (a % pow2(addr_bits(c as int)) as int) as u32,
        }
    }
}

/// A well-formed address fits in 32 bits, and decoding its word gives it back.
pub proof fn lemma_decode_word(d: Devaddr)
    requires
        d.wf(),
    ensures
        0 <= d.word() <= u32::MAX,
        Devaddr::decoded(d.word()) == d,
{
    let c = d.mem_type as int;
    let n = d.nwk_addr as int;
    let a = d.addr as int;
    let k = pow2(addr_bits(c)) as int;
    let m = pow2(nwk_bits(c)) as int;
    let p = prefix_bits(c) as int;
    let w = d.word();
    lemma_widths(c);
    lemma2_to64();
    assert(w == (p * m + n) * k + a);
    lemma_fundamental_div_mod_converse(w, k, p * m + n, a);
    lemma_fundamental_div_mod_converse(p * m + n, m, p, n);
    assert(0 <= n * k + a < m * k) by (nonlinear_arith)
        requires
            0 <= n < m,
            0 <= a < k,
    ;
    assert(w == p * (m * k) + (n * k + a)) by (nonlinear_arith)
        requires
            w == (p * m + n) * k + a,
    ;
    assert(class_of(w) == c && 0 <= w <= u32::MAX) by {
        if c == 0 {
        } else if c == 1 {
        } else if c == 2 {
        } else if c == 3 {
        } else if c == 4 {
        } else if c == 5 {
        } else if c == 6 {
        } else {
        }
    }
    assert(extract(w, c + 2, c + 1 + nwk_bits(c)) == (w / k) % m);
    assert(pow2((32 - 32) as nat) == 1);
    assert(w / 1 == w);
    assert(extract(w, 33 - addr_bits(c), 32) == w % k);
}

/// Cutting a field down to its width keeps it below `2^bits`.
proof fn lemma_mod_fits(x: int, bits: nat)
    requires
        bits <= 32,
    ensures
        0 <= x % (pow2(bits) as int) < pow2(bits),
        pow2(bits) <= 0x1_0000_0000,
{
    lemma_pow2_pos(bits);
    lemma2_to64();
    if bits < 32 {
        vstd::arithmetic::power2::lemma_pow2_strictly_increases(bits, 32);
    }
}

impl Devaddr {
    /// Splits a 32-bit word into its fields.
    pub fn decode(w: u32) -> (r: Devaddr)
        ensures
            r == Devaddr::decoded(w as int),
            r.wf(),
            r.mem_type == if w.leading_ones() < 7 {
                w.leading_ones() as nat
            } else {
                7
            },
    {
        proof {
            lemma_class_is_leading_ones(w);
        }
        let top: u32 = w >> 24;
        proof {
            lemma_u32_shr_is_div(w, 24);
            lemma2_to64();
        }
        let mem_type: u8 = if top >= 0xFE {
            7
        } else if top >= 0xFC {
            6
        } else if top >= 0xF8 {
            5
        } else if top >= 0xF0 {
            4
        } else if top >= 0xE0 {
            3
        } else if top >= 0xC0 {
            2
        } else if top >= 0x80 {
            1
        } else {
            0
        };
        assert(mem_type == class_of(w as int));
        proof {
            lemma_widths(mem_type as int);
        }
        let nwk_start: usize = mem_type as usize + 2;
        let nwk_end: usize = mem_type as usize + 1 + nwk_id_offset_for_mem_type(mem_type);
        let addr_start: usize = 33 - addr_offset_for_mem_type(mem_type);
        let nwk_addr = new_num_from(w, nwk_start..=nwk_end);
        let addr = new_num_from(w, addr_start..=32);
        proof {
            lemma_mod_fits(w as int / pow2(addr_bits(mem_type as int)) as int, nwk_bits(mem_type as int));
            lemma_mod_fits(w as int / pow2(0) as int, addr_bits(mem_type as int));
        }
        Devaddr { mem_type, nwk_addr, addr }
    }

    /// Reads a device address written in hexadecimal or, failing that, in
    /// decimal.
    pub fn new(input: &str) -> (r: Result<Devaddr, ParseError>)
        ensures
            r is Ok <==> (parses_u32(input@, 16) || parses_u32(input@, 10)),
            r is Ok ==> r->Ok_0 == Devaddr::decoded(devaddr_text_value(input@)),
    {
        let devaddr = match parse_u32(input, 16) {
            Some(v) => v,
            None => match parse_u32(input, 10) {
                Some(v) => v,
                None => {
                    return Err(ParseError);
                },
            },
        };
        Ok(Devaddr::decode(devaddr))
    }

    /// The address of class `mem_type` with network id `id` and device
    /// address `addr`, each cut down to the width that the class gives it.
    pub fn with_fields(mem_type: u8, id: u32, addr: u32) -> (r: Devaddr)
        requires
            mem_type <= 7,
        ensures
            r == Devaddr::from_fields(mem_type, id as int, addr as int),
            r.wf(),
    {
        let nwk_bits_len = nwk_id_offset_for_mem_type(mem_type);
        let addr_bits_len = addr_offset_for_mem_type(mem_type);
        proof {
            lemma_widths(mem_type as int);
            lemma2_to64();
            lemma_mod_fits(id as int, nwk_bits(mem_type as int));
            lemma_mod_fits(addr as int, addr_bits(mem_type as int));
            assert(id as int / 1 == id as int);
            assert(addr as int / 1 == addr as int);
        }
        Devaddr {
            mem_type,
            nwk_addr: new_num_from(id, (33 - nwk_bits_len)..=32),
            addr: new_num_from(addr, (33 - addr_bits_len)..=32),
        }
    }
}

impl Devaddr {
    /// The 32-bit word of a well-formed address.
    pub fn num(&self) -> (r: u32)
        requires
            self.wf(),
        ensures
            r as int == self.word(),
    {
        let mem_type_bits: u32 = match self.mem_type {
            0 => 0,
            1 => 0x8000_0000,
            2 => 0xC000_0000,
            3 => 0xE000_0000,
            4 => 0xF000_0000,
            5 => 0xF800_0000,
            6 => 0xFC00_0000,
            _ => 0xFE00_0000,
        };
        let shift = addr_offset_for_mem_type(self.mem_type) as u32;
        let ghost c = self.mem_type as int;
        let ghost k = pow2(addr_bits(c)) as int;
        let ghost m = pow2(nwk_bits(c)) as int;
        proof {
            lemma_widths(c);
            lemma2_to64();
            lemma_u32_shl_is_mul(1u32, shift);
            lemma_decode_word(*self);
            assert(mem_type_bits == prefix_bits(c) * (m * k));
            assert(self.word() == prefix_bits(c) * (m * k) + self.nwk_addr * k + self.addr)
                by (nonlinear_arith)
                requires
                    self.word() == (prefix_bits(c) * m + self.nwk_addr) * k + self.addr,
            ;
            assert(0 <= self.nwk_addr * k) by (nonlinear_arith)
                requires
                    k > 0,
            ;
        }
        let size: u32 = 1u32 << shift;
        mem_type_bits + self.nwk_addr * size + self.addr
    }
}

/// A network identifier: a three-bit class and a 21-bit id, held in the low
/// 24 bits of `dec`.
#[derive(Debug, Clone, Copy, PartialEq, Eq, Structural)]
pub struct NetID {
    pub mem_type: u8,
    pub id: u32,
    pub dec: u32,
}

impl NetID {
    /// The class fits in three bits, the id in 21, and `dec` is the two
    /// side by side.
    pub open spec fn wf(self) -> bool {
        &&& self.mem_type <= 7
        &&& self.id < 0x20_0000
        &&& self.dec == self.mem_type * 0x20_0000 + self.id
    }

    /// The identifier that a word holds: the class in bits 9 to 11, the id in
    /// bits 12 to 32 (bit 1 being the most significant).
    pub open spec fn decoded(w: int) -> NetID {
        let c = extract(w, 9, 11);
        let id = extract(w, 12, 32);
        NetID { mem_type: c as u8, id: id as u32, dec: (c * 0x20_0000 + id) as u32 }
    }

    /// The identifier of class `c` with id `id`, cut down to 21 bits.
    pub open spec fn from_fields(c: u8, id: int) -> NetID {
        let i = id % 0x20_0000;
        NetID { mem_type: c, id: i as u32, dec: (c * 0x20_0000 + i) as u32 }
    }

    /// The first device address that the identifier owns.
    pub open spec fn start(self) -> Devaddr {
        Devaddr::from_fields(self.mem_type, self.id as int, 0)
    }

    /// The last device address that the identifier owns.
    pub open spec fn end(self) -> Devaddr {
        Devaddr::from_fields(self.mem_type, self.id as int, u32::MAX as int)
    }
}

impl Devaddr {
    /// The network identifier that owns the address.
    pub open spec fn owner(self) -> NetID {
        NetID::from_fields(self.mem_type, self.nwk_addr as int)
    }
}

impl NetID {
    /// Splits a word into class and id.
    pub fn decode(w: u32) -> (r: NetID)
        ensures
            r == NetID::decoded(w as int),
            r.wf(),
    {
        let mem_type = new_num_from(w, 9..=11);
        let id = new_num_from(w, 12..=32);
        proof {
            lemma2_to64();
            lemma_mod_fits(w as int / pow2(21) as int, 3);
            lemma_mod_fits(w as int / pow2(0) as int, 21);
        }
        let dec: u32 = mem_type * 0x20_0000 + id;
        NetID { mem_type: mem_type as u8, id, dec }
    }

    /// Reads a network identifier written in hexadecimal.
    pub fn new(input: &str) -> (r: Result<NetID, ParseError>)
        ensures
            r is Ok <==> parses_u32(input@, 16),
            r is Ok ==> r->Ok_0 == NetID::decoded(parsed_value(input@, 16) as int),
    {
        match parse_u32(input, 16) {
            Some(net_id) => Ok(NetID::decode(net_id)),
            None => Err(ParseError),
        }
    }

    /// The identifier of class `mem_type` with id `id`, cut down to 21 bits.
    pub fn with_fields(mem_type: u8, id: u32) -> (r: NetID)
        requires
            mem_type <= 7,
        ensures
            r == NetID::from_fields(mem_type, id as int),
            r.wf(),
    {
        let id = new_num_from(id, 12..=32);
        let c = mem_type as u32;
        proof {
            lemma2_to64();
            lemma_mod_fits(id as int, 21);
            assert(id as int / 1 == id as int);
        }
        assert((c << 21) | id == c * 0x20_0000 + id) by (bit_vector)
            requires
                c <= 7,
                id < 0x20_0000,
        ;
        let leading = c << 21;
        NetID { mem_type, id, dec: leading | id }
    }

    /// The 24-bit value of a well-formed identifier.
    pub fn num(&self) -> (r: u32)
        requires
            self.wf(),
        ensures
            r == self.dec,
    {
        let c = self.mem_type as u32;
        let id = self.id;
        assert((c << 21) | id == c * 0x20_0000 + id) by (bit_vector)
            requires
                c <= 7,
                id < 0x20_0000,
        ;
        (c << 21) | id
    }

    /// The first device address that the identifier owns.
    pub fn start_addr(&self) -> (r: Devaddr)
        requires
            self.wf(),
        ensures
            r == self.start(),
            r.addr == 0,
    {
        proof {
            lemma2_to64();
            lemma_pow2_pos(addr_bits(self.mem_type as int));
        }
        Devaddr::with_fields(self.mem_type, self.id, u32::MIN)
    }

    /// The last device address that the identifier owns.
    pub fn end_addr(&self) -> (r: Devaddr)
        requires
            self.wf(),
        ensures
            r == self.end(),
            r.addr == pow2(addr_bits(self.mem_type as int)) - 1,
    {
        proof {
            lemma_range_bounds(*self);
        }
        Devaddr::with_fields(self.mem_type, self.id, u32::MAX)
    }

    /// How many device addresses the identifier owns.
    pub fn range_size(&self) -> (r: u32)
        requires
            self.wf(),
        ensures
            r == pow2(addr_bits(self.mem_type as int)),
    {
        let start = self.start_addr();
        let end = self.end_addr();
        proof {
            lemma_widths(self.mem_type as int);
            lemma2_to64();
            vstd::arithmetic::power2::lemma_pow2_strictly_increases(
                addr_bits(self.mem_type as int),
                32,
            );
        }
        end.addr - start.addr + 1
    }
}

impl Devaddr {
    /// The network identifier that owns the address.
    pub fn net_id(&self) -> (r: NetID)
        requires
            self.wf(),
        ensures
            r == self.owner(),
    {
        NetID::with_fields(self.mem_type, self.nwk_addr)
    }
}

/// The range of an identifier starts at device address 0 and ends at the
/// largest that the class's address width holds.
pub proof fn lemma_range_bounds(short: NetID)
    requires
        short.wf(),
    ensures
        short.start().addr == 0,
        short.end().addr == pow2(addr_bits(short.mem_type as int)) - 1,
{
    let c = short.mem_type as int;
    lemma2_to64();
    lemma_widths(c);
    lemma_pow2_pos(addr_bits(c));
    let k = pow2(addr_bits(c)) as int;
    let q = pow2((32 - addr_bits(c)) as nat) as int;
    lemma_pow2_adds(addr_bits(c), (32 - addr_bits(c)) as nat);
    assert(u32::MAX as int == (q - 1) * k + (k - 1)) by (nonlinear_arith)
        requires
            q * k == 0x1_0000_0000,
    ;
    lemma_fundamental_div_mod_converse(u32::MAX as int, k, q - 1, k - 1);
}

/// Encoding fields that fit their widths and decoding the word gives back the
/// same class, network id and device address.
pub proof fn lemma_round_trip(c: u8, n: int, a: int)
    requires
        c <= 7,
        0 <= n < pow2(nwk_bits(c as int)),
        0 <= a < pow2(addr_bits(c as int)),
    ensures
        Devaddr::decoded(Devaddr::from_fields(c, n, a).word()) == (Devaddr {
            mem_type: c,
            nwk_addr: n as u32,
            addr: a as u32,
        }),
{
    lemma_mod_fits(n, nwk_bits(c as int));
    lemma_mod_fits(a, addr_bits(c as int));
    vstd::arithmetic::div_mod::lemma_small_mod(n as nat, pow2(nwk_bits(c as int)));
    vstd::arithmetic::div_mod::lemma_small_mod(a as nat, pow2(addr_bits(c as int)));
    lemma_widths(c as int);
    lemma_decode_word(Devaddr::from_fields(c, n, a));
}

/// Whatever the field values, the word of an address of class `c` decodes
/// as class `c`.
pub proof fn lemma_prefix_exclusive(c: u8, n: int, a: int)
    requires
        c <= 7,
    ensures
        Devaddr::decoded(Devaddr::from_fields(c, n, a).word()).mem_type == c,
{
    lemma_widths(c as int);
    lemma_mod_fits(n, nwk_bits(c as int));
    lemma_mod_fits(a, addr_bits(c as int));
    lemma_decode_word(Devaddr::from_fields(c, n, a));
}

/// An identifier owns exactly `2^addr_bits` device addresses, from its first
/// to its last.
pub proof fn lemma_range_size(short: NetID)
    requires
        short.wf(),
    ensures
        short.end().addr - short.start().addr + 1 == pow2(addr_bits(short.mem_type as int)),
{
    lemma_range_bounds(short);
}

/// The first and the last address of an identifier's range are owned by that
/// identifier, when its id fits the class's network-id width.
pub proof fn lemma_boundary_owner(short: NetID)
    requires
        short.wf(),
        short.id < pow2(nwk_bits(short.mem_type as int)),
    ensures
        short.start().owner() == short,
        short.end().owner() == short,
{
    let c = short.mem_type as int;
    lemma_widths(c);
    lemma2_to64();
    vstd::arithmetic::div_mod::lemma_small_mod(short.id as nat, pow2(nwk_bits(c)));
    vstd::arithmetic::div_mod::lemma_small_mod(short.id as nat, 0x20_0000);
}

impl Devaddr {
    /// The word in eight uppercase hexadecimal digits.
    pub fn as_hex(&self) -> (r: String)
        requires
            self.wf(),
        ensures
            r@ == padded_chars(self.word() as nat, 16, 8),
    {
        let mut s = String::new();
        push_padded(&mut s, self.num(), 16, 8);
        s
    }

    /// The word in decimal.
    pub fn as_dec(&self) -> (r: String)
        requires
            self.wf(),
        ensures
            r@ == dec_chars(self.word() as nat),
    {
        let mut s = String::new();
        push_dec(&mut s, self.num() as u64);
        s
    }

    /// The four bytes of the word, most significant first, as a list.
    pub fn as_arr(&self) -> (r: String)
        requires
            self.wf(),
        ensures
            r@ == list_chars(
                seq![
                    extract(self.word(), 1, 8) as u32,
                    extract(self.word(), 9, 16) as u32,
                    extract(self.word(), 17, 24) as u32,
                    extract(self.word(), 25, 32) as u32,
                ],
            ),
    {
        let n = self.num();
        let bytes = vec![
            new_num_from(n, 1..=8),
            new_num_from(n, 9..=16),
            new_num_from(n, 17..=24),
            new_num_from(n, 25..=32),
        ];
        let mut s = String::new();
        push_list(&mut s, &bytes);
        s
    }

    /// The word in 32 binary digits.
    pub fn as_bin(&self) -> (r: String)
        requires
            self.wf(),
        ensures
            r@ == padded_chars(self.word() as nat, 2, 32),
    {
        let mut s = String::new();
        push_padded(&mut s, self.num(), 2, 32);
        s
    }

    /// Where the fields of the binary digits end: the prefix takes the
    /// digits before `r.0`, the network id those before `r.1`, the device
    /// address the rest.
    pub fn bin_fields(&self) -> (r: (usize, usize))
        requires
            self.wf(),
        ensures
            r.0 == self.mem_type + 1,
            r.1 == self.mem_type + 1 + nwk_bits(self.mem_type as int),
    {
        let type_bit = self.mem_type as usize + 1;
        (type_bit, type_bit + nwk_id_offset_for_mem_type(self.mem_type))
    }
}

impl NetID {
    /// The value in six uppercase hexadecimal digits.
    pub fn as_hex(&self) -> (r: String)
        requires
            self.wf(),
        ensures
            r@ == padded_chars(self.dec as nat, 16, 6),
    {
        let mut s = String::new();
        push_padded(&mut s, self.num(), 16, 6);
        s
    }

    /// The value in decimal.
    pub fn as_dec(&self) -> (r: String)
        ensures
            r@ == dec_chars(self.dec as nat),
    {
        let mut s = String::new();
        push_dec(&mut s, self.dec as u64);
        s
    }

    /// The three low bytes of the value, most significant first, as a list.
    pub fn as_arr(&self) -> (r: String)
        requires
            self.wf(),
        ensures
            r@ == list_chars(
                seq![
                    extract(self.dec as int, 9, 16) as u32,
                    extract(self.dec as int, 17, 24) as u32,
                    extract(self.dec as int, 25, 32) as u32,
                ],
            ),
    {
        let num = self.num();
        let bytes = vec![new_num_from(num, 9..=16), new_num_from(num, 17..=24), new_num_from(num, 25..=32)];
        let mut s = String::new();
        push_list(&mut s, &bytes);
        s
    }

    /// The value in 24 binary digits.
    pub fn as_bin(&self) -> (r: String)
        requires
            self.wf(),
        ensures
            r@ == padded_chars(self.dec as nat, 2, 24),
    {
        let mut s = String::new();
        push_padded(&mut s, self.num(), 2, 24);
        s
    }

    /// Where the reserved binary digits end: for classes 0 to 2 the digits
    /// after the class and before position 18 are unused; other classes have none.
    pub fn rfu_bits(&self) -> (r: usize)
        ensures
            r == (if self.mem_type <= 2 { 18usize } else { 0usize }),
    {
        if self.mem_type <= 2 {
            18
        } else {
            0
        }
    }
}

impl core::str::FromStr for Devaddr {
    type Err = String;

    fn from_str(s: &str) -> Result<Devaddr, String> {
        match Devaddr::new(s) {
            Ok(d) => Ok(d),
            Err(_) => Err("Invalid Devaddr".to_string()),
        }
    }
}

impl core::str::FromStr for NetID {
    type Err = String;

    fn from_str(s: &str) -> Result<NetID, String> {
        match NetID::new(s) {
            Ok(n) => Ok(n),
            Err(_) => Err("Invalid Net ID".to_string()),
        }
    }
}

} // verus!
