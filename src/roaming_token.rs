use vstd::prelude::*;
use vstd::utf8::{valid_utf8, decode_utf8};
use crate::text::{all_digits, digit_value, parses_u64, parsed_value, parse_u64};

verus! {

/// The layout of a decoded token: region, packet time, route id and the
/// gateway's public key, separated by `::`; the key is raw bytes.
pub const TOKEN_PATTERN: &'static str = "(?<region>.*)::(?<packet_time>.*)::(?<route_id>.*)::(?<pubkeybin>(?-u:.)*)";

/// What `regex::bytes::Regex` finds for `pattern` in `haystack`: for each
/// capture group, numbered by its opening parenthesis (group 0 being the whole
/// match), the byte range it matched if it took part; nothing when the pattern
/// does not compile or does not match.
pub uninterp spec fn regex_groups(pattern: Seq<char>, haystack: Seq<u8>) -> Option<
    Seq<Option<(usize, usize)>>,
>;

/// The Base58Check text of `bytes`, as the bs58 crate writes it.
pub uninterp spec fn b58check_of(bytes: Seq<u8>) -> Seq<char>;

/// The three-word animal name that angry-purple-tiger derives from `s`.
pub uninterp spec fn animal_name_of(s: Seq<char>) -> Seq<char>;

/// Relies on `hex::decode`: it succeeds exactly on an even number of
/// hexadecimal digits (either case), each pair giving one byte.
#[verifier::external_body]
fn decode_hex(s: &str) -> (r: Option<Vec<u8>>)
    ensures
        r is Some <==> (s@.len() % 2 == 0 && all_digits(s@, 16)),
        r is Some ==> r->Some_0@ == hex_bytes(s@),
{
    hex::decode(s).ok()
}

/// Relies on `regex::bytes::Regex::new` and `Regex::captures`: the byte
/// ranges of the capture groups of the first match.
#[verifier::external_body]
fn capture_groups(pattern: &str, haystack: &Vec<u8>) -> (r: Option<Vec<Option<(usize, usize)>>>)
    ensures
        r is Some <==> regex_groups(pattern@, haystack@) is Some,
        r is Some ==> r->Some_0@ == regex_groups(pattern@, haystack@)->Some_0,
{
    let re = regex::bytes::Regex::new(pattern).ok()?;
    let caps = re.captures(haystack)?;
    Some(caps.iter().map(|m| m.map(|m| (m.start(), m.end()))).collect())
}

/// Relies on `String::from_utf8`: it succeeds exactly on valid UTF-8, and the
/// string holds the characters that the bytes encode.
#[verifier::external_body]
fn utf8_string(bytes: Vec<u8>) -> (r: Option<String>)
    ensures
        r is Some <==> valid_utf8(bytes@),
        r is Some ==> r->Some_0@ == decode_utf8(bytes@),
{
    String::from_utf8(bytes).ok()
}

/// Relies on `bs58::encode(..).with_check().into_string()`.
#[verifier::external_body]
fn b58check(bytes: &Vec<u8>) -> (r: String)
    ensures
        r@ == b58check_of(bytes@),
{
    bs58::encode(bytes).with_check().into_string()
}

/// Relies on `angry_purple_tiger::AnimalName`: its `FromStr` never fails, and
/// its `Display` writes the name.
#[verifier::external_body]
fn animal_name(s: &str) -> (r: String)
    ensures
        r@ == animal_name_of(s@),
{
    match s.parse::<angry_purple_tiger::AnimalName>() {
        Ok(name) => name.to_string(),
        Err(e) => match e {},
    }
}

/// The bytes that pairs of hexadecimal digits write.
pub open spec fn hex_bytes(s: Seq<char>) -> Seq<u8> {
    Seq::new(
        s.len() / 2,
        |i: int| (16 * digit_value(s[2 * i]) + digit_value(s[2 * i + 1])) as u8,
    )
}

/// `s` without any number of leading `0x`.
pub open spec fn strip_hex_prefix(s: Seq<char>) -> Seq<char>
    decreases s.len(),
{
    if s.len() >= 2 && s[0] == '0' && s[1] == 'x' {
        strip_hex_prefix(s.subrange(2, s.len() as int))
    } else {
        s
    }
}

/// The fields of a token.
pub struct TokenView {
    pub region: Seq<char>,
    pub packet_time: u64,
    pub route_id: Seq<char>,
    pub b58: Seq<char>,
    pub animal_name: Seq<char>,
}

/// A roaming token, decoded.
#[derive(Debug)]
pub struct Token {
    pub region: String,
    pub packet_time: u64,
    pub route_id: String,
    pub b58: String,
    pub animal_name: String,
}

impl View for Token {
    type V = TokenView;

    open spec fn view(&self) -> TokenView {
        TokenView {
            region: self.region@,
            packet_time: self.packet_time,
            route_id: self.route_id@,
            b58: self.b58@,
            animal_name: self.animal_name@,
        }
    }
}

/// Group `i` took part in the match, within the bytes.
pub open spec fn group_ok(d: Seq<u8>, groups: Seq<Option<(usize, usize)>>, i: int) -> bool {
    &&& 0 <= i < groups.len()
    &&& groups[i] is Some
    &&& groups[i]->Some_0.0 <= groups[i]->Some_0.1 <= d.len()
}

/// The bytes that group `i` matched.
pub open spec fn group_bytes(d: Seq<u8>, groups: Seq<Option<(usize, usize)>>, i: int) -> Seq<u8> {
    d.subrange(groups[i]->Some_0.0 as int, groups[i]->Some_0.1 as int)
}

/// The public key in its binary form: a zero byte, then every byte from the
/// start of the key group to the end.
pub open spec fn pubkey_bytes(d: Seq<u8>, groups: Seq<Option<(usize, usize)>>) -> Seq<u8> {
    seq![0u8] + d.subrange(groups[4]->Some_0.0 as int, d.len() as int)
}

/// The token that the capture groups `groups` of the bytes `d` give.
pub open spec fn token_view_of(d: Seq<u8>, groups: Seq<Option<(usize, usize)>>) -> Option<TokenView> {
    if group_ok(d, groups, 1) && group_ok(d, groups, 2) && group_ok(d, groups, 3) && group_ok(
        d,
        groups,
        4,
    ) && valid_utf8(group_bytes(d, groups, 1)) && valid_utf8(group_bytes(d, groups, 2))
        && valid_utf8(group_bytes(d, groups, 3)) && parses_u64(
        decode_utf8(group_bytes(d, groups, 2)),
        10,
    ) {
        let b58 = b58check_of(pubkey_bytes(d, groups));
        Some(
            TokenView {
                region: decode_utf8(group_bytes(d, groups, 1)),
                packet_time: parsed_value(decode_utf8(group_bytes(d, groups, 2)), 10) as u64,
                route_id: decode_utf8(group_bytes(d, groups, 3)),
                b58,
                animal_name: animal_name_of(b58),
            },
        )
    } else {
        None
    }
}

/// The token that a text holds: hexadecimal digits after any leading `0x`,
/// whose bytes match the token layout.
pub open spec fn token_spec(input: Seq<char>) -> Option<TokenView> {
    let t = strip_hex_prefix(input);
    if t.len() == 0 || !(t.len() % 2 == 0 && all_digits(t, 16)) {
        None
    } else {
        let d = hex_bytes(t);
        match regex_groups(TOKEN_PATTERN@, d) {
            Some(groups) => token_view_of(d, groups),
            None => None,
        }
    }
}

fn sub_bytes(v: &Vec<u8>, start: usize, end: usize, out: &mut Vec<u8>)
    requires
        start <= end <= v@.len(),
    ensures
        final(out)@ == old(out)@ + v@.subrange(start as int, end as int),
{
    let mut i: usize = start;
    while i < end
        invariant
            start <= i <= end <= v@.len(),
            out@ == old(out)@ + v@.subrange(start as int, i as int),
        decreases end - i,
    {
        out.push(v[i]);
        assert(v@.subrange(start as int, i + 1) =~= v@.subrange(start as int, i as int).push(v@[i as int]));
        i = i + 1;
    }
}

fn group_range(groups: &Vec<Option<(usize, usize)>>, i: usize, len: usize) -> (r: Option<(usize, usize)>)
    ensures
        r is Some <==> (0 <= i < groups@.len() && groups@[i as int] is Some
            && groups@[i as int]->Some_0.0 <= groups@[i as int]->Some_0.1 <= len),
        r is Some ==> r == groups@[i as int],
{
    if i >= groups.len() {
        return None;
    }
    match groups[i] {
        Some(g) => {
            if g.0 <= g.1 && g.1 <= len {
                Some(g)
            } else {
                None
            }
        },
        None => None,
    }
}

/// Builds the token from the decoded bytes and the capture groups that the
/// token layout found in them.
pub fn token_from_groups(decoded: &Vec<u8>, groups: &Vec<Option<(usize, usize)>>) -> (r: Option<Token>)
    ensures
        match r {
            Some(t) => token_view_of(decoded@, groups@) == Some(t@),
            None => token_view_of(decoded@, groups@) is None,
        },
{
    let len = decoded.len();
    let region_range = match group_range(groups, 1, len) {
        Some(g) => g,
        None => return None,
    };
    let time_range = match group_range(groups, 2, len) {
        Some(g) => g,
        None => return None,
    };
    let route_range = match group_range(groups, 3, len) {
        Some(g) => g,
        None => return None,
    };
    let key_range = match group_range(groups, 4, len) {
        Some(g) => g,
        None => return None,
    };
    let mut region_bytes: Vec<u8> = Vec::new();
    sub_bytes(decoded, region_range.0, region_range.1, &mut region_bytes);
    let region = match utf8_string(region_bytes) {
        Some(s) => s,
        None => return None,
    };
    let mut time_bytes: Vec<u8> = Vec::new();
    sub_bytes(decoded, time_range.0, time_range.1, &mut time_bytes);
    let time_text = match utf8_string(time_bytes) {
        Some(s) => s,
        None => return None,
    };
    let mut route_bytes: Vec<u8> = Vec::new();
    sub_bytes(decoded, route_range.0, route_range.1, &mut route_bytes);
    let route_id = match utf8_string(route_bytes) {
        Some(s) => s,
        None => return None,
    };
    let packet_time = match parse_u64(time_text.as_str(), 10) {
        Some(t) => t,
        None => return None,
    };
    let mut pubkey: Vec<u8> = Vec::new();
    pubkey.push(0u8);
    sub_bytes(decoded, key_range.0, len, &mut pubkey);
    let b58 = b58check(&pubkey);
    let animal_name = animal_name(b58.as_str());
    Some(Token { region, packet_time, route_id, b58, animal_name })
}

/// Decodes a roaming token: hexadecimal digits, after any leading `0x`, of
/// bytes laid out as `TOKEN_PATTERN` describes.
pub fn parse_token(input: &str) -> (r: Option<Token>)
    ensures
        match r {
            Some(t) => token_spec(input@) == Some(t@),
            None => token_spec(input@) is None,
        },
{
    let n = input.unicode_len();
    let mut i: usize = 0;
    assert(input@.subrange(0, n as int) =~= input@);
    while n - i >= 2 && input.get_char(i) == '0' && input.get_char(i + 1) == 'x'
        invariant
            i <= n,
            n == input@.len(),
            strip_hex_prefix(input@) == strip_hex_prefix(input@.subrange(i as int, n as int)),
        decreases n - i,
    {
        assert(input@.subrange(i as int, n as int).subrange(2, n - i) =~= input@.subrange(
            i + 2,
            n as int,
        ));
        i = i + 2;
    }
    let hex_text = input.substring_char(i, n);
    assert(strip_hex_prefix(hex_text@) == hex_text@);
    if i == n {
        return None;
    }
    let decoded = match decode_hex(hex_text) {
        Some(d) => d,
        None => return None,
    };
    let groups = match capture_groups(TOKEN_PATTERN, &decoded) {
        Some(g) => g,
        None => return None,
    };
    token_from_groups(&decoded, &groups)
}

} // verus!
