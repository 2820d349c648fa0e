use vstd::prelude::*;

verus! {

/// The value of `c` as a digit of a radix up to 36; 36 for a character that
/// is no digit at all.
pub open spec fn digit_value(c: char) -> nat {
    let v = c as u32;
    if 48 <= v <= 57 {
        (v - 48) as nat
    } else if 97 <= v <= 122 {
        (v - 87) as nat
    } else if 65 <= v <= 90 {
        (v - 55) as nat
    } else {
        36
    }
}

/// The number written by the digits `s`, most significant digit first.
pub open spec fn digits_value(s: Seq<char>, radix: nat) -> nat
    decreases s.len(),
{
    if s.len() == 0 {
        0
    } else {
        digits_value(s.drop_last(), radix) * radix + digit_value(s.last())
    }
}

pub open spec fn all_digits(s: Seq<char>, radix: nat) -> bool {
    forall|i: int| 0 <= i < s.len() ==> #[trigger] digit_value(s[i]) < radix
}

/// The digits of an unsigned literal: the text without one leading `+`.
pub open spec fn unsigned_digits(s: Seq<char>) -> Seq<char> {
    if s.len() > 0 && s[0] == '+' {
        s.drop_first()
    } else {
        s
    }
}

/// Whether `s` is an unsigned literal in `radix` whose value is at most `max`.
pub open spec fn parses_within(s: Seq<char>, radix: nat, max: nat) -> bool {
    let d = unsigned_digits(s);
    &&& d.len() > 0
    &&& all_digits(d, radix)
    &&& digits_value(d, radix) <= max
}

/// Whether `s` is an unsigned literal in `radix` whose value fits in a `u32`.
pub open spec fn parses_u32(s: Seq<char>, radix: nat) -> bool {
    parses_within(s, radix, u32::MAX as nat)
}

/// Whether `s` is an unsigned literal in `radix` whose value fits in a `u64`.
pub open spec fn parses_u64(s: Seq<char>, radix: nat) -> bool {
    parses_within(s, radix, u64::MAX as nat)
}

/// The value of the unsigned literal `s` in `radix`.
pub open spec fn parsed_value(s: Seq<char>, radix: nat) -> nat {
    digits_value(unsigned_digits(s), radix)
}

proof fn lemma_digits_step(s: Seq<char>, i: int, radix: nat)
    requires
        0 <= i < s.len(),
    ensures
        digits_value(s.subrange(0, i + 1), radix) == digits_value(s.subrange(0, i), radix) * radix
            + digit_value(s[i]),
{
    assert(s.subrange(0, i + 1).drop_last() =~= s.subrange(0, i));
}

proof fn lemma_digits_prefix_le(s: Seq<char>, k: int, radix: nat)
    requires
        0 <= k <= s.len(),
        radix >= 1,
    ensures
        digits_value(s.subrange(0, k), radix) <= digits_value(s, radix),
    decreases s.len(),
{
    if k == s.len() {
        assert(s.subrange(0, k) =~= s);
    } else {
        let t = s.drop_last();
        assert(t.subrange(0, k) =~= s.subrange(0, k));
        lemma_digits_prefix_le(t, k, radix);
        assert(digits_value(t, radix) * radix >= digits_value(t, radix)) by (nonlinear_arith)
            requires
                radix >= 1,
        ;
    }
}

fn char_digit(c: char) -> (r: u32)
    ensures
        r == digit_value(c),
{
    let v = c as u32;
    if 48 <= v && v <= 57 {
        v - 48
    } else if 97 <= v && v <= 122 {
        v - 87
    } else if 65 <= v && v <= 90 {
        v - 55
    } else {
        36
    }
}

/// Reads `s` as an unsigned 64-bit literal in `radix`: an optional `+`, then
/// at least one digit (either case for letters), with a value below 2^64.
pub fn parse_u64(s: &str, radix: u32) -> (r: Option<u64>)
    requires
        2 <= radix <= 36,
    ensures
        r is Some <==> parses_u64(s@, radix as nat),
        r is Some ==> r->Some_0 as nat == parsed_value(s@, radix as nat),
{
    let n = s.unicode_len();
    let ghost d = unsigned_digits(s@);
    let mut i: usize = 0;
    if n > 0 && s.get_char(0) == '+' {
        i = 1;
    }
    let first: usize = i;
    assert(d =~= s@.subrange(first as int, n as int));
    if i == n {
        return None;
    }
    let mut acc: u64 = 0;
    while i < n
        invariant
            first <= i <= n,
            n == s@.len(),
            d =~= s@.subrange(first as int, n as int),
            d == unsigned_digits(s@),
            2 <= radix <= 36,
            acc as nat == digits_value(d.subrange(0, i - first), radix as nat),
            all_digits(d.subrange(0, i - first), radix as nat),
        decreases n - i,
    {
        let c = s.get_char(i);
        let v = char_digit(c);
        assert(d[i - first] == c);
        proof {
            lemma_digits_step(d, i - first, radix as nat);
        }
        if v >= radix {
            assert(!all_digits(d, radix as nat));
            return None;
        }
        let next = match acc.checked_mul(radix as u64) {
            Some(m) => m.checked_add(v as u64),
            None => None,
        };
        match next {
            Some(x) => {
                assert(d.subrange(0, i + 1 - first) =~= d.subrange(0, i - first).push(c));
                acc = x;
                i = i + 1;
            },
            None => {
                proof {
                    lemma_digits_prefix_le(d, i + 1 - first, radix as nat);
                }
                assert(digits_value(d, radix as nat) > u64::MAX);
                return None;
            },
        }
    }
    assert(d.subrange(0, n - first) =~= d);
    Some(acc)
}

/// Reads `s` as an unsigned 32-bit literal in `radix`: an optional `+`, then
/// at least one digit (either case for letters), with a value below 2^32.
pub fn parse_u32(s: &str, radix: u32) -> (r: Option<u32>)
    requires
        2 <= radix <= 36,
    ensures
        r is Some <==> parses_u32(s@, radix as nat),
        r is Some ==> r->Some_0 as nat == parsed_value(s@, radix as nat),
{
    match parse_u64(s, radix) {
        Some(v) => {
            if v <= u32::MAX as u64 {
                Some(v as u32)
            } else {
                None
            }
        },
        None => None,
    }
}

/// The character of a digit below 16: `0`-`9`, then `A`-`F`.
pub open spec fn digit_char(d: nat) -> char {
    if d < 10 {
        ((d + 48) as u8) as char
    } else {
        ((d + 55) as u8) as char
    }
}

/// `n` written in `k` digits of `radix` (uppercase letters), zero-padded on
/// the left; only the low `k` digits when `n` needs more.
pub open spec fn padded_chars(n: nat, radix: nat, k: nat) -> Seq<char>
    decreases k,
{
    if k == 0 || radix == 0 {
        Seq::empty()
    } else {
        padded_chars(n / radix, radix, (k - 1) as nat).push(digit_char(n % radix))
    }
}

/// `n` written in decimal, without leading zeros.
pub open spec fn dec_chars(n: nat) -> Seq<char>
    decreases n,
{
    if n < 10 {
        seq![digit_char(n)]
    } else {
        dec_chars(n / 10).push(digit_char(n % 10))
    }
}

/// Relies on `String::push`: it appends one character at the end.
#[verifier::external_body]
fn push_char(s: &mut String, c: char)
    ensures
        final(s)@ == old(s)@.push(c),
{
    s.push(c);
}

fn to_digit_char(d: u32) -> (r: char)
    requires
        d < 16,
    ensures
        r == digit_char(d as nat),
{
    if d < 10 {
        ((d + 48) as u8) as char
    } else {
        ((d + 55) as u8) as char
    }
}

/// Appends the low `k` digits of `n` in `radix`.
pub fn push_padded(s: &mut String, n: u32, radix: u32, k: u32)
    requires
        2 <= radix <= 16,
    ensures
        final(s)@ == old(s)@ + padded_chars(n as nat, radix as nat, k as nat),
    decreases k,
{
    if k > 0 {
        push_padded(s, n / radix, radix, k - 1);
        push_char(s, to_digit_char(n % radix));
    }
}

/// Appends `n` in decimal.
pub fn push_dec(s: &mut String, n: u64)
    ensures
        final(s)@ == old(s)@ + dec_chars(n as nat),
    decreases n,
{
    if n >= 10 {
        push_dec(s, n / 10);
    }
    push_char(s, to_digit_char((n % 10) as u32));
    assert(n >= 10 ==> old(s)@ + dec_chars(n as nat) =~= old(s)@ + dec_chars((n / 10) as nat)
        + seq![digit_char((n % 10) as nat)]);
}

/// Decimal numbers separated by `, `.
pub open spec fn joined(items: Seq<u32>) -> Seq<char>
    decreases items.len(),
{
    if items.len() == 0 {
        Seq::empty()
    } else if items.len() == 1 {
        dec_chars(items[0] as nat)
    } else {
        joined(items.drop_last()) + seq![',', ' '] + dec_chars(items.last() as nat)
    }
}

/// A list of decimal numbers in brackets, as in `[1, 2, 3]`.
pub open spec fn list_chars(items: Seq<u32>) -> Seq<char> {
    seq!['['] + joined(items) + seq![']']
}

/// Appends `items` as a bracketed list of decimal numbers.
pub fn push_list(s: &mut String, items: &Vec<u32>)
    ensures
        final(s)@ == old(s)@ + list_chars(items@),
{
    push_char(s, '[');
    let mut i: usize = 0;
    while i < items.len()
        invariant
            0 <= i <= items@.len(),
            s@ == old(s)@ + seq!['['] + joined(items@.take(i as int)),
        decreases items@.len() - i,
    {
        let ghost before = s@;
        if i > 0 {
            push_char(s, ',');
            push_char(s, ' ');
        }
        push_dec(s, items[i] as u64);
        assert(items@.take(i + 1).drop_last() =~= items@.take(i as int));
        assert(i == 0 ==> items@.take(i as int) =~= Seq::<u32>::empty());
        assert(s@ =~= old(s)@ + seq!['['] + joined(items@.take(i + 1)));
        i = i + 1;
    }
    assert(items@.take(items@.len() as int) =~= items@);
    push_char(s, ']');
    assert(s@ =~= old(s)@ + list_chars(items@));
}

} // verus!
