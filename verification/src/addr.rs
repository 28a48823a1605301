//! Network address values: IPv4 addresses as `u32`, hardware addresses as
//! 48-bit values in `u64`, with parsing from and formatting to their
//! conventional dotted-decimal and colon-hex text forms.
use vstd::prelude::*;
use vstd::string::*;

verus! {

broadcast use vstd::string::group_string_axioms;

/// A decimal digit character.
pub open spec fn is_digit(c: char) -> bool {
    '0' <= c && c <= '9'
}

/// The numeric value of a decimal digit character.
pub open spec fn digit_val(c: char) -> int {
    c as int - '0' as int
}

/// The character for a decimal digit value.
pub open spec fn spec_digit(d: int) -> char {
    if d == 0 { '0' }
    else if d == 1 { '1' }
    else if d == 2 { '2' }
    else if d == 3 { '3' }
    else if d == 4 { '4' }
    else if d == 5 { '5' }
    else if d == 6 { '6' }
    else if d == 7 { '7' }
    else if d == 8 { '8' }
    else { '9' }
}

/// A hexadecimal digit character, either case.
pub open spec fn is_hex(c: char) -> bool {
    ('0' <= c && c <= '9') || ('a' <= c && c <= 'f') || ('A' <= c && c <= 'F')
}

/// The numeric value of a hexadecimal digit character.
pub open spec fn hex_val(c: char) -> int {
    if '0' <= c && c <= '9' {
        c as int - '0' as int
    } else if 'a' <= c && c <= 'f' {
        c as int - 'a' as int + 10
    } else {
        c as int - 'A' as int + 10
    }
}

/// The lower-case character for a hexadecimal digit value.
pub open spec fn spec_hex_digit(d: int) -> char {
    if d == 0 { '0' }
    else if d == 1 { '1' }
    else if d == 2 { '2' }
    else if d == 3 { '3' }
    else if d == 4 { '4' }
    else if d == 5 { '5' }
    else if d == 6 { '6' }
    else if d == 7 { '7' }
    else if d == 8 { '8' }
    else if d == 9 { '9' }
    else if d == 10 { 'a' }
    else if d == 11 { 'b' }
    else if d == 12 { 'c' }
    else if d == 13 { 'd' }
    else if d == 14 { 'e' }
    else { 'f' }
}

/// Decimal text of a value below 1000, without leading zeros.
pub open spec fn spec_dec3(n: int) -> Seq<char> {
    if n < 10 {
        seq![spec_digit(n)]
    } else if n < 100 {
        seq![spec_digit(n / 10), spec_digit(n % 10)]
    } else {
        seq![spec_digit(n / 100), spec_digit((n / 10) % 10), spec_digit(n % 10)]
    }
}

/// The `k`-th octet of an IPv4 address value, most significant first.
pub open spec fn spec_octet(v: u32, k: int) -> int {
    if k == 0 { v as int / 16777216 }
    else if k == 1 { (v as int / 65536) % 256 }
    else if k == 2 { (v as int / 256) % 256 }
    else { v as int % 256 }
}

/// Dotted-decimal text of an IPv4 address value.
pub open spec fn spec_ipv4_seq(v: u32) -> Seq<char> {
    spec_dec3(spec_octet(v, 0)) + seq!['.'] + spec_dec3(spec_octet(v, 1)) + seq!['.']
        + spec_dec3(spec_octet(v, 2)) + seq!['.'] + spec_dec3(spec_octet(v, 3))
}

/// A hardware address value fits in 48 bits.
pub open spec fn mac_in_range(m: u64) -> bool {
    m < 281474976710656
}

/// The `k`-th byte of a hardware address value, most significant first.
pub open spec fn spec_mac_byte(m: u64, k: int) -> int {
    if k == 0 { (m as int / 1099511627776) % 256 }
    else if k == 1 { (m as int / 4294967296) % 256 }
    else if k == 2 { (m as int / 16777216) % 256 }
    else if k == 3 { (m as int / 65536) % 256 }
    else if k == 4 { (m as int / 256) % 256 }
    else { m as int % 256 }
}

/// Two lower-case hexadecimal digits for a byte value.
pub open spec fn spec_hex2(n: int) -> Seq<char> {
    seq![spec_hex_digit(n / 16), spec_hex_digit(n % 16)]
}

/// Colon-hex text of a hardware address value, lower case, two digits per byte.
pub open spec fn spec_mac_seq(m: u64) -> Seq<char> {
    spec_hex2(spec_mac_byte(m, 0)) + seq![':'] + spec_hex2(spec_mac_byte(m, 1)) + seq![':']
        + spec_hex2(spec_mac_byte(m, 2)) + seq![':'] + spec_hex2(spec_mac_byte(m, 3)) + seq![':']
        + spec_hex2(spec_mac_byte(m, 4)) + seq![':'] + spec_hex2(spec_mac_byte(m, 5))
}

/// Reads a decimal octet at the front of `s`: one to three digits, no
/// leading zero unless the octet is exactly "0", value at most 255.
/// Returns the value and the number of characters consumed.
pub open spec fn spec_take_octet(s: Seq<char>) -> Option<(int, int)> {
    if s.len() >= 1 && is_digit(s[0]) {
        if s[0] == '0' {
            Some((0int, 1int))
        } else if s.len() >= 2 && is_digit(s[1]) {
            if s.len() >= 3 && is_digit(s[2]) {
                if digit_val(s[0]) * 100 + digit_val(s[1]) * 10 + digit_val(s[2]) <= 255 {
                    Some((digit_val(s[0]) * 100 + digit_val(s[1]) * 10 + digit_val(s[2]), 3int))
                } else {
                    None
                }
            } else {
                Some((digit_val(s[0]) * 10 + digit_val(s[1]), 2int))
            }
        } else {
            Some((digit_val(s[0]), 1int))
        }
    } else {
        None
    }
}

/// The dotted-decimal grammar of an IPv4 address: four octets separated by
/// dots, consuming the whole text. Yields the address value.
pub open spec fn spec_parse_ipv4(s: Seq<char>) -> Option<u32> {
    match spec_take_octet(s) {
        None => None,
        Some((a, i)) => if i < s.len() && s[i] == '.' {
            match spec_take_octet(s.skip(i + 1)) {
                None => None,
                Some((b, j)) => if i + 1 + j < s.len() && s[i + 1 + j] == '.' {
                    let s2 = s.skip(i + 1 + j + 1);
                    match spec_take_octet(s2) {
                        None => None,
                        Some((c, k)) => if k < s2.len() && s2[k] == '.' {
                            let s3 = s2.skip(k + 1);
                            match spec_take_octet(s3) {
                                None => None,
                                Some((d, l)) => if l == s3.len() {
                                    Some((a * 16777216 + b * 65536 + c * 256 + d) as u32)
                                } else {
                                    None
                                },
                            }
                        } else {
                            None
                        },
                    }
                } else {
                    None
                },
            }
        } else {
            None
        },
    }
}

/// The canonical colon-hex grammar of a hardware address: six groups of
/// exactly two hexadecimal digits (either case) separated by colons.
/// Yields the 48-bit value.
pub open spec fn spec_parse_mac(s: Seq<char>) -> Option<u64> {
    if s.len() == 17
        && (forall|k: int| 0 <= k < 6 ==> is_hex(#[trigger] s[3 * k]) && is_hex(s[3 * k + 1]))
        && (forall|k: int| 0 <= k < 5 ==> #[trigger] s[3 * k + 2] == ':')
    {
        Some(((hex_val(s[0]) * 16 + hex_val(s[1])) * 1099511627776
            + (hex_val(s[3]) * 16 + hex_val(s[4])) * 4294967296
            + (hex_val(s[6]) * 16 + hex_val(s[7])) * 16777216
            + (hex_val(s[9]) * 16 + hex_val(s[10])) * 65536
            + (hex_val(s[12]) * 16 + hex_val(s[13])) * 256
            + (hex_val(s[15]) * 16 + hex_val(s[16]))) as u64)
    } else {
        None
    }
}

/// The one-character text of a decimal digit value.
fn digit_str(d: u8) -> (r: &'static str)
    requires
        d < 10,
    ensures
        r@ == seq![spec_digit(d as int)],
{
    proof {
        reveal_strlit("0");
        reveal_strlit("1");
        reveal_strlit("2");
        reveal_strlit("3");
        reveal_strlit("4");
        reveal_strlit("5");
        reveal_strlit("6");
        reveal_strlit("7");
        reveal_strlit("8");
        reveal_strlit("9");
    }
    let r = match d {
        0 => "0",
        1 => "1",
        2 => "2",
        3 => "3",
        4 => "4",
        5 => "5",
        6 => "6",
        7 => "7",
        8 => "8",
        _ => "9",
    };
    proof {
        assert(r@ =~= seq![spec_digit(d as int)]);
    }
    r
}

/// The one-character text of a hexadecimal digit value, lower case.
fn hex_str(d: u8) -> (r: &'static str)
    requires
        d < 16,
    ensures
        r@ == seq![spec_hex_digit(d as int)],
{
    proof {
        reveal_strlit("0");
        reveal_strlit("1");
        reveal_strlit("2");
        reveal_strlit("3");
        reveal_strlit("4");
        reveal_strlit("5");
        reveal_strlit("6");
        reveal_strlit("7");
        reveal_strlit("8");
        reveal_strlit("9");
        reveal_strlit("a");
        reveal_strlit("b");
        reveal_strlit("c");
        reveal_strlit("d");
        reveal_strlit("e");
        reveal_strlit("f");
    }
    let r = match d {
        0 => "0",
        1 => "1",
        2 => "2",
        3 => "3",
        4 => "4",
        5 => "5",
        6 => "6",
        7 => "7",
        8 => "8",
        9 => "9",
        10 => "a",
        11 => "b",
        12 => "c",
        13 => "d",
        14 => "e",
        _ => "f",
    };
    proof {
        assert(r@ =~= seq![spec_hex_digit(d as int)]);
    }
    r
}

/// Appends the decimal text of a value below 256 without leading zeros.
fn push_dec3(s: &mut String, n: u8)
    ensures
        final(s)@ == old(s)@ + spec_dec3(n as int),
{
    if n >= 100 {
        s.append(digit_str(n / 100));
        s.append(digit_str((n / 10) % 10));
        s.append(digit_str(n % 10));
        proof {
            assert(final(s)@ =~= old(s)@ + spec_dec3(n as int));
        }
    } else if n >= 10 {
        s.append(digit_str(n / 10));
        s.append(digit_str(n % 10));
        proof {
            assert(final(s)@ =~= old(s)@ + spec_dec3(n as int));
        }
    } else {
        s.append(digit_str(n));
        proof {
            assert(final(s)@ =~= old(s)@ + spec_dec3(n as int));
        }
    }
}

/// Dotted-decimal text of an IPv4 address value.
pub fn ipv4_to_string(v: u32) -> (r: String)
    ensures
        r@ == spec_ipv4_seq(v),
{
    proof {
        reveal_strlit(".");
    }
    let mut s = String::new();
    push_dec3(&mut s, (v / 16777216) as u8);
    s.append(".");
    push_dec3(&mut s, ((v / 65536) % 256) as u8);
    s.append(".");
    push_dec3(&mut s, ((v / 256) % 256) as u8);
    s.append(".");
    push_dec3(&mut s, (v % 256) as u8);
    proof {
        assert("."@ =~= seq!['.']);
        assert(s@ =~= spec_ipv4_seq(v));
    }
    s
}

/// Appends two lower-case hexadecimal digits for a byte value.
fn push_hex2(s: &mut String, n: u8)
    ensures
        final(s)@ == old(s)@ + spec_hex2(n as int),
{
    s.append(hex_str(n / 16));
    s.append(hex_str(n % 16));
    proof {
        assert(final(s)@ =~= old(s)@ + spec_hex2(n as int));
    }
}

/// Colon-hex text of a hardware address value, lower case, two digits
/// per byte.
pub fn mac_to_string(m: u64) -> (r: String)
    requires
        mac_in_range(m),
    ensures
        r@ == spec_mac_seq(m),
{
    proof {
        reveal_strlit(":");
    }
    let mut s = String::new();
    push_hex2(&mut s, ((m / 1099511627776) % 256) as u8);
    s.append(":");
    push_hex2(&mut s, ((m / 4294967296) % 256) as u8);
    s.append(":");
    push_hex2(&mut s, ((m / 16777216) % 256) as u8);
    s.append(":");
    push_hex2(&mut s, ((m / 65536) % 256) as u8);
    s.append(":");
    push_hex2(&mut s, ((m / 256) % 256) as u8);
    s.append(":");
    push_hex2(&mut s, (m % 256) as u8);
    proof {
        assert(":"@ =~= seq![':']);
        assert(s@ =~= spec_mac_seq(m));
    }
    s
}

/// The character of a decimal digit value is a digit with that value, and
/// no separator.
proof fn lemma_digit_facts(d: int)
    requires
        0 <= d < 10,
    ensures
        is_digit(spec_digit(d)),
        digit_val(spec_digit(d)) == d,
        spec_digit(d) != '.',
        d > 0 ==> spec_digit(d) != '0',
{
}

/// Reading an octet off its canonical decimal text consumes exactly that
/// text, whatever follows, as long as what follows is no digit.
proof fn lemma_take_octet_canonical(n: int, rest: Seq<char>)
    requires
        0 <= n < 256,
        rest.len() == 0 || !is_digit(rest[0]),
    ensures
        spec_take_octet(spec_dec3(n) + rest) == Some((n, spec_dec3(n).len() as int)),
{
    let s = spec_dec3(n) + rest;
    if n < 10 {
        lemma_digit_facts(n);
        assert(s[0] == spec_digit(n));
        if s.len() >= 2 {
            assert(s[1] == rest[0]);
        }
    } else if n < 100 {
        lemma_digit_facts(n / 10);
        lemma_digit_facts(n % 10);
        assert(s[0] == spec_digit(n / 10));
        assert(s[1] == spec_digit(n % 10));
        if s.len() >= 3 {
            assert(s[2] == rest[0]);
        }
        assert(digit_val(s[0]) * 10 + digit_val(s[1]) == n);
    } else {
        lemma_digit_facts(n / 100);
        lemma_digit_facts((n / 10) % 10);
        lemma_digit_facts(n % 10);
        assert(s[0] == spec_digit(n / 100));
        assert(s[1] == spec_digit((n / 10) % 10));
        assert(s[2] == spec_digit(n % 10));
        if s.len() >= 4 {
            assert(s[3] == rest[0]);
        }
        assert(digit_val(s[0]) * 100 + digit_val(s[1]) * 10 + digit_val(s[2]) == n);
    }
}

/// Parsing the dotted-decimal text of an address yields that address
/// back.
#[verifier::rlimit(100)]
pub proof fn lemma_ipv4_round_trip(v: u32)
    ensures
        spec_parse_ipv4(spec_ipv4_seq(v)) == Some(v),
{
    let o0 = spec_octet(v, 0);
    let o1 = spec_octet(v, 1);
    let o2 = spec_octet(v, 2);
    let o3 = spec_octet(v, 3);
    assert(0 <= o0 < 256 && 0 <= o1 < 256 && 0 <= o2 < 256 && 0 <= o3 < 256);
    let s = spec_ipv4_seq(v);
    let t1 = spec_dec3(o1) + seq!['.'] + spec_dec3(o2) + seq!['.'] + spec_dec3(o3);
    let t2 = spec_dec3(o2) + seq!['.'] + spec_dec3(o3);
    let t3 = spec_dec3(o3);
    assert(s =~= spec_dec3(o0) + (seq!['.'] + t1));
    lemma_take_octet_canonical(o0, seq!['.'] + t1);
    let l0 = spec_dec3(o0).len() as int;
    assert(s[l0] == '.');
    assert(s.skip(l0 + 1) =~= t1);
    assert(t1 =~= spec_dec3(o1) + (seq!['.'] + t2));
    lemma_take_octet_canonical(o1, seq!['.'] + t2);
    assert(spec_take_octet(s.skip(l0 + 1)) == Some((o1, spec_dec3(o1).len() as int)));
    let l1 = spec_dec3(o1).len() as int;
    assert(s[l0 + 1 + l1] == t1[l1]);
    assert(t1[l1] == '.');
    assert(s.skip(l0 + 1 + l1 + 1) =~= t2);
    assert(t2 =~= spec_dec3(o2) + (seq!['.'] + t3));
    lemma_take_octet_canonical(o2, seq!['.'] + t3);
    let l2 = spec_dec3(o2).len() as int;
    assert(t2[l2] == '.');
    assert(t2.skip(l2 + 1) =~= t3);
    lemma_take_octet_canonical(o3, Seq::empty());
    assert(spec_dec3(o3) + Seq::<char>::empty() =~= t3);
    assert(spec_take_octet(t3) == Some((o3, t3.len() as int)));
    assert(o0 * 16777216 + o1 * 65536 + o2 * 256 + o3 == v) by {
        let vi = v as int;
        vstd::arithmetic::div_mod::lemma_small_mod(v as nat, 4294967296nat);
        vstd::arithmetic::div_mod::lemma_small_mod((vi / 16777216) as nat, 256nat);
        vstd::arithmetic::div_mod::lemma_mod_breakdown(vi, 16777216, 256);
        vstd::arithmetic::div_mod::lemma_mod_breakdown(vi, 65536, 256);
        vstd::arithmetic::div_mod::lemma_mod_breakdown(vi, 256, 256);
    }
}

/// The character of a hexadecimal digit value is a hexadecimal digit with
/// that value, and no separator.
proof fn lemma_hex_facts(d: int)
    requires
        0 <= d < 16,
    ensures
        is_hex(spec_hex_digit(d)),
        hex_val(spec_hex_digit(d)) == d,
        spec_hex_digit(d) != ':',
{
}

/// Parsing the colon-hex text of a hardware address yields that address
/// back.
#[verifier::rlimit(60)]
pub proof fn lemma_mac_round_trip(m: u64)
    requires
        mac_in_range(m),
    ensures
        spec_parse_mac(spec_mac_seq(m)) == Some(m),
{
    let b0 = spec_mac_byte(m, 0);
    let b1 = spec_mac_byte(m, 1);
    let b2 = spec_mac_byte(m, 2);
    let b3 = spec_mac_byte(m, 3);
    let b4 = spec_mac_byte(m, 4);
    let b5 = spec_mac_byte(m, 5);
    assert(0 <= b0 < 256 && 0 <= b1 < 256 && 0 <= b2 < 256 && 0 <= b3 < 256 && 0 <= b4 < 256 && 0
        <= b5 < 256);
    lemma_hex_facts(b0 / 16);
    lemma_hex_facts(b0 % 16);
    lemma_hex_facts(b1 / 16);
    lemma_hex_facts(b1 % 16);
    lemma_hex_facts(b2 / 16);
    lemma_hex_facts(b2 % 16);
    lemma_hex_facts(b3 / 16);
    lemma_hex_facts(b3 % 16);
    lemma_hex_facts(b4 / 16);
    lemma_hex_facts(b4 % 16);
    lemma_hex_facts(b5 / 16);
    lemma_hex_facts(b5 % 16);
    let s = spec_mac_seq(m);
    let e = seq![
        spec_hex_digit(b0 / 16),
        spec_hex_digit(b0 % 16),
        ':',
        spec_hex_digit(b1 / 16),
        spec_hex_digit(b1 % 16),
        ':',
        spec_hex_digit(b2 / 16),
        spec_hex_digit(b2 % 16),
        ':',
        spec_hex_digit(b3 / 16),
        spec_hex_digit(b3 % 16),
        ':',
        spec_hex_digit(b4 / 16),
        spec_hex_digit(b4 % 16),
        ':',
        spec_hex_digit(b5 / 16),
        spec_hex_digit(b5 % 16),
    ];
    assert(s =~= e);
    assert forall|k: int| 0 <= k < 6 implies is_hex(#[trigger] s[3 * k]) && is_hex(
        s[3 * k + 1],
    ) by {
        if k == 0 {
            assert(3 * k == 0 && 3 * k + 1 == 1);
        } else if k == 1 {
            assert(3 * k == 3 && 3 * k + 1 == 4);
        } else if k == 2 {
            assert(3 * k == 6 && 3 * k + 1 == 7);
        } else if k == 3 {
            assert(3 * k == 9 && 3 * k + 1 == 10);
        } else if k == 4 {
            assert(3 * k == 12 && 3 * k + 1 == 13);
        } else {
            assert(3 * k == 15 && 3 * k + 1 == 16);
        }
    }
    assert forall|k: int| 0 <= k < 5 implies #[trigger] s[3 * k + 2] == ':' by {
        if k == 0 {
            assert(3 * k + 2 == 2);
        } else if k == 1 {
            assert(3 * k + 2 == 5);
        } else if k == 2 {
            assert(3 * k + 2 == 8);
        } else if k == 3 {
            assert(3 * k + 2 == 11);
        } else {
            assert(3 * k + 2 == 14);
        }
    }
    assert(hex_val(s[0]) * 16 + hex_val(s[1]) == b0);
    assert(hex_val(s[3]) * 16 + hex_val(s[4]) == b1);
    assert(hex_val(s[6]) * 16 + hex_val(s[7]) == b2);
    assert(hex_val(s[9]) * 16 + hex_val(s[10]) == b3);
    assert(hex_val(s[12]) * 16 + hex_val(s[13]) == b4);
    assert(hex_val(s[15]) * 16 + hex_val(s[16]) == b5);
    assert(b0 * 1099511627776 + b1 * 4294967296 + b2 * 16777216 + b3 * 65536 + b4 * 256 + b5
        == m) by {
        let mi = m as int;
        vstd::arithmetic::div_mod::lemma_small_mod(m as nat, 281474976710656nat);
        vstd::arithmetic::div_mod::lemma_mod_breakdown(mi, 1099511627776, 256);
        vstd::arithmetic::div_mod::lemma_mod_breakdown(mi, 4294967296, 256);
        vstd::arithmetic::div_mod::lemma_mod_breakdown(mi, 16777216, 256);
        vstd::arithmetic::div_mod::lemma_mod_breakdown(mi, 65536, 256);
        vstd::arithmetic::div_mod::lemma_mod_breakdown(mi, 256, 256);
    }
}

/// Whether a character is a decimal digit.
fn digit_char(c: char) -> (b: bool)
    ensures
        b == is_digit(c),
{
    let u = c as u32;
    48 <= u && u <= 57
}

/// The numeric value of a decimal digit character.
fn digit_char_val(c: char) -> (v: u8)
    requires
        is_digit(c),
    ensures
        v == digit_val(c),
{
    (c as u32 - 48) as u8
}

/// Reads a decimal octet of the text starting at position `i`.
fn take_octet_at(s: &str, len: usize, i: usize) -> (r: Option<(u8, usize)>)
    requires
        len == s@.len(),
        i <= len,
    ensures
        match r {
            Some(p) => {
                &&& spec_take_octet(s@.skip(i as int)) == Some((p.0 as int, p.1 as int))
                &&& 1 <= p.1 <= 3
                &&& i + p.1 <= len
            },
            None => spec_take_octet(s@.skip(i as int)) is None,
        },
{
    let ghost t = s@.skip(i as int);
    if i >= len {
        return None;
    }
    let c0 = s.get_char(i);
    proof {
        assert(t[0] == s@[i as int]);
    }
    if !digit_char(c0) {
        return None;
    }
    if c0 as u32 == 48 {
        return Some((0, 1));
    }
    let d0 = digit_char_val(c0);
    if i + 1 < len {
        let c1 = s.get_char(i + 1);
        proof {
            assert(t[1] == s@[i + 1]);
        }
        if digit_char(c1) {
            let d1 = digit_char_val(c1);
            if i + 2 < len {
                let c2 = s.get_char(i + 2);
                proof {
                    assert(t[2] == s@[i + 2]);
                }
                if digit_char(c2) {
                    let d2 = digit_char_val(c2);
                    let v: u32 = d0 as u32 * 100 + d1 as u32 * 10 + d2 as u32;
                    if v <= 255 {
                        return Some((v as u8, 3));
                    } else {
                        return None;
                    }
                }
            }
            return Some((d0 * 10 + d1, 2));
        }
    }
    Some((d0, 1))
}

/// Whether the character at position `i` is the given one.
fn char_at_is(s: &str, len: usize, i: usize, c: char) -> (b: bool)
    requires
        len == s@.len(),
        i < len,
    ensures
        b == (s@[i as int] == c),
{
    s.get_char(i) == c
}

/// Reads an IPv4 address from its dotted-decimal text, the whole text.
#[verifier::rlimit(60)]
pub fn parse_ipv4(s: &str) -> (r: Option<u32>)
    ensures
        r == spec_parse_ipv4(s@),
{
    let len = s.unicode_len();
    proof {
        assert(s@.skip(0) =~= s@);
    }
    let (a, la) = match take_octet_at(s, len, 0) {
        None => { return None; },
        Some(p) => p,
    };
    let i = la;
    if i >= len || !char_at_is(s, len, i, '.') {
        return None;
    }
    let (b, lb) = match take_octet_at(s, len, i + 1) {
        None => { return None; },
        Some(p) => p,
    };
    let j = i + 1 + lb;
    if j >= len || !char_at_is(s, len, j, '.') {
        return None;
    }
    proof {
        assert(s@.skip(i + 1)[lb as int] == s@[j as int]);
    }
    let (c, lc) = match take_octet_at(s, len, j + 1) {
        None => { return None; },
        Some(p) => p,
    };
    let k = j + 1 + lc;
    if k >= len || !char_at_is(s, len, k, '.') {
        return None;
    }
    proof {
        assert(s@.skip(j + 1)[lc as int] == s@[k as int]);
    }
    let (d, ld) = match take_octet_at(s, len, k + 1) {
        None => { return None; },
        Some(p) => p,
    };
    if k + 1 + ld != len {
        return None;
    }
    proof {
        assert(s@.skip(j + 1).len() == len - j - 1);
        assert(s@.skip(k + 1).len() == len - k - 1);
    }
    Some(a as u32 * 16777216 + b as u32 * 65536 + c as u32 * 256 + d as u32)
}

/// Whether a character is a hexadecimal digit.
fn hex_char(c: char) -> (b: bool)
    ensures
        b == is_hex(c),
{
    let u = c as u32;
    (48 <= u && u <= 57) || (97 <= u && u <= 102) || (65 <= u && u <= 70)
}

/// The numeric value of a hexadecimal digit character.
fn hex_char_val(c: char) -> (v: u8)
    requires
        is_hex(c),
    ensures
        v == hex_val(c),
{
    let u = c as u32;
    if 48 <= u && u <= 57 {
        (u - 48) as u8
    } else if 97 <= u && u <= 102 {
        (u - 97 + 10) as u8
    } else {
        (u - 65 + 10) as u8
    }
}

/// Reads the two-digit hexadecimal group at position `i`.
fn hex_pair_at(s: &str, len: usize, i: usize) -> (r: Option<u8>)
    requires
        len == s@.len(),
        i + 1 < len,
    ensures
        match r {
            Some(v) => {
                &&& is_hex(s@[i as int]) && is_hex(s@[i + 1])
                &&& v == hex_val(s@[i as int]) * 16 + hex_val(s@[i + 1])
            },
            None => !(is_hex(s@[i as int]) && is_hex(s@[i + 1])),
        },
{
    let c0 = s.get_char(i);
    let c1 = s.get_char(i + 1);
    if hex_char(c0) && hex_char(c1) {
        Some(hex_char_val(c0) * 16 + hex_char_val(c1))
    } else {
        None
    }
}

/// A failed two-digit group refutes the colon-hex grammar.
proof fn lemma_mac_group_bad(s: Seq<char>, k: int)
    requires
        0 <= k < 6,
        !(is_hex(s[3 * k]) && is_hex(s[3 * k + 1])),
    ensures
        spec_parse_mac(s) is None,
{
}

/// A missing separator refutes the colon-hex grammar.
proof fn lemma_mac_colon_bad(s: Seq<char>, k: int)
    requires
        0 <= k < 5,
        s[3 * k + 2] != ':',
    ensures
        spec_parse_mac(s) is None,
{
}

/// Reads a hardware address from its canonical colon-hex text: six groups
/// of exactly two hexadecimal digits, either case, separated by colons.
pub fn parse_mac(s: &str) -> (r: Option<u64>)
    ensures
        r == spec_parse_mac(s@),
        r matches Some(m) ==> mac_in_range(m),
{
    let len = s.unicode_len();
    if len != 17 {
        return None;
    }
    let p0 = match hex_pair_at(s, len, 0) {
        None => {
            proof { lemma_mac_group_bad(s@, 0); }
            return None;
        },
        Some(v) => v,
    };
    let p1 = match hex_pair_at(s, len, 3) {
        None => {
            proof { lemma_mac_group_bad(s@, 1); }
            return None;
        },
        Some(v) => v,
    };
    let p2 = match hex_pair_at(s, len, 6) {
        None => {
            proof { lemma_mac_group_bad(s@, 2); }
            return None;
        },
        Some(v) => v,
    };
    let p3 = match hex_pair_at(s, len, 9) {
        None => {
            proof { lemma_mac_group_bad(s@, 3); }
            return None;
        },
        Some(v) => v,
    };
    let p4 = match hex_pair_at(s, len, 12) {
        None => {
            proof { lemma_mac_group_bad(s@, 4); }
            return None;
        },
        Some(v) => v,
    };
    let p5 = match hex_pair_at(s, len, 15) {
        None => {
            proof { lemma_mac_group_bad(s@, 5); }
            return None;
        },
        Some(v) => v,
    };
    if !char_at_is(s, len, 2, ':') {
        proof { lemma_mac_colon_bad(s@, 0); }
        return None;
    }
    if !char_at_is(s, len, 5, ':') {
        proof { lemma_mac_colon_bad(s@, 1); }
        return None;
    }
    if !char_at_is(s, len, 8, ':') {
        proof { lemma_mac_colon_bad(s@, 2); }
        return None;
    }
    if !char_at_is(s, len, 11, ':') {
        proof { lemma_mac_colon_bad(s@, 3); }
        return None;
    }
    if !char_at_is(s, len, 14, ':') {
        proof { lemma_mac_colon_bad(s@, 4); }
        return None;
    }
    let m: u64 = p0 as u64 * 1099511627776 + p1 as u64 * 4294967296 + p2 as u64 * 16777216
        + p3 as u64 * 65536 + p4 as u64 * 256 + p5 as u64;
    proof {
        assert forall|k: int| 0 <= k < 6 implies is_hex(#[trigger] s@[3 * k]) && is_hex(
            s@[3 * k + 1],
        ) by {
            if k == 0 {
                assert(3 * k == 0 && 3 * k + 1 == 1);
            } else if k == 1 {
                assert(3 * k == 3 && 3 * k + 1 == 4);
            } else if k == 2 {
                assert(3 * k == 6 && 3 * k + 1 == 7);
            } else if k == 3 {
                assert(3 * k == 9 && 3 * k + 1 == 10);
            } else if k == 4 {
                assert(3 * k == 12 && 3 * k + 1 == 13);
            } else {
                assert(3 * k == 15 && 3 * k + 1 == 16);
            }
        }
        assert forall|k: int| 0 <= k < 5 implies #[trigger] s@[3 * k + 2] == ':' by {
            if k == 0 {
                assert(3 * k + 2 == 2);
            } else if k == 1 {
                assert(3 * k + 2 == 5);
            } else if k == 2 {
                assert(3 * k + 2 == 8);
            } else if k == 3 {
                assert(3 * k + 2 == 11);
            } else {
                assert(3 * k + 2 == 14);
            }
        }
    }
    Some(m)
}

} // verus!
