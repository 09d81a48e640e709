//! Addresses, endpoints and the `HEXADDR:HEXPORT` field of the kernel's
//! TCP table.
use vstd::prelude::*;
use vstd::arithmetic::div_mod::lemma_fundamental_div_mod_converse;

verus! {

/// An IP address. `V4` holds the address in network order as a number
/// (`a.b.c.d` is `a * 2^24 + b * 2^16 + c * 2^8 + d`), `V6` likewise.
#[derive(Clone, Copy, Debug, PartialEq, Eq, Structural)]
pub enum IpAddress {
    V4(u32),
    V6(u128),
}

/// An address with a port.
#[derive(Clone, Copy, Debug, PartialEq, Eq, Structural)]
pub struct Endpoint {
    pub addr: IpAddress,
    pub port: u16,
}

impl IpAddress {
    /// The IPv4 address `a.b.c.d`.
    pub fn v4(a: u8, b: u8, c: u8, d: u8) -> (r: IpAddress)
        ensures
            r == IpAddress::V4((a * 0x1000000 + b * 0x10000 + c * 0x100 + d) as u32),
    {
        let v: u32 = (a as u32) * 0x1000000 + (b as u32) * 0x10000 + (c as u32) * 0x100 + (d as u32);
        IpAddress::V4(v)
    }
}

pub open spec fn is_hex_digit(c: u8) -> bool {
    (0x30 <= c <= 0x39) || (0x41 <= c <= 0x46) || (0x61 <= c <= 0x66)
}

/// Value of a hexadecimal digit, either case.
pub open spec fn hex_val(c: u8) -> int {
    if c <= 0x39 {
        c - 0x30
    } else if c <= 0x46 {
        c - 0x41 + 10
    } else {
        c - 0x61 + 10
    }
}

/// Upper-case digit for a value below 16.
pub open spec fn hex_char(v: int) -> u8 {
    if v < 10 {
        (v + 0x30) as u8
    } else {
        (v - 10 + 0x41) as u8
    }
}

/// Value of the two hex digits at `i` and `i + 1`.
pub open spec fn hex_pair(s: Seq<u8>, i: int) -> int {
    16 * hex_val(s[i]) + hex_val(s[i + 1])
}

/// A well-formed `HEXADDR:HEXPORT` field: eight hex digits, a colon, four
/// hex digits.
pub open spec fn is_endpoint_field(s: Seq<u8>) -> bool {
    &&& s.len() == 13
    &&& s[8] == 0x3a
    &&& forall|i: int| 0 <= i < 13 && i != 8 ==> is_hex_digit(#[trigger] s[i])
}

/// The endpoint a well-formed field denotes. The kernel prints the address as
/// a host-order 32-bit word, so its bytes come in reverse of network order:
/// the last hex pair is the first octet. The port is printed in plain order.
pub open spec fn endpoint_of(s: Seq<u8>) -> Endpoint {
    Endpoint {
        addr: IpAddress::V4(
            (hex_pair(s, 0) + 0x100 * hex_pair(s, 2) + 0x10000 * hex_pair(s, 4) + 0x1000000
                * hex_pair(s, 6)) as u32,
        ),
        port: (0x100 * hex_pair(s, 9) + hex_pair(s, 11)) as u16,
    }
}

/// What parsing a field yields.
pub open spec fn parse_endpoint_spec(s: Seq<u8>) -> Option<Endpoint> {
    if is_endpoint_field(s) {
        Some(endpoint_of(s))
    } else {
        None
    }
}

/// The two upper-case hex digits of a byte value.
pub open spec fn hex_byte_text(b: int) -> Seq<u8> {
    seq![hex_char(b / 16), hex_char(b % 16)]
}

/// The field the kernel prints for an IPv4 endpoint, in upper case.
pub open spec fn endpoint_text(v: int, port: int) -> Seq<u8> {
    hex_byte_text(v % 0x100) + hex_byte_text((v / 0x100) % 0x100) + hex_byte_text(
        (v / 0x10000) % 0x100,
    ) + hex_byte_text(v / 0x1000000) + seq![0x3au8] + hex_byte_text(port / 0x100)
        + hex_byte_text(port % 0x100)
}

/// Digits and upper-case letters only: the form the kernel writes.
pub open spec fn is_upper_field(s: Seq<u8>) -> bool {
    forall|i: int| 0 <= i < s.len() ==> !(0x61 <= #[trigger] s[i] <= 0x66)
}

fn hex_digit(c: u8) -> (r: Option<u8>)
    ensures
        r == (if is_hex_digit(c) { Some(hex_val(c) as u8) } else { None::<u8> }),
{
    if 0x30 <= c && c <= 0x39 {
        Some(c - 0x30)
    } else if 0x41 <= c && c <= 0x46 {
        Some(c - 0x41 + 10)
    } else if 0x61 <= c && c <= 0x66 {
        Some(c - 0x61 + 10)
    } else {
        None
    }
}

fn hex_pair_at(s: &[u8], i: usize) -> (r: Option<u8>)
    requires
        i + 1 < s@.len(),
    ensures
        r == (if is_hex_digit(s@[i as int]) && is_hex_digit(s@[i + 1]) {
            Some(hex_pair(s@, i as int) as u8)
        } else {
            None::<u8>
        }),
{
    let hi = hex_digit(s[i]);
    let lo = hex_digit(s[i + 1]);
    match (hi, lo) {
        (Some(h), Some(l)) => Some(h * 16 + l),
        _ => None,
    }
}

/// Parses one `HEXADDR:HEXPORT` field of the kernel's TCP table into an
/// IPv4 endpoint; `None` where the field is malformed.
pub fn parse_endpoint(s: &[u8]) -> (r: Option<Endpoint>)
    ensures
        r == parse_endpoint_spec(s@),
{
    if s.len() != 13 || s[8] != 0x3a {
        return None;
    }
    let b0 = hex_pair_at(s, 0);
    let b1 = hex_pair_at(s, 2);
    let b2 = hex_pair_at(s, 4);
    let b3 = hex_pair_at(s, 6);
    let p0 = hex_pair_at(s, 9);
    let p1 = hex_pair_at(s, 11);
    match (b0, b1, b2, b3, p0, p1) {
        (Some(b0), Some(b1), Some(b2), Some(b3), Some(p0), Some(p1)) => {
            assert(is_endpoint_field(s@)) by {
                assert forall|i: int| 0 <= i < 13 && i != 8 implies is_hex_digit(#[trigger] s@[i]) by {
                    if i < 8 {
                        assert(i == 0 || i == 1 || i == 2 || i == 3 || i == 4 || i == 5 || i == 6 || i == 7);
                    } else {
                        assert(i == 9 || i == 10 || i == 11 || i == 12);
                    }
                }
            }
            let v: u32 = (b0 as u32) + 0x100 * (b1 as u32) + 0x10000 * (b2 as u32) + 0x1000000 * (b3 as u32);
            let port: u16 = 0x100 * (p0 as u16) + (p1 as u16);
            Some(Endpoint { addr: IpAddress::V4(v), port })
        },
        _ => {
            assert(!is_endpoint_field(s@)) by {
                if is_endpoint_field(s@) {
                    assert(is_hex_digit(s@[0]) && is_hex_digit(s@[1]));
                    assert(is_hex_digit(s@[2]) && is_hex_digit(s@[3]));
                    assert(is_hex_digit(s@[4]) && is_hex_digit(s@[5]));
                    assert(is_hex_digit(s@[6]) && is_hex_digit(s@[7]));
                    assert(is_hex_digit(s@[9]) && is_hex_digit(s@[10]));
                    assert(is_hex_digit(s@[11]) && is_hex_digit(s@[12]));
                }
            }
            None
        },
    }
}

proof fn lemma_split(x: int, d: int, hi: int, lo: int)
    requires
        0 < d,
        0 <= lo < d,
        x == hi * d + lo,
    ensures
        x / d == hi,
        x % d == lo,
{
    lemma_fundamental_div_mod_converse(x, d, hi, lo);
}

proof fn lemma_hex_digit_round_trip(c: u8)
    requires
        is_hex_digit(c),
        !(0x61 <= c <= 0x66),
    ensures
        0 <= hex_val(c) < 16,
        hex_char(hex_val(c)) == c,
{
}

proof fn lemma_hex_char_parses(v: int)
    requires
        0 <= v < 16,
    ensures
        is_hex_digit(hex_char(v)),
        hex_val(hex_char(v)) == v,
        !(0x61 <= hex_char(v) <= 0x66),
{
}

proof fn lemma_pair_round_trip(s: Seq<u8>, i: int)
    requires
        0 <= i,
        i + 1 < s.len(),
        is_hex_digit(s[i]),
        is_hex_digit(s[i + 1]),
        !(0x61 <= s[i] <= 0x66),
        !(0x61 <= s[i + 1] <= 0x66),
    ensures
        0 <= hex_pair(s, i) < 256,
        hex_byte_text(hex_pair(s, i)) =~= s.subrange(i, i + 2),
{
    lemma_hex_digit_round_trip(s[i]);
    lemma_hex_digit_round_trip(s[i + 1]);
    lemma_split(hex_pair(s, i), 16, hex_val(s[i]), hex_val(s[i + 1]));
}

proof fn lemma_byte_text_parses(b: int)
    requires
        0 <= b < 256,
    ensures
        hex_byte_text(b).len() == 2,
        hex_pair(hex_byte_text(b), 0) == b,
        is_hex_digit(hex_byte_text(b)[0]),
        is_hex_digit(hex_byte_text(b)[1]),
        !(0x61 <= hex_byte_text(b)[0] <= 0x66),
        !(0x61 <= hex_byte_text(b)[1] <= 0x66),
{
    lemma_split(b, 16, b / 16, b % 16);
    lemma_hex_char_parses(b / 16);
    lemma_hex_char_parses(b % 16);
}

/// Reading a well-formed field written in the kernel's upper-case form and
/// printing the endpoint again gives back the same text.
pub proof fn lemma_field_round_trip(s: Seq<u8>)
    requires
        is_endpoint_field(s),
        is_upper_field(s),
    ensures
        parse_endpoint_spec(s) matches Some(e) && e.addr matches IpAddress::V4(v) && endpoint_text(
            v as int,
            e.port as int,
        ) == s,
{
    let a0 = hex_pair(s, 0);
    let a1 = hex_pair(s, 2);
    let a2 = hex_pair(s, 4);
    let a3 = hex_pair(s, 6);
    let q0 = hex_pair(s, 9);
    let q1 = hex_pair(s, 11);
    assert(is_hex_digit(s[0]) && is_hex_digit(s[1]) && is_hex_digit(s[2]) && is_hex_digit(s[3]));
    assert(is_hex_digit(s[4]) && is_hex_digit(s[5]) && is_hex_digit(s[6]) && is_hex_digit(s[7]));
    assert(is_hex_digit(s[9]) && is_hex_digit(s[10]) && is_hex_digit(s[11]) && is_hex_digit(s[12]));
    assert(!(0x61 <= s[0] <= 0x66) && !(0x61 <= s[1] <= 0x66) && !(0x61 <= s[2] <= 0x66));
    assert(!(0x61 <= s[3] <= 0x66) && !(0x61 <= s[4] <= 0x66) && !(0x61 <= s[5] <= 0x66));
    assert(!(0x61 <= s[6] <= 0x66) && !(0x61 <= s[7] <= 0x66) && !(0x61 <= s[9] <= 0x66));
    assert(!(0x61 <= s[10] <= 0x66) && !(0x61 <= s[11] <= 0x66) && !(0x61 <= s[12] <= 0x66));
    lemma_pair_round_trip(s, 0);
    lemma_pair_round_trip(s, 2);
    lemma_pair_round_trip(s, 4);
    lemma_pair_round_trip(s, 6);
    lemma_pair_round_trip(s, 9);
    lemma_pair_round_trip(s, 11);
    let v = a0 + 0x100 * a1 + 0x10000 * a2 + 0x1000000 * a3;
    let p = 0x100 * q0 + q1;
    assert(0 <= v < 0x100000000) by (nonlinear_arith)
        requires
            0 <= a0 < 256,
            0 <= a1 < 256,
            0 <= a2 < 256,
            0 <= a3 < 256,
            v == a0 + 0x100 * a1 + 0x10000 * a2 + 0x1000000 * a3,
    ;
    assert(0 <= p < 0x10000) by (nonlinear_arith)
        requires
            0 <= q0 < 256,
            0 <= q1 < 256,
            p == 0x100 * q0 + q1,
    ;
    lemma_split(v, 0x100, a1 + 0x100 * a2 + 0x10000 * a3, a0);
    lemma_split(v / 0x100, 0x100, a2 + 0x100 * a3, a1);
    lemma_split(v, 0x10000, a2 + 0x100 * a3, a0 + 0x100 * a1);
    lemma_split(v / 0x10000, 0x100, a3, a2);
    lemma_split(v, 0x1000000, a3, a0 + 0x100 * a1 + 0x10000 * a2);
    lemma_split(p, 0x100, q0, q1);
    let t = endpoint_text(v, p);
    assert(t =~= s.subrange(0, 2) + s.subrange(2, 4) + s.subrange(4, 6) + s.subrange(6, 8) + seq![
        0x3au8,
    ] + s.subrange(9, 11) + s.subrange(11, 13));
    assert(t =~= s);
}

/// Printing an IPv4 endpoint in the kernel's form and reading it back gives
/// the same endpoint.
pub proof fn lemma_text_round_trip(v: u32, port: u16)
    ensures
        parse_endpoint_spec(endpoint_text(v as int, port as int)) == Some(
            Endpoint { addr: IpAddress::V4(v), port },
        ),
{
    let b0 = v % 0x100;
    let b1 = (v / 0x100) % 0x100;
    let b2 = (v / 0x10000) % 0x100;
    let b3 = v / 0x1000000;
    let c0 = port / 0x100;
    let c1 = port % 0x100;
    assert(b3 < 0x100);
    assert(c0 < 0x100);
    lemma_byte_text_parses(b0 as int);
    lemma_byte_text_parses(b1 as int);
    lemma_byte_text_parses(b2 as int);
    lemma_byte_text_parses(b3 as int);
    lemma_byte_text_parses(c0 as int);
    lemma_byte_text_parses(c1 as int);
    let t = endpoint_text(v as int, port as int);
    assert(t.len() == 13);
    assert(t.subrange(0, 2) =~= hex_byte_text(b0 as int));
    assert(t.subrange(2, 4) =~= hex_byte_text(b1 as int));
    assert(t.subrange(4, 6) =~= hex_byte_text(b2 as int));
    assert(t.subrange(6, 8) =~= hex_byte_text(b3 as int));
    assert(t.subrange(9, 11) =~= hex_byte_text(c0 as int));
    assert(t.subrange(11, 13) =~= hex_byte_text(c1 as int));
    assert(hex_pair(t, 0) == b0);
    assert(hex_pair(t, 2) == b1);
    assert(hex_pair(t, 4) == b2);
    assert(hex_pair(t, 6) == b3);
    assert(hex_pair(t, 9) == c0);
    assert(hex_pair(t, 11) == c1);
    assert(is_endpoint_field(t)) by {
        assert forall|i: int| 0 <= i < 13 && i != 8 implies is_hex_digit(#[trigger] t[i]) by {
            if i < 2 {
                assert(t[i] == t.subrange(0, 2)[i]);
            } else if i < 4 {
                assert(t[i] == t.subrange(2, 4)[i - 2]);
            } else if i < 6 {
                assert(t[i] == t.subrange(4, 6)[i - 4]);
            } else if i < 8 {
                assert(t[i] == t.subrange(6, 8)[i - 6]);
            } else if i < 11 {
                assert(t[i] == t.subrange(9, 11)[i - 9]);
            } else {
                assert(t[i] == t.subrange(11, 13)[i - 11]);
            }
        }
    }
    lemma_split(v as int, 0x100, (v / 0x100) as int, b0 as int);
    lemma_split((v / 0x100) as int, 0x100, (v / 0x10000) as int, b1 as int);
    lemma_split((v / 0x10000) as int, 0x100, b3 as int, b2 as int);
    lemma_split(port as int, 0x100, c0 as int, c1 as int);
}

} // verus!
