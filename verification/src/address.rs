//! The address codec: a packed `ADDRESS:PORT` field of a socket table, decoded
//! into an address and a port.

use crate::number::{
    all_digits, decimal_bytes, digit_of, digits_value, lemma_decimal_bytes_are_digits,
    parse_digits, parse_number, render_decimal, DIGIT_0, DIGIT_9, UPPER_A, UPPER_F,
};
use crate::text::{
    copy_range, find_byte, lemma_offset_of_bounds, lemma_offset_of_scan, offset_of,
};
use vstd::prelude::*;

verus! {

/// Socket families and socket types, as the kernel names them.
#[allow(non_camel_case_types)]
#[derive(Clone, Copy, Debug, PartialEq, Eq, Structural)]
pub enum Socket {
    AF_INET,
    AF_INET6,
    AF_UNIX,
    SOCK_STREAM,
    SOCK_DGRAM,
}

/// A network address. The four bytes of an IPv4 address stand in the order
/// in which they are written: `V4(10, 0, 0, 5)` is `10.0.0.5`.
#[derive(Clone, Copy, Debug, PartialEq, Eq, Structural)]
pub enum Address {
    V4(u8, u8, u8, u8),
}

/// One end of a connection: an address and a port.
#[derive(Clone, Copy, Debug, PartialEq, Eq, Structural)]
pub struct Target {
    pub addr: Address,
    pub port: u16,
}

/// The colon, which parts the address from the port.
pub const COLON: u8 = 0x3A;

/// The largest port.
pub const MAX_PORT: u64 = 0xFFFF;

/// The value of `b` as a base-16 symbol: `0`-`9` and the capitals `A`-`F`.
pub open spec fn base16_digit(b: u8) -> Option<nat> {
    if DIGIT_0 <= b && b <= DIGIT_9 {
        Some((b - DIGIT_0) as nat)
    } else if UPPER_A <= b && b <= UPPER_F {
        Some((b - UPPER_A + 10) as nat)
    } else {
        None
    }
}

/// Whether `s` is a base-16 text: an even number of base-16 symbols.
pub open spec fn is_base16(s: Seq<u8>) -> bool {
    s.len() % 2 == 0 && forall|i: int| 0 <= i < s.len() ==> (#[trigger] base16_digit(s[i])) is Some
}

/// The bytes that a base-16 text writes: each pair of symbols is one byte,
/// the first symbol its upper half.
pub open spec fn base16_bytes(s: Seq<u8>) -> Seq<u8> {
    Seq::new(
        s.len() / 2,
        |i: int| (16 * base16_digit(s[2 * i])->0 + base16_digit(s[2 * i + 1])->0) as u8,
    )
}

/// The error of `data_encoding`'s decoders, `data_encoding::decode::Error`.
/// The library only tells it apart from success.
#[verifier::external_type_specification]
#[verifier::external_body]
pub struct ExBase16Error(data_encoding::decode::Error);

/// Calls `data_encoding::base16::decode`. The contract claims what the
/// decoder's source shows for base 16: it accepts exactly the texts of even
/// length made of the symbols `0`-`9` and `A`-`F`, and returns one byte for
/// each pair of symbols, the first symbol of a pair being the upper half.
#[verifier::external_body]
fn base16_decode(input: &[u8]) -> (r: Result<Vec<u8>, data_encoding::decode::Error>)
    ensures
        r is Ok <==> is_base16(input@),
        r matches Ok(bytes) ==> bytes@ == base16_bytes(input@),
{
    data_encoding::base16::decode(input)
}

/// The address part and the port part of a packed field: what stands before
/// the first colon, and all that stands after it. `None` where the field
/// holds no colon.
pub open spec fn split_address(field: Seq<u8>) -> Option<(Seq<u8>, Seq<u8>)> {
    let colon = offset_of(field, COLON) as int;
    if colon == field.len() {
        None
    } else {
        Some((field.take(colon), field.skip(colon + 1)))
    }
}

/// Whether `port` is a port as the tables write it: four hexadecimal digits.
pub open spec fn is_port(port: Seq<u8>) -> bool {
    port.len() == 4 && all_digits(port, 16)
}

/// What a packed field decodes to. The address of IPv4 is eight base-16
/// symbols, four bytes, the least significant byte first. The port is four
/// hexadecimal digits, and it ends the field. Any other family, and any
/// field that is not of this form, decodes to nothing.
pub open spec fn decoded_address(field: Seq<u8>, family: Socket) -> Option<Target> {
    match split_address(field) {
        Some((ip, port)) => {
            if family == Socket::AF_INET && is_port(port) && is_base16(ip) && ip.len() == 8 {
                let bytes = base16_bytes(ip);
                Some(
                    Target {
                        addr: Address::V4(bytes[3], bytes[2], bytes[1], bytes[0]),
                        port: digits_value(port, 16) as u16,
                    },
                )
            } else {
                None
            }
        },
        None => None,
    }
}

/// Four hexadecimal digits write a number of at most sixteen bits.
pub proof fn lemma_port_fits(port: Seq<u8>)
    requires
        is_port(port),
    ensures
        digits_value(port, 16) <= MAX_PORT,
        parse_number(port, 16, MAX_PORT as nat) == Some(digits_value(port, 16)),
{
    let p3 = port.drop_last();
    let p2 = p3.drop_last();
    let p1 = p2.drop_last();
    assert(digit_of(port[0], 16) is Some && digit_of(port[1], 16) is Some && digit_of(
        port[2],
        16,
    ) is Some && digit_of(port[3], 16) is Some);
    assert(digits_value(p1, 16) <= 15) by {
        reveal_with_fuel(digits_value, 2);
    }
    assert(digits_value(p2, 16) <= 255);
    assert(digits_value(p3, 16) <= 4095);
}

/// Decodes a packed `ADDRESS:PORT` field of a socket table.
pub fn decode_address_bytes(field: &[u8], family: &Socket) -> (r: Option<Target>)
    ensures
        r == decoded_address(field@, *family),
{
    let colon = find_byte(field, 0, COLON);
    assert(field@.skip(0) =~= field@);
    if colon == field.len() {
        return None;
    }
    let ip = copy_range(field, 0, colon);
    let port_text = copy_range(field, colon + 1, field.len());
    assert(port_text@ =~= field@.skip(colon + 1));
    if port_text.len() != 4 {
        return None;
    }
    let port: u16 = match parse_digits(port_text.as_slice(), 16, MAX_PORT) {
        Some(p) => p as u16,
        None => {
            proof {
                if is_port(port_text@) {
                    lemma_port_fits(port_text@);
                }
            }
            return None;
        },
    };
    match base16_decode(ip.as_slice()) {
        Ok(bytes) => {
            match family {
                Socket::AF_INET => {
                    if bytes.len() == 4 {
                        let addr = Address::V4(bytes[3], bytes[2], bytes[1], bytes[0]);
                        Some(Target { addr, port })
                    } else {
                        None
                    }
                },
                _ => None,
            }
        },
        Err(_) => None,
    }
}

/// The characters that the ASCII bytes of `s` stand for.
pub open spec fn ascii_chars(s: Seq<u8>) -> Seq<char> {
    Seq::new(s.len(), |i: int| s[i] as char)
}

/// The numbers of `v` in decimal, with `sep` between each two of them.
pub open spec fn joined_decimals(v: Seq<u8>, sep: Seq<char>) -> Seq<char>
    decreases v.len(),
{
    if v.len() == 0 {
        Seq::empty()
    } else if v.len() == 1 {
        ascii_chars(decimal_bytes(v[0] as nat))
    } else {
        joined_decimals(v.drop_last(), sep) + sep + ascii_chars(decimal_bytes(v.last() as nat))
    }
}

/// The text of one decimal digit.
fn digit_str(d: u8) -> (r: &'static str)
    requires
        DIGIT_0 <= d <= DIGIT_9,
    ensures
        r@ == seq![d as char],
{
    proof {
        reveal_strlit("0");
        reveal_strlit("1");
        reveal_strlit("2");
        reveal_strlit("3");
        reveal_strlit("4");
        reveal_strlit("5");
        reveal_strlit("6");
        reveal_strlit("7");
        reveal_strlit("8");
        reveal_strlit("9");
    }
    let n: u8 = d - DIGIT_0;
    let r = if n == 0 {
        "0"
    } else if n == 1 {
        "1"
    } else if n == 2 {
        "2"
    } else if n == 3 {
        "3"
    } else if n == 4 {
        "4"
    } else if n == 5 {
        "5"
    } else if n == 6 {
        "6"
    } else if n == 7 {
        "7"
    } else if n == 8 {
        "8"
    } else {
        "9"
    };
    r
}

/// Writes the numbers of `v` in decimal, with `join_char` between each two of
/// them: the bytes 10, 0, 0, 5 joined by a dot give `10.0.0.5`.
pub fn vec_to_s(v: Vec<u8>, join_char: &str) -> (s: String)
    ensures
        s@ == joined_decimals(v@, join_char@),
{
    let mut s = String::new();
    let mut i: usize = 0;
    while i < v.len()
        invariant
            i <= v.len(),
            s@ == joined_decimals(v@.take(i as int), join_char@),
        decreases v.len() - i,
    {
        if i > 0 {
            s.append(join_char);
        }
        let ghost before = s@;
        let digits = render_decimal(v[i] as u64);
        proof {
            lemma_decimal_bytes_are_digits(v[i as int] as nat);
        }
        let mut k: usize = 0;
        while k < digits.len()
            invariant
                k <= digits.len(),
                forall|j: int|
                    0 <= j < digits.len() ==> DIGIT_0 <= #[trigger] digits@[j] <= DIGIT_9,
                s@ == before + ascii_chars(digits@.take(k as int)),
            decreases digits.len() - k,
        {
            s.append(digit_str(digits[k]));
            k += 1;
        }
        assert(v@.take(i + 1).drop_last() =~= v@.take(i as int));
        i += 1;
    }
    assert(v@.take(i as int) =~= v@);
    s
}

impl Address {
    /// The four bytes of the address, in the order in which they are written.
    pub open spec fn octets(self) -> Seq<u8> {
        match self {
            Address::V4(a, b, c, d) => seq![a, b, c, d],
        }
    }

    /// The address in dotted decimal.
    pub fn to_text(&self) -> (s: String)
        ensures
            s@ == joined_decimals(self.octets(), seq!['.']),
    {
        proof {
            reveal_strlit(".");
        }
        match self {
            Address::V4(a, b, c, d) => {
                let mut v: Vec<u8> = Vec::new();
                v.push(*a);
                v.push(*b);
                v.push(*c);
                v.push(*d);
                assert(v@ =~= self.octets());
                assert("."@ =~= seq!['.']);
                vec_to_s(v, ".")
            },
        }
    }
}

/// The base-16 symbol of a value below sixteen.
pub open spec fn base16_symbol(v: nat) -> u8 {
    if v < 10 {
        (DIGIT_0 + v) as u8
    } else {
        (UPPER_A + v - 10) as u8
    }
}

/// The base-16 text of `bytes`: two symbols for each byte, the upper half
/// first.
pub open spec fn base16_text(bytes: Seq<u8>) -> Seq<u8> {
    Seq::new(
        2 * bytes.len(),
        |i: int|
            base16_symbol(
                if i % 2 == 0 {
                    (bytes[i / 2] / 16) as nat
                } else {
                    (bytes[i / 2] % 16) as nat
                },
            ),
    )
}

/// Decoding the packed form of an IPv4 address and a port gives both back:
/// for the address bytes `a`, `b`, `c`, `d` as they are written, their
/// base-16 text in reverse order, a colon and the port in four base-16
/// symbols decode to the address `a.b.c.d` and the port.
pub proof fn lemma_decode_ipv4_round_trip(a: u8, b: u8, c: u8, d: u8, port: u16)
    ensures
        decoded_address(
            base16_text(seq![d, c, b, a]) + seq![COLON] + base16_text(
                seq![(port / 256) as u8, (port % 256) as u8],
            ),
            Socket::AF_INET,
        ) == Some(Target { addr: Address::V4(a, b, c, d), port }),
{
    let packed = seq![d, c, b, a];
    let hi = (port / 256) as u8;
    let lo = (port % 256) as u8;
    let ip = base16_text(packed);
    let pt = base16_text(seq![hi, lo]);
    let field = ip + seq![COLON] + pt;
    assert forall|i: int| 0 <= i < 8 implies base16_digit(#[trigger] ip[i]) == Some(
        if i % 2 == 0 {
            (packed[i / 2] / 16) as nat
        } else {
            (packed[i / 2] % 16) as nat
        },
    ) by {}
    assert forall|i: int| 0 <= i < 4 implies digit_of(#[trigger] pt[i], 16) == Some(
        if i % 2 == 0 {
            (seq![hi, lo][i / 2] / 16) as nat
        } else {
            (seq![hi, lo][i / 2] % 16) as nat
        },
    ) by {}
    assert(field.skip(0) =~= field);
    assert forall|k: int| 0 <= k < 8 implies field[k] != COLON by {}
    lemma_offset_of_scan(field, COLON, 0, 8);
    assert(field.skip(9) =~= pt);
    assert(pt.skip(0) =~= pt);
    lemma_offset_of_scan(pt, COLON, 0, 4);
    let p3 = pt.drop_last();
    let p2 = p3.drop_last();
    let p1 = p2.drop_last();
    assert(digits_value(p1, 16) == hi / 16) by {
        reveal_with_fuel(digits_value, 2);
    }
    assert(digits_value(p2, 16) == 16 * (hi / 16) + hi % 16);
    assert(digits_value(p3, 16) == 16 * hi + lo / 16);
}

/// A malformed field decodes to nothing, whatever the family: a field
/// without a colon, a port part, which is all that follows the first colon,
/// that is not four digits long or holds anything but hexadecimal digits,
/// and an address part that is not eight symbols long.
pub proof fn lemma_malformed_address_is_rejected(field: Seq<u8>, family: Socket)
    ensures
        split_address(field) is None ==> decoded_address(field, family) is None,
        split_address(field) matches Some((ip, port)) ==> (port.len() != 4 || !all_digits(port, 16)
            || ip.len() != 8) ==> decoded_address(field, family) is None,
        family != Socket::AF_INET ==> decoded_address(field, family) is None,
{
}

/// A field of IPv4 decodes exactly where it is eight base-16 symbols, a
/// colon and four hexadecimal digits, and nothing more.
pub proof fn lemma_decodes_exactly_the_packed_form(field: Seq<u8>)
    ensures
        decoded_address(field, Socket::AF_INET) is Some <==> field.len() == 13 && is_base16(
            field.take(8),
        ) && field[8] == COLON && all_digits(field.skip(9), 16),
{
    lemma_offset_of_bounds(field, COLON);
    if field.len() == 13 && is_base16(field.take(8)) && field[8] == COLON {
        assert forall|k: int| 0 <= k < 8 implies field[k] != COLON by {
            assert(base16_digit(field.take(8)[k]) is Some);
        }
        assert(field.skip(0) =~= field);
        lemma_offset_of_scan(field, COLON, 0, 8);
    }
}

} // verus!
