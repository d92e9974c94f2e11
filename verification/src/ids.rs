//! Identifiers: name-based and random UUIDs, and their hexadecimal texts.

use vstd::prelude::*;
use crate::json;
use crate::text;

verus! {

broadcast use vstd::string::group_string_axioms;

/// The 128 bits of the version-5 UUID of `name` in `namespace`, most
/// significant first.
pub uninterp spec fn uuid_v5_bits(namespace: u128, name: Seq<char>) -> u128;

/// `uuid::Uuid::new_v5` over the UTF-8 bytes of `name`. The bits follow from
/// SHA-1 over the namespace and those bytes, so they have a name only.
#[verifier::external_body]
pub(crate) fn uuid_v5(namespace: u128, name: &str) -> (r: u128)
    ensures
        r == uuid_v5_bits(namespace, name@),
{
    uuid::Uuid::new_v5(&uuid::Uuid::from_u128(namespace), name.as_bytes()).as_u128()
}

/// `uuid::Uuid::new_v4`: 122 random bits, with version 4 and the RFC variant in
/// the other six. Nothing is said of which random bits come. It panics where the
/// system has no random bits to give.
#[verifier::external_body]
pub(crate) fn uuid_v4() -> (r: u128)
    ensures
        (r >> 76) & 0xf == 4,
        (r >> 62) & 3 == 2,
{
    uuid::Uuid::new_v4().as_u128()
}

/// The last `digits` hexadecimal digits of `n`, most significant first.
pub open spec fn hex_digits(n: nat, digits: nat) -> Seq<char>
    decreases digits,
{
    if digits == 0 {
        Seq::empty()
    } else {
        hex_digits(n / 16, (digits - 1) as nat).push(json::hex_char(n % 16))
    }
}

/// The 32 hexadecimal digits of a UUID.
pub open spec fn simple_text(bits: u128) -> Seq<char> {
    hex_digits(bits as nat, 32)
}

/// The 32 hexadecimal digits of a UUID in groups of 8, 4, 4, 4 and 12.
pub open spec fn hyphenated_text(bits: u128) -> Seq<char> {
    let d = simple_text(bits);
    d.subrange(0, 8) + seq!['-'] + d.subrange(8, 12) + seq!['-'] + d.subrange(12, 16) + seq!['-']
        + d.subrange(16, 20) + seq!['-'] + d.subrange(20, 32)
}

/// A text of `digits` hexadecimal digits has that length.
pub proof fn hex_digits_len(n: nat, digits: nat)
    ensures
        hex_digits(n, digits).len() == digits,
    decreases digits,
{
    if digits > 0 {
        hex_digits_len(n / 16, (digits - 1) as nat);
    }
}

/// A hyphenated UUID has 36 characters.
pub proof fn law_hyphenated_length(bits: u128)
    ensures
        hyphenated_text(bits).len() == 36,
{
    hex_digits_len(bits as nat, 32);
}

fn hex_of(d: u8) -> (r: char)
    requires
        d < 16,
    ensures
        r == json::hex_char(d as nat),
{
    match d {
        0 => '0',
        1 => '1',
        2 => '2',
        3 => '3',
        4 => '4',
        5 => '5',
        6 => '6',
        7 => '7',
        8 => '8',
        9 => '9',
        10 => 'a',
        11 => 'b',
        12 => 'c',
        13 => 'd',
        14 => 'e',
        _ => 'f',
    }
}

fn hex_chars(n: u128, digits: u8) -> (r: Vec<char>)
    ensures
        r@ == hex_digits(n as nat, digits as nat),
    decreases digits,
{
    if digits == 0 {
        Vec::new()
    } else {
        let mut out = hex_chars(n / 16, digits - 1);
        out.push(hex_of((n % 16) as u8));
        out
    }
}

/// The 32 hexadecimal digits of a UUID.
pub fn simple(bits: u128) -> (r: String)
    ensures
        r@ == simple_text(bits),
{
    text::text_of(&hex_chars(bits, 32))
}

/// A UUID in groups of 8, 4, 4, 4 and 12 hexadecimal digits.
pub fn hyphenated(bits: u128) -> (r: String)
    ensures
        r@ == hyphenated_text(bits),
{
    let d = hex_chars(bits, 32);
    proof {
        hex_digits_len(bits as nat, 32);
    }
    let mut out = text::text_range(&d, 0, 8);
    out.push('-');
    out.append(text::text_range(&d, 8, 12).as_str());
    out.push('-');
    out.append(text::text_range(&d, 12, 16).as_str());
    out.push('-');
    out.append(text::text_range(&d, 16, 20).as_str());
    out.push('-');
    out.append(text::text_range(&d, 20, 32).as_str());
    assert(out@ =~= hyphenated_text(bits));
    out
}

/// Sixteen to a power.
pub open spec fn power16(n: nat) -> nat
    decreases n,
{
    if n == 0 {
        1
    } else {
        16 * power16((n - 1) as nat)
    }
}

proof fn hex_chars_differ(a: nat, b: nat)
    requires
        a < 16,
        b < 16,
        json::hex_char(a) == json::hex_char(b),
    ensures
        a == b,
{
}

proof fn digits_tell_apart(a: nat, b: nat, digits: nat)
    requires
        a < power16(digits),
        b < power16(digits),
        hex_digits(a, digits) == hex_digits(b, digits),
    ensures
        a == b,
    decreases digits,
{
    if digits > 0 {
        let x = hex_digits(a, digits);
        let y = hex_digits(b, digits);
        let n = (digits - 1) as nat;
        hex_digits_len(a / 16, n);
        hex_digits_len(b / 16, n);
        assert(x[n as int] == y[n as int]);
        hex_chars_differ(a % 16, b % 16);
        assert(x.take(n as int) =~= hex_digits(a / 16, n));
        assert(y.take(n as int) =~= hex_digits(b / 16, n));
        digits_tell_apart(a / 16, b / 16, n);
    }
}

/// The digits of a UUID tell it from every other one, and so does its hyphenated text.
pub proof fn law_uuid_texts_tell_apart(a: u128, b: u128)
    ensures
        simple_text(a) == simple_text(b) <==> a == b,
        hyphenated_text(a) == hyphenated_text(b) <==> a == b,
{
    assert(power16(32) == 0x1_0000_0000_0000_0000_0000_0000_0000_0000) by {
        reveal_with_fuel(power16, 33);
    }
    hex_digits_len(a as nat, 32);
    hex_digits_len(b as nat, 32);
    if simple_text(a) == simple_text(b) {
        digits_tell_apart(a as nat, b as nat, 32);
    }
    if hyphenated_text(a) == hyphenated_text(b) {
        let x = simple_text(a);
        let y = simple_text(b);
        let s = hyphenated_text(a);
        let t = hyphenated_text(b);
        assert forall|i: int| 0 <= i < 32 implies x[i] == y[i] by {
            if i < 8 {
                assert(s[i] == x[i] && t[i] == y[i]);
            } else if i < 12 {
                assert(s[i + 1] == x[i] && t[i + 1] == y[i]);
            } else if i < 16 {
                assert(s[i + 2] == x[i] && t[i + 2] == y[i]);
            } else if i < 20 {
                assert(s[i + 3] == x[i] && t[i + 3] == y[i]);
            } else {
                assert(s[i + 4] == x[i] && t[i + 4] == y[i]);
            }
        }
        assert(x =~= y);
        digits_tell_apart(a as nat, b as nat, 32);
    }
}

} // verus!
