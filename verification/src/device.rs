//! What the bootloader says of itself, as far as a transfer needs it.

use vstd::prelude::*;

verus! {

/// The value of a hexadecimal digit, in either case.
pub open spec fn hex_digit(c: char) -> Option<nat> {
    if '0' <= c <= '9' {
        Some((c as u32 - '0' as u32) as nat)
    } else if 'a' <= c <= 'f' {
        Some((c as u32 - 'a' as u32 + 10) as nat)
    } else if 'A' <= c <= 'F' {
        Some((c as u32 - 'A' as u32 + 10) as nat)
    } else {
        None
    }
}

/// Whether every character of `s` is a hexadecimal digit.
pub open spec fn all_hex_digits(s: Seq<char>) -> bool {
    forall|i: int| 0 <= i < s.len() ==> hex_digit(#[trigger] s[i]) is Some
}

/// The number that the hexadecimal digits `s` write, most significant first.
pub open spec fn hex_number(s: Seq<char>) -> nat
    decreases s.len(),
{
    if s.len() == 0 {
        0
    } else {
        match hex_digit(s.last()) {
            Some(d) => 16 * hex_number(s.drop_last()) + d,
            None => 0,
        }
    }
}

/// The size that a device variable states: `0x`, an optional `+`, then one
/// or more hexadecimal digits that write a number of at most 32 bits.
/// Anything else states no size.
pub open spec fn hex_size(s: Seq<char>) -> Option<u32> {
    if s.len() >= 2 && s[0] == '0' && s[1] == 'x' {
        let rest = s.skip(2);
        let digits = if rest.len() > 0 && rest[0] == '+' {
            rest.skip(1)
        } else {
            rest
        };
        if digits.len() > 0 && all_hex_digits(digits) && hex_number(digits) <= u32::MAX {
            Some(hex_number(digits) as u32)
        } else {
            None
        }
    } else {
        None
    }
}

/// Calls `fastboot_protocol::protocol::parse_u32_hex`.
///
/// Trusted: the function takes the prefix `0x` off and reads the rest as a
/// hexadecimal number of 32 bits, as `u32::from_str_radix` does with radix
/// 16: an optional `+`, then digits only and at least one, in either case;
/// a number that does not fit is an error, like any other text.
#[verifier::external_body]
pub(crate) fn parse_u32_hex(value: &str) -> (r: Option<u32>)
    ensures
        r == hex_size(value@),
{
    fastboot_protocol::protocol::parse_u32_hex(value).ok()
}

/// The name of the variable in which a device states the most bytes that it
/// takes in one transfer.
pub fn max_download_variable() -> (r: &'static str)
    ensures
        r@ == "max-download-size"@,
{
    "max-download-size"
}

} // verus!
