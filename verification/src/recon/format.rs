use vstd::prelude::*;

use crate::indexer::primitives::{Address, B256, U256};

verus! {

/// The lower-case hexadecimal digit for `n` (`0 <= n < 16`).
pub open spec fn hex_digit(n: int) -> char {
    seq!['0', '1', '2', '3', '4', '5', '6', '7', '8', '9', 'a', 'b', 'c', 'd', 'e', 'f'][n]
}

/// Two lower-case hexadecimal digits per byte, most significant first.
pub open spec fn hex_bytes(bytes: Seq<u8>) -> Seq<char>
    decreases bytes.len(),
{
    if bytes.len() == 0 {
        Seq::empty()
    } else {
        seq![hex_digit(bytes[0] as int / 16), hex_digit(bytes[0] as int % 16)] + hex_bytes(bytes.drop_first())
    }
}

/// `0x` followed by the lower-case hexadecimal digits of `bytes`.
pub open spec fn prefixed_hex(bytes: Seq<u8>) -> Seq<char> {
    seq!['0', 'x'] + hex_bytes(bytes)
}

/// The decimal digit for `n` (`0 <= n < 10`).
pub open spec fn decimal_digit(n: nat) -> char {
    seq!['0', '1', '2', '3', '4', '5', '6', '7', '8', '9'][n as int]
}

/// The decimal notation of `n`, without leading zeros.
pub open spec fn decimal(n: nat) -> Seq<char>
    decreases n,
{
    if n < 10 {
        seq![decimal_digit(n)]
    } else {
        decimal(n / 10).push(decimal_digit(n % 10))
    }
}

/// `{:#x}` of alloy's `Address`: `0x` and the 40 lower-case hexadecimal
/// digits of its bytes.
#[verifier::external_body]
pub(crate) fn address_hex(a: &Address) -> (s: String)
    ensures
        s@ == prefixed_hex(a.0@),
{
    format!("{:#x}", alloy::primitives::Address::from(a.0))
}

/// `{:#x}` of alloy's `B256`: `0x` and the 64 lower-case hexadecimal digits
/// of its bytes.
#[verifier::external_body]
pub(crate) fn b256_hex(h: &B256) -> (s: String)
    ensures
        s@ == prefixed_hex(h.0@),
{
    format!("{:#x}", alloy::primitives::B256::from(h.0))
}

/// `i128::try_from` on alloy's `U256`: the value if it is at most
/// `i128::MAX`, else nothing.
#[verifier::external_body]
pub(crate) fn u256_to_i128(v: &U256) -> (r: Option<i128>)
    ensures
        r == if v.value() <= i128::MAX {
            Some(v.value() as i128)
        } else {
            None
        },
{
    i128::try_from(alloy::primitives::U256::from_limbs(v.0)).ok()
}

/// `to_string` of alloy's `U256`: its decimal notation.
#[verifier::external_body]
pub(crate) fn u256_decimal(v: &U256) -> (s: String)
    ensures
        s@ == decimal(v.value()),
{
    alloy::primitives::U256::from_limbs(v.0).to_string()
}

/// `to_string` of a `u64`: its decimal notation.
#[verifier::external_body]
pub(crate) fn u64_decimal(n: u64) -> (s: String)
    ensures
        s@ == decimal(n as nat),
{
    n.to_string()
}

} // verus!
