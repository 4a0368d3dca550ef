//! What the pool takes from the hashing and number crates.

use vstd::prelude::*;

verus! {

/// What SHA-256 makes of a byte string.
pub uninterp spec fn sha256_of(data: Seq<u8>) -> Seq<u8>;

/// Calls `sha2::Sha256::digest`. The contract says that the digest depends on
/// the bytes alone and that it is 32 bytes long. The call counts bits in 64
/// bits, enough for any message that memory holds.
#[verifier::external_body]
pub(crate) fn sha256(data: &Vec<u8>) -> (digest: Vec<u8>)
    ensures
        digest@ == sha256_of(data@),
        digest@.len() == 32,
{
    let digest = <sha2::Sha256 as sha2::Digest>::digest(data.as_slice());
    digest.to_vec()
}

/// What `cosmwasm_std::Binary::to_base64` makes of a byte string.
pub uninterp spec fn base64_of(data: Seq<u8>) -> Seq<char>;

/// Calls `cosmwasm_std::Binary::to_base64`. The contract says that the text
/// depends on the bytes alone. The call is kept to lengths whose encoded
/// length a `usize` holds.
#[verifier::external_body]
pub(crate) fn base64(data: &Vec<u8>) -> (text: String)
    requires
        data@.len() <= 0x1000_0000,
    ensures
        text@ == base64_of(data@),
{
    cosmwasm_std::Binary::from(data.as_slice()).to_base64()
}

/// Calls `cosmwasm_std::Uint128::multiply_ratio`, which multiplies in 256 bits
/// and rounds the quotient down. It panics on a zero denominator and on a
/// quotient above 128 bits, which `requires` leaves out.
#[verifier::external_body]
pub(crate) fn multiply_ratio(amount: u128, numerator: u128, denominator: u128) -> (share: u128)
    requires
        denominator != 0,
        (amount as int) * (numerator as int) / (denominator as int) <= u128::MAX,
    ensures
        share as int == (amount as int) * (numerator as int) / (denominator as int),
{
    cosmwasm_std::Uint128::new(amount).multiply_ratio(numerator, denominator).u128()
}

} // verus!
