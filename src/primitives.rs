//! The calls into outside code that the library relies on, each with the
//! contract that the rest of the crate is proved against.

use vstd::prelude::*;
use vstd::arithmetic::power2::pow2;

verus! {

#[verifier::external_type_specification]
#[verifier::external_body]
pub struct ExScryptParams(scrypt::Params);

#[verifier::external_type_specification]
#[verifier::external_body]
pub struct ExInvalidParams(scrypt::errors::InvalidParams);

#[verifier::external_type_specification]
#[verifier::external_body]
pub struct ExInvalidOutputLen(scrypt::errors::InvalidOutputLen);

#[verifier::external_type_specification]
#[verifier::external_body]
pub struct ExFromHexError(hex::FromHexError);

/// SHA-256 of a byte string, written as 64 lowercase hexadecimal digits.
pub uninterp spec fn sha256_hex(data: Seq<u8>) -> Seq<char>;

/// Output of scrypt with cost `2^log_n`, block size `r`, parallelism `p`,
/// filling `len` bytes.
pub uninterp spec fn scrypt_key(password: Seq<u8>, salt: Seq<u8>, log_n: u8, r: u32, p: u32, len: nat) -> Seq<u8>;

/// Unicode uppercase mapping of one character.
pub uninterp spec fn upper_of(c: char) -> Seq<char>;

/// Unicode lowercase mapping of one character.
pub uninterp spec fn lower_of(c: char) -> Seq<char>;

pub open spec fn is_ascii_lower(c: char) -> bool {
    97 <= c as u32 && c as u32 <= 122
}

pub open spec fn is_ascii_upper(c: char) -> bool {
    65 <= c as u32 && c as u32 <= 90
}

pub open spec fn is_hex_digit(c: char) -> bool {
    (48 <= c as u32 && c as u32 <= 57) || (97 <= c as u32 && c as u32 <= 102) || (65 <= c as u32
        && c as u32 <= 70)
}

pub open spec fn is_lower_hex_digit(c: char) -> bool {
    (48 <= c as u32 && c as u32 <= 57) || (97 <= c as u32 && c as u32 <= 102)
}

pub open spec fn hex_value(c: char) -> nat {
    if 48 <= c as u32 && c as u32 <= 57 {
        (c as u32 - 48) as nat
    } else if 97 <= c as u32 && c as u32 <= 102 {
        (c as u32 - 87) as nat
    } else {
        (c as u32 - 55) as nat
    }
}

/// Bytes written as pairs of hexadecimal digits, high nibble first.
pub open spec fn hex_decoded(s: Seq<char>) -> Seq<u8> {
    Seq::new(s.len() / 2, |i: int| (hex_value(s[2 * i]) * 16 + hex_value(s[2 * i + 1])) as u8)
}

/// The parameter bounds that scrypt accepts.
pub open spec fn scrypt_params_ok(log_n: u8, r: u32, p: u32, len: usize) -> bool {
    &&& r > 0
    &&& p > 0
    &&& 10 <= len <= 64
    &&& r * 128 * pow2(log_n as nat) <= usize::MAX
    &&& r * 128 * p <= usize::MAX
    &&& (log_n as int) < r * 16
    &&& r * p < 0x4000_0000
}

/// Relies on sha256::digest: the hex text of the SHA-256 of `data`, in
/// lowercase, two digits per byte of the 32-byte hash.
#[verifier::external_body]
pub(crate) fn sha256_digest(data: &[u8]) -> (r: String)
    ensures
        r@ == sha256_hex(data@),
        r@.len() == 64,
        forall|i: int| 0 <= i < r@.len() ==> is_lower_hex_digit(#[trigger] r@[i]),
{
    sha256::digest(data)
}

/// Relies on hex::decode: even length and hex digits only, else an error;
/// each pair of digits gives one byte.
#[verifier::external_body]
pub(crate) fn decode_hex(s: &str) -> (r: Result<Vec<u8>, hex::FromHexError>)
    ensures
        r is Ok <==> (s@.len() % 2 == 0 && forall|i: int|
            0 <= i < s@.len() ==> is_hex_digit(#[trigger] s@[i])),
        r matches Ok(v) ==> v@ == hex_decoded(s@),
{
    hex::decode(s)
}

/// Relies on scrypt::Params::new: accepts exactly the bounds that its source
/// checks.
#[verifier::external_body]
pub(crate) fn scrypt_params(log_n: u8, r: u32, p: u32, len: usize) -> (res: Result<
    scrypt::Params,
    scrypt::errors::InvalidParams,
>)
    ensures
        res is Ok <==> scrypt_params_ok(log_n, r, p, len),
{
    scrypt::Params::new(log_n, r, p, len)
}

/// Relies on char::to_uppercase: the characters of the uppercase mapping.
#[verifier::external_body]
pub(crate) fn upper_chars(c: char) -> (r: Vec<char>)
    ensures
        r@ == upper_of(c),
        is_ascii_lower(c) ==> r@.len() == 1 && r@[0] as u32 == c as u32 - 32,
        (c as u32) < 128 && !is_ascii_lower(c) ==> r@ == seq![c],
{
    c.to_uppercase().collect()
}

/// Relies on char::to_lowercase: the characters of the lowercase mapping.
#[verifier::external_body]
pub(crate) fn lower_chars(c: char) -> (r: Vec<char>)
    ensures
        r@ == lower_of(c),
        is_ascii_upper(c) ==> r@.len() == 1 && r@[0] as u32 == c as u32 + 32,
        (c as u32) < 128 && !is_ascii_upper(c) ==> r@ == seq![c],
{
    c.to_lowercase().collect()
}

/// Relies on str::chars: the characters of `s`, in order.
#[verifier::external_body]
pub(crate) fn chars_of(s: &str) -> (r: Vec<char>)
    ensures
        r@ == s@,
{
    s.chars().collect()
}

/// Relies on FromIterator<char> for String: the string of these characters.
#[verifier::external_body]
pub(crate) fn string_of(v: &Vec<char>) -> (r: String)
    ensures
        r@ == v@,
{
    v.iter().collect()
}

} // verus!
