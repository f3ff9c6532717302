//! Identifiers, clock readings and hexadecimal text.
//!
//! Identifiers are the 128-bit values of version-4 UUIDs; times are
//! microseconds since the Unix epoch.

use vstd::prelude::*;

verus! {

/// A fresh random identifier: the value of a version-4 UUID from
/// `uuid::Uuid::new_v4`. Nothing is promised of which value comes back.
#[verifier::external_body]
pub(crate) fn new_id() -> (r: u128) {
    uuid::Uuid::new_v4().as_u128()
}

/// The current time from `chrono::Utc::now`, in microseconds since the
/// Unix epoch. Nothing is promised of which value comes back.
#[verifier::external_body]
pub(crate) fn now_micros() -> (r: i64) {
    chrono::Utc::now().timestamp_micros()
}

/// The lowercase hexadecimal digit for `n < 16`.
pub open spec fn hex_digit(n: nat) -> char {
    if n < 10 {
        ((48 + n) as u32) as char
    } else {
        ((87 + n) as u32) as char
    }
}

/// The last `n` hexadecimal digits of `x`, most significant first.
pub open spec fn hex_fixed(x: nat, n: nat) -> Seq<char>
    decreases n,
{
    if n == 0 {
        seq![]
    } else {
        hex_fixed(x / 16, (n - 1) as nat).push(hex_digit(x % 16))
    }
}

pub proof fn lemma_hex_fixed_len(x: nat, n: nat)
    ensures
        hex_fixed(x, n).len() == n,
    decreases n,
{
    if n > 0 {
        lemma_hex_fixed_len(x / 16, (n - 1) as nat);
    }
}

/// The hyphenated lowercase text of an identifier, as `uuid::Uuid` prints
/// it: its 32 hexadecimal digits grouped 8-4-4-4-12.
pub open spec fn uuid_text(id: u128) -> Seq<char> {
    let h = hex_fixed(id as nat, 32);
    h.subrange(0, 8) + seq!['-'] + h.subrange(8, 12) + seq!['-'] + h.subrange(12, 16) + seq!['-']
        + h.subrange(16, 20) + seq!['-'] + h.subrange(20, 32)
}

pub proof fn lemma_uuid_text_len(id: u128)
    ensures
        uuid_text(id).len() == 36,
{
    lemma_hex_fixed_len(id as nat, 32);
}

/// `uuid::Uuid::from_u128(id).to_string()`: the hyphenated lowercase form.
#[verifier::external_body]
pub(crate) fn id_to_string(id: u128) -> (r: String)
    ensures
        r@ == uuid_text(id),
{
    uuid::Uuid::from_u128(id).to_string()
}

/// A fresh identifier in its text form (`Uuid::new_v4().to_string()`).
pub fn new_id_string() -> (r: String)
    ensures
        exists|id: u128| r@ == uuid_text(id),
        r@.len() == 36,
{
    let id = new_id();
    let r = id_to_string(id);
    proof {
        lemma_uuid_text_len(id);
    }
    r
}

/// Lowercase hexadecimal text of a byte string, two digits per byte.
pub open spec fn hex_lower(bytes: Seq<u8>) -> Seq<char>
    decreases bytes.len(),
{
    if bytes.len() == 0 {
        seq![]
    } else {
        hex_lower(bytes.drop_last()) + hex_fixed(bytes.last() as nat, 2)
    }
}

pub proof fn lemma_hex_lower_len(bytes: Seq<u8>)
    ensures
        hex_lower(bytes).len() == 2 * bytes.len(),
    decreases bytes.len(),
{
    if bytes.len() > 0 {
        lemma_hex_lower_len(bytes.drop_last());
        lemma_hex_fixed_len(bytes.last() as nat, 2);
    }
}

/// `hex::encode`: lowercase hexadecimal, two digits per byte.
#[verifier::external_body]
pub(crate) fn hex_encode(bytes: &[u8]) -> (r: String)
    ensures
        r@ == hex_lower(bytes@),
{
    hex::encode(bytes)
}

} // verus!
