//! Addresses: the payment credential of a Shelley address, and the address that a pair of
//! credentials stands for. Decoding and encoding are done by the `bech32` and `pallas` crates;
//! what is decided around those calls is verified here.

use crate::hex_codec::{decode, hex_decoded, is_hex_text};
use bech32::FromBase32;
use pallas::ledger::addresses::Address;
use vstd::prelude::*;
use vstd::string::StringExecFns;

verus! {

/// The number of bytes in a credential hash.
pub const HASH_LEN: usize = 28;

/// The bytes that a bech32 text carries, as `bech32::decode` followed by the conversion from
/// five-bit groups to bytes gives them; `None` where either step rejects the text.
pub uninterp spec fn bech32_payload(text: Seq<char>) -> Option<Seq<u8>>;

/// The payment credential hash that `pallas` reads from the bytes of an address, where it
/// reads them as a Shelley address; `None` where it reads another kind or rejects them.
pub uninterp spec fn shelley_payment_hash(bytes: Seq<u8>) -> Option<Seq<u8>>;

/// The bech32 text that `pallas` writes for the address that it reads from `bytes`; `None`
/// where it rejects the bytes or cannot write the address.
pub uninterp spec fn bech32_address_text(bytes: Seq<u8>) -> Option<Seq<char>>;

/// The kind of address that a header byte announces: its high four bits.
pub open spec fn header_kind(header: u8) -> int {
    header as int / 16
}

/// Whether the bytes are long enough for the kind of Shelley address that their header
/// announces: kinds 0 to 3 carry two hashes, kinds 4 to 7 at least one.
pub open spec fn is_shelley_shaped(bytes: Seq<u8>) -> bool {
    &&& bytes.len() >= 1
    &&& header_kind(bytes[0]) <= 7
    &&& bytes.len() >= 1 + HASH_LEN
    &&& header_kind(bytes[0]) <= 3 ==> bytes.len() >= 1 + 2 * HASH_LEN
}

/// Whether a Shelley address of this header delegates through a pointer, the one part whose
/// parsing can still fail once the length is right.
pub open spec fn has_pointer_part(bytes: Seq<u8>) -> bool {
    header_kind(bytes[0]) == 4 || header_kind(bytes[0]) == 5
}

/// The payment credential hash of the address that `bytes` hold: present only for bytes
/// shaped as a Shelley address that `pallas` accepts.
pub open spec fn payment_hash_of_bytes(bytes: Seq<u8>) -> Option<Seq<u8>> {
    if is_shelley_shaped(bytes) {
        shelley_payment_hash(bytes)
    } else {
        None
    }
}

/// The payment credential hash of a textual address.
pub open spec fn payment_hash(address: Seq<char>) -> Option<Seq<u8>> {
    match bech32_payload(address) {
        Some(bytes) => payment_hash_of_bytes(bytes),
        None => None,
    }
}

/// `bech32::decode`, then `Vec::<u8>::from_base32` on its data part. Neither panics; the
/// result is named, not spelled out.
#[verifier::external_body]
fn decode_bech32(text: &str) -> (bytes: Option<Vec<u8>>)
    ensures
        bytes.is_some() == bech32_payload(text@).is_some(),
        bytes matches Some(b) ==> Some(b@) == bech32_payload(text@),
{
    match bech32::decode(text) {
        Ok((_, data, _)) => Vec::<u8>::from_base32(&data).ok(),
        Err(_) => None,
    }
}

/// `Address::from_bytes` of `pallas`, then the hash of the payment part of a Shelley address.
/// `pallas` slices the bytes after the header by fixed ranges and panics where they are too
/// short, which `requires` leaves out. For bytes of the right shape it takes the 28 bytes
/// after the header as the payment hash, and fails only in parsing a pointer.
#[verifier::external_body]
fn parse_payment_hash(bytes: &[u8]) -> (hash: Option<Vec<u8>>)
    requires
        is_shelley_shaped(bytes@),
    ensures
        hash.is_some() == shelley_payment_hash(bytes@).is_some(),
        hash matches Some(h) ==> Some(h@) == shelley_payment_hash(bytes@) && h@ == bytes@.subrange(
            1,
            1 + HASH_LEN as int,
        ),
        !has_pointer_part(bytes@) ==> hash.is_some(),
{
    match Address::from_bytes(bytes) {
        Ok(Address::Shelley(address)) => Some(address.payment().as_hash().to_vec()),
        _ => None,
    }
}

/// `Address::from_bytes` of `pallas`, then `Address::to_bech32`. As above, bytes too short
/// for their header are left out. Where the header is that of a mainnet address of two key
/// hashes, both calls succeed.
#[verifier::external_body]
fn encode_address(bytes: &[u8]) -> (text: Option<String>)
    requires
        is_shelley_shaped(bytes@),
    ensures
        text.is_some() == bech32_address_text(bytes@).is_some(),
        text matches Some(t) ==> Some(t@) == bech32_address_text(bytes@),
        bytes@[0] == 1 ==> text.is_some(),
{
    match Address::from_bytes(bytes) {
        Ok(address) => address.to_bech32().ok(),
        Err(_) => None,
    }
}

/// The payment credential hash of the address held in `bytes`, or `None` where the bytes are
/// no Shelley address.
pub fn get_payment_hash_of_bytes(bytes: &Vec<u8>) -> (hash: Option<Vec<u8>>)
    ensures
        hash.is_some() == payment_hash_of_bytes(bytes@).is_some(),
        hash matches Some(h) ==> Some(h@) == payment_hash_of_bytes(bytes@),
        hash matches Some(h) ==> h@ == bytes@.subrange(1, 1 + HASH_LEN as int),
        is_shelley_shaped(bytes@) && !has_pointer_part(bytes@) ==> hash.is_some(),
        !is_shelley_shaped(bytes@) ==> hash.is_none(),
{
    if bytes.len() < 1 + HASH_LEN {
        return None;
    }
    let kind: u8 = bytes[0] / 16;
    if kind > 7 {
        return None;
    }
    if kind <= 3 && bytes.len() < 1 + 2 * HASH_LEN {
        return None;
    }
    parse_payment_hash(bytes.as_slice())
}

/// The payment credential hash of a bech32 address, or `None` for any other text: text that
/// is no bech32, a Byron or stake address, or bytes that are no address at all.
pub fn get_payment_hash(address: &str) -> (hash: Option<Vec<u8>>)
    ensures
        hash.is_some() == payment_hash(address@).is_some(),
        hash matches Some(h) ==> Some(h@) == payment_hash(address@),
        hash matches Some(h) ==> h@.len() == HASH_LEN,
{
    match decode_bech32(address) {
        Some(bytes) => get_payment_hash_of_bytes(&bytes),
        None => None,
    }
}

/// The header byte of a mainnet address made of a payment key hash and a stake key hash,
/// in hexadecimal.
pub open spec fn key_address_header() -> Seq<char> {
    seq!['0', '1']
}

/// The hexadecimal text of the address made of two credentials: the header, then both.
pub open spec fn credentials_hex(first: Seq<char>, second: Seq<char>) -> Seq<char> {
    key_address_header() + first + second
}

/// The bech32 address that the bytes of two credentials stand for, or `None` where they
/// make no address.
pub open spec fn address_of_bytes(bytes: Seq<u8>) -> Option<Seq<char>> {
    if is_shelley_shaped(bytes) {
        bech32_address_text(bytes)
    } else {
        None
    }
}

/// The bech32 address of two credentials given in hexadecimal.
pub open spec fn address_of_credentials(first: Seq<char>, second: Seq<char>) -> Option<Seq<char>> {
    if is_hex_text(credentials_hex(first, second)) {
        address_of_bytes(hex_decoded(credentials_hex(first, second)))
    } else {
        None
    }
}

/// The bech32 text of the address held in `bytes`, or `None` where they hold none.
pub fn get_address_of_bytes(bytes: &Vec<u8>) -> (text: Option<String>)
    ensures
        text.is_some() == address_of_bytes(bytes@).is_some(),
        text matches Some(t) ==> Some(t@) == address_of_bytes(bytes@),
        is_shelley_shaped(bytes@) && bytes@[0] == 1 ==> text.is_some(),
        !is_shelley_shaped(bytes@) ==> text.is_none(),
{
    if bytes.len() < 1 + HASH_LEN {
        return None;
    }
    let kind: u8 = bytes[0] / 16;
    if kind > 7 {
        return None;
    }
    if kind <= 3 && bytes.len() < 1 + 2 * HASH_LEN {
        return None;
    }
    encode_address(bytes.as_slice())
}

/// The bech32 address of the mainnet key address whose payment and stake credentials are
/// given in hexadecimal, or `None` where the two are no hexadecimal text or too short.
pub fn get_address_of_credentials(first: &str, second: &str) -> (text: Option<String>)
    ensures
        text.is_some() == address_of_credentials(first@, second@).is_some(),
        text matches Some(t) ==> Some(t@) == address_of_credentials(first@, second@),
{
    let mut hex_text = String::from_str("01");
    proof {
        reveal_strlit("01");
    }
    hex_text.append(first);
    hex_text.append(second);
    assert(hex_text@ =~= credentials_hex(first@, second@));
    match decode(hex_text.as_str()) {
        Some(bytes) => get_address_of_bytes(&bytes),
        None => None,
    }
}

} // verus!
