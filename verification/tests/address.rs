use bech32::FromBase32;
use cardano_price_feed::hex_codec::{decode, encode};
use cardano_price_feed::utils::{
    get_address_of_bytes, get_address_of_credentials, get_payment_hash, get_payment_hash_of_bytes,
};

const KEY_ADDRESS: &str = "addr1qx2fxv2umyhttkxyxp8x0dlpdt3k6cwng5pxj3jhsydzer3n0d3vllmyqwsx5wktcd8cc3sq835lu7drv2xwl2wywfgse35a3x";
const SCRIPT_ADDRESS: &str = "addr1w8phkx6acpnf78fuvxn0mkew3l0fd058hzquvz7w36x4gtcyjy7wx";
const POINTER_ADDRESS: &str = "addr1gx2fxv2umyhttkxyxp8x0dlpdt3k6cwng5pxj3jhsydzer5pnz75xxcrzqf96k";
const STAKE_ADDRESS: &str = "stake1uyehkck0lajq8gr28t9uxnuvgcqrc6070x3k9r8048z8y5gh6ffgw";
const BYRON_ADDRESS: &str = "37btjrVyb4KDXBNC4haBVPCrro8AQPHwvCMp3RFhhSVWwfFmZ6wwzSK6JK1hY6wHNmtrpTf1kdbva8TCneM2YsiXT7mrzT21EacHnPpz5YyUdj64na";
const PAYMENT_KEY_HASH: &str = "9493315cd92eb5d8c4304e67b7e16ae36d61d34502694657811a2c8e";
const STAKE_KEY_HASH: &str = "337b62cfff6403a06a3acbc34f8c46003c69fe79a3628cefa9c47251";
const SCRIPT_HASH: &str = "c37b1b5dc0669f1d3c61a6fddb2e8fde96be87b881c60bce8e8d542f";

fn bytes_of(address: &str) -> Vec<u8> {
    let (_, data, _) = bech32::decode(address).unwrap();
    Vec::<u8>::from_base32(&data).unwrap()
}

#[test]
fn hex_encodes_in_lower_case() {
    assert_eq!(encode(&[0x00, 0xab, 0xff]), "00abff");
    assert_eq!(encode(&[]), "");
}

#[test]
fn hex_decodes_either_case() {
    assert_eq!(decode("00ABff"), Some(vec![0x00, 0xab, 0xff]));
    assert_eq!(decode(""), Some(vec![]));
}

#[test]
fn hex_rejects_odd_length_and_other_characters() {
    assert_eq!(decode("abc"), None);
    assert_eq!(decode("zz"), None);
    assert_eq!(decode("\u{e9}a"), None);
}

#[test]
fn hex_round_trip() {
    let bytes: Vec<u8> = (0..=255).collect();
    assert_eq!(decode(&encode(&bytes)), Some(bytes));
}

#[test]
fn payment_hash_of_key_address() {
    assert_eq!(get_payment_hash(KEY_ADDRESS), decode(PAYMENT_KEY_HASH));
    assert_eq!(get_payment_hash(KEY_ADDRESS), Some(bytes_of(KEY_ADDRESS)[1..29].to_vec()));
}

#[test]
fn payment_hash_of_script_address() {
    assert_eq!(get_payment_hash(SCRIPT_ADDRESS), decode(SCRIPT_HASH));
}

#[test]
fn payment_hash_of_pointer_address() {
    assert_eq!(get_payment_hash(POINTER_ADDRESS), decode(PAYMENT_KEY_HASH));
}

#[test]
fn payment_hash_absent_for_other_addresses() {
    assert_eq!(get_payment_hash(STAKE_ADDRESS), None);
    assert_eq!(get_payment_hash(BYRON_ADDRESS), None);
    assert_eq!(get_payment_hash(""), None);
    assert_eq!(get_payment_hash("not an address"), None);
}

#[test]
fn payment_hash_absent_for_short_payload() {
    // a valid bech32 text whose bytes announce a key address but stop after the header
    let short = bech32::encode("addr", bech32::ToBase32::to_base32(&vec![0x01u8, 0x02, 0x03]), bech32::Variant::Bech32).unwrap();
    assert_eq!(get_payment_hash(&short), None);
    assert_eq!(get_payment_hash_of_bytes(&vec![0x01, 0x02, 0x03]), None);
    assert_eq!(get_payment_hash_of_bytes(&vec![]), None);
    let mut one_hash = vec![0x01u8];
    one_hash.extend(vec![7u8; 28]);
    assert_eq!(get_payment_hash_of_bytes(&one_hash), None);
    let mut enterprise = vec![0x61u8];
    enterprise.extend(vec![7u8; 28]);
    assert_eq!(get_payment_hash_of_bytes(&enterprise), Some(vec![7u8; 28]));
}

#[test]
fn address_of_credentials_is_the_key_address() {
    assert_eq!(
        get_address_of_credentials(PAYMENT_KEY_HASH, STAKE_KEY_HASH),
        Some(KEY_ADDRESS.to_string())
    );
}

#[test]
fn address_of_credentials_rejects_what_is_no_address() {
    assert_eq!(get_address_of_credentials("zz", STAKE_KEY_HASH), None);
    assert_eq!(get_address_of_credentials(PAYMENT_KEY_HASH, ""), None);
    assert_eq!(get_address_of_credentials("", ""), None);
}

#[test]
fn address_of_bytes_round_trip() {
    assert_eq!(get_address_of_bytes(&bytes_of(KEY_ADDRESS)), Some(KEY_ADDRESS.to_string()));
    assert_eq!(get_address_of_bytes(&bytes_of(SCRIPT_ADDRESS)), Some(SCRIPT_ADDRESS.to_string()));
    assert_eq!(get_address_of_bytes(&vec![0x01]), None);
}
