use nym_client::address::CodecError;
use nym_client::key::{decode_public_key, key_from_decoded};

#[test]
fn decode_public_key_round_trips_32_bytes() {
    let mut key = [0u8; 32];
    for i in 0..32 {
        key[i] = (i * 7 + 3) as u8;
    }
    let text = base64::encode_config(&key, base64::URL_SAFE);
    assert_eq!(decode_public_key(&text), Ok(key));
}

#[test]
fn decode_public_key_reads_the_url_safe_alphabet() {
    // 0xfb 0xff decodes from "-_8=" only in the URL-safe alphabet
    let decoded = decode_public_key("-_8=").unwrap();
    assert_eq!(&decoded[0..2], &[0xfbu8, 0xff]);
    assert!(decoded[2..].iter().all(|b| *b == 0));
    assert_eq!(decode_public_key("+/8="), Err(CodecError::KeyDecodeError));
}

#[test]
fn decode_public_key_known_value() {
    let decoded = decode_public_key("aGVsbG8=").unwrap();
    assert_eq!(&decoded[0..5], b"hello");
    assert!(decoded[5..].iter().all(|b| *b == 0));
}

#[test]
fn decode_public_key_fills_a_short_key_with_zeros() {
    let text = base64::encode_config(&[9u8, 8, 7], base64::URL_SAFE);
    let decoded = decode_public_key(&text).unwrap();
    assert_eq!(&decoded[0..3], &[9u8, 8, 7]);
    assert!(decoded[3..].iter().all(|b| *b == 0));
}

#[test]
fn decode_public_key_of_empty_text_is_all_zero() {
    assert_eq!(decode_public_key(""), Ok([0u8; 32]));
}

#[test]
fn decode_public_key_rejects_44_decoded_bytes() {
    let text = base64::encode_config(&[5u8; 44], base64::URL_SAFE);
    assert_eq!(decode_public_key(&text), Err(CodecError::KeyLengthError));
}

#[test]
fn decode_public_key_rejects_33_decoded_bytes() {
    let text = base64::encode_config(&[5u8; 33], base64::URL_SAFE);
    assert_eq!(decode_public_key(&text), Err(CodecError::KeyLengthError));
}

#[test]
fn decode_public_key_rejects_what_is_not_base64() {
    assert_eq!(decode_public_key("!!!not base64!!!"), Err(CodecError::KeyDecodeError));
    assert_eq!(decode_public_key("abc$"), Err(CodecError::KeyDecodeError));
}

#[test]
fn key_from_decoded_pads_and_bounds() {
    assert_eq!(key_from_decoded(&vec![]), Ok([0u8; 32]));
    assert_eq!(key_from_decoded(&vec![1u8; 32]), Ok([1u8; 32]));
    let mut expected = [0u8; 32];
    expected[0] = 200;
    assert_eq!(key_from_decoded(&vec![200u8]), Ok(expected));
    assert_eq!(key_from_decoded(&vec![1u8; 33]), Err(CodecError::KeyLengthError));
}
