use transaction_meta::{
    parse_pubkey, pubkey_bytes_to_bs58, read_pubkey_fast, try_yellowstone_signature, Pubkey,
    Signature,
};

#[test]
fn text_of_a_key_is_its_base58_form() {
    let zero = pubkey_bytes_to_bs58(&[0u8; 32]).unwrap();
    assert_eq!(zero, "11111111111111111111111111111111");
    let bytes: [u8; 32] = [
        24, 243, 6, 223, 230, 153, 210, 8, 92, 137, 123, 67, 164, 197, 79, 196, 125, 43, 183, 85,
        103, 91, 232, 167, 73, 131, 104, 131, 0, 101, 214, 231,
    ];
    assert_eq!(
        pubkey_bytes_to_bs58(&bytes).unwrap(),
        "2gPihUTjt3FJqf1VpidgrY5cZ6PuyMccGVwQHRfjMPZG"
    );
}

#[test]
fn only_32_bytes_have_a_text() {
    assert!(pubkey_bytes_to_bs58(&[]).is_none());
    assert!(pubkey_bytes_to_bs58(&[1u8; 31]).is_none());
    assert!(pubkey_bytes_to_bs58(&[1u8; 33]).is_none());
}

#[test]
fn text_of_a_key_names_the_same_key() {
    for n in 0..=255u8 {
        let mut bytes = [n; 32];
        bytes[0] = n.wrapping_mul(7);
        bytes[31] = 255 - n;
        let text = pubkey_bytes_to_bs58(&bytes).unwrap();
        assert_eq!(parse_pubkey(&text), Some(Pubkey { bytes }));
        assert_eq!(text, solana_sdk::pubkey::Pubkey::from(bytes).to_string());
    }
}

#[test]
fn text_that_is_no_key_is_refused() {
    assert_eq!(parse_pubkey(""), None);
    assert_eq!(parse_pubkey("not a key"), None);
    assert_eq!(parse_pubkey("0OIl"), None);
    assert_eq!(parse_pubkey("1111111111111111111111111111111"), None);
    assert_eq!(parse_pubkey("11111111111111111111111111111111"), Some(Pubkey::default()));
}

#[test]
fn reading_a_key_needs_32_bytes() {
    assert_eq!(read_pubkey_fast(&[7u8; 32]), Pubkey { bytes: [7u8; 32] });
    assert_eq!(read_pubkey_fast(&[7u8; 31]), Pubkey::default());
    assert_eq!(read_pubkey_fast(&[]), Pubkey::default());
    assert_eq!(Pubkey::default().bytes, [0u8; 32]);
}

#[test]
fn keys_differ_where_a_byte_does() {
    let a = Pubkey { bytes: [9u8; 32] };
    let mut b = a;
    assert!(a == b);
    b.bytes[31] = 8;
    assert!(a != b);
    b = a;
    b.bytes[0] = 8;
    assert!(a != b);
}

#[test]
fn signature_needs_64_bytes() {
    let mut bytes = [3u8; 64];
    bytes[63] = 4;
    assert_eq!(try_yellowstone_signature(&bytes), Some(Signature { bytes }));
    assert_eq!(try_yellowstone_signature(&bytes).unwrap().bytes, bytes);
    assert_eq!(try_yellowstone_signature(&bytes[..63]), None);
    assert_eq!(try_yellowstone_signature(&[0u8; 65]), None);
    assert_eq!(try_yellowstone_signature(&[]), None);
    assert!(try_yellowstone_signature(&bytes) != Some(Signature::default()));
}
