use hypertoken_core::base64::{base64_decode, base64_encode};

#[test]
fn encodes_the_standard_examples() {
    assert_eq!(base64_encode(b""), "");
    assert_eq!(base64_encode(b"f"), "Zg==");
    assert_eq!(base64_encode(b"fo"), "Zm8=");
    assert_eq!(base64_encode(b"foo"), "Zm9v");
    assert_eq!(base64_encode(b"foob"), "Zm9vYg==");
    assert_eq!(base64_encode(b"fooba"), "Zm9vYmE=");
    assert_eq!(base64_encode(b"foobar"), "Zm9vYmFy");
}

#[test]
fn encodes_every_symbol_of_the_alphabet() {
    let all: Vec<u8> = vec![
        0x00, 0x10, 0x83, 0x10, 0x51, 0x87, 0x20, 0x92, 0x8B, 0x30, 0xD3, 0x8F, 0x41, 0x14, 0x93, 0x51,
        0x55, 0x97, 0x61, 0x96, 0x9B, 0x71, 0xD7, 0x9F, 0x82, 0x18, 0xA3, 0x92, 0x59, 0xA7, 0xA2, 0x9A,
        0xAB, 0xB2, 0xDB, 0xAF, 0xC3, 0x1C, 0xB3, 0xD3, 0x5D, 0xB7, 0xE3, 0x9E, 0xBB, 0xF3, 0xDF, 0xBF,
    ];
    assert_eq!(
        base64_encode(&all),
        "ABCDEFGHIJKLMNOPQRSTUVWXYZabcdefghijklmnopqrstuvwxyz0123456789+/"
    );
    assert_eq!(
        base64_decode("ABCDEFGHIJKLMNOPQRSTUVWXYZabcdefghijklmnopqrstuvwxyz0123456789+/").unwrap(),
        all
    );
}

#[test]
fn decodes_the_standard_examples() {
    assert_eq!(base64_decode("").unwrap(), b"".to_vec());
    assert_eq!(base64_decode("Zg==").unwrap(), b"f".to_vec());
    assert_eq!(base64_decode("Zm8=").unwrap(), b"fo".to_vec());
    assert_eq!(base64_decode("Zm9v").unwrap(), b"foo".to_vec());
    assert_eq!(base64_decode("Zm9vYg==").unwrap(), b"foob".to_vec());
    assert_eq!(base64_decode("Zm9vYmFy").unwrap(), b"foobar".to_vec());
}

#[test]
fn round_trip_of_all_bytes() {
    let all: Vec<u8> = (0..=255u8).collect();
    for len in 0..all.len() {
        let data = &all[..len];
        assert_eq!(base64_decode(&base64_encode(data)).unwrap(), data.to_vec());
    }
    let tail = &all[200..];
    assert_eq!(base64_decode(&base64_encode(tail)).unwrap(), tail.to_vec());
}

#[test]
fn the_length_must_be_a_multiple_of_four() {
    assert_eq!(base64_decode("Z").unwrap_err(), "Invalid base64 length");
    assert_eq!(base64_decode("Zg=").unwrap_err(), "Invalid base64 length");
    assert_eq!(base64_decode("Zm9vY").unwrap_err(), "Invalid base64 length");
}

#[test]
fn padding_belongs_to_the_last_group() {
    assert_eq!(base64_decode("Zg==Zm9v").unwrap_err(), "Invalid base64 padding");
    assert_eq!(base64_decode("Zm8=Zg==").unwrap_err(), "Invalid base64 padding");
    // in the last group the first `=` ends the text
    assert_eq!(base64_decode("Zm9vZG==").unwrap(), vec![b'f', b'o', b'o', 0x64]);
    assert_eq!(base64_decode("Zm9vZG=v").unwrap(), vec![b'f', b'o', b'o', 0x64]);
    assert_eq!(base64_decode("Zm9vZG=!").unwrap(), vec![b'f', b'o', b'o', 0x64]);
}

#[test]
fn at_least_two_symbols_stand_before_the_padding() {
    assert_eq!(base64_decode("====").unwrap_err(), "Invalid base64 padding");
    assert_eq!(base64_decode("=AAA").unwrap_err(), "Invalid base64 padding");
    assert_eq!(base64_decode("A===").unwrap_err(), "Invalid base64 padding");
    assert_eq!(base64_decode("Zm9vZ=9v").unwrap_err(), "Invalid base64 padding");
    assert_eq!(base64_decode("TQ==TWFu").unwrap_err(), "Invalid base64 padding");
    assert_eq!(base64_decode("TQ=").unwrap_err(), "Invalid base64 length");
}

#[test]
fn a_symbol_outside_the_alphabet_is_refused() {
    assert_eq!(base64_decode("!!!!").unwrap_err(), "Invalid base64 character");
    assert_eq!(base64_decode("Zm9!").unwrap_err(), "Invalid base64 character");
    assert_eq!(base64_decode("TW u").unwrap_err(), "Invalid base64 character");
    assert_eq!(base64_decode("Zm\u{e9}").unwrap_err(), "Invalid base64 character");
    assert_eq!(base64_decode("Zm9vZm9-").unwrap_err(), "Invalid base64 character");
    assert_eq!(base64_decode("Zm9v").unwrap(), b"foo".to_vec());
}
