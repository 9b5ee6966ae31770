use lattice::config::decode_secret;
use lattice::hex::hex_to_bytes;
use lattice::text::is_whitespace;

#[test]
fn hex_decodes_pairs_in_either_case() {
    assert_eq!(hex_to_bytes("00ff10Ab").unwrap(), vec![0x00, 0xff, 0x10, 0xab]);
    assert_eq!(hex_to_bytes("").unwrap(), Vec::<u8>::new());
}

#[test]
fn hex_trims_surrounding_whitespace() {
    assert_eq!(hex_to_bytes("  0a0b\n").unwrap(), vec![0x0a, 0x0b]);
    assert_eq!(hex_to_bytes("\u{2003}ff\u{a0}").unwrap(), vec![0xff]);
    assert_eq!(hex_to_bytes(" \t ").unwrap(), Vec::<u8>::new());
}

#[test]
fn hex_refuses_odd_length() {
    assert_eq!(hex_to_bytes("abc").unwrap_err(), "secretHex must be even-length hex");
    assert_eq!(hex_to_bytes(" a ").unwrap_err(), "secretHex must be even-length hex");
}

#[test]
fn hex_refuses_what_is_no_digit() {
    assert_eq!(hex_to_bytes("zz").unwrap_err(), "secretHex contains invalid hex");
    assert_eq!(hex_to_bytes("0g").unwrap_err(), "secretHex contains invalid hex");
    assert_eq!(hex_to_bytes("a b4").unwrap_err(), "secretHex contains invalid hex");
    assert_eq!(hex_to_bytes("-1").unwrap_err(), "secretHex contains invalid hex");
    assert_eq!(hex_to_bytes("++").unwrap_err(), "secretHex contains invalid hex");
}

#[test]
fn hex_takes_no_sign_for_a_digit() {
    assert_eq!(hex_to_bytes("+f").unwrap_err(), "secretHex contains invalid hex");
    assert_eq!(hex_to_bytes("10+a").unwrap_err(), "secretHex contains invalid hex");
    assert_eq!(hex_to_bytes("-f").unwrap_err(), "secretHex contains invalid hex");
}

#[test]
fn hex_decodes_exactly_the_pairs_of_digits() {
    for hi in 0u8..128 {
        for lo in 0u8..128 {
            let text: String = [hi as char, lo as char].iter().collect();
            if text.trim() != text {
                continue;
            }
            let digits = (hi as char).is_ascii_hexdigit() && (lo as char).is_ascii_hexdigit();
            let want = if digits { u8::from_str_radix(&text, 16).ok() } else { None };
            let got = hex_to_bytes(&text).ok();
            assert_eq!(got, want.map(|b| vec![b]), "pair {:?}", text);
        }
    }
}

#[test]
fn hex_spells_back_what_was_decoded() {
    let text = "00ff10Ab7E";
    let bytes = hex_to_bytes(text).unwrap();
    let again: String = bytes.iter().map(|b| format!("{:02x}", b)).collect();
    assert_eq!(again, text.to_lowercase());
    assert_eq!(bytes.len(), text.len() / 2);
}

#[test]
fn hex_refuses_text_outside_ascii() {
    // Two bytes in UTF-8: even length, no digits.
    assert_eq!(hex_to_bytes("\u{e9}").unwrap_err(), "secretHex contains invalid hex");
    // Three bytes in UTF-8: odd length.
    assert_eq!(hex_to_bytes("\u{20ac}").unwrap_err(), "secretHex must be even-length hex");
    // One plus three bytes: even length.
    assert_eq!(hex_to_bytes("a\u{20ac}").unwrap_err(), "secretHex contains invalid hex");
}

#[test]
fn whitespace_is_what_trimming_removes() {
    for n in 0u32..=0x10FFFF {
        if let Some(c) = char::from_u32(n) {
            assert_eq!(is_whitespace(c), c.is_whitespace(), "U+{:04X}", n);
        }
    }
}

#[test]
fn secret_must_have_sixteen_bytes() {
    assert_eq!(
        decode_secret("000102030405060708090a0b0c0d0e").unwrap_err(),
        "secretHex must be at least 16 bytes"
    );
    assert_eq!(decode_secret("000102030405060708090a0b0c0d0e0f").unwrap().len(), 16);
    assert_eq!(decode_secret("0").unwrap_err(), "secretHex must be even-length hex");
    assert_eq!(decode_secret("0x").unwrap_err(), "secretHex contains invalid hex");
}
