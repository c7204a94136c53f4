use fpanel::totp::{base32_decode, base32_encode, provisioning_uri, standard_encode, step_of, totp, verify_code_at};
use fpanel::two_factor::{disable_check, enable_check, enabled_status, setup_answer};

const RFC_SECRET: &[u8] = b"12345678901234567890";
const RFC_SECRET_B32: &str = "GEZDGNBVGY3TQOJQGEZDGNBVGY3TQOJQ";

#[test]
fn base32_encodes_rfc_secret() {
    assert_eq!(base32_encode(RFC_SECRET), RFC_SECRET_B32);
}

#[test]
fn base32_encodes_without_padding() {
    assert_eq!(base32_encode(b""), "");
    assert_eq!(base32_encode(b"f"), "MY");
    assert_eq!(base32_encode(b"fo"), "MZXQ");
    assert_eq!(base32_encode(b"foobar"), "MZXW6YTBOI");
}

#[test]
fn base32_decode_stops_at_padding() {
    assert_eq!(base32_decode("MZXW6YTBOI======").unwrap(), b"foobar".to_vec());
    assert_eq!(base32_decode("MZXW6===").unwrap(), b"foo".to_vec());
}

#[test]
fn base32_round_trip_on_concrete_bytes() {
    for data in [&b""[..], b"a", b"hello world", &[0u8, 255, 17, 3, 200][..], RFC_SECRET] {
        let enc = base32_encode(data);
        assert_eq!(base32_decode(&enc).unwrap(), data.to_vec());
    }
}

#[test]
fn totp_matches_rfc6238_vectors() {
    // RFC 6238, SHA-1, truncated to six digits.
    let cases: [(u64, &str); 6] = [
        (59, "287082"),
        (1111111109, "081804"),
        (1111111111, "050471"),
        (1234567890, "005924"),
        (2000000000, "279037"),
        (20000000000, "353130"),
    ];
    for (secs, code) in cases {
        assert_eq!(totp(RFC_SECRET, step_of(secs)).unwrap(), code);
    }
}

#[test]
fn step_is_thirty_seconds() {
    assert_eq!(step_of(0), 0);
    assert_eq!(step_of(29), 0);
    assert_eq!(step_of(30), 1);
    assert_eq!(step_of(59), 1);
}

#[test]
fn verify_accepts_current_and_adjacent_steps() {
    let step = step_of(1111111111);
    assert_eq!(verify_code_at(RFC_SECRET_B32, "050471", 1, step), Some(true));
    assert_eq!(verify_code_at(RFC_SECRET_B32, " 050471 ", 1, step), Some(true));
    // lower-case secret and surrounding spaces are accepted
    assert_eq!(verify_code_at(" gezdgnbvgy3tqojqgezdgnbvgy3tqojq ", "050471", 1, step), Some(true));
    // a code of the previous step still verifies with a window of one
    let earlier = totp(RFC_SECRET, step - 1).unwrap();
    assert_eq!(verify_code_at(RFC_SECRET_B32, &earlier, 1, step), Some(true));
    let later = totp(RFC_SECRET, step + 1).unwrap();
    assert_eq!(verify_code_at(RFC_SECRET_B32, &later, 1, step), Some(true));
}

#[test]
fn verify_refuses_other_codes() {
    let step = step_of(1111111111);
    let far = totp(RFC_SECRET, step + 5).unwrap();
    if far != "050471" {
        assert_eq!(verify_code_at(RFC_SECRET_B32, &far, 1, step), Some(false));
    }
    assert_eq!(verify_code_at(RFC_SECRET_B32, "", 1, step), Some(false));
}

#[test]
fn standard_encode_escapes_reserved() {
    assert_eq!(standard_encode("admin user"), "admin%20user");
    assert_eq!(standard_encode("a/b:c;d=e?f&g"), "a%2Fb%3Ac%3Bd%3De%3Ff%26g");
    assert_eq!(standard_encode("plain"), "plain");
}

#[test]
fn provisioning_uri_format() {
    assert_eq!(
        provisioning_uri("ABC", "john doe", "FPanel"),
        "otpauth://totp/john%20doe?secret=ABC&issuer=FPanel&period=30&digits=6&algorithm=SHA1"
    );
}

#[test]
fn enable_requires_setup_first() {
    let e = enable_check(None, "123456").unwrap_err();
    assert_eq!(e.status, 400);
    assert_eq!(e.message, "Run setup first to generate a secret");
}

#[test]
fn disable_requires_enabled_secret() {
    let e = disable_check(None, "123456").unwrap_err();
    assert_eq!(e.status, 400);
    assert_eq!(e.message, "Two-factor authentication is not enabled");
}

#[test]
fn enable_refuses_wrong_code() {
    let e = enable_check(Some(RFC_SECRET_B32.to_string()), "not-a-code").unwrap_err();
    assert_eq!(e.status, 400);
    assert_eq!(e.message, "The authentication code is invalid or expired");
}

#[test]
fn setup_keeps_existing_secret() {
    let (secret, uri, enabled, store) = setup_answer(Some(("OLDSECRET".to_string(), 1)), "NEW".to_string(), "root");
    assert_eq!(secret, "OLDSECRET");
    assert!(enabled);
    assert!(!store);
    assert_eq!(uri, "otpauth://totp/root?secret=OLDSECRET&issuer=FPanel&period=30&digits=6&algorithm=SHA1");
    let (secret, _, enabled, store) = setup_answer(None, "NEW".to_string(), "root");
    assert_eq!(secret, "NEW");
    assert!(!enabled);
    assert!(store);
    assert!(enabled_status(1));
    assert!(!enabled_status(0));
}
