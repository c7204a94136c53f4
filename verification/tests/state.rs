use fpanel::backups::stamp_of;
use fpanel::cache::resp_failure;
use fpanel::resp::{Resp, RespError, RespReader, RespStep};
use fpanel::ssl::{cert_state, cert_state_now};
use fpanel::totp::{base32_decode, code_listed, step_of, totp, verify_code, verify_code_at};

const DAY: i64 = 86400;

#[test]
fn cert_state_counts_days_and_expiry() {
    // 2024-01-31T00:00:00Z is 1706659200 seconds after the epoch.
    let exp = "2024-01-31T00:00:00+00:00";
    let t: i64 = 1706659200;
    assert_eq!(cert_state(Some(1), Some(exp), t - 10 * DAY), (Some(10), "active".to_string()));
    assert_eq!(cert_state(Some(1), Some(exp), t - 10 * DAY + 1), (Some(9), "active".to_string()));
    assert_eq!(cert_state(Some(1), Some(exp), t), (Some(0), "active".to_string()));
    assert_eq!(cert_state(Some(1), Some(exp), t + 1), (Some(0), "expired".to_string()));
    assert_eq!(cert_state(Some(1), Some(exp), t + 3 * DAY + 5), (Some(-3), "expired".to_string()));
    assert_eq!(cert_state(None, Some(exp), t), (Some(0), "none".to_string()));
    assert_eq!(cert_state(Some(1), None, t), (None, "active".to_string()));
    assert_eq!(cert_state(Some(1), Some("not a date"), t), (None, "active".to_string()));
    assert_eq!(cert_state(None, None, t), (None, "none".to_string()));
}

#[test]
fn cert_state_now_sees_an_old_certificate_expired() {
    let (days, status) = cert_state_now(Some(7), Some("2000-01-01T00:00:00Z"));
    assert_eq!(status, "expired");
    assert!(days.unwrap() < -365 * 20);
}

#[test]
fn valkey_failures_are_answered() {
    let e = resp_failure(&RespError::Server("ERR unknown command".to_string()));
    assert_eq!((e.status, e.message.as_str()), (502, "Valkey error: ERR unknown command"));
    let e = resp_failure(&RespError::Closed);
    assert_eq!((e.status, e.message.as_str()), (503, "Valkey connection closed"));
    let e = resp_failure(&RespError::Unexpected);
    assert_eq!((e.status, e.message.as_str()), (502, "Valkey: unexpected response"));
    let e = resp_failure(&RespError::BadLength);
    assert_eq!((e.status, e.message.as_str()), (500, "Internal server error"));
}

#[test]
fn backup_stamps_come_from_the_date() {
    assert_eq!(stamp_of("2024-03-05 07:08:09"), Some("20240305070809".to_string()));
    assert_eq!(stamp_of("2024-03-05T07:08:09"), None);
    assert_eq!(stamp_of("+10000-01-01 00:00:00"), None);
    assert_eq!(stamp_of(""), None);
}

#[test]
fn totp_codes_are_six_digits_and_windows_widen() {
    let secret = base32_decode("GEZDGNBVGY3TQOJQGEZDGNBVGY3TQOJQ").unwrap();
    let step = step_of(59);
    let code = totp(&secret, step).unwrap();
    assert_eq!(code.len(), 6);
    assert!(code.chars().all(|c| c.is_ascii_digit()));
    let later = totp(&secret, step + 2).unwrap();
    assert_eq!(verify_code_at("GEZDGNBVGY3TQOJQGEZDGNBVGY3TQOJQ", &later, 1, step), Some(false));
    assert_eq!(verify_code_at("GEZDGNBVGY3TQOJQGEZDGNBVGY3TQOJQ", &later, 2, step), Some(true));
    assert_eq!(verify_code("GEZDGNBVGY3TQOJQGEZDGNBVGY3TQOJQ", "abc", 1), Some(false));
}

#[test]
fn nested_reply_reads_back() {
    let mut r = RespReader::new();
    assert!(matches!(r.feed_line("*2\r\n"), RespStep::NeedLine));
    assert!(matches!(r.feed_line(":-5\r\n"), RespStep::NeedLine));
    assert!(matches!(r.feed_line("*2\r\n"), RespStep::NeedLine));
    assert!(matches!(r.feed_line("+OK\r\n"), RespStep::NeedLine));
    assert!(matches!(r.feed_line("$3\r\n"), RespStep::NeedBulk(3)));
    match r.feed_bulk(b"abc".to_vec()) {
        RespStep::Done(Resp::Array(outer)) => {
            assert_eq!(outer.len(), 2);
            assert!(matches!(outer[0], Resp::Integer(-5)));
            match &outer[1] {
                Resp::Array(inner) => {
                    assert_eq!(inner.len(), 2);
                    assert!(matches!(&inner[0], Resp::Simple(s) if s == "OK"));
                    assert!(matches!(&inner[1], Resp::Bulk(b) if b == b"abc"));
                }
                _ => panic!("inner array expected"),
            }
        }
        _ => panic!("a finished array expected"),
    }
}

#[test]
fn listed_codes_match_the_trimmed_code() {
    let codes = vec![None, Some("123456".to_string()), Some("000001".to_string())];
    assert!(code_listed(&codes, " 000001\n"));
    assert!(code_listed(&codes, "123456"));
    assert!(!code_listed(&codes, "999999"));
    assert!(!code_listed(&codes, ""));
    assert!(!code_listed(&Vec::new(), "123456"));
}

#[test]
fn valkey_error_line_is_a_bad_gateway() {
    let mut r = RespReader::new();
    match r.feed_line("-ERR unknown command\r\n") {
        RespStep::Fail(e) => {
            let api = resp_failure(&e);
            assert_eq!(api.status, 502);
            assert_eq!(api.message, "Valkey error: ERR unknown command");
        },
        _ => panic!("an error line must end the read"),
    }
}
