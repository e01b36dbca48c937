use tauzip::session::{is_stale_session, parse_u64, session_timestamp, SESSION_MAX_AGE_MS};

#[test]
fn numbers_parse_like_std() {
    assert_eq!(parse_u64("123"), Some(123));
    assert_eq!(parse_u64("+5"), Some(5));
    assert_eq!(parse_u64("007"), Some(7));
    assert_eq!(parse_u64(""), None);
    assert_eq!(parse_u64("+"), None);
    assert_eq!(parse_u64("-1"), None);
    assert_eq!(parse_u64("12a"), None);
    assert_eq!(parse_u64("18446744073709551615"), Some(u64::MAX));
    assert_eq!(parse_u64("18446744073709551616"), None);
    for s in ["0", "42", "+9", "99999999999", "x", "1 2"] {
        assert_eq!(parse_u64(s), s.parse::<u64>().ok());
    }
}

#[test]
fn session_names_carry_their_time() {
    assert_eq!(session_timestamp("tauzip_session_1000_abc.json"), Some(1000));
    assert_eq!(session_timestamp("tauzip_session_1000"), Some(1000));
    assert_eq!(session_timestamp("tauzip_session_1000.json"), None);
    assert_eq!(session_timestamp("other_session_1000_x"), None);
    assert_eq!(session_timestamp("tauzip_session_"), None);
}

#[test]
fn old_sessions_are_stale() {
    assert_eq!(SESSION_MAX_AGE_MS, 2000);
    assert!(is_stale_session("tauzip_session_1000_a", 5000));
    assert!(!is_stale_session("tauzip_session_4000_a", 5000));
    assert!(!is_stale_session("tauzip_session_3000_a", 5000));
    assert!(is_stale_session("tauzip_session_2999_a", 5000));
    assert!(!is_stale_session("tauzip_session_9000_a", 5000));
    assert!(!is_stale_session("notes.txt", 5000));
}
