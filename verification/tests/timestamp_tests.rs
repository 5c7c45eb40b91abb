use gpu_runtime::timecode::{ms_to_timestamp, timestamp_to_ms};

#[test]
fn timestamp_to_ms_errors() {
    assert!(timestamp_to_ms("aa:00:00,000").is_err());
    assert!(timestamp_to_ms("00").is_err());
    assert!(timestamp_to_ms("00:aa:00,000").is_err());
    assert!(timestamp_to_ms("00:00").is_err());
    assert!(timestamp_to_ms("00:00:aa,000").is_err());
    assert!(timestamp_to_ms("00:00:00").is_err());
    assert!(timestamp_to_ms("00:00:00,aa").is_err());
}

#[test]
fn timestamp_round_trip_exact_values() {
    assert_eq!(timestamp_to_ms("00:00:01,500").unwrap(), 1500);
    assert_eq!(timestamp_to_ms("01:02:03,004").unwrap(), 3723004);
    assert_eq!(ms_to_timestamp(1500), "00:00:01,500");
    assert_eq!(ms_to_timestamp(3723004), "01:02:03,004");
    assert_eq!(ms_to_timestamp(0), "00:00:00,000");
    // parse then render gives the string back for the exact form
    for s in ["00:00:00,000", "12:34:56,789", "99:59:59,999"] {
        let v = timestamp_to_ms(s).unwrap();
        assert_eq!(ms_to_timestamp(v), s);
    }
    // hours may be wider than two digits
    assert_eq!(timestamp_to_ms("100:00:00,000").unwrap(), 360_000_000);
    assert_eq!(ms_to_timestamp(360_000_000), "100:00:00,000");
}

#[test]
fn timestamp_rejects_blank_and_signed_fields() {
    assert!(timestamp_to_ms("").is_err());
    assert!(timestamp_to_ms("::,").is_err());
    assert!(timestamp_to_ms(" 00:00:00,000").is_err());
    assert!(timestamp_to_ms("00:00:00,").is_err());
}

#[test]
fn timestamp_ignores_extra_fields() {
    // extra `:`- or `,`-delimited fields beyond the first four are ignored
    assert_eq!(timestamp_to_ms("00:00:01,500,9").unwrap(), 1500);
    assert_eq!(timestamp_to_ms("00:00:01,500:junk").unwrap(), 1500);
}
