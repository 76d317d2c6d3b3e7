use rrdc::date::CalendarDate;
use rrdc::error::AppError;
use rrdc::release_date::decode_record;
use rrdc::release_date::deserialize;
use rrdc::release_date::encode_record;
use rrdc::release_date::serialize;
use rrdc::release_date::ReleaseDate;

#[test]
fn test_serialize_with_date() {
    let release = ReleaseDate::with_date(
        "Test Product".to_string(),
        CalendarDate::from_ymd_opt(2024, 12, 25).unwrap(),
    );
    let json = encode_record(&release);
    assert!(json.contains("2024-12-25"));
}

#[test]
fn test_serialize_undetermined() {
    let release = ReleaseDate::undetermined("Test Product".to_string());
    let json = encode_record(&release);
    assert!(json.contains("未定"));
}

#[test]
fn test_deserialize_with_date() {
    let json = r#"{"title":"Test Product","date":"2024-12-25"}"#;
    let release: ReleaseDate = decode_record(json).unwrap();
    assert_eq!(release.date, Some(CalendarDate::from_ymd_opt(2024, 12, 25).unwrap()));
}

#[test]
fn test_deserialize_undetermined() {
    let json = r#"{"title":"Test Product","date":"未定"}"#;
    let release: ReleaseDate = decode_record(json).unwrap();
    assert!(release.is_undetermined());
}

#[test]
fn test_encode_exact_form() {
    let release = ReleaseDate::with_date(
        "Test Product".to_string(),
        CalendarDate::from_ymd_opt(2024, 12, 25).unwrap(),
    );
    assert_eq!(encode_record(&release), r#"{"title":"Test Product","date":"2024-12-25"}"#);
    let early = ReleaseDate::with_date(
        "Old Title".to_string(),
        CalendarDate::from_ymd_opt(33, 4, 5).unwrap(),
    );
    assert_eq!(encode_record(&early), r#"{"title":"Old Title","date":"0033-04-05"}"#);
    let open = ReleaseDate::undetermined("Later".to_string());
    assert_eq!(encode_record(&open), "{\"title\":\"Later\",\"date\":\"未定\"}");
}

#[test]
fn test_roundtrip_with_date() {
    let release = ReleaseDate::with_date(
        "Quote \" Backslash \\ Tab \t Product".to_string(),
        CalendarDate::from_ymd_opt(2000, 2, 29).unwrap(),
    );
    let json = encode_record(&release);
    let back = decode_record(&json).unwrap();
    assert_eq!(back.title, release.title);
    assert_eq!(back.date, release.date);
}

#[test]
fn test_roundtrip_undetermined() {
    let release = ReleaseDate::undetermined("発売日未定の商品".to_string());
    let json = encode_record(&release);
    let back = decode_record(&json).unwrap();
    assert_eq!(back.title, release.title);
    assert!(back.is_undetermined());
}

#[test]
fn test_decode_rejects_malformed() {
    assert!(matches!(decode_record("not json at all"), Err(AppError::Json(_))));
    assert!(matches!(decode_record(r#"{"title":"x","date":"soon"}"#), Err(AppError::Json(_))));
    assert!(matches!(decode_record(r#"{"title":"x","date":"2024-13-01"}"#), Err(AppError::Json(_))));
    assert!(matches!(decode_record(r#"{"title":"x","date":"2023-02-29"}"#), Err(AppError::Json(_))));
    assert!(matches!(decode_record(r#"{"title":"x"}"#), Err(AppError::Json(_))));
}

#[test]
fn test_serialize_date_field() {
    assert_eq!(serialize(&Some(CalendarDate::from_ymd_opt(2024, 1, 2).unwrap())), "2024-01-02");
    assert_eq!(serialize(&None), "未定");
}

#[test]
fn test_deserialize_date_field() {
    assert_eq!(
        deserialize("2024-12-25").unwrap(),
        Some(CalendarDate::from_ymd_opt(2024, 12, 25).unwrap())
    );
    assert_eq!(deserialize("未定").unwrap(), None);
    assert_eq!(deserialize("2024-02-29").unwrap(), Some(CalendarDate::from_ymd_opt(2024, 2, 29).unwrap()));
    assert!(matches!(deserialize("2024-2-29"), Err(AppError::DateParse { .. })));
    assert!(matches!(deserialize("2023-02-29"), Err(AppError::DateParse { .. })));
    assert!(matches!(deserialize("2024/12/25"), Err(AppError::DateParse { .. })));
    assert!(matches!(deserialize(""), Err(AppError::DateParse { .. })));
    assert!(matches!(deserialize("null"), Err(AppError::DateParse { .. })));
}
