use rrdc::config::Config;
use rrdc::error::AppError;

#[test]
fn test_config_defaults_and_required() {
    let config = Config::from_values(
        Some("https://example.invalid/schedule".to_string()),
        None,
        None,
        None,
        Some("calendar-id".to_string()),
        None,
        None,
    )
    .unwrap();
    assert_eq!(config.target_url, "https://example.invalid/schedule");
    assert_eq!(config.aws_region, "ap-northeast-1");
    assert_eq!(config.dynamodb_table, "rrdc-releases");
    assert_eq!(config.dynamodb_endpoint, None);
    assert_eq!(config.google_calendar_id, "calendar-id");
}

#[test]
fn test_config_empty_endpoint_counts_as_absent() {
    let config = Config::from_values(
        Some("u".to_string()),
        Some("eu-west-1".to_string()),
        Some("table".to_string()),
        Some("".to_string()),
        Some("c".to_string()),
        Some("creds.json".to_string()),
        None,
    )
    .unwrap();
    assert_eq!(config.aws_region, "eu-west-1");
    assert_eq!(config.dynamodb_table, "table");
    assert_eq!(config.dynamodb_endpoint, None);
    assert_eq!(config.google_credentials_file, Some("creds.json".to_string()));

    let with_endpoint = Config::from_values(
        Some("u".to_string()),
        None,
        None,
        Some("http://localhost:8000".to_string()),
        Some("c".to_string()),
        None,
        None,
    )
    .unwrap();
    assert_eq!(with_endpoint.dynamodb_endpoint, Some("http://localhost:8000".to_string()));
}

#[test]
fn test_config_missing_required_values() {
    let err = Config::from_values(None, None, None, None, Some("c".to_string()), None, None);
    match err {
        Err(AppError::Config(m)) => assert_eq!(m, "TARGET_URL is required"),
        _ => panic!("expected a configuration error"),
    }
    let err = Config::from_values(Some("u".to_string()), None, None, None, None, None, None);
    match err {
        Err(AppError::Config(m)) => assert_eq!(m, "GOOGLE_CALENDAR_ID is required"),
        _ => panic!("expected a configuration error"),
    }
}
