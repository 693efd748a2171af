use validated_json::extract::{
    effective_limit, transport_failure, validate_outcome, AppError, JsonConfig, DEFAULT_LIMIT,
};
use validated_json::flatten::flatten;
use validated_json::report::{Report, ReportValue};
use validated_json::tree::ErrorTree;
use validated_json::AppJson;

#[test]
fn test_transport_failure_shape() {
    let err = transport_failure("Json payload size is bigger than allowed".to_string());
    assert_eq!(err.status_code(), 400);
    let mut expected = Report::new();
    expected.insert(
        "error".to_string(),
        ReportValue::Messages(vec![
            "Json payload size is bigger than allowed".to_string(),
        ]),
    );
    let AppError::ValidationError(report) = err;
    assert_eq!(report, expected);
}

#[test]
fn test_effective_limit_default() {
    assert_eq!(effective_limit(None), 32768);
    assert_eq!(DEFAULT_LIMIT, 32768);
}

#[test]
fn test_effective_limit_configured() {
    let config = JsonConfig::default().limit(1024);
    assert_eq!(config.get_limit(), 1024);
    assert_eq!(effective_limit(Some(&config)), 1024);
}

#[test]
fn test_json_config_default_limit() {
    let config = JsonConfig::default();
    assert_eq!(config.get_limit(), 32768);
}

#[test]
fn test_validate_outcome_valid() {
    let outcome: Result<AppJson<i32>, AppError> = validate_outcome(7, None);
    let wrapped = outcome.unwrap();
    assert_eq!(*wrapped.as_ref(), 7);
    assert_eq!(wrapped.into_inner(), 7);
}

#[test]
fn test_validate_outcome_invalid() {
    let tree = ErrorTree::Keyed {
        own_errors: vec![],
        fields: vec![(
            "name".to_string(),
            ErrorTree::Wrapped { errors: vec!["too short".to_string()] },
        )],
    };
    let expected_report = flatten(&tree);
    let outcome: Result<AppJson<i32>, AppError> = validate_outcome(7, Some(tree));
    let err = outcome.unwrap_err();
    assert_eq!(err.status_code(), 400);
    assert_eq!(*err.report(), expected_report);
    let mut by_hand = Report::new();
    by_hand.insert(
        "name".to_string(),
        ReportValue::Messages(vec!["too short".to_string()]),
    );
    assert_eq!(*err.report(), by_hand);
}
