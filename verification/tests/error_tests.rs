use refyne::error::{error_from_status, Error};

#[test]
fn test_api_error_display() {
    let err = Error::Api {
        status: 500,
        message: String::from("Internal server error"),
        detail: Some(String::from("Something went wrong")),
    };
    assert!(err.display_string().contains("500"));
    assert!(err.display_string().contains("Internal server error"));
}

#[test]
fn test_rate_limit_error_display() {
    let err = Error::RateLimit { retry_after: 30, message: String::from("Too many requests") };
    assert!(err.display_string().contains("30"));
    assert!(err.display_string().contains("Rate limited"));
}

#[test]
fn test_validation_error_display() {
    let errors = vec![(String::from("url"), vec![String::from("URL is required")])];
    let err = Error::Validation { message: String::from("Invalid input"), errors };
    assert!(err.display_string().contains("Validation error"));
}

#[test]
fn test_authentication_error_display() {
    let err = Error::Authentication(String::from("Invalid API key"));
    assert!(err.display_string().contains("Authentication failed"));
    assert!(err.display_string().contains("Invalid API key"));
}

#[test]
fn test_forbidden_error_display() {
    let err = Error::Forbidden(String::from("Insufficient permissions"));
    assert!(err.display_string().contains("Access forbidden"));
}

#[test]
fn test_not_found_error_display() {
    let err = Error::NotFound(String::from("Job not found"));
    assert!(err.display_string().contains("Not found"));
}

#[test]
fn test_unsupported_api_version_error_display() {
    let err = Error::UnsupportedApiVersion {
        api_version: String::from("0.5.0"),
        min_version: String::from("1.0.0"),
        max_known_version: String::from("1.1.0"),
    };
    assert!(err.display_string().contains("0.5.0"));
    assert!(err.display_string().contains("1.0.0"));
}

#[test]
fn test_config_error_display() {
    let err = Error::Config(String::from("API key is required"));
    assert!(err.display_string().contains("Configuration error"));
    assert!(err.display_string().contains("API key is required"));
}

#[test]
fn test_timeout_error_display() {
    let err = Error::Timeout;
    assert!(err.display_string().contains("timed out"));
}

#[test]
fn test_error_is_debug() {
    let err = Error::Api { status: 404, message: String::from("Not found"), detail: None };
    // Ensure Debug is implemented
    let debug_str = format!("{:?}", err);
    assert!(debug_str.contains("Api"));
}

#[test]
fn test_error_from_status_variants() {
    let msg = || String::from("m");
    assert!(matches!(
        error_from_status(400, msg(), None, Vec::new(), 60),
        Error::Validation { .. }
    ));
    assert!(matches!(
        error_from_status(401, msg(), None, Vec::new(), 60),
        Error::Authentication(_)
    ));
    assert!(matches!(error_from_status(403, msg(), None, Vec::new(), 60), Error::Forbidden(_)));
    assert!(matches!(error_from_status(404, msg(), None, Vec::new(), 60), Error::NotFound(_)));
    match error_from_status(429, msg(), None, Vec::new(), 30) {
        Error::RateLimit { retry_after, message } => {
            assert_eq!(retry_after, 30);
            assert_eq!(message, "m");
        }
        other => panic!("expected a rate-limit error, got {:?}", other),
    }
    match error_from_status(500, msg(), Some(String::from("d")), Vec::new(), 60) {
        Error::Api { status, message, detail } => {
            assert_eq!(status, 500);
            assert_eq!(message, "m");
            assert_eq!(detail, Some(String::from("d")));
        }
        other => panic!("expected the general API error, got {:?}", other),
    }
}
