use open_in_browser::error::AppError;

#[test]
fn app_error_messages() {
    assert_eq!(AppError::Unknown.message(), "Unknown error");
    assert_eq!(AppError::MissingAppHandle.message(), "Missing app handle");
    assert_eq!(AppError::StoreOpen("x".to_string()).message(), "Store open error: x");
    assert_eq!(AppError::StoreSave("y".to_string()).message(), "Store save error: y");
    assert_eq!(
        AppError::AuthMissingHeader.message(),
        "Missing authentication header 'x-openinbrowser-auth'"
    );
    assert_eq!(
        AppError::AuthJwtInvalid("ExpiredSignature".to_string()).message(),
        "Invalid JWT authentication: ExpiredSignature"
    );
    assert_eq!(AppError::HttpBind("busy".to_string()).message(), "HTTP server bind error: busy");
    assert_eq!(AppError::IoError("not found".to_string()).message(), "not found");
    assert_eq!(AppError::JsonError("bad json".to_string()).message(), "bad json");
}

#[test]
fn string_becomes_unknown_error() {
    let e: AppError = AppError::from("anything".to_string());
    assert!(matches!(e, AppError::Unknown));
    let e: AppError = "other".to_string().into();
    assert_eq!(e.message(), "Unknown error");
}
