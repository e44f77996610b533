use brief_measure::error::AppError;

fn server_errors(detail: &str) -> Vec<AppError> {
    vec![
        AppError::Database(detail.to_string()),
        AppError::Io(detail.to_string()),
        AppError::MissingConfig(detail.to_string()),
        AppError::InvalidConfig(detail.to_string()),
        AppError::Join(detail.to_string()),
        AppError::Server(detail.to_string()),
        AppError::Migration(detail.to_string()),
    ]
}

#[test]
fn messages_of_client_errors() {
    assert_eq!(AppError::InvalidObservation.message(), "invalid observation");
    assert_eq!(AppError::InvalidUuid.message(), "invalid uuid");
    assert_eq!(AppError::Unauthorized.message(), "unauthorized");
    assert_eq!(AppError::TooManyObservations.message(), "observation limit reached");
    assert_eq!(AppError::InvalidLimit.message(), "invalid limit");
}

#[test]
fn messages_of_server_errors_are_generic() {
    let expected = [
        "database error",
        "io error",
        "missing configuration",
        "invalid configuration",
        "task join error",
        "server error",
        "migration error",
    ];
    for (error, text) in server_errors("/etc/secret: connection refused").iter().zip(expected) {
        assert_eq!(error.message(), text);
    }
}

#[test]
fn messages_show_no_internal_detail() {
    let first = server_errors("password authentication failed for user admin");
    let second = server_errors("DATABASE_URL");
    for (one, other) in first.iter().zip(second.iter()) {
        assert_eq!(one.message(), other.message());
        assert!(!one.message().contains("password"));
        assert!(!other.message().contains("DATABASE_URL"));
        assert_eq!(one.status_code(), other.status_code());
    }
}

#[test]
fn log_messages_carry_the_detail() {
    assert_eq!(
        AppError::Database("connection refused".to_string()).log_message(),
        "database error: connection refused"
    );
    assert_eq!(AppError::Io("broken pipe".to_string()).log_message(), "io error: broken pipe");
    assert_eq!(
        AppError::MissingConfig("DATABASE_URL".to_string()).log_message(),
        "missing configuration: DATABASE_URL"
    );
    assert_eq!(
        AppError::InvalidConfig("BIND_ADDR".to_string()).log_message(),
        "invalid configuration: BIND_ADDR"
    );
    assert_eq!(
        AppError::Join("cancelled".to_string()).log_message(),
        "task join error: cancelled"
    );
    assert_eq!(AppError::Server("bind".to_string()).log_message(), "server error: bind");
    assert_eq!(
        AppError::Migration("checksum".to_string()).log_message(),
        "migration error: checksum"
    );
    assert_eq!(AppError::Unauthorized.log_message(), "unauthorized");
    assert_eq!(AppError::InvalidLimit.log_message(), "invalid limit");
}

#[test]
fn status_codes_by_class() {
    assert_eq!(AppError::InvalidObservation.status_code(), 400);
    assert_eq!(AppError::InvalidUuid.status_code(), 400);
    assert_eq!(AppError::InvalidLimit.status_code(), 400);
    assert_eq!(AppError::Unauthorized.status_code(), 401);
    assert_eq!(AppError::TooManyObservations.status_code(), 429);
    for error in server_errors("detail") {
        assert_eq!(error.status_code(), 500);
    }
}
