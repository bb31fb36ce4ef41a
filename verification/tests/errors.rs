use schedule_api::errors::AppError;

#[test]
fn every_variant_maps_to_its_status_code() {
    assert_eq!(AppError::Database.status_code(), 500);
    assert_eq!(AppError::Redis.status_code(), 500);
    assert_eq!(AppError::Internal.status_code(), 500);
    assert_eq!(AppError::Unauthorized.status_code(), 401);
    assert_eq!(AppError::Forbidden.status_code(), 403);
    assert_eq!(AppError::NotFound.status_code(), 404);
    assert_eq!(AppError::Conflict.status_code(), 409);
    assert_eq!(AppError::Validation("v".to_string()).status_code(), 422);
    assert_eq!(AppError::BadRequest("b".to_string()).status_code(), 400);
    assert_eq!(AppError::RateLimit.status_code(), 429);
    assert_eq!(AppError::Timeout.status_code(), 408);
}

#[test]
fn fixed_variants_carry_fixed_messages() {
    assert_eq!(AppError::Database.message(), "Database error");
    assert_eq!(AppError::Redis.message(), "Redis error");
    assert_eq!(AppError::Internal.message(), "Internal server error");
    assert_eq!(AppError::Unauthorized.message(), "Unathorized");
    assert_eq!(AppError::Forbidden.message(), "Forbidden");
    assert_eq!(AppError::NotFound.message(), "Not Found");
    assert_eq!(AppError::Conflict.message(), "Conflict");
    assert_eq!(AppError::RateLimit.message(), "Too many requests");
    assert_eq!(AppError::Timeout.message(), "Request timeout");
}

#[test]
fn descriptive_variants_echo_their_description() {
    assert_eq!(AppError::Validation("bad shape".to_string()).message(), "bad shape");
    assert_eq!(AppError::BadRequest("Missing token".to_string()).message(), "Missing token");
}

#[test]
fn to_response_pairs_status_and_body() {
    let (status, body) = AppError::NotFound.to_response();
    assert_eq!(status, 404);
    assert_eq!(body.error, "Not Found");
}
