//! The photo-creation builder, validation, configuration parsing, the
//! transaction planner, and the health report.

use enchanted_natures::config::Environment;
use enchanted_natures::health::{HealthStatus, HealthStatusEnum};
use enchanted_natures::models::Date;
use enchanted_natures::plan::{error_status_code, plan_add, plan_remove, AddAction, RemoveAction};
use enchanted_natures::repo::OrderingError;
use enchanted_natures::validation::{
    CreatePhotoRequest, PhotoCreateRequestBuilder, PhotoCreateRequestBuilderError, PhotoValidator,
    UploadedPhotoViewModel,
};

#[test]
fn builder_parses_a_full_request() {
    let request = PhotoCreateRequestBuilder::new()
        .title("sunrise".to_string())
        .location_taken("hill".to_string())
        .date_taken("2015-09-18".to_string())
        .filename("sunrise.jpg".to_string())
        .build()
        .unwrap();
    assert_eq!(request.title, "sunrise");
    assert_eq!(request.location_taken, "hill");
    assert_eq!(request.filename, "sunrise.jpg");
    // The date text is parsed, not carried through verbatim.
    assert_eq!(
        request.date_taken,
        Date { year: 2015, month: 9, day: 18 }
    );
}

#[test]
fn builder_reports_the_first_missing_field() {
    let base = || {
        PhotoCreateRequestBuilder::new()
            .title("t".to_string())
            .location_taken("l".to_string())
            .date_taken("2015-09-18".to_string())
            .filename("f.jpg".to_string())
    };
    assert!(matches!(
        PhotoCreateRequestBuilder::new().build(),
        Err(PhotoCreateRequestBuilderError::TitleRequired)
    ));
    assert!(matches!(
        base().title(String::new()).build(),
        Err(PhotoCreateRequestBuilderError::TitleRequired)
    ));
    assert!(matches!(
        base().location_taken(String::new()).build(),
        Err(PhotoCreateRequestBuilderError::LocationTakenRequired)
    ));
    assert!(matches!(
        base().date_taken(String::new()).build(),
        Err(PhotoCreateRequestBuilderError::DateTakenRequired)
    ));
    assert!(matches!(
        base().filename(String::new()).build(),
        Err(PhotoCreateRequestBuilderError::FilenameRequired)
    ));
    // A date that is text but no date also counts as missing.
    assert!(matches!(
        base().date_taken("2015-13-01".to_string()).build(),
        Err(PhotoCreateRequestBuilderError::DateTakenRequired)
    ));
    assert!(matches!(
        base().date_taken("not a date".to_string()).build(),
        Err(PhotoCreateRequestBuilderError::DateTakenRequired)
    ));
}

#[test]
fn validate_photo_requires_every_field() {
    let validator = PhotoValidator;
    let full = CreatePhotoRequest {
        name: "n".to_string(),
        description: "d".to_string(),
        url: "u".to_string(),
    };
    assert!(validator.validate_photo(&full));
    let missing = CreatePhotoRequest {
        name: String::new(),
        description: "d".to_string(),
        url: "u".to_string(),
    };
    assert!(!validator.validate_photo(&missing));
}

#[test]
fn uploaded_photo_view_model_records_size() {
    let view = UploadedPhotoViewModel::new(1024);
    assert_eq!(view.file_size, 1024);
}

#[test]
fn environment_names_round_trip() {
    assert_eq!(Environment::Development.as_str(), "dev");
    assert_eq!(Environment::Local.as_str(), "local");
    assert_eq!(Environment::Staging.as_str(), "staging");
    assert_eq!(Environment::Production.as_str(), "production");
    assert_eq!(
        Environment::try_from("local".to_string()).unwrap(),
        Environment::Local
    );
    assert_eq!(
        Environment::try_from("production".to_string()).unwrap(),
        Environment::Production
    );
    let err = Environment::try_from("moon".to_string()).unwrap_err();
    assert_eq!(err, "Failed to parsemoon");
    assert_eq!(Environment::Development.long_name(), "development");
    assert_eq!(
        Environment::try_from(Environment::Staging.long_name()).unwrap(),
        Environment::Staging
    );
}

#[test]
fn plan_add_decides_shift_and_append() {
    assert_eq!(plan_add(0, None), Ok(AddAction::InsertOnly { position: 1 }));
    assert_eq!(plan_add(3, None), Ok(AddAction::InsertOnly { position: 4 }));
    assert_eq!(
        plan_add(3, Some(2)),
        Ok(AddAction::ShiftThenInsert { position: 2 })
    );
    assert_eq!(
        plan_add(3, Some(4)),
        Ok(AddAction::InsertOnly { position: 4 })
    );
    assert_eq!(plan_add(3, Some(0)), Err(OrderingError::InvalidPosition));
    assert_eq!(plan_add(3, Some(5)), Err(OrderingError::InvalidPosition));
}

#[test]
fn plan_remove_closes_the_gap() {
    assert_eq!(
        plan_remove(Some(2)),
        Ok(RemoveAction { shift_down_from: 3 })
    );
    assert_eq!(plan_remove(None), Err(OrderingError::MembershipNotFound));
}

#[test]
fn error_codes_follow_the_taxonomy() {
    assert_eq!(error_status_code(&OrderingError::InvalidPosition), 400);
    assert_eq!(error_status_code(&OrderingError::PhotoNotFound), 404);
    assert_eq!(error_status_code(&OrderingError::CategoryNotFound), 404);
    assert_eq!(error_status_code(&OrderingError::MembershipNotFound), 404);
    assert_eq!(error_status_code(&OrderingError::DuplicateMembership), 409);
    assert_eq!(error_status_code(&OrderingError::Conflict), 409);
    assert_eq!(error_status_code(&OrderingError::StoreUnavailable), 503);
}

#[test]
fn fresh_health_report_is_healthy() {
    let status = HealthStatus::new();
    assert_eq!(status.status, HealthStatusEnum::Healthy);
}
