use borink_object_storage_proto::{CapacityError, Error, ErrorCode, InvalidPlan, ResponseFault};

// Every error except a capacity error, which carries sizes rather than a
// discriminant.
fn every_error() -> Vec<Error> {
    let mut errors = vec![Error::InvalidEndpoint, Error::InvalidContainer, Error::InvalidToken];
    for detail in 1..=u16::MAX {
        if let Some(plan) = InvalidPlan::from_discriminant(detail) {
            errors.push(Error::InvalidPlan(plan));
        }
        if let Some(fault) = ResponseFault::from_discriminant(detail) {
            errors.push(Error::Response(fault));
        }
    }
    errors
}

#[test]
fn two_numbers_describe_every_error() {
    for error in every_error() {
        let rebuilt = Error::from_parts(error.code(), error.detail());
        assert_eq!(rebuilt, Some(error), "{error:?}");
        assert_eq!(rebuilt.unwrap().message(), error.message(), "{error:?}");
        assert_ne!(error.code().discriminant(), 0, "{error:?}");
    }
}

#[test]
fn a_capacity_error_carries_its_sizes_instead_of_a_discriminant() {
    let error = Error::Capacity(CapacityError {
        required: 96,
        available: 64,
        ..CapacityError::default()
    });
    assert_eq!(error.code(), ErrorCode::Capacity);
    assert_eq!(error.detail(), 0);
    assert_eq!(Error::from_parts(ErrorCode::Capacity, 0), None);
    assert_eq!(error.capacity().unwrap().required, 96);
}

#[test]
fn an_unknown_discriminant_rebuilds_nothing() {
    assert_eq!(Error::from_parts(ErrorCode::InvalidPlan, 0), None);
    assert_eq!(Error::from_parts(ErrorCode::Response, 4095), None);
    // A code that carries no value inside takes no detail either.
    assert_eq!(Error::from_parts(ErrorCode::InvalidToken, 1), None);
}

#[test]
fn every_error_has_a_sentence() {
    assert_eq!(Error::InvalidPlan(InvalidPlan::Key).message(), InvalidPlan::Key.as_str());
    assert!(!Error::InvalidToken.message().is_empty());
}
