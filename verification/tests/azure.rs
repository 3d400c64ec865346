use borink_object_storage_proto::azure::capacity_error;
use borink_object_storage_proto::{CapacityError, Error, HeaderSpan, InvalidPlan};

#[test]
fn a_request_larger_than_a_slice_is_not_a_recoverable_capacity_error() {
    let capacity = CapacityError { required: isize::MAX as usize + 1, ..CapacityError::default() };
    assert_eq!(capacity_error(capacity), Error::InvalidPlan(InvalidPlan::RequestTooLarge));
    let max_headers = isize::MAX as usize / core::mem::size_of::<HeaderSpan>();
    let capacity = CapacityError { required_headers: max_headers, ..CapacityError::default() };
    assert_eq!(capacity_error(capacity), Error::Capacity(capacity));
    let capacity = CapacityError { required_headers: max_headers + 1, ..capacity };
    assert_eq!(capacity_error(capacity), Error::InvalidPlan(InvalidPlan::RequestTooLarge));
}
