//! Errors: their classes and their messages.

use elasticq::BufferError;
use std::time::Duration;

#[test]
fn test_is_retriable() {
    assert!(BufferError::Full.is_retriable());
    assert!(BufferError::Timeout(Duration::from_secs(1)).is_retriable());
    assert!(!BufferError::Empty.is_retriable());
    assert!(!BufferError::InvalidConfiguration("Test".into()).is_retriable());
}

#[test]
fn test_is_capacity_error() {
    assert!(BufferError::Full.is_capacity_error());
    assert!(BufferError::MaxCapacityReached(1000).is_capacity_error());
    assert!(!BufferError::Empty.is_capacity_error());
    assert!(!BufferError::InvalidConfiguration("Test".into()).is_capacity_error());
}

#[test]
fn test_error_messages() {
    assert_eq!(
        BufferError::Timeout(Duration::from_secs(5)).to_string(),
        "Operation timed out after 5s"
    );
    assert_eq!(
        BufferError::MaxCapacityReached(1000).to_string(),
        "Maximum capacity of 1000 reached"
    );
    assert_eq!(
        BufferError::InvalidConfiguration("Invalid min and max capacities".into()).to_string(),
        "Invalid configuration: Invalid min and max capacities"
    );
}

#[test]
fn every_error_has_its_class() {
    let retriable = vec![
        BufferError::Full,
        BufferError::Timeout(Duration::from_millis(3)),
        BufferError::MaxCapacityReached(1),
        BufferError::ResizeError("x".into()),
        BufferError::Other("x".into()),
    ];
    let hopeless = vec![
        BufferError::Empty,
        BufferError::InvalidOperation("x".into()),
        BufferError::InvalidConfiguration("x".into()),
    ];
    for e in &retriable {
        assert!(e.is_retriable(), "{:?}", e);
    }
    for e in &hopeless {
        assert!(!e.is_retriable(), "{:?}", e);
        assert!(!e.is_capacity_error(), "{:?}", e);
    }
    assert!(!BufferError::ResizeError("x".into()).is_capacity_error());
    assert!(!BufferError::Timeout(Duration::from_secs(1)).is_capacity_error());
    assert!(!BufferError::Other("x".into()).is_capacity_error());
}

#[test]
fn every_error_has_its_message() {
    assert_eq!(BufferError::Full.to_string(), "Buffer is full");
    assert_eq!(BufferError::Empty.to_string(), "Buffer is empty");
    assert_eq!(
        BufferError::Timeout(Duration::from_millis(1500)).to_string(),
        "Operation timed out after 1.5s"
    );
    assert_eq!(
        BufferError::MaxCapacityReached(0).to_string(),
        "Maximum capacity of 0 reached"
    );
    assert_eq!(
        BufferError::MaxCapacityReached(usize::MAX).to_string(),
        format!("Maximum capacity of {} reached", usize::MAX)
    );
    assert_eq!(
        BufferError::ResizeError("no memory".into()).to_string(),
        "Failed to resize buffer: no memory"
    );
    assert_eq!(
        BufferError::InvalidOperation("no".into()).to_string(),
        "Invalid operation: no"
    );
    assert_eq!(BufferError::Other("disk".into()).to_string(), "Other error: disk");
}

#[test]
fn a_cloned_error_is_the_same_error() {
    let e = BufferError::Timeout(Duration::from_secs(2));
    assert_eq!(e.clone(), e);
}
