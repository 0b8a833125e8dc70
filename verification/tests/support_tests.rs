use calc::support::{NonNegativeNumber, SafeContainer};

#[test]
fn test_container_push_and_get() {
    let mut container: SafeContainer<i32> = SafeContainer::new();
    assert!(container.get(0).is_none());
    container.push(42);
    container.push(7);
    assert_eq!(container.get(0), Some(&42));
    assert_eq!(container.get(1), Some(&7));
    assert!(container.get(2).is_none());
}

#[test]
fn test_non_negative_accepts() {
    let n = NonNegativeNumber::new(42).unwrap();
    assert_eq!(n.get(), 42);
    let zero = NonNegativeNumber::new(0).unwrap();
    assert_eq!(zero.get(), 0);
}

#[test]
fn test_non_negative_rejects() {
    assert!(NonNegativeNumber::new(-1).is_none());
    assert!(NonNegativeNumber::new(i32::MIN).is_none());
}
