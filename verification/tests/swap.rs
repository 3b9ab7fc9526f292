use inbento::Swap;

#[test]
fn test_missing_swap_validation() {
    let err = Swap::from_str("(.#)");
    assert!(err.is_err(), "{err:?}");
}

#[test]
fn test_multi_swap_validation() {
    let err = Swap::from_str("(###)");
    assert!(err.is_err(), "{err:?}");
}
