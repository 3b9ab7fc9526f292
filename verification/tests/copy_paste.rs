use inbento::CopyPaste;

#[test]
fn test_missing_copy_validation() {
    let err = CopyPaste::from_str("(VVV)");
    assert!(err.is_err(), "{err:?}");
}

#[test]
fn test_multi_copy_validation() {
    let err = CopyPaste::from_str("(CVC)");
    assert!(err.is_err(), "{err:?}");
}
