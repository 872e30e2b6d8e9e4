use kvlog::versioned::Versioned;

#[test]
fn from_value_should_create_not_tomb_value() {
    let versioned = Versioned::from_value(0, b"foo");
    assert_eq!(versioned.tomb, false);
    assert_eq!(versioned.ver, 0);
    assert_eq!(versioned.val, b"foo".to_vec());
}

#[test]
fn from_value_should_create_tomb_value() {
    let versioned = Versioned::tomb(0);
    assert_eq!(versioned.tomb, true);
    assert_eq!(versioned.ver, 0);
    assert_eq!(versioned.val, b"".to_vec());
}
