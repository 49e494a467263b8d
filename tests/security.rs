use gallery_backend::utils::security::compare_string;

#[test]
fn compare_string_equal_and_different() {
    assert!(compare_string(&"token".to_string(), &"token".to_string()));
    assert!(!compare_string(&"token".to_string(), &"Token".to_string()));
    assert!(!compare_string(&"".to_string(), &"a".to_string()));
    assert!(compare_string(&String::new(), &String::new()));
}
