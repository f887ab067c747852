use lusl::SerializeOption;

#[test]
fn default_options_ask_for_nothing() {
    let default_option = SerializeOption::default();
    assert_eq!(default_option.is_encrypted(), false);
    assert_eq!(default_option.is_compressed(), false);
    assert_eq!(default_option.password(), None);
    let new_option = SerializeOption::new();
    assert_eq!(new_option.is_encrypted(), false);
    assert_eq!(new_option.is_compressed(), false);
    assert_eq!(new_option.password(), None);
}

#[test]
fn options_are_built_step_by_step() {
    let option = SerializeOption::new()
        .to_encrypt("test_password")
        .to_compress(true);
    assert_eq!(option.is_encrypted(), true);
    assert_eq!(option.is_compressed(), true);
    assert_eq!(option.password(), Some(String::from("test_password")));
}

#[test]
fn compression_is_switched_on_and_off() {
    let option = SerializeOption::new().to_compress(true).to_compress(false);
    assert_eq!(option.is_compressed(), false);
    assert_eq!(option.is_encrypted(), false);
    let option = SerializeOption::new().to_encrypt("a").to_compress(false);
    assert_eq!(option.is_encrypted(), true);
    assert_eq!(option.password(), Some(String::from("a")));
}

#[test]
fn the_last_password_counts() {
    let option = SerializeOption::new().to_encrypt("one").to_encrypt("two");
    assert_eq!(option.password(), Some(String::from("two")));
    let copy = option.clone();
    assert_eq!(copy.password(), Some(String::from("two")));
    assert_eq!(copy.is_encrypted(), true);
}
