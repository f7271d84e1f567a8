use trivial_argument_parser::argument::ArgumentIdentification;

#[test]
fn mod_is_by_short_works() {
    let short_id = ArgumentIdentification::Short('x');
    assert!(short_id.is_by_short('x'));
    assert!(!short_id.is_by_short('c'));
    let both_id = ArgumentIdentification::Both('z', String::from("directory"));
    assert!(both_id.is_by_short('z'));
    assert!(!both_id.is_by_short('c'));
}

#[test]
fn mod_is_by_long_works() {
    let short_id = ArgumentIdentification::Long(String::from("path"));
    assert!(short_id.is_by_long("path"));
    assert!(!short_id.is_by_long("name"));
    let both_id = ArgumentIdentification::Both('z', String::from("file"));
    assert!(both_id.is_by_long("file"));
    assert!(!both_id.is_by_long("bar"));
}
