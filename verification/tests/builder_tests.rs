use trivial_argument_parser::argument::legacy_argument::ArgType;
use trivial_argument_parser::builder::ArgBuilder;

#[test]
fn builder_new_works() {
    let arg_builder = ArgBuilder::new(ArgType::Value);
    assert_eq!(arg_builder.long_name, Option::None);
    assert_eq!(arg_builder.short_name, Option::None);
    assert_eq!(arg_builder.arg_type, ArgType::Value);
}

#[test]
fn build_short_works() {
    let arg = ArgBuilder::new(ArgType::Value)
        .set_short_name('x')
        .build()
        .unwrap();
    assert_eq!(arg.short(), &Option::Some('x'));
    assert_eq!(arg.long(), &Option::None);
    assert_eq!(arg.arg_type(), &ArgType::Value);
}

#[test]
fn build_long_works() {
    let arg = ArgBuilder::new(ArgType::Value)
        .set_long_name("my_arg")
        .build()
        .unwrap();
    assert_eq!(arg.long(), &Option::Some(String::from("my_arg")));
    assert_eq!(arg.short(), &Option::None);
    assert_eq!(arg.arg_type(), &ArgType::Value);
}

#[test]
fn build_both_works() {
    let arg = ArgBuilder::new(ArgType::Value)
        .set_long_name("my_arg")
        .set_short_name('x')
        .build()
        .unwrap();
    assert_eq!(arg.long(), &Option::Some(String::from("my_arg")));
    assert_eq!(arg.short(), &Option::Some('x'));
    assert_eq!(arg.arg_type(), &ArgType::Value);
}

#[test]
fn set_type_works() {
    let arg = ArgBuilder::new(ArgType::Value)
        .set_long_name("my_arg")
        .set_type(ArgType::Flag)
        .build()
        .unwrap();
    assert_eq!(arg.long(), &Option::Some(String::from("my_arg")));
    assert_eq!(arg.short(), &Option::None);
    assert_eq!(arg.arg_type(), &ArgType::Flag);
}

#[test]
fn build_without_names_fails() {
    assert!(ArgBuilder::new(ArgType::Flag).build().is_err());
}
