use trivial_argument_parser::argument::legacy_argument::{ArgType, Argument};

#[test]
fn new_works() {
    assert!(Argument::new(Option::None, Option::Some("parameter"), ArgType::Flag).is_ok());
    assert!(Argument::new(Option::Some('x'), Option::None, ArgType::Flag).is_ok());
    assert!(Argument::new(Option::Some('x'), Option::Some("parameter"), ArgType::Flag).is_ok());
}

#[test]
fn new_fails() {
    assert!(Argument::new(Option::None, Option::None, ArgType::Flag).is_err())
}
