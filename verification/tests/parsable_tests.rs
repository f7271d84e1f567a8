use trivial_argument_parser::argument::parsable_argument::{
    HandleableArgument, IntegerHandler, ParsableValueArgument,
};
use trivial_argument_parser::argument::ArgumentIdentification;
use trivial_argument_parser::cursor::TokenCursor;

fn cursor_over(tokens: Vec<&str>) -> TokenCursor {
    TokenCursor::new(tokens.into_iter().map(String::from).collect())
}

#[test]
fn new_parsable_value_argument_works() {
    let _arg = ParsableValueArgument::new(ArgumentIdentification::Short('x'), IntegerHandler);
}

#[test]
fn is_by_short_works() {
    let arg = ParsableValueArgument::new(ArgumentIdentification::Short('x'), IntegerHandler);
    assert!(arg.is_by_short('x'));
    assert!(!arg.is_by_short('c'));
}

#[test]
fn is_by_long_works() {
    let arg = ParsableValueArgument::new(
        ArgumentIdentification::Long(String::from("path")),
        IntegerHandler,
    );
    assert!(arg.is_by_long("path"));
    assert!(!arg.is_by_long("directory"));
}

#[test]
fn basic_integer_argument_works() {
    let mut arg = ParsableValueArgument::new_integer(ArgumentIdentification::Short('i'));
    assert!(arg.handle(&mut cursor_over(vec!["123"])).is_ok());
    assert_eq!(arg.values().get(0).unwrap(), &123);
    assert!(arg.handle(&mut cursor_over(vec!["333"])).is_ok());
    assert_eq!(2, arg.values().len());
    assert_eq!(arg.values().get(0).unwrap(), &123);
    assert_eq!(arg.values().get(1).unwrap(), &333);
    assert!(arg.handle(&mut cursor_over(vec!["-333"])).is_ok());
}

#[test]
fn basic_integer_argument_handler_fails_invalid_number() {
    let mut arg = ParsableValueArgument::new_integer(ArgumentIdentification::Short('i'));
    assert!(arg.handle(&mut cursor_over(vec!["-"])).is_err());
    assert!(arg.handle(&mut cursor_over(vec!["12a"])).is_err());
    assert!(arg.handle(&mut cursor_over(vec!["123.12"])).is_err());
}

#[test]
fn first_value_works() {
    let mut arg = ParsableValueArgument::new_integer(ArgumentIdentification::Short('i'));
    assert!(arg.first_value().is_none());
    assert!(arg.handle(&mut cursor_over(vec!["123"])).is_ok());
    assert_eq!(arg.first_value().unwrap(), &123);
}

#[test]
fn integer_handler_boundary_values() {
    let mut arg = ParsableValueArgument::new_integer(ArgumentIdentification::Short('i'));
    assert!(arg.handle(&mut cursor_over(vec!["9223372036854775807"])).is_ok());
    assert_eq!(arg.values().get(0).unwrap(), &i64::MAX);
    assert!(arg.handle(&mut cursor_over(vec!["-9223372036854775808"])).is_ok());
    assert_eq!(arg.values().get(1).unwrap(), &i64::MIN);
    assert!(arg.handle(&mut cursor_over(vec!["9223372036854775808"])).is_err());
    assert!(arg.handle(&mut cursor_over(vec!["-9223372036854775809"])).is_err());
    assert_eq!(arg.values().len(), 2);
}

#[test]
fn integer_handler_more_cases() {
    let mut arg = ParsableValueArgument::new_integer(ArgumentIdentification::Short('i'));
    assert!(arg.handle(&mut cursor_over(vec!["123"])).is_ok());
    assert_eq!(arg.values().get(0).unwrap(), &123);
    assert!(arg.handle(&mut cursor_over(vec!["-5"])).is_ok());
    assert_eq!(arg.values().get(1).unwrap(), &-5);
    assert!(arg.handle(&mut cursor_over(vec!["1.2"])).is_err());
    assert!(arg.handle(&mut cursor_over(vec![])).is_err());
    assert_eq!(arg.values().len(), 2);
}

#[test]
fn string_handler_takes_token_unconditionally() {
    let mut arg = ParsableValueArgument::new_string(ArgumentIdentification::Short('s'));
    assert!(arg.handle(&mut cursor_over(vec!["-weird token"])).is_ok());
    assert_eq!(arg.first_value().unwrap(), "-weird token");
    assert!(arg.handle(&mut cursor_over(vec![])).is_err());
    assert_eq!(arg.values().len(), 1);
}
