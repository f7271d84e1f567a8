use trivial_argument_parser::argument::validated::{new_integer, ParsableValueArgument};
use trivial_argument_parser::argument::ArgumentIdentification;

#[test]
fn argument_new_parsable_value_argument_works() {
    let _arg = ParsableValueArgument::<i64, _, _>::new(
        ArgumentIdentification::Short('x'),
        |_: &str| Option::<String>::None,
        |_: &str| Result::<i64, String>::Ok(2),
    );
}

#[test]
fn argument_is_by_short_works() {
    let arg = ParsableValueArgument::<i64, _, _>::new(
        ArgumentIdentification::Short('x'),
        |_: &str| Option::<String>::None,
        |_: &str| Result::<i64, String>::Ok(2),
    );
    assert!(arg.is_by_short('x'));
    assert!(!arg.is_by_short('c'));
}

#[test]
fn argument_is_by_long_works() {
    let arg = ParsableValueArgument::<i64, _, _>::new(
        ArgumentIdentification::Long(String::from("path")),
        |_: &str| Option::<String>::None,
        |_: &str| Result::<i64, String>::Ok(2),
    );
    assert!(arg.is_by_long("path"));
    assert!(!arg.is_by_long("directory"));
}

#[test]
fn argument_basic_integer_argument_works() {
    let mut arg = new_integer(ArgumentIdentification::Short('i'));
    assert!(arg.handle("123").is_ok());
    assert_eq!(arg.values.get(0).unwrap(), &123);
}

#[test]
fn validated_integer_rejects_non_digits() {
    let mut arg = new_integer(ArgumentIdentification::Short('i'));
    assert!(arg.handle("12a").is_err());
    assert!(arg.handle("-5").is_err());
    assert!(arg.handle("").is_err());
    assert!(arg.values.is_empty());
}
