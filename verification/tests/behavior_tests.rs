use trivial_argument_parser::argument::legacy_argument::{ArgResult, ArgType, Argument};
use trivial_argument_parser::argument::parsable_argument::ParsableValueArgument;
use trivial_argument_parser::argument::ArgumentIdentification;
use trivial_argument_parser::{ArgumentList, ParsableHandle};

fn to_strings(tokens: Vec<&str>) -> Vec<String> {
    tokens.into_iter().map(String::from).collect()
}

#[test]
fn round_trip_scenario() {
    let args = to_strings(vec!["-d", "-p", "/file", "--list", "a", "-l", "b"]);
    let mut args_list = ArgumentList::new();
    args_list.append_arg(Argument::new(Some('d'), None, ArgType::Flag).unwrap());
    args_list.append_arg(Argument::new(Some('p'), None, ArgType::Value).unwrap());
    args_list.append_arg(Argument::new(Some('l'), Some("list"), ArgType::ValueList).unwrap());
    args_list.parse_args(args).unwrap();
    assert_eq!(
        args_list
            .search_by_short_name('d')
            .unwrap()
            .get_flag()
            .unwrap(),
        true
    );
    assert_eq!(
        args_list
            .search_by_short_name('p')
            .unwrap()
            .get_value()
            .unwrap(),
        "/file"
    );
    assert_eq!(
        args_list
            .search_by_long_name("list")
            .unwrap()
            .get_values()
            .unwrap(),
        &vec![String::from("a"), String::from("b")]
    );
    assert!(args_list.get_dangling_values().is_empty());
}

#[test]
fn unknown_option_halts_parsing() {
    let args = to_strings(vec!["-z", "after"]);
    let mut args_list = ArgumentList::new();
    args_list.append_arg(Argument::new(Some('d'), None, ArgType::Flag).unwrap());
    let err = args_list.parse_args(args).unwrap_err();
    assert_eq!(err, "Could not find argument identified by -z.");
    // The token after the unknown option was never processed.
    assert!(args_list.get_dangling_values().is_empty());
}

#[test]
fn unknown_long_option_reported() {
    let args = to_strings(vec!["--missing"]);
    let mut args_list = ArgumentList::new();
    let err = args_list.parse_args(args).unwrap_err();
    assert_eq!(err, "Could not find argument identified by --missing.");
}

#[test]
fn positional_classification() {
    let args = to_strings(vec!["-1", "--", "x", "", "-", "-!", "--2long"]);
    let mut args_list = ArgumentList::new();
    args_list.append_arg(Argument::new(Some('d'), None, ArgType::Flag).unwrap());
    args_list.parse_args(args).unwrap();
    assert_eq!(
        args_list.get_dangling_values(),
        &to_strings(vec!["-1", "--", "x", "", "-", "-!", "--2long"])
    );
}

#[test]
fn flag_set_twice_fails() {
    let args = to_strings(vec!["-d", "-d"]);
    let mut args_list = ArgumentList::new();
    args_list.append_arg(Argument::new(Some('d'), None, ArgType::Flag).unwrap());
    let err = args_list.parse_args(args).unwrap_err();
    assert_eq!(err, "Flag already set");
}

#[test]
fn value_set_twice_fails() {
    let args = to_strings(vec!["-p", "one", "-p", "two"]);
    let mut args_list = ArgumentList::new();
    args_list.append_arg(Argument::new(Some('p'), None, ArgType::Value).unwrap());
    let err = args_list.parse_args(args).unwrap_err();
    assert_eq!(err, "Value already assigned");
}

#[test]
fn value_list_accumulates_in_order() {
    let args = to_strings(vec!["-l", "one", "-l", "two", "-l", "three"]);
    let mut args_list = ArgumentList::new();
    args_list.append_arg(Argument::new(Some('l'), None, ArgType::ValueList).unwrap());
    args_list.parse_args(args).unwrap();
    assert_eq!(
        args_list
            .search_by_short_name('l')
            .unwrap()
            .get_values()
            .unwrap(),
        &to_strings(vec!["one", "two", "three"])
    );
}

#[test]
fn starved_value_fails() {
    let args = to_strings(vec!["-p"]);
    let mut args_list = ArgumentList::new();
    args_list.append_arg(Argument::new(Some('p'), None, ArgType::Value).unwrap());
    let err = args_list.parse_args(args).unwrap_err();
    assert_eq!(err, "Expected value");
}

#[test]
fn starved_value_list_fails() {
    let args = to_strings(vec!["-l"]);
    let mut args_list = ArgumentList::new();
    args_list.append_arg(Argument::new(Some('l'), None, ArgType::ValueList).unwrap());
    let err = args_list.parse_args(args).unwrap_err();
    assert_eq!(err, "Expected value");
}

#[test]
fn starved_parsable_fails() {
    let args = to_strings(vec!["-n"]);
    let mut args_list = ArgumentList::new();
    let mut argument_int = ParsableValueArgument::new_integer(ArgumentIdentification::Short('n'));
    args_list.register_parsable(ParsableHandle::Integer(&mut argument_int));
    let err = args_list.parse_args(args).unwrap_err();
    assert_eq!(err, "No remaining input values.");
}

#[test]
fn invalid_integer_token_aborts_parse() {
    let args = to_strings(vec!["-n", "12a"]);
    let mut args_list = ArgumentList::new();
    let mut argument_int = ParsableValueArgument::new_integer(ArgumentIdentification::Short('n'));
    args_list.register_parsable(ParsableHandle::Integer(&mut argument_int));
    let err = args_list.parse_args(args).unwrap_err();
    assert_eq!(err, "Input is not a number");
}

#[test]
fn owned_argument_shadows_parsable() {
    let args = to_strings(vec!["-n", "7"]);
    let mut args_list = ArgumentList::new();
    let mut argument_int = ParsableValueArgument::new_integer(ArgumentIdentification::Short('n'));
    args_list.append_arg(Argument::new(Some('n'), None, ArgType::Value).unwrap());
    args_list.register_parsable(ParsableHandle::Integer(&mut argument_int));
    args_list.parse_args(args).unwrap();
    assert_eq!(
        args_list
            .search_by_short_name('n')
            .unwrap()
            .get_value()
            .unwrap(),
        "7"
    );
    assert!(argument_int.first_value().is_none());
}

#[test]
fn accessor_arity_mismatch_fails() {
    let mut args_list = ArgumentList::new();
    args_list.append_arg(Argument::new(Some('d'), None, ArgType::Flag).unwrap());
    args_list.append_arg(Argument::new(Some('p'), None, ArgType::Value).unwrap());
    let flag_arg = args_list.search_by_short_name('d').unwrap();
    assert!(flag_arg.get_value().is_err());
    assert!(flag_arg.get_values().is_err());
    assert_eq!(flag_arg.get_flag().unwrap(), false);
    let value_arg = args_list.search_by_short_name('p').unwrap();
    assert!(value_arg.get_flag().is_err());
    assert!(value_arg.get_value().is_err());
}

#[test]
fn value_consumes_option_shaped_token() {
    let args = to_strings(vec!["-p", "-d"]);
    let mut args_list = ArgumentList::new();
    args_list.append_arg(Argument::new(Some('p'), None, ArgType::Value).unwrap());
    args_list.parse_args(args).unwrap();
    assert_eq!(
        args_list.arguments()[0].arg_result,
        Some(ArgResult::Value(String::from("-d")))
    );
}
