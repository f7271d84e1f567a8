use trivial_argument_parser::argument::legacy_argument::{ArgResult, ArgType, Argument};
use trivial_argument_parser::argument::parsable_argument::ParsableValueArgument;
use trivial_argument_parser::argument::ArgumentIdentification;
use trivial_argument_parser::{ArgumentList, ParsableHandle};

fn to_strings(tokens: Vec<&str>) -> Vec<String> {
    tokens.into_iter().map(String::from).collect()
}

#[test]
fn parse_works() {
    let args = to_strings(vec![
        "-d", "-p", "/file", "--an-list", "Marcin", "-l", "Mazgaj",
    ]);

    let mut args_list = ArgumentList::new();
    args_list.append_arg(Argument::new(Some('d'), None, ArgType::Flag).expect("append 1"));
    args_list.append_arg(Argument::new(Some('p'), None, ArgType::Value).expect("append 2"));
    args_list.append_arg(
        Argument::new(Some('l'), Some("an-list"), ArgType::ValueList).expect("append 3"),
    );
    args_list.parse_args(args).unwrap();
    assert_eq!(args_list.arguments()[0].arg_result, Some(ArgResult::Flag));
    assert_eq!(
        args_list.arguments[1].arg_result,
        Some(ArgResult::Value(String::from("/file")))
    );
    assert_eq!(
        args_list.arguments[2].arg_result,
        Some(ArgResult::ValueList(vec![
            String::from("Marcin"),
            String::from("Mazgaj")
        ]))
    );

    assert_eq!(
        args_list
            .search_by_short_name_mut('d')
            .unwrap()
            .get_flag()
            .unwrap(),
        true
    );
    assert_eq!(
        args_list
            .search_by_long_name("an-list")
            .unwrap()
            .get_values()
            .unwrap(),
        &vec![String::from("Marcin"), String::from("Mazgaj")]
    );
}

#[test]
fn get_dangling_values_works() {
    let args = to_strings(vec![
        "-d", "-p", "/file", "--an-list", "Marcin", "-l", "Mazgaj", "dangling",
    ]);

    let mut args_list = ArgumentList::new();

    args_list.append_arg(Argument::new(Some('d'), None, ArgType::Flag).expect("append 1"));
    args_list.append_arg(Argument::new(Some('p'), None, ArgType::Value).expect("append 2"));
    args_list.append_arg(
        Argument::new(Some('l'), Some("an-list"), ArgType::ValueList).expect("append 3"),
    );

    args_list.parse_args(args).unwrap();

    let dangling = args_list.get_dangling_values();

    assert_eq!("dangling", dangling[0]);
}

#[test]
fn values_with_spaces_work() {
    let args = to_strings(vec![
        "-n",
        "Marcin Mazgaj",
        "--hello",
        "Hello World!",
        "--hello",
        "Witaj Świecie!",
    ]);

    let mut args_list = ArgumentList::new();

    args_list.append_arg(Argument::new(Some('n'), None, ArgType::Value).unwrap());
    args_list.append_arg(Argument::new(None, Some("hello"), ArgType::ValueList).unwrap());

    args_list.parse_args(args).unwrap();

    assert_eq!(
        args_list
            .search_by_short_name_mut('n')
            .unwrap()
            .get_value()
            .unwrap(),
        "Marcin Mazgaj"
    );
    assert_eq!(
        args_list
            .search_by_long_name("hello")
            .unwrap()
            .get_values()
            .unwrap(),
        &vec![String::from("Hello World!"), String::from("Witaj Świecie!")]
    );
}

#[test]
fn parse_with_parsable_arguments_works() {
    let args = to_strings(vec![
        "-n",
        "5",
        "--hello",
        "Hello World!",
        "--hello",
        "Witaj Świecie!",
    ]);

    let mut args_list = ArgumentList::new();
    let mut argument_int = ParsableValueArgument::new_integer(ArgumentIdentification::Short('n'));
    let mut argument_str =
        ParsableValueArgument::new_string(ArgumentIdentification::Long(String::from("hello")));
    args_list.register_parsable(ParsableHandle::Integer(&mut argument_int));
    args_list.register_parsable(ParsableHandle::Text(&mut argument_str));
    args_list
        .parse_args(args)
        .expect("Failed while parsing arguments");
    assert_eq!(argument_int.first_value().unwrap(), &5);
    assert_eq!(argument_str.first_value().unwrap(), "Hello World!");
    assert_eq!(argument_str.values().get(1).unwrap(), "Witaj Świecie!");
}

#[test]
fn parse_drop_parser_works() {
    let args = to_strings(vec![
        "-n",
        "5",
        "--hello",
        "Hello World!",
        "--hello",
        "Witaj Świecie!",
    ]);
    let mut argument_int = ParsableValueArgument::new_integer(ArgumentIdentification::Short('n'));
    let mut argument_str =
        ParsableValueArgument::new_string(ArgumentIdentification::Long(String::from("hello")));
    {
        let mut args_list = ArgumentList::new();
        args_list.register_parsable(ParsableHandle::Integer(&mut argument_int));
        args_list.register_parsable(ParsableHandle::Text(&mut argument_str));
        args_list
            .parse_args(args)
            .expect("Failed while parsing arguments");
    }
    assert_eq!(argument_int.first_value().unwrap(), &5);
    assert_eq!(argument_str.first_value().unwrap(), "Hello World!");
    assert_eq!(argument_str.values().get(1).unwrap(), "Witaj Świecie!");
}

#[test]
fn parse_with_mixed_arguments_works() {
    let args = to_strings(vec![
        "-n",
        "5",
        "--hello",
        "Hello World!",
        "--hello",
        "Witaj Świecie!",
    ]);

    let mut args_list = ArgumentList::new();
    let mut argument_str =
        ParsableValueArgument::new_string(ArgumentIdentification::Long(String::from("hello")));
    args_list.register_parsable(ParsableHandle::Text(&mut argument_str));
    args_list.append_arg(Argument::new(Some('n'), None, ArgType::Value).unwrap());
    args_list
        .parse_args(args)
        .expect("Failed while parsing arguments");
    assert_eq!(
        args_list
            .search_by_short_name('n')
            .unwrap()
            .get_value()
            .unwrap(),
        "5"
    );
    assert_eq!(argument_str.first_value().unwrap(), "Hello World!");
    assert_eq!(argument_str.values().get(1).unwrap(), "Witaj Świecie!");
}
