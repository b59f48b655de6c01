use futaba::command::{basis_argument, parse_decimal, position, user_argument, year_argument};
use futaba::command::{CommandDataOption, CommandHelper, OptionValue, Subcommand};
use futaba::stats::StreakBasis;

fn option(name: &str, value: Option<OptionValue>) -> CommandDataOption {
    CommandDataOption { name: name.to_string(), value, options: Vec::new() }
}

#[test]
fn subcommands_are_known_by_their_names() {
    assert_eq!(Subcommand::from_name("year"), Some(Subcommand::Year));
    assert_eq!(Subcommand::from_name("streaks"), Some(Subcommand::Streaks));
    assert_eq!(Subcommand::from_name("user"), Some(Subcommand::User));
    assert_eq!(Subcommand::from_name("total"), Some(Subcommand::Total));
    assert_eq!(Subcommand::from_name("Total"), None);
    assert_eq!(Subcommand::from_name(""), None);
}

#[test]
fn bases_are_known_by_their_names() {
    assert_eq!(StreakBasis::from_name("current"), Some(StreakBasis::Current));
    assert_eq!(StreakBasis::from_name("longest"), Some(StreakBasis::Longest));
    assert_eq!(StreakBasis::from_name("shortest"), None);
}

#[test]
fn decimal_texts_are_read() {
    assert_eq!(parse_decimal("0"), Some(0));
    assert_eq!(parse_decimal("7"), Some(7));
    assert_eq!(parse_decimal("175928847299117063"), Some(175_928_847_299_117_063));
    assert_eq!(parse_decimal("0042"), Some(42));
    assert_eq!(parse_decimal("18446744073709551615"), Some(u64::MAX));
    assert_eq!(parse_decimal("00018446744073709551615"), Some(u64::MAX));
}

#[test]
fn other_texts_are_no_numbers() {
    assert_eq!(parse_decimal(""), None);
    assert_eq!(parse_decimal("18446744073709551616"), None);
    assert_eq!(parse_decimal("99999999999999999999999"), None);
    assert_eq!(parse_decimal("184467440737095516150"), None);
    assert_eq!(parse_decimal("-1"), None);
    assert_eq!(parse_decimal("+1"), None);
    assert_eq!(parse_decimal("12a"), None);
    assert_eq!(parse_decimal("a12"), None);
    assert_eq!(parse_decimal(" 12"), None);
    assert_eq!(parse_decimal("１２"), None);
    assert_eq!(parse_decimal("99999999999999999999x"), None);
}

#[test]
fn the_year_argument() {
    assert_eq!(year_argument(Some(&OptionValue::Integer(2024))), Some(2024));
    assert_eq!(year_argument(Some(&OptionValue::Integer(0))), Some(0));
    assert_eq!(year_argument(Some(&OptionValue::Integer(i32::MAX as i128))), Some(i32::MAX));
    assert_eq!(year_argument(Some(&OptionValue::Integer(i32::MAX as i128 + 1))), None);
    assert_eq!(year_argument(Some(&OptionValue::Integer(-2024))), None);
    assert_eq!(year_argument(Some(&OptionValue::Text("2024".to_string()))), None);
    assert_eq!(year_argument::<OptionValue>(None), None);
    assert_eq!(year_argument(Some(&option("year", Some(OptionValue::Integer(1999))))), Some(1999));
    assert_eq!(year_argument(Some(&option("year", None))), None);
}

#[test]
fn the_basis_argument() {
    let current = OptionValue::Text("current".to_string());
    assert_eq!(basis_argument(Some(&current)), Some(StreakBasis::Current));
    let longest = option("type", Some(OptionValue::Text("longest".to_string())));
    assert_eq!(basis_argument(Some(&longest)), Some(StreakBasis::Longest));
    assert_eq!(basis_argument(Some(&OptionValue::Text("best".to_string()))), None);
    assert_eq!(basis_argument(Some(&OptionValue::Integer(1))), None);
    assert_eq!(basis_argument::<OptionValue>(None), None);
}

#[test]
fn the_user_argument() {
    let given = OptionValue::Text("175928847299117063".to_string());
    assert_eq!(user_argument(Some(&given), 5), Some(175_928_847_299_117_063));
    assert_eq!(user_argument::<OptionValue>(None, 5), Some(5));
    assert_eq!(user_argument(Some(&OptionValue::Text("someone".to_string())), 5), None);
    assert_eq!(user_argument(Some(&OptionValue::Integer(7)), 5), None);
}

#[test]
fn names_are_found_at_their_first_place() {
    let names = ["a", "b", "a", "c"];
    assert_eq!(position(&names, &"a".to_string()), Some(0));
    assert_eq!(position(&names, &"b".to_string()), Some(1));
    assert_eq!(position(&names, &"c".to_string()), Some(3));
    assert_eq!(position(&names, &"d".to_string()), None);
    assert_eq!(position(&[], &"a".to_string()), None);
}

#[test]
fn options_are_picked_by_name() {
    let options = vec![
        option("user", Some(OptionValue::Text("1".to_string()))),
        option("year", Some(OptionValue::Integer(2023))),
        option("other", None),
        option("year", Some(OptionValue::Integer(2024))),
    ];
    let picked = options.get_options(&["year", "missing", "user"]);
    assert_eq!(picked, vec![Some(&options[3]), None, Some(&options[0])]);
    let twice = options.get_options(&["year", "year"]);
    assert_eq!(twice, vec![Some(&options[3]), None]);
    assert_eq!(options.get_options(&[]), Vec::new());
    assert_eq!(Vec::new().get_options(&["year"]), vec![None]);
}

#[test]
fn options_below_an_option_are_picked_by_name() {
    let command = CommandDataOption {
        name: "streaks".to_string(),
        value: None,
        options: vec![option("type", Some(OptionValue::Text("current".to_string())))],
    };
    let picked = command.get_options(&["type"]);
    assert_eq!(picked, vec![Some(&command.options[0])]);
    assert_eq!(basis_argument(picked[0]), Some(StreakBasis::Current));
}
