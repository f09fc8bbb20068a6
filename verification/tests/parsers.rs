use trace2power::parsers::sdc::{clock_period, SdcCommand, SdcError};
use trace2power::parsers::spef::{
    find_t_unit, find_t_unit_in_line, parse_time, split_words, trim, SpefError,
};

fn strings(names: &[&str]) -> Vec<String> {
    names.iter().map(|name| name.to_string()).collect()
}

fn create_clock(period: &str) -> SdcCommand {
    SdcCommand::CreateClock { period: period.to_string() }
}

fn set(name: &str, value: &str) -> SdcCommand {
    SdcCommand::SetVariable { variable_name: name.to_string(), value: value.to_string() }
}

fn period(commands: Vec<SdcCommand>) -> Option<(String, bool)> {
    match clock_period(&commands) {
        Ok(found) => found.map(|period| (period.text, period.from_variable)),
        Err(e) => panic!("no period: {:?}", e),
    }
}

#[test]
fn trimming_white_space() {
    assert_eq!(trim("  a b \t\n"), "a b");
    assert_eq!(trim("a"), "a");
    assert_eq!(trim(""), "");
    assert_eq!(trim(" \t "), "");
    assert_eq!(trim("\u{a0}x\u{3000}"), "x");
    assert_eq!(trim("x y"), "x y");
}

#[test]
fn splitting_into_words() {
    assert_eq!(split_words("1 NS"), strings(&["1", "NS"]));
    assert_eq!(split_words("  10.5\t PS  "), strings(&["10.5", "PS"]));
    assert_eq!(split_words(""), strings(&[]));
    assert_eq!(split_words(" \n "), strings(&[]));
    assert_eq!(split_words("abc"), strings(&["abc"]));
    assert_eq!(split_words("a b  c"), strings(&["a", "b", "c"]));
}

#[test]
fn time_unit_fields() {
    match parse_time("1 NS") {
        Ok(unit) => assert_eq!((unit.scale.as_str(), unit.exponent), ("1", -9)),
        Err(e) => panic!("no unit: {:?}", e),
    }
    match parse_time(" 2.5   PS ") {
        Ok(unit) => assert_eq!((unit.scale.as_str(), unit.exponent), ("2.5", -12)),
        Err(e) => panic!("no unit: {:?}", e),
    }
    match parse_time("x PS") {
        Ok(unit) => assert_eq!((unit.scale.as_str(), unit.exponent), ("x", -12)),
        Err(e) => panic!("no unit: {:?}", e),
    }
    assert_eq!(parse_time("1 US").err(), Some(SpefError::UnknownTimeUnit));
    assert_eq!(parse_time("1 ns").err(), Some(SpefError::UnknownTimeUnit));
    assert_eq!(parse_time("1NS").err(), Some(SpefError::UnparsableTime));
    assert_eq!(parse_time("").err(), Some(SpefError::UnparsableTime));
    assert_eq!(parse_time("1 NS x").err(), Some(SpefError::UnparsableTime));
}

#[test]
fn time_unit_lines() {
    assert_eq!(find_t_unit_in_line("*T_UNIT 1 NS"), Some("1 NS".to_string()));
    assert_eq!(find_t_unit_in_line("  *T_UNIT   10 PS  "), Some("10 PS".to_string()));
    assert_eq!(find_t_unit_in_line("T_UNIT 1 NS"), Some("1 NS".to_string()));
    assert_eq!(find_t_unit_in_line("*a*T_UNIT1NS"), Some("1NS".to_string()));
    assert_eq!(find_t_unit_in_line("*T_UNIT"), Some("".to_string()));
    assert_eq!(find_t_unit_in_line("*T_UNIT 1 NS*"), None);
    assert_eq!(find_t_unit_in_line("* T_UNIT 1 NS"), None);
    assert_eq!(find_t_unit_in_line("*C_UNIT 1 PF"), None);
    assert_eq!(find_t_unit_in_line("*T_UNI"), None);
    assert_eq!(find_t_unit_in_line(""), None);
    assert_eq!(find_t_unit_in_line("   "), None);
}

#[test]
fn first_time_unit_line_counts() {
    let lines = strings(&["*SPEF \"IEEE 1481\"", "", "*T_UNIT 1 NS", "*C_UNIT 1 PF", "*T_UNIT 5 PS"]);
    assert_eq!(find_t_unit(&lines), Some("1 NS".to_string()));
    assert_eq!(find_t_unit(&strings(&["*C_UNIT 1 PF", ""])), None);
    assert_eq!(find_t_unit(&strings(&[])), None);
}

#[test]
fn clock_period_is_that_of_the_last_create_clock() {
    assert_eq!(period(vec![]), None);
    assert_eq!(period(vec![SdcCommand::Other, set("p", "4")]), None);
    assert_eq!(period(vec![create_clock("10.0")]), Some(("10.0".to_string(), false)));
    assert_eq!(
        period(vec![create_clock("10.0"), SdcCommand::Other, create_clock("2")]),
        Some(("2".to_string(), false))
    );
    assert_eq!(period(vec![create_clock("")]), Some(("".to_string(), false)));
}

#[test]
fn clock_period_from_a_variable() {
    assert_eq!(
        period(vec![set("period", "5.5"), create_clock("$period")]),
        Some(("5.5".to_string(), true))
    );
    // The value at the time of the command counts.
    assert_eq!(
        period(vec![set("p", "1"), set("p", "2"), create_clock("$p"), set("p", "3")]),
        Some(("2".to_string(), true))
    );
    assert_eq!(
        period(vec![set("", "7"), create_clock("$")]),
        Some(("7".to_string(), true))
    );
}

#[test]
fn clock_period_of_an_unset_variable_is_an_error() {
    assert_eq!(
        clock_period(&vec![create_clock("$p"), set("p", "1")]).err(),
        Some(SdcError::UndefinedVariable)
    );
    assert_eq!(
        clock_period(&vec![set("q", "1"), create_clock("$p"), create_clock("3")]).err(),
        Some(SdcError::UndefinedVariable)
    );
}

#[test]
fn white_space_is_the_listed_set() {
    let listed = |n: u32| {
        (0x09..=0x0d).contains(&n)
            || n == 0x20
            || n == 0x85
            || n == 0xa0
            || n == 0x1680
            || (0x2000..=0x200a).contains(&n)
            || n == 0x2028
            || n == 0x2029
            || n == 0x202f
            || n == 0x205f
            || n == 0x3000
    };
    let mut text = String::new();
    for n in 0..=0x10ffffu32 {
        if let Some(c) = char::from_u32(n) {
            text.clear();
            text.push(c);
            assert_eq!(trim(&text).is_empty(), listed(n), "U+{:04X}", n);
        }
    }
}
