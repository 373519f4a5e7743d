use wol::adjust::{Adjust, Channel, Op, ParseError, Value};
use wol::cli::{
    parse_args, select_by_id, select_by_name, select_matching, ArgError, Command, Selection, ValueFlag,
};
use wol::text::{contains_text, eq_ignore_ascii_case};

fn argv(a: &[&str]) -> Vec<String> {
    a.iter().map(|s| s.to_string()).collect()
}

fn run_args(a: &[&str]) -> wol::cli::Args {
    match parse_args(&argv(a)) {
        Ok(Command::Run(x)) => x,
        _ => panic!("expected adjustments"),
    }
}

#[test]
fn flags_and_adjustments() {
    let x = run_args(&["-qf", "--device=Speakers", "L40", "", "-5"]);
    assert!(x.quiet && x.force && !x.dry);
    assert_eq!(x.device.as_deref(), Some("Speakers"));
    assert_eq!(x.id, None);
    assert_eq!(
        x.adjusts,
        vec![
            Adjust { op: Op::Assign, chan: Channel::N(0), val: Value::N(40) },
            Adjust { op: Op::Dec, chan: Channel::Master, val: Value::N(5) },
        ]
    );
}

#[test]
fn value_flags_take_the_next_token() {
    let x = run_args(&["-dHead", "-n", "-i", "{0.0.1}"]);
    assert_eq!(x.device.as_deref(), Some("Head"));
    assert_eq!(x.id.as_deref(), Some("{0.0.1}"));
    assert!(x.dry);
}

#[test]
fn help_version_and_list_stop_reading() {
    assert!(matches!(parse_args(&argv(&["-h", "bogus"])), Ok(Command::Help)));
    assert!(matches!(parse_args(&argv(&["--version"])), Ok(Command::Version)));
    assert!(matches!(parse_args(&argv(&["-ql"])), Ok(Command::List)));
}

#[test]
fn missing_value_for_device() {
    assert!(matches!(
        parse_args(&argv(&["-d"])),
        Err(ArgError::MissingValue(ValueFlag::Device))
    ));
    assert!(matches!(
        parse_args(&argv(&["--id"])),
        Err(ArgError::MissingValue(ValueFlag::Id))
    ));
}

#[test]
fn unknown_option_is_rejected() {
    match parse_args(&argv(&["-x"])) {
        Err(ArgError::UnknownOption(t)) => assert_eq!(t, "-x"),
        _ => panic!("expected an unknown option"),
    }
}

#[test]
fn bad_adjustment_is_reported_with_its_text() {
    match parse_args(&argv(&["L40", "101"])) {
        Err(ArgError::BadAdjustment(t, e)) => {
            assert_eq!(t, "101");
            assert_eq!(e, ParseError::ValueOutOfRange);
        }
        _ => panic!("expected a bad adjustment"),
    }
}

#[test]
fn tokens_after_a_second_double_dash_are_adjustments() {
    let x = run_args(&["--", "--", "-5", "r+1"]);
    assert_eq!(
        x.adjusts,
        vec![
            Adjust { op: Op::Dec, chan: Channel::Master, val: Value::N(5) },
            Adjust { op: Op::Inc, chan: Channel::N(1), val: Value::N(1) },
        ]
    );
}

#[test]
fn no_arguments_run_with_defaults() {
    let x = run_args(&[]);
    assert!(!x.force && !x.dry && !x.quiet);
    assert!(x.adjusts.is_empty());
}

#[test]
fn name_query_ignores_case() {
    let names = argv(&["Speakers (Realtek)", "Headphones", "SPDIF Out"]);
    assert!(matches!(select_by_name(&names, "speaker"), Selection::One(0)));
    assert!(matches!(select_by_name(&names, "phone"), Selection::One(1)));
    assert!(matches!(select_by_name(&names, "hdmi"), Selection::NoMatch));
    match select_by_name(&names, "e") {
        Selection::Ambiguous(v) => assert_eq!(v, vec![0, 1]),
        _ => panic!("expected several matches"),
    }
}

#[test]
fn non_ascii_names_are_uppercased() {
    let names = argv(&["Lautsprecher Straße"]);
    assert!(matches!(select_by_name(&names, "STRASSE"), Selection::One(0)));
}

#[test]
fn id_query_ignores_ascii_case() {
    let ids = vec![None, Some("{0.0.0}.{AB-cd}".to_string()), Some("{0.0.0}.{ab-CD}".to_string())];
    assert_eq!(select_by_id(&ids, "{0.0.0}.{ab-cd}"), Some(1));
    assert_eq!(select_by_id(&ids, "{0.0.0}.{ab-c}"), None);
    assert!(eq_ignore_ascii_case("Ab1", "aB1"));
    assert!(!eq_ignore_ascii_case("Ab1", "aB2"));
}

#[test]
fn substring_search() {
    assert!(contains_text("HEADPHONES", "PHONE"));
    assert!(contains_text("abc", ""));
    assert!(!contains_text("ab", "abc"));
    assert!(!contains_text("ABC", "abc"));
}

#[test]
fn matching_is_case_sensitive_on_given_texts() {
    let texts = argv(&["SPEAKERS", "speakers", "HEADSET"]);
    assert!(matches!(select_matching(&texts, "SPEAK"), Selection::One(0)));
    assert!(matches!(select_matching(&texts, "mic"), Selection::NoMatch));
    match select_matching(&texts, "E") {
        Selection::Ambiguous(v) => assert_eq!(v, vec![0, 2]),
        _ => panic!("expected several matches"),
    }
}

#[test]
fn commit_only_when_adjusting_and_not_dry() {
    assert!(!run_args(&[]).wants_commit());
    assert!(run_args(&["50"]).wants_commit());
    assert!(!run_args(&["-n", "50"]).wants_commit());
}
