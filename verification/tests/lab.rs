use rf_limiter::index::{CEILING, LOOKAHEAD};
use rf_limiter::lab::{find_repository_root, parse_assignment, parse_option, repository_root, Options, ParseError, Reading};

fn arguments(words: &[&str]) -> Vec<String> {
    words.iter().map(|word| word.to_string()).collect()
}

#[test]
fn the_repository_root_is_two_levels_above_the_bench() {
    assert_eq!(repository_root("/work/rf-limiter/crates/rf-limiter-lab"), "/work/rf-limiter");
    assert_eq!(repository_root("a/b"), "");
    assert_eq!(find_repository_root("/work/rf-limiter/crates/rf-limiter-lab"), Some("/work/rf-limiter".to_string()));
    assert_eq!(find_repository_root("/top"), None);
    assert_eq!(find_repository_root("/"), None);
}

#[test]
fn an_assignment_names_a_parameter_by_identifier_or_index() {
    match parse_assignment("limiter.ceiling=-3") {
        Ok((index, value)) => {
            assert_eq!(index, CEILING);
            assert_eq!(value, "-3");
        }
        Err(_) => panic!("refused"),
    }
    match parse_assignment("4=5=6") {
        Ok((index, value)) => {
            assert_eq!(index, LOOKAHEAD);
            assert_eq!(value, "5=6");
        }
        Err(_) => panic!("refused"),
    }
    match parse_assignment("+17=x") {
        Ok((index, value)) => {
            assert_eq!(index, 17);
            assert_eq!(value, "x");
        }
        Err(_) => panic!("refused"),
    }
}

#[test]
fn a_bad_assignment_says_why() {
    assert!(matches!(parse_assignment("limiter.ceiling"), Err(ParseError::NoEquals { .. })));
    match parse_assignment("limiter.nothing=1") {
        Err(ParseError::UnknownParameter { key }) => assert_eq!(key, "limiter.nothing"),
        _ => panic!("accepted"),
    }
    assert!(matches!(parse_assignment("-1=2"), Err(ParseError::UnknownParameter { .. })));
    assert!(matches!(parse_assignment("99999999999=2"), Err(ParseError::UnknownParameter { .. })));
}

#[test]
fn options_are_read_two_arguments_at_a_time() {
    let given = arguments(&["--preset", "stage", "--set", "limiter.lookahead=5", "--out", "x.wav", "--seconds", "2"]);
    let mut options = Options::new();
    let mut index = 0;
    let mut readings = Vec::new();
    while index < given.len() {
        match parse_option(&given, index, &mut options) {
            Ok((reading, next)) => {
                assert_eq!(next, index + 2);
                readings.push(reading);
                index = next;
            }
            Err(_) => panic!("refused"),
        }
    }
    assert!(matches!(readings[0], Reading::Preset));
    assert!(matches!(readings[1], Reading::Assignment));
    assert!(matches!(readings[2], Reading::Output));
    assert!(matches!(readings[3], Reading::Seconds));
    assert_eq!(options.preset.as_deref(), Some("stage"));
    assert_eq!(options.overrides, vec![(LOOKAHEAD, "5".to_string())]);
    assert_eq!(options.output.as_deref(), Some("x.wav"));
    assert_eq!(options.input, None);
    assert_eq!(options.seconds.as_deref(), Some("2"));
}

#[test]
fn a_bad_option_is_refused_and_changes_nothing() {
    let mut options = Options::new();
    match parse_option(&arguments(&["--loud", "1"]), 0, &mut options) {
        Err(ParseError::UnknownOption { option }) => assert_eq!(option, "--loud"),
        _ => panic!("accepted"),
    }
    match parse_option(&arguments(&["--preset"]), 0, &mut options) {
        Err(ParseError::MissingValue { flag }) => assert_eq!(flag, "--preset"),
        _ => panic!("accepted"),
    }
    assert!(matches!(
        parse_option(&arguments(&["--set", "nothing=1"]), 0, &mut options),
        Err(ParseError::UnknownParameter { .. })
    ));
    assert!(options.preset.is_none());
    assert!(options.overrides.is_empty());
}
