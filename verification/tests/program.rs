use edge_data_exfil::algorithms::AlgorithmName;
use edge_data_exfil::commands::{get_commands, Command, CommandMethod, CommandSearch, CCARD_AMEX};
use edge_data_exfil::httpbody::BodyBytes;
use edge_data_exfil::program::{
    any_match, find_and_replace, process_command, run_command, step, MatchReport,
};
use edge_data_exfil::search::ScanError;
use edge_data_exfil::secrets::Secret;
use edge_data_exfil::utilities::{percent_hit, should_execute};
use percentage::Percentage;

const AMEX: &str = r"(35\d{13}|37\d{13})";
const TEXT: &str = "card: 378282246310005 end";

fn command<'a>(
    name: CommandMethod,
    percent: u8,
    algorithm: Option<AlgorithmName>,
    secrets: Vec<Secret<'a>>,
) -> Command<'a> {
    Command::new(name, vec![CommandSearch::SearchBody], Percentage::from(percent), algorithm, secrets)
}

fn amex(name: CommandMethod, algorithm: Option<AlgorithmName>) -> Command<'static> {
    command(name, 100, algorithm, vec![Secret::new("amex", AMEX)])
}

fn body(text: &str) -> BodyBytes {
    BodyBytes(text.as_bytes().to_vec())
}

#[test]
fn the_program_is_one_amex_search() {
    let commands = get_commands();
    assert_eq!(commands.len(), 1);
    assert_eq!(commands[0].name, CommandMethod::FindAnyMatch);
    assert_eq!(commands[0].search, vec![CommandSearch::SearchBody]);
    assert_eq!(commands[0].percent.value(), 100);
    assert_eq!(commands[0].algorithm, None);
    assert_eq!(commands[0].secrets.len(), 1);
    assert_eq!(commands[0].secrets[0].name, "amex");
    assert_eq!(commands[0].secrets[0].regex, r"(35\d{13}|37\d{13})");
    assert_eq!(CCARD_AMEX, r"(35\d{13}|37\d{13})");
}

#[test]
fn the_program_finds_an_amex_number() {
    let commands = get_commands();
    let mut b = body(TEXT);
    let reports = process_command(&mut b, &commands).unwrap();
    assert_eq!(reports.len(), 1);
    assert!(matches!(reports[0], MatchReport::AnyMatch(true)));
    assert_eq!(b.0, TEXT.as_bytes().to_vec());
    let mut clean = body("nothing here");
    let reports = process_command(&mut clean, &commands).unwrap();
    assert!(matches!(reports[0], MatchReport::AnyMatch(false)));
}

#[test]
fn command_keeps_what_it_is_given() {
    let c = Command::new(
        CommandMethod::FindRegexes,
        vec![],
        Percentage::from(42),
        Some(AlgorithmName::LuhnNumbers),
        vec![Secret::new("a", "(b)"), Secret::new("c", "(d)")],
    );
    assert_eq!(c.name, CommandMethod::FindRegexes);
    assert!(c.search.is_empty());
    assert_eq!(c.percent.value(), 42);
    assert_eq!(c.algorithm, Some(AlgorithmName::LuhnNumbers));
    assert_eq!(c.secrets.len(), 2);
    assert_eq!(c.secrets[1].name, "c");
    assert_eq!(c.secrets[1].regex, "(d)");
    assert!(!c.targets_body());
    assert!(amex(CommandMethod::Bypass, None).targets_body());
}

#[test]
fn secret_keeps_what_it_is_given() {
    let s = Secret::new("amex", AMEX);
    assert_eq!(s.name, "amex");
    assert_eq!(s.regex, AMEX);
}

#[test]
fn each_operation_reports_in_its_own_shape() {
    let luhn = Some(AlgorithmName::LuhnNumbers);
    let mut b = body(TEXT);
    assert!(matches!(run_command(&mut b, &amex(CommandMethod::Bypass, luhn)), Ok(MatchReport::Bypassed)));
    assert!(matches!(
        run_command(&mut b, &amex(CommandMethod::FindAnyMatch, luhn)),
        Ok(MatchReport::AnyMatch(true))
    ));
    match run_command(&mut b, &amex(CommandMethod::FindNames, luhn)) {
        Ok(MatchReport::Names(names)) => assert_eq!(names, vec!["amex"]),
        other => panic!("{:?}", other),
    }
    match run_command(&mut b, &amex(CommandMethod::FindRegexes, luhn)) {
        Ok(MatchReport::Regexes(regexes)) => assert_eq!(regexes, vec![AMEX]),
        other => panic!("{:?}", other),
    }
    match run_command(&mut b, &amex(CommandMethod::FindIndexes, luhn)) {
        Ok(MatchReport::Indexes(indexes)) => assert_eq!(indexes, vec![0]),
        other => panic!("{:?}", other),
    }
    match run_command(&mut b, &amex(CommandMethod::FindCaptures, luhn)) {
        Ok(MatchReport::Captures(values)) => assert_eq!(values, vec!["378282246310005"]),
        other => panic!("{:?}", other),
    }
    assert_eq!(b.0, TEXT.as_bytes().to_vec());
    match run_command(&mut b, &amex(CommandMethod::ReplaceMatches, luhn)) {
        Ok(MatchReport::Replaced(indexes)) => assert_eq!(indexes, vec![0]),
        other => panic!("{:?}", other),
    }
    assert_eq!(b.0, b"card: xxxxxxxxxxxxxxx end".to_vec());
    assert_eq!(b.0.len(), TEXT.len());
}

#[test]
fn nothing_matches_in_any_operation() {
    for algorithm in [None, Some(AlgorithmName::LuhnNumbers)] {
        let mut b = body("no card in here 1234");
        assert!(matches!(
            run_command(&mut b, &amex(CommandMethod::FindAnyMatch, algorithm)),
            Ok(MatchReport::AnyMatch(false))
        ));
        match run_command(&mut b, &amex(CommandMethod::FindNames, algorithm)) {
            Ok(MatchReport::Names(names)) => assert!(names.is_empty()),
            other => panic!("{:?}", other),
        }
        match run_command(&mut b, &amex(CommandMethod::FindRegexes, algorithm)) {
            Ok(MatchReport::Regexes(regexes)) => assert!(regexes.is_empty()),
            other => panic!("{:?}", other),
        }
        match run_command(&mut b, &amex(CommandMethod::FindIndexes, algorithm)) {
            Ok(MatchReport::Indexes(indexes)) => assert!(indexes.is_empty()),
            other => panic!("{:?}", other),
        }
        match run_command(&mut b, &amex(CommandMethod::FindCaptures, algorithm)) {
            Ok(MatchReport::Captures(values)) => assert!(values.is_empty()),
            other => panic!("{:?}", other),
        }
        match run_command(&mut b, &amex(CommandMethod::ReplaceMatches, algorithm)) {
            Ok(MatchReport::Replaced(indexes)) => assert!(indexes.is_empty()),
            other => panic!("{:?}", other),
        }
        assert_eq!(b.0, b"no card in here 1234".to_vec());
    }
}

#[test]
fn any_match_asks_the_algorithm_when_there_is_one() {
    let wrong = body("card: 378282246310006 end");
    assert_eq!(any_match(&wrong, &amex(CommandMethod::FindAnyMatch, None)), Ok(true));
    assert_eq!(
        any_match(&wrong, &amex(CommandMethod::FindAnyMatch, Some(AlgorithmName::AlwaysTrue))),
        Ok(true)
    );
    assert_eq!(
        any_match(&wrong, &amex(CommandMethod::FindAnyMatch, Some(AlgorithmName::LuhnNumbers))),
        Ok(false)
    );
    let right = body(TEXT);
    assert_eq!(
        any_match(&right, &amex(CommandMethod::FindAnyMatch, Some(AlgorithmName::LuhnNumbers))),
        Ok(true)
    );
}

#[test]
fn replace_masks_only_what_the_algorithm_confirms() {
    let secrets = vec![Secret::new("amex", AMEX), Secret::new("visa16", r"(4\d{15})")];
    let cmd = command(CommandMethod::ReplaceMatches, 100, Some(AlgorithmName::LuhnNumbers), secrets);
    let mut b = body("378282246310006 4111111111111111");
    assert_eq!(find_and_replace(&mut b, &cmd), Ok(vec![1]));
    assert_eq!(b.0, b"378282246310006 xxxxxxxxxxxxxxxx".to_vec());
}

#[test]
fn a_confirmed_pattern_is_masked_at_every_occurrence() {
    let cmd = amex(CommandMethod::ReplaceMatches, Some(AlgorithmName::LuhnNumbers));
    let mut b = body("378282246310006 378282246310005");
    assert_eq!(find_and_replace(&mut b, &cmd), Ok(vec![0]));
    assert_eq!(b.0, b"xxxxxxxxxxxxxxx xxxxxxxxxxxxxxx".to_vec());
}

#[test]
fn faults_leave_the_body_and_end_the_program() {
    let broken = || vec![Secret::new("amex", AMEX), Secret::new("broken", "(")];
    for name in [
        CommandMethod::FindAnyMatch,
        CommandMethod::FindNames,
        CommandMethod::FindRegexes,
        CommandMethod::FindIndexes,
        CommandMethod::FindCaptures,
        CommandMethod::ReplaceMatches,
    ] {
        for algorithm in [None, Some(AlgorithmName::LuhnNumbers)] {
            let mut b = body(TEXT);
            let cmd = command(name, 100, algorithm, broken());
            assert!(matches!(run_command(&mut b, &cmd), Err(ScanError::Catalog)));
            assert_eq!(b.0, TEXT.as_bytes().to_vec());
        }
    }
    let mut b = body(TEXT);
    assert!(matches!(
        run_command(&mut b, &command(CommandMethod::Bypass, 100, None, broken())),
        Ok(MatchReport::Bypassed)
    ));
    let commands = vec![
        amex(CommandMethod::ReplaceMatches, None),
        command(CommandMethod::FindNames, 100, None, broken()),
        command(CommandMethod::Bypass, 100, None, vec![]),
    ];
    assert!(matches!(process_command(&mut b, &commands), Err(ScanError::Catalog)));
    assert_eq!(b.0, b"card: xxxxxxxxxxxxxxx end".to_vec());
}

#[test]
fn the_draw_decides_whether_a_command_runs() {
    let half = command(CommandMethod::FindIndexes, 50, None, vec![Secret::new("amex", AMEX)]);
    let mut b = body(TEXT);
    assert!(matches!(step(&mut b, &half, 0), Ok(MatchReport::Indexes(_))));
    assert!(matches!(step(&mut b, &half, 49), Ok(MatchReport::Indexes(_))));
    assert!(matches!(step(&mut b, &half, 50), Ok(MatchReport::Skipped)));
    assert!(matches!(step(&mut b, &half, 99), Ok(MatchReport::Skipped)));
    let never = command(CommandMethod::ReplaceMatches, 0, None, vec![Secret::new("amex", AMEX)]);
    for draw in 0..100 {
        assert!(matches!(step(&mut b, &never, draw), Ok(MatchReport::Skipped)));
    }
    assert_eq!(b.0, TEXT.as_bytes().to_vec());
    let always = command(CommandMethod::ReplaceMatches, 100, None, vec![Secret::new("amex", AMEX)]);
    for draw in 0..100 {
        let mut fresh = body(TEXT);
        assert!(matches!(step(&mut fresh, &always, draw), Ok(MatchReport::Replaced(_))));
        assert_eq!(fresh.0, b"card: xxxxxxxxxxxxxxx end".to_vec());
    }
}

#[test]
fn a_command_that_does_not_search_the_body_is_skipped() {
    let cmd = Command::new(
        CommandMethod::ReplaceMatches,
        vec![],
        Percentage::from(100),
        None,
        vec![Secret::new("amex", AMEX)],
    );
    let mut b = body(TEXT);
    assert!(matches!(step(&mut b, &cmd, 0), Ok(MatchReport::Skipped)));
    let reports = process_command(&mut b, &vec![cmd]).unwrap();
    assert!(matches!(reports[0], MatchReport::Skipped));
    assert_eq!(b.0, TEXT.as_bytes().to_vec());
}

#[test]
fn commands_run_in_order_on_what_the_earlier_left() {
    let commands = vec![
        amex(CommandMethod::FindCaptures, Some(AlgorithmName::LuhnNumbers)),
        amex(CommandMethod::ReplaceMatches, Some(AlgorithmName::LuhnNumbers)),
        amex(CommandMethod::FindAnyMatch, None),
        command(CommandMethod::FindNames, 0, None, vec![Secret::new("amex", AMEX)]),
    ];
    let mut b = body(TEXT);
    let reports = process_command(&mut b, &commands).unwrap();
    assert_eq!(reports.len(), 4);
    match &reports[0] {
        MatchReport::Captures(values) => assert_eq!(values, &vec!["378282246310005".to_string()]),
        other => panic!("{:?}", other),
    }
    assert!(reports[0].is_sensitive());
    match &reports[1] {
        MatchReport::Replaced(indexes) => assert_eq!(indexes, &vec![0]),
        other => panic!("{:?}", other),
    }
    assert!(matches!(reports[2], MatchReport::AnyMatch(false)));
    assert!(matches!(reports[3], MatchReport::Skipped));
    assert!(!reports[1].is_sensitive());
    assert!(!reports[2].is_sensitive());
    assert!(!reports[3].is_sensitive());
    assert_eq!(b.0, b"card: xxxxxxxxxxxxxxx end".to_vec());
}

#[test]
fn an_empty_program_reports_nothing() {
    let mut b = body(TEXT);
    let reports = process_command(&mut b, &vec![]).unwrap();
    assert!(reports.is_empty());
    assert_eq!(b.0, TEXT.as_bytes().to_vec());
}

#[test]
fn only_captures_are_sensitive() {
    assert!(MatchReport::Captures(vec![]).is_sensitive());
    assert!(!MatchReport::Skipped.is_sensitive());
    assert!(!MatchReport::Bypassed.is_sensitive());
    assert!(!MatchReport::AnyMatch(true).is_sensitive());
    assert!(!MatchReport::Names(vec!["amex".to_string()]).is_sensitive());
    assert!(!MatchReport::Regexes(vec![]).is_sensitive());
    assert!(!MatchReport::Indexes(vec![0]).is_sensitive());
    assert!(!MatchReport::Replaced(vec![0]).is_sensitive());
}

#[test]
fn should_execute_compares_the_draw_with_the_percentage() {
    for draw in 0..100u8 {
        assert!(should_execute(100, draw));
        assert!(!should_execute(0, draw));
        assert_eq!(should_execute(30, draw), draw < 30);
    }
    assert!(should_execute(1, 0));
    assert!(!should_execute(1, 1));
    assert!(should_execute(99, 98));
    assert!(!should_execute(99, 99));
}

#[test]
fn sampling_rate_follows_the_percentage() {
    let trials: u32 = 100_000;
    let mut rng = rand::thread_rng();
    for percent in [0u8, 1, 10, 25, 50, 75, 90, 99, 100] {
        let p = Percentage::from(percent);
        let mut hits: u32 = 0;
        for _ in 0..trials {
            if percent_hit(&mut rng, &p) {
                hits += 1;
            }
        }
        if percent == 0 {
            assert_eq!(hits, 0);
        } else if percent == 100 {
            assert_eq!(hits, trials);
        } else {
            let rate = hits as f64 / trials as f64;
            let expected = percent as f64 / 100.0;
            assert!((rate - expected).abs() < 0.01, "{} gave {}", percent, rate);
        }
    }
}
