use net_spider::ascii::{parse_usize, split_ascii_whitespace};
use net_spider::text::push_decimal;
use net_spider::command::{
    parse_command, parse_expander_scoped_slot, parse_prefixed_0_based, parse_prefixed_1_based,
    parse_slot, parse_state, strip_ascii_prefix, ParsedCommand, EMPTY_COMMAND, MISSING_ALL_STATE,
    MISSING_SET_PIN, MISSING_SET_STATE, MISSING_STATE, TOO_MANY_ARGUMENTS, UNKNOWN_PIN,
    UNKNOWN_STATE,
};
use net_spider::drive::DriveState;

#[test]
fn state_aliases_for_high() {
    for word in ["HIGH", "high", "H", "h", "ON", "On", "1"] {
        assert_eq!(parse_state(word.as_bytes()), Ok(DriveState::High), "{word}");
    }
}

#[test]
fn state_aliases_for_low() {
    for word in ["LOW", "low", "L", "l", "OFF", "oFf", "0"] {
        assert_eq!(parse_state(word.as_bytes()), Ok(DriveState::Low), "{word}");
    }
}

#[test]
fn state_aliases_for_high_impedance() {
    for word in ["HI-Z", "hi-z", "Z", "z", "NEUTRAL", "neutral", "FLOAT", "Float"] {
        assert_eq!(parse_state(word.as_bytes()), Ok(DriveState::HiZ), "{word}");
    }
}

#[test]
fn unknown_states_are_refused() {
    for word in ["", "HIGHER", "2", "HIZ", "OFFF", "-"] {
        assert_eq!(parse_state(word.as_bytes()), Err(UNKNOWN_STATE), "{word}");
    }
    assert_eq!(UNKNOWN_STATE, "unknown state, use HIGH, LOW, or HI-Z");
}

#[test]
fn local_pin_selectors() {
    assert_eq!(parse_slot(b"P1"), Ok(0));
    assert_eq!(parse_slot(b"p8"), Ok(7));
    assert_eq!(parse_slot(b"1"), Ok(0));
    assert_eq!(parse_slot(b"8"), Ok(7));
    assert_eq!(parse_slot(b"GP2"), Ok(0));
    assert_eq!(parse_slot(b"gp9"), Ok(7));
}

#[test]
fn global_expander_slots() {
    assert_eq!(parse_slot(b"P9"), Ok(8));
    assert_eq!(parse_slot(b"P24"), Ok(23));
    assert_eq!(parse_slot(b"P25"), Ok(24));
    assert_eq!(parse_slot(b"P136"), Ok(135));
    assert_eq!(parse_slot(b"9"), Ok(8));
    assert_eq!(parse_slot(b"136"), Ok(135));
}

#[test]
fn first_expander_aliases() {
    assert_eq!(parse_slot(b"X1"), Ok(8));
    assert_eq!(parse_slot(b"X16"), Ok(23));
    assert_eq!(parse_slot(b"M1"), Ok(8));
    assert_eq!(parse_slot(b"m16"), Ok(23));
    assert_eq!(parse_slot(b"GPA0"), Ok(8));
    assert_eq!(parse_slot(b"GPA7"), Ok(15));
    assert_eq!(parse_slot(b"GPB0"), Ok(16));
    assert_eq!(parse_slot(b"gpb7"), Ok(23));
}

#[test]
fn explicit_expander_aliases() {
    assert_eq!(parse_slot(b"E1X1"), Ok(8));
    assert_eq!(parse_slot(b"E2X3"), Ok(26));
    assert_eq!(parse_slot(b"E8X16"), Ok(135));
    assert_eq!(parse_slot(b"E2GPB0"), Ok(32));
    assert_eq!(parse_slot(b"E1GPA0"), Ok(8));
    assert_eq!(parse_slot(b"E8GPB7"), Ok(135));
    assert_eq!(parse_slot(b"e3m2"), Ok(41));
    assert_eq!(parse_slot(b"E01X1"), Ok(8));
}

#[test]
fn explicit_alias_and_global_number_agree() {
    for n in 1..=8usize {
        for m in 1..=16usize {
            let explicit = format!("E{n}X{m}");
            let global = format!("P{}", 8 + (n - 1) * 16 + m);
            assert_eq!(parse_slot(explicit.as_bytes()), parse_slot(global.as_bytes()));
            assert_eq!(parse_slot(global.as_bytes()), Ok(8 + (n - 1) * 16 + m - 1));
        }
    }
}

#[test]
fn unknown_pins_are_refused() {
    for word in [
        "P0", "P137", "0", "137", "GP1", "GP10", "X0", "X17", "M17", "GPA8", "GPB8", "E0X1",
        "E9X1", "E1X17", "E1", "E", "EX1", "Q1", "", "P", "P-1",
    ] {
        assert_eq!(parse_slot(word.as_bytes()), Err(UNKNOWN_PIN), "{word}");
    }
    assert_eq!(
        UNKNOWN_PIN,
        "unknown pin, use P1..P136, GP2..GP9, X1..X16, GPA0..GPB7, or E1X1..E8GPB7"
    );
}

#[test]
fn numbers_read_like_usize_from_str() {
    assert_eq!(parse_slot(b"P+5"), Ok(4));
    assert_eq!(parse_slot(b"P005"), Ok(4));
    assert_eq!(parse_slot(b"+3"), Ok(2));
    assert_eq!(parse_slot(b"P99999999999999999999999"), Err(UNKNOWN_PIN));
    assert_eq!(parse_slot(b"P5 "), Err(UNKNOWN_PIN));
}

#[test]
fn prefix_helpers() {
    assert_eq!(strip_ascii_prefix(b"gpa3", "GPA"), Some(&b"3"[..]));
    assert_eq!(strip_ascii_prefix(b"GPA", "GPA"), Some(&b""[..]));
    assert_eq!(strip_ascii_prefix(b"G", "GP"), None);
    assert_eq!(strip_ascii_prefix(b"XP1", "P"), None);
    assert_eq!(parse_prefixed_1_based(b"X16", "X", 16), Some(16));
    assert_eq!(parse_prefixed_1_based(b"X17", "X", 16), None);
    assert_eq!(parse_prefixed_1_based(b"X0", "X", 16), None);
    assert_eq!(parse_prefixed_0_based(b"GPA7", "GPA", 8), Some(7));
    assert_eq!(parse_prefixed_0_based(b"GPA8", "GPA", 8), None);
    assert_eq!(parse_prefixed_0_based(b"gpa0", "GPA", 8), Some(0));
}

#[test]
fn expander_scoped_slots() {
    assert_eq!(parse_expander_scoped_slot(b"E2M1"), Some(24));
    assert_eq!(parse_expander_scoped_slot(b"E8GPB7"), Some(135));
    assert_eq!(parse_expander_scoped_slot(b"E"), None);
    assert_eq!(parse_expander_scoped_slot(b"EX1"), None);
    assert_eq!(parse_expander_scoped_slot(b"E9X1"), None);
    assert_eq!(parse_expander_scoped_slot(b"E1Y1"), None);
    assert_eq!(parse_expander_scoped_slot(b"P1"), None);
}

#[test]
fn readme_examples_parse() {
    assert_eq!(parse_command("HELP"), Ok(ParsedCommand::Help));
    assert_eq!(parse_command("STATUS"), Ok(ParsedCommand::Status));
    assert_eq!(
        parse_command("P1 HIGH"),
        Ok(ParsedCommand::SetOne { slot: 0, state: DriveState::High })
    );
    assert_eq!(
        parse_command("P5 LOW"),
        Ok(ParsedCommand::SetOne { slot: 4, state: DriveState::Low })
    );
    assert_eq!(
        parse_command("P8 HI-Z"),
        Ok(ParsedCommand::SetOne { slot: 7, state: DriveState::HiZ })
    );
    assert_eq!(
        parse_command("P12 HIGH"),
        Ok(ParsedCommand::SetOne { slot: 11, state: DriveState::High })
    );
    assert_eq!(
        parse_command("P25 LOW"),
        Ok(ParsedCommand::SetOne { slot: 24, state: DriveState::Low })
    );
    assert_eq!(
        parse_command("X3 LOW"),
        Ok(ParsedCommand::SetOne { slot: 10, state: DriveState::Low })
    );
    assert_eq!(
        parse_command("E2X3 LOW"),
        Ok(ParsedCommand::SetOne { slot: 26, state: DriveState::Low })
    );
    assert_eq!(
        parse_command("GPA7 HIGH"),
        Ok(ParsedCommand::SetOne { slot: 15, state: DriveState::High })
    );
    assert_eq!(
        parse_command("E2GPB0 HI-Z"),
        Ok(ParsedCommand::SetOne { slot: 32, state: DriveState::HiZ })
    );
    assert_eq!(
        parse_command("SET P4 H"),
        Ok(ParsedCommand::SetOne { slot: 3, state: DriveState::High })
    );
    assert_eq!(parse_command("ALL Z"), Ok(ParsedCommand::SetAll(DriveState::HiZ)));
}

#[test]
fn commands_ignore_case_and_extra_whitespace() {
    assert_eq!(parse_command("help"), Ok(ParsedCommand::Help));
    assert_eq!(parse_command("  Status \t"), Ok(ParsedCommand::Status));
    assert_eq!(
        parse_command("set\tp4   h "),
        Ok(ParsedCommand::SetOne { slot: 3, state: DriveState::High })
    );
    assert_eq!(parse_command("p1 high"), parse_command("P1 HIGH"));
    assert_eq!(parse_command("all hi-z"), parse_command("ALL HI-Z"));
    assert_eq!(parse_command("e2gpb0 z"), parse_command("E2GPB0 Z"));
}

#[test]
fn command_errors() {
    assert_eq!(parse_command(""), Err(EMPTY_COMMAND));
    assert_eq!(parse_command("   "), Err(EMPTY_COMMAND));
    assert_eq!(parse_command("ALL"), Err(MISSING_ALL_STATE));
    assert_eq!(parse_command("ALL HIGH X"), Err(TOO_MANY_ARGUMENTS));
    assert_eq!(parse_command("ALL UP"), Err(UNKNOWN_STATE));
    assert_eq!(parse_command("SET"), Err(MISSING_SET_PIN));
    assert_eq!(parse_command("SET P1"), Err(MISSING_SET_STATE));
    assert_eq!(parse_command("SET P1 H X"), Err(TOO_MANY_ARGUMENTS));
    assert_eq!(parse_command("SET Q1 H"), Err(UNKNOWN_PIN));
    assert_eq!(parse_command("P1"), Err(MISSING_STATE));
    assert_eq!(parse_command("P1 H X"), Err(TOO_MANY_ARGUMENTS));
    assert_eq!(parse_command("P1 FOO"), Err(UNKNOWN_STATE));
    assert_eq!(parse_command("Q1 HIGH"), Err(UNKNOWN_PIN));
    assert_eq!(parse_command("Q1 FOO"), Err(UNKNOWN_PIN));
}

#[test]
fn help_and_status_with_extra_words() {
    // The word after HELP or STATUS is taken, then the line is read as `<pin> <state>`.
    assert_eq!(parse_command("HELP X"), Err(MISSING_STATE));
    assert_eq!(parse_command("HELP X Y"), Err(UNKNOWN_PIN));
    assert_eq!(parse_command("STATUS now"), Err(MISSING_STATE));
    assert_eq!(parse_command("STATUS now HIGH"), Err(UNKNOWN_PIN));
    assert_eq!(parse_command("HELP X Y Z"), Err(TOO_MANY_ARGUMENTS));
}

#[test]
fn error_messages_match_the_firmware() {
    assert_eq!(EMPTY_COMMAND, "empty command");
    assert_eq!(MISSING_ALL_STATE, "missing state for ALL");
    assert_eq!(TOO_MANY_ARGUMENTS, "too many arguments");
    assert_eq!(MISSING_SET_PIN, "missing pin after SET");
    assert_eq!(MISSING_SET_STATE, "missing state after pin");
    assert_eq!(MISSING_STATE, "missing state");
}

#[test]
fn printed_numbers_read_back() {
    for n in [0usize, 7, 9, 10, 136, 1000, 65_535, usize::MAX] {
        let mut printed = Vec::new();
        push_decimal(&mut printed, n);
        assert_eq!(parse_usize(&printed), Some(n));
    }
    assert_eq!(parse_usize(b""), None);
    assert_eq!(parse_usize(b"+"), None);
    assert_eq!(parse_usize(b"-1"), None);
    assert_eq!(parse_usize(b"+42"), Some(42));
    assert_eq!(parse_usize(b"18446744073709551616"), None);
}

#[test]
fn words_split_on_ascii_whitespace() {
    let words = split_ascii_whitespace(b" \tSET  P4\r\nH\x0c");
    assert_eq!(words, vec![&b"SET"[..], &b"P4"[..], &b"H"[..]]);
    assert!(split_ascii_whitespace(b"   ").is_empty());
}
