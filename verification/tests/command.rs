use cica::command::{interpret, parse_and_process, show_help, Output, Space, HELP};
use cica::text::{same_text, split_whitespace, trim};

fn text_of(r: Result<Option<Output>, String>) -> String {
    match r {
        Ok(Some(Output::Text { text })) => text,
        other => panic!("unexpected outcome {:?}", other),
    }
}

fn conversion_of(r: Result<Option<Output>, String>) -> (Space, String, String, String) {
    match r {
        Ok(Some(Output::Conversion { space, first, second, third })) => {
            (space, first, second, third)
        }
        other => panic!("unexpected outcome {:?}", other),
    }
}

#[test]
fn help_text_lists_the_commands() {
    let help = show_help();
    assert_eq!(help, HELP);
    assert!(help.starts_with("Available commands:\n  srgb <r> <g> <b>  Convert from sRGB"));
    assert!(help.ends_with("  > hsv 180 0.5 0.8"));
    assert_eq!(help.lines().count(), 13);
}

#[test]
fn a_blank_line_prints_nothing() {
    assert_eq!(text_of(parse_and_process("")), "");
    assert_eq!(text_of(parse_and_process("   \t ")), "");
}

#[test]
fn help_prints_the_help_text() {
    assert_eq!(text_of(parse_and_process("help")), HELP);
    assert_eq!(text_of(parse_and_process("  help  me ")), HELP);
}

#[test]
fn commands_are_read_in_any_case() {
    assert_eq!(text_of(parse_and_process("HELP")), HELP);
    assert!(matches!(parse_and_process("Quit"), Ok(None)));
    assert!(matches!(parse_and_process("EXIT"), Ok(None)));
    let (space, first, _, _) = conversion_of(parse_and_process("sRGB 1 2 3"));
    assert_eq!(space, Space::Srgb);
    assert_eq!(first, "1");
}

#[test]
fn quit_and_exit_end_the_dialogue() {
    assert!(matches!(parse_and_process("quit"), Ok(None)));
    assert!(matches!(parse_and_process("exit now"), Ok(None)));
}

#[test]
fn a_conversion_hands_on_its_three_words() {
    let (space, first, second, third) = conversion_of(parse_and_process("srgb 1.0 0.5 0.0"));
    assert_eq!(space, Space::Srgb);
    assert_eq!((first.as_str(), second.as_str(), third.as_str()), ("1.0", "0.5", "0.0"));
    let (space, first, second, third) = conversion_of(parse_and_process("  xyz\t0.5  .5 1e-3 "));
    assert_eq!(space, Space::Xyz);
    assert_eq!((first.as_str(), second.as_str(), third.as_str()), ("0.5", ".5", "1e-3"));
    let (space, _, _, third) = conversion_of(parse_and_process("lab 50 25 -10"));
    assert_eq!(space, Space::Lab);
    assert_eq!(third, "-10");
    let (space, first, _, _) = conversion_of(parse_and_process("hsv 180 0.5 0.8"));
    assert_eq!(space, Space::Hsv);
    assert_eq!(first, "180");
}

#[test]
fn a_conversion_with_the_wrong_number_of_words_gets_its_usage() {
    assert_eq!(parse_and_process("srgb").err().unwrap(), "Usage: srgb <r> <g> <b>");
    assert_eq!(parse_and_process("srgb 1 2").err().unwrap(), "Usage: srgb <r> <g> <b>");
    assert_eq!(parse_and_process("xyz 1 2 3 4").err().unwrap(), "Usage: xyz <x> <y> <z>");
    assert_eq!(parse_and_process("lab 1").err().unwrap(), "Usage: lab <l> <a> <b>");
    assert_eq!(parse_and_process("HSV 1 2").err().unwrap(), "Usage: hsv <h> <s> <v>");
}

#[test]
fn an_unknown_command_is_named_in_lower_case() {
    assert_eq!(
        parse_and_process("Convert 1 2 3").err().unwrap(),
        "Unknown command: 'convert'. Type 'help' for available commands."
    );
    assert_eq!(
        parse_and_process("rgb").err().unwrap(),
        "Unknown command: 'rgb'. Type 'help' for available commands."
    );
}

#[test]
fn interpret_takes_the_command_as_it_is() {
    let parts = vec!["HELP"];
    assert_eq!(
        interpret("HELP", &parts).err().unwrap(),
        "Unknown command: 'HELP'. Type 'help' for available commands."
    );
    assert_eq!(text_of(interpret("help", &parts)), HELP);
    let parts = vec!["x", "1", "2", "3"];
    let (space, first, second, third) = conversion_of(interpret("lab", &parts));
    assert_eq!(space, Space::Lab);
    assert_eq!((first.as_str(), second.as_str(), third.as_str()), ("1", "2", "3"));
    assert_eq!(interpret("lab", &Vec::new()).err().unwrap(), "Usage: lab <l> <a> <b>");
}

#[test]
fn words_are_split_at_any_white_space() {
    assert_eq!(split_whitespace("  a bc\td\n"), vec!["a", "bc", "d"]);
    assert_eq!(split_whitespace("one"), vec!["one"]);
    assert_eq!(split_whitespace(""), Vec::<&str>::new());
    assert_eq!(split_whitespace(" \u{3000}\u{a0} "), Vec::<&str>::new());
    assert_eq!(split_whitespace("é\u{3000}ü\u{2003}x"), vec!["é", "ü", "x"]);
    let line = "srgb  0.1\t0.2 \r\n 0.3";
    assert_eq!(split_whitespace(line), line.split_whitespace().collect::<Vec<&str>>());
}

#[test]
fn trim_takes_the_white_space_off_both_ends() {
    for s in ["", " ", "a", " a", "a ", "  a b \t\r\n", "\u{3000}é x\u{a0}", " \t "] {
        assert_eq!(trim(s), s.trim());
    }
}

#[test]
fn same_text_compares_characters() {
    assert!(same_text("help", "help"));
    assert!(!same_text("help", "Help"));
    assert!(!same_text("help", "help "));
    assert!(same_text("", ""));
}

#[test]
fn a_word_that_is_no_number_is_named_with_its_coordinate() {
    assert_eq!(parse_and_process("srgb a b c").err().unwrap(), "Invalid value for 'r': 'a'");
    assert_eq!(parse_and_process("srgb 1 b c").err().unwrap(), "Invalid value for 'g': 'b'");
    assert_eq!(parse_and_process("srgb 1 2 c").err().unwrap(), "Invalid value for 'b': 'c'");
    assert_eq!(parse_and_process("xyz 1,5 2 3").err().unwrap(), "Invalid value for 'x': '1,5'");
    assert_eq!(parse_and_process("XYZ 1 y 3").err().unwrap(), "Invalid value for 'y': 'y'");
    assert_eq!(parse_and_process("xyz 1 2 1e").err().unwrap(), "Invalid value for 'z': '1e'");
    assert_eq!(parse_and_process("lab L 2 3").err().unwrap(), "Invalid value for 'l': 'L'");
    assert_eq!(parse_and_process("lab 1 - 3").err().unwrap(), "Invalid value for 'a': '-'");
    assert_eq!(parse_and_process("lab 1 2 .").err().unwrap(), "Invalid value for 'b': '.'");
    assert_eq!(parse_and_process("hsv ? 2 3").err().unwrap(), "Invalid value for 'h': '?'");
    assert_eq!(parse_and_process("hsv 1 0x2 3").err().unwrap(), "Invalid value for 's': '0x2'");
    assert_eq!(parse_and_process("hsv 1 2 é").err().unwrap(), "Invalid value for 'v': 'é'");
    assert!(parse_and_process("hsv inf -NaN +.5e+3").is_ok());
}
