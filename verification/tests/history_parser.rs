use please::error::ErrorKind;
use please::history_parser::{
    get_parser, is_ignored, is_please_ask, is_start_of_build, HistoryParser,
};
use please::script::Variable;

fn var(value: &str, expr: &str) -> Variable {
    Variable { value: value.to_string(), expr: expr.to_string() }
}

#[test]
fn find_start_of_build() {
    assert!(!is_start_of_build("please build\n"));
    assert!(!is_start_of_build("please build"));
    assert!(!is_start_of_build("echo foobar"));
    assert!(!is_start_of_build("please build -h"));
    assert!(!is_start_of_build("please build --help"));
    assert!(is_start_of_build("please build \"script-name\""));
    assert!(is_start_of_build("please build \"script-name\"\n"));
    assert!(is_start_of_build("please build ts-jest"));
    assert!(is_start_of_build("please build ts-jest\n"));
}

#[test]
fn parse_zsh_input_thing() {
    let parser = get_parser();
    let vars = vec![var("VAR1", "echo $VAR1")];
    let hist = ": 1713204117:0;please ask \"What is your name?\"".to_string();
    let res = parser.parse_history(hist, &vars).unwrap();
    assert_eq!(res.len(), 4);
    let cmd = res[2].as_str();
    assert!(cmd.contains("read -p \"What is your name? \" VAR1"));
}

#[test]
fn use_two_variables() {
    let parser = get_parser();
    let vars = vec![var("VAR1", "echo $VAR1"), var("VAR2", "echo $VAR2")];

    let hist = ": 1713204117:0;please ask \"What is your name?\"\n: 1713204117:0;please ask \"What is your age?\"".to_string();
    let res = parser.parse_history(hist, &vars).unwrap();

    assert_eq!(res.len(), 6);
    let cmd = res[2].as_str();
    assert!(cmd.contains("read -p \"What is your name? \" VAR1"));
}

#[test]
fn recognizes_please_ask() {
    assert!(is_please_ask("please ask \"What is your name?\""));
    assert!(!is_please_ask("please ask --help"));
    assert!(!is_please_ask("please ask -h"));
}

#[test]
fn two_variables_pair_with_their_prompts() {
    let vars = vec![var("VAR1", "echo $VAR1"), var("VAR2", "echo $VAR2")];
    let hist = ": 1:0;please ask \"your name?\"\n: 2:0;please ask \"your age?\"".to_string();
    let res = get_parser().parse_history(hist, &vars).unwrap();
    assert_eq!(
        res,
        vec![
            "#!/bin/sh\n".to_string(),
            "set -e\n".to_string(),
            "read -p \"your name? \" VAR1".to_string(),
            "echo $VAR1".to_string(),
            "read -p \"your age? \" VAR2".to_string(),
            "echo $VAR2".to_string(),
        ]
    );
}

#[test]
fn parses_a_whole_session() {
    let hist = ": 1:0;ls -la\n\
                : 2:0;please build greet\n\
                : 3:0;echo hello\n\
                : 4:0;please list\n\
                : 5:0;please ask \"What is your name?\"\n\
                : 6:0;cd /tmp; ls\n\
                : 7:0;please build\n"
        .to_string();
    let vars = vec![var("VAR1", "echo $VAR1")];
    let res = get_parser().parse_history(hist, &vars).unwrap();
    assert_eq!(
        res,
        vec![
            "#!/bin/sh\n".to_string(),
            "set -e\n".to_string(),
            "echo hello".to_string(),
            "read -p \"What is your name? \" VAR1".to_string(),
            "echo $VAR1".to_string(),
            "cd /tmp; ls".to_string(),
        ]
    );
    assert!(res[0].starts_with("#!"));
}

#[test]
fn history_without_start_is_read_to_its_first_line() {
    let hist = ": 1:0;echo one\n: 2:0;echo two\r\n: 3:0;  echo three  ".to_string();
    let res = get_parser().parse_history(hist, &vec![]).unwrap();
    assert_eq!(
        res,
        vec![
            "#!/bin/sh\n".to_string(),
            "set -e\n".to_string(),
            "echo one".to_string(),
            "echo two".to_string(),
            "echo three".to_string(),
        ]
    );
}

#[test]
fn empty_history_gives_the_header_only() {
    let res = get_parser().parse_history(String::new(), &vec![]).unwrap();
    assert_eq!(res, vec!["#!/bin/sh\n".to_string(), "set -e\n".to_string()]);
}

#[test]
fn ignored_commands_leave_only_a_blank_line() {
    let hist = ": 1:0;please build demo\n\
                \n\
                : 2:0;please list\n\
                : 3:0;please current\n\
                : 4:0;please build --help\n\
                : 5:0;please build -h\n\
                : 6:0;please ask --help\n\
                : 7:0;please ask -h\n\
                : 8:0;cargo run -- list\n\
                : 9:0;cargo run -- current\n\
                : 10:0;please build\n"
        .to_string();
    let res = get_parser().parse_history(hist, &vec![]).unwrap();
    assert_eq!(res.len(), 3);
    assert_eq!(res[2], "");
    for line in res.iter() {
        assert!(!line.contains("please"));
        assert!(!line.contains("cargo"));
    }
}

#[test]
fn ignored_phrases_are_recognised() {
    for phrase in [
        "please build --help",
        "please build -h",
        "please ask --help",
        "please ask -h",
        "please list",
        "please current",
        "please build",
        "cargo run -- list",
        "cargo run -- current",
    ] {
        assert!(is_ignored(phrase));
        let hist = format!(": 1:0;echo kept\n: 2:0;{}", phrase);
        let res = get_parser().parse_history(hist, &vec![]).unwrap();
        assert_eq!(res.len(), 3);
        assert_eq!(res[2], "echo kept");
        assert!(res.iter().all(|line| line != phrase));
    }
    assert!(is_ignored("sudo please list --all"));
    assert!(!is_ignored("echo please"));
    assert!(!is_ignored(""));
}

#[test]
fn more_asks_than_variables_fails() {
    let hist = ": 1:0;please ask \"a?\"\n: 2:0;please ask \"b?\"".to_string();
    let vars = vec![var("VAR1", "echo $VAR1")];
    assert_eq!(get_parser().parse_history(hist, &vars), Err(ErrorKind::ParseInconsistency));
    let one = ": 1:0;please ask \"a?\"".to_string();
    assert_eq!(get_parser().parse_history(one, &vec![]), Err(ErrorKind::ParseInconsistency));
}

#[test]
fn asks_before_the_start_need_no_variable() {
    let hist = ": 1:0;please ask \"old?\"\n: 2:0;please build demo\n: 3:0;echo hi".to_string();
    let res = get_parser().parse_history(hist, &vec![]).unwrap();
    assert_eq!(
        res,
        vec!["#!/bin/sh\n".to_string(), "set -e\n".to_string(), "echo hi".to_string()]
    );
}

#[test]
fn unused_variables_are_the_oldest() {
    let vars = vec![var("OLD", "echo $OLD"), var("NEW", "echo $NEW")];
    let hist = ": 1:0;cargo run -- ask Which one?".to_string();
    let res = get_parser().parse_history(hist, &vars).unwrap();
    assert_eq!(res[2], "read -p \"Which one? \" NEW");
    assert_eq!(res[3], "echo $NEW");
}

#[test]
fn later_semicolons_stay_in_the_command() {
    let hist = ": 1:0;a; b;c".to_string();
    let res = get_parser().parse_history(hist, &vec![]).unwrap();
    assert_eq!(res[2], "a; b;c");
}

#[test]
fn start_of_build_looks_at_the_argument() {
    assert!(!is_start_of_build(""));
    assert!(!is_start_of_build("please build   "));
    assert!(!is_start_of_build("please build   --help  "));
    assert!(!is_start_of_build(" please build demo"));
    assert!(is_start_of_build("please build --helpful"));
    assert!(is_start_of_build("please build -h -v"));
    assert!(is_start_of_build("please builder"));
    assert!(!is_start_of_build("please buildplease build"));
}

#[test]
fn ask_needs_more_than_the_help_flag() {
    assert!(is_please_ask("cargo run -- ask hello"));
    assert!(is_please_ask("please ask"));
    assert!(!is_please_ask("please list"));
    assert!(!is_please_ask("echo ask"));
}

#[test]
fn prompt_is_what_follows_the_ask_word() {
    let vars = vec![var("N", "echo $N")];
    let hist = ": 1:0;please ask \"\"How  are you?\"\"".to_string();
    let res = get_parser().parse_history(hist, &vars).unwrap();
    assert_eq!(res[2], "read -p \"How  are you? \" N");
    let bare = ": 1:0;please ask".to_string();
    let res = get_parser().parse_history(bare, &vars).unwrap();
    assert_eq!(res[2], "read -p \" \" N");
}
