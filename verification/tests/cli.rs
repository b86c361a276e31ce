use emacs_open::args::parse;
use emacs_open::args::Args;
use emacs_open::args::FileTarget;
use emacs_open::args::ParseError;
use emacs_open::command::build_client_args;
use emacs_open::command::exit_outcome;
use emacs_open::command::plan_invocation;
use emacs_open::command::shell_command_line;
use emacs_open::command::Invocation;
use emacs_open::command::LaunchError;
use emacs_open::num::parse_i32;
use emacs_open::num::u32_to_string;

fn toks(words: &[&str]) -> Vec<String> {
    words.iter().map(|w| w.to_string()).collect()
}

#[test]
fn single_file_no_position() {
    let args = parse(&toks(&["a.txt"])).unwrap();
    assert!(!args.wait);
    assert_eq!(args.file_targets.len(), 1);
    assert_eq!(args.file_targets[0].filename, "a.txt");
    assert!(args.file_targets[0].line.is_none());
    assert!(args.file_targets[0].column.is_none());
}

#[test]
fn line_option_sets_line() {
    let args = parse(&toks(&["--line", "10", "a.txt"])).unwrap();
    assert_eq!(args.file_targets.len(), 1);
    assert_eq!(args.file_targets[0].line, Some(10));
    assert!(args.file_targets[0].column.is_none());
}

#[test]
fn column_option_is_shifted_to_one_based() {
    let args = parse(&toks(&["-c", "4", "a.txt"])).unwrap();
    assert_eq!(args.file_targets.len(), 1);
    assert!(args.file_targets[0].line.is_none());
    assert_eq!(args.file_targets[0].column, Some(5));
}

#[test]
fn sln_dropped_when_more_than_one_target() {
    let args = parse(&toks(&["a.sln", "b.txt"])).unwrap();
    assert_eq!(args.file_targets.len(), 1);
    assert_eq!(args.file_targets[0].filename, "b.txt");
}

#[test]
fn sole_sln_target_is_kept() {
    let args = parse(&toks(&["a.sln"])).unwrap();
    assert_eq!(args.file_targets.len(), 1);
    assert_eq!(args.file_targets[0].filename, "a.sln");
}

#[test]
fn sln_filter_is_case_insensitive() {
    let args = parse(&toks(&["A.SLN", "b.txt"])).unwrap();
    assert_eq!(args.file_targets.len(), 1);
    assert_eq!(args.file_targets[0].filename, "b.txt");
}

#[test]
fn two_sln_targets_leave_nothing() {
    let args = parse(&toks(&["a.sln", "b.sln"])).unwrap();
    assert!(args.file_targets.is_empty());
}

#[test]
fn unsupported_command_is_rejected() {
    let err = parse(&toks(&["diff", "a.txt", "b.txt"])).unwrap_err();
    match &err {
        ParseError::UnsupportedCommand(t) => assert_eq!(t, "diff"),
        _ => panic!("wrong error variant"),
    }
    assert_eq!(err.message(), "Unsupported command: diff");
}

#[test]
fn merge_and_attach_are_rejected() {
    assert!(matches!(
        parse(&toks(&["merge", "a.txt"])),
        Err(ParseError::UnsupportedCommand(_))
    ));
    assert!(matches!(
        parse(&toks(&["attach-to-process"])),
        Err(ParseError::UnsupportedCommand(_))
    ));
}

#[test]
fn invalid_integer_is_rejected() {
    let err = parse(&toks(&["--line", "x", "a.txt"])).unwrap_err();
    match &err {
        ParseError::InvalidInteger(t) => assert_eq!(t, "--line"),
        _ => panic!("wrong error variant"),
    }
    assert_eq!(err.message(), "Invalid integer argument passed to --line");
}

#[test]
fn negative_position_is_rejected() {
    assert!(matches!(
        parse(&toks(&["--line", "-1", "a.txt"])),
        Err(ParseError::InvalidInteger(_))
    ));
    assert!(matches!(
        parse(&toks(&["-c", "-7", "a.txt"])),
        Err(ParseError::InvalidInteger(_))
    ));
}

#[test]
fn out_of_range_position_is_rejected() {
    assert!(matches!(
        parse(&toks(&["--line", "2147483648", "a.txt"])),
        Err(ParseError::InvalidInteger(_))
    ));
    let args = parse(&toks(&["--line", "2147483647", "a.txt"])).unwrap();
    assert_eq!(args.file_targets[0].line, Some(2147483647));
}

#[test]
fn column_at_signed_maximum_still_fits() {
    let args = parse(&toks(&["--column", "2147483647", "a.txt"])).unwrap();
    assert_eq!(args.file_targets[0].column, Some(2147483648));
}

#[test]
fn explicit_plus_sign_is_accepted() {
    let args = parse(&toks(&["--line", "+10", "a.txt"])).unwrap();
    assert_eq!(args.file_targets[0].line, Some(10));
}

#[test]
fn missing_value_is_rejected() {
    let err = parse(&toks(&["--line"])).unwrap_err();
    match &err {
        ParseError::MissingValue(t) => assert_eq!(t, "--line"),
        _ => panic!("wrong error variant"),
    }
    assert_eq!(err.message(), "No integer argument passed to --line");
}

#[test]
fn noop_flags_are_discarded_before_filenames() {
    let args = parse(&toks(&["nosplash", "dontReopenProjects", "disableNonBundledPlugins", "a.txt"]))
        .unwrap();
    assert!(!args.wait);
    assert_eq!(args.file_targets.len(), 1);
    assert_eq!(args.file_targets[0].filename, "a.txt");
}

#[test]
fn wait_flag_is_recorded() {
    let args = parse(&toks(&["--wait", "a.txt"])).unwrap();
    assert!(args.wait);
    assert_eq!(args.file_targets.len(), 1);
}

#[test]
fn flags_after_a_filename_become_filenames() {
    let args = parse(&toks(&["a.txt", "--wait", "nosplash"])).unwrap();
    assert!(!args.wait);
    assert_eq!(args.file_targets.len(), 3);
    assert_eq!(args.file_targets[1].filename, "--wait");
    assert_eq!(args.file_targets[2].filename, "nosplash");
}

#[test]
fn position_applies_to_next_filename_only() {
    let args = parse(&toks(&["--line", "3", "a.txt", "b.txt"])).unwrap();
    assert_eq!(args.file_targets.len(), 2);
    assert_eq!(args.file_targets[0].line, Some(3));
    assert!(args.file_targets[1].line.is_none());
    assert!(args.file_targets[1].column.is_none());
}

#[test]
fn empty_input_gives_empty_targets_and_launch_refuses() {
    let args = parse(&toks(&[])).unwrap();
    assert!(args.file_targets.is_empty());
    let err = plan_invocation(&args, true).unwrap_err();
    assert!(matches!(err, LaunchError::NoFiles));
    assert_eq!(err.message(), "No file arguments provided");
}

#[test]
fn only_noop_tokens_also_leave_nothing_to_launch() {
    let args = parse(&toks(&["nosplash", "--wait"])).unwrap();
    assert!(args.file_targets.is_empty());
    assert!(matches!(
        plan_invocation(&args, false),
        Err(LaunchError::NoFiles)
    ));
}

fn one_target(line: Option<u32>, column: Option<u32>, filename: &str) -> Args {
    Args {
        wait: false,
        file_targets: vec![FileTarget {
            line,
            column,
            filename: filename.to_string(),
        }],
    }
}

#[test]
fn builder_emits_no_wait_flag_position_and_filename() {
    let argv = build_client_args(&one_target(Some(3), Some(5), "f.py"));
    assert_eq!(argv, vec!["-n".to_string(), "+3:5".to_string(), "f.py".to_string()]);
}

#[test]
fn builder_defaults_line_to_one_when_only_column_known() {
    let argv = build_client_args(&one_target(None, Some(8), "f.py"));
    assert_eq!(argv, vec!["-n".to_string(), "+1:8".to_string(), "f.py".to_string()]);
}

#[test]
fn builder_emits_bare_line_token() {
    let argv = build_client_args(&one_target(Some(12), None, "f.py"));
    assert_eq!(argv, vec!["-n".to_string(), "+12".to_string(), "f.py".to_string()]);
}

#[test]
fn builder_omits_position_when_none_known() {
    let argv = build_client_args(&one_target(None, None, "f.py"));
    assert_eq!(argv, vec!["-n".to_string(), "f.py".to_string()]);
}

#[test]
fn builder_honours_wait_flag() {
    let mut args = one_target(None, None, "f.py");
    args.wait = true;
    let argv = build_client_args(&args);
    assert_eq!(argv, vec!["f.py".to_string()]);
}

#[test]
fn shell_join_leaves_plain_words_alone() {
    let argv = vec!["-n".to_string(), "+3:5".to_string(), "f.py".to_string()];
    assert_eq!(shell_command_line(&argv), "emacsclient -n '+3:5' f.py");
}

#[test]
fn shell_join_quotes_a_filename_with_spaces() {
    let argv = vec!["-n".to_string(), "my file.txt".to_string()];
    assert_eq!(shell_command_line(&argv), "emacsclient -n 'my file.txt'");
}

#[test]
fn shell_join_escapes_quotes_and_bangs() {
    let argv = vec!["a'b!c".to_string()];
    assert_eq!(shell_command_line(&argv), r#"emacsclient 'a'\''b'\!'c'"#);
}

#[test]
fn shell_join_quotes_the_empty_word() {
    let argv = vec![String::new()];
    assert_eq!(shell_command_line(&argv), "emacsclient ''");
}

#[test]
fn plan_invocation_direct_carries_argument_list() {
    let plan = plan_invocation(&one_target(Some(3), Some(5), "f.py"), false).unwrap();
    match plan {
        Invocation::Direct(argv) => {
            assert_eq!(argv, vec!["-n".to_string(), "+3:5".to_string(), "f.py".to_string()])
        }
        Invocation::Shell(_) => panic!("expected a direct invocation"),
    }
}

#[test]
fn plan_invocation_shell_carries_escaped_command_line() {
    let plan = plan_invocation(&one_target(Some(3), Some(5), "my file.py"), true).unwrap();
    match plan {
        Invocation::Shell(cmd) => assert_eq!(cmd, "emacsclient -n '+3:5' 'my file.py'"),
        Invocation::Direct(_) => panic!("expected a shell invocation"),
    }
}

#[test]
fn exit_outcome_passes_success_through() {
    assert!(exit_outcome(true, Some(0)).is_ok());
    assert!(exit_outcome(true, None).is_ok());
}

#[test]
fn exit_outcome_carries_known_exit_code() {
    let err = exit_outcome(false, Some(2)).unwrap_err();
    match err {
        LaunchError::ClientExit(code) => assert_eq!(code, 2),
        _ => panic!("wrong error variant"),
    }
    assert_eq!(err.message(), "emacsclient error: 2");
}

#[test]
fn exit_outcome_without_code_is_generic() {
    let err = exit_outcome(false, None).unwrap_err();
    assert!(matches!(err, LaunchError::ClientFailed));
    assert_eq!(err.message(), "emacsclient error");
}

#[test]
fn parse_i32_accepts_signed_decimal() {
    assert_eq!(parse_i32("123"), Some(123));
    assert_eq!(parse_i32("-42"), Some(-42));
    assert_eq!(parse_i32("+7"), Some(7));
    assert_eq!(parse_i32("0"), Some(0));
    assert_eq!(parse_i32("2147483647"), Some(2147483647));
    assert_eq!(parse_i32("-2147483648"), Some(-2147483648));
}

#[test]
fn parse_i32_rejects_malformed_and_out_of_range() {
    assert_eq!(parse_i32(""), None);
    assert_eq!(parse_i32("-"), None);
    assert_eq!(parse_i32("+"), None);
    assert_eq!(parse_i32("x"), None);
    assert_eq!(parse_i32("1 2"), None);
    assert_eq!(parse_i32("12a"), None);
    assert_eq!(parse_i32("2147483648"), None);
    assert_eq!(parse_i32("-2147483649"), None);
    assert_eq!(parse_i32("99999999999999999999"), None);
}

#[test]
fn u32_to_string_formats_decimal() {
    assert_eq!(u32_to_string(0), "0");
    assert_eq!(u32_to_string(7), "7");
    assert_eq!(u32_to_string(1234567890), "1234567890");
    assert_eq!(u32_to_string(4294967295), "4294967295");
}

#[test]
fn round_trip_of_builder_tokens_through_the_notation() {
    let argv = build_client_args(&one_target(Some(3), Some(5), "f.py"));
    let token = &argv[1];
    let (line_part, column_part) = token[1..].split_once(':').unwrap();
    assert_eq!(line_part.parse::<u32>().unwrap(), 3);
    assert_eq!(column_part.parse::<u32>().unwrap(), 5);
    assert_eq!(argv[2], "f.py");
}
