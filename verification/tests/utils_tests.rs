use open_in_browser::utils::{
    blacklist_reason_for, check_blacklist, check_command, execution_report, normalize_command,
    CommandError,
};

fn words(ws: &[&str]) -> Vec<String> {
    ws.iter().map(|w| w.to_string()).collect()
}

#[test]
fn normalize_turns_backslashes_into_slashes() {
    assert_eq!(normalize_command("C:\\Program Files\\app.exe"), "C:/Program Files/app.exe");
    assert_eq!(normalize_command("a\\\\b"), "a/b");
    assert_eq!(normalize_command("a\\\\\\b"), "a//b");
    assert_eq!(normalize_command("plain"), "plain");
}

#[test]
fn empty_word_list_is_refused() {
    assert_eq!(check_blacklist(&[]), Some("Empty command".to_string()));
    assert_eq!(blacklist_reason_for(&[], "x"), Some("Empty command".to_string()));
}

#[test]
fn blocked_executables() {
    assert_eq!(check_blacklist(&words(&["cmd"])), Some("Blocked executable: cmd".to_string()));
    assert_eq!(
        check_blacklist(&words(&["PowerShell.EXE", "-NoProfile"])),
        Some("Blocked executable: PowerShell.EXE".to_string())
    );
    assert_eq!(
        check_blacklist(&words(&["/usr/bin/Bash", "-c", "ls"])),
        Some("Blocked executable: /usr/bin/Bash".to_string())
    );
    assert_eq!(
        check_blacklist(&words(&["C:/Windows/System32/cmd.exe", "/c", "dir"])),
        Some("Blocked executable: C:/Windows/System32/cmd.exe".to_string())
    );
}

#[test]
fn allowed_commands() {
    assert_eq!(check_blacklist(&words(&["firefox", "https://example.com"])), None);
    assert_eq!(check_blacklist(&words(&["open", "-a", "Safari", "https://x.org"])), None);
    assert_eq!(check_blacklist(&words(&["chrome"])), None);
}

#[test]
fn dangerous_patterns_in_arguments() {
    assert_eq!(
        check_blacklist(&words(&["firefox", "https://bash.org"])),
        Some("Blocked dangerous pattern in args: bash".to_string())
    );
    assert_eq!(
        check_blacklist(&words(&["explorer", "C:/Windows/CMD.EXE"])),
        Some("Blocked dangerous pattern in args: cmd.exe".to_string())
    );
    assert_eq!(
        check_blacklist(&words(&["tool", "--format=json"])),
        Some("Blocked dangerous pattern in args: format".to_string())
    );
}

#[test]
fn dangerous_flags() {
    assert_eq!(
        check_blacklist(&words(&["chrome", "--exec"])),
        Some("Blocked dangerous argument: --exec".to_string())
    );
    assert_eq!(
        check_blacklist(&words(&["explorer", "/C"])),
        Some("Blocked dangerous argument: /c".to_string())
    );
    assert_eq!(
        check_blacklist(&words(&["app", "-COMMAND"])),
        Some("Blocked dangerous argument: -Command".to_string())
    );
    assert_eq!(
        check_blacklist(&words(&["app", "-encodedcommand"])),
        Some("Blocked dangerous argument: -EncodedCommand".to_string())
    );
    // a flag only counts as a whole argument
    assert_eq!(check_blacklist(&words(&["app", "--executor"])), None);
}

#[test]
fn first_refused_argument_decides() {
    assert_eq!(
        check_blacklist(&words(&["app", "--eval", "bash"])),
        Some("Blocked dangerous argument: --eval".to_string())
    );
    assert_eq!(
        check_blacklist(&words(&["app", "bash", "--eval"])),
        Some("Blocked dangerous pattern in args: bash".to_string())
    );
}

#[test]
fn reason_for_given_file_name() {
    let parts = words(&["/opt/tools/runner", "x"]);
    assert_eq!(
        blacklist_reason_for(&parts, "sh"),
        Some("Blocked executable: /opt/tools/runner".to_string())
    );
    assert_eq!(blacklist_reason_for(&parts, "runner"), None);
    // the flag entries are never executables
    assert_eq!(blacklist_reason_for(&parts, "--exec"), None);
}

#[test]
fn check_command_splits_like_a_shell() {
    let cmds = vec![
        "firefox \"https://example.com/a b\"".to_string(),
        "open -a 'Google Chrome' https://x.org".to_string(),
    ];
    let parsed = check_command(&cmds).unwrap();
    assert_eq!(parsed, vec![
        words(&["firefox", "https://example.com/a b"]),
        words(&["open", "-a", "Google Chrome", "https://x.org"]),
    ]);
}

#[test]
fn check_command_turns_backslashes_into_slashes() {
    let cmds = vec!["C:\\Apps\\browser.exe https://x.org".to_string()];
    let parsed = check_command(&cmds).unwrap();
    assert_eq!(parsed, vec![words(&["C:/Apps/browser.exe", "https://x.org"])]);
}

#[test]
fn check_command_accepts_no_lines() {
    assert_eq!(check_command(&[]).unwrap(), Vec::<Vec<String>>::new());
}

#[test]
fn check_command_parse_error() {
    let cmds = vec!["firefox \"https://x.org".to_string()];
    match check_command(&cmds) {
        Err(e) => {
            assert_eq!(e.status_code(), 400);
            assert_eq!(e.message(), "Failed to parse command 'firefox \"https://x.org': missing closing quote");
            assert_eq!(e.blocked_command(), None);
        },
        Ok(_) => panic!("an unmatched quote must be refused"),
    }
}

#[test]
fn check_command_empty_line() {
    let cmds = vec!["firefox".to_string(), "   ".to_string()];
    match check_command(&cmds) {
        Err(e) => {
            assert_eq!(e.status_code(), 400);
            assert_eq!(e.message(), "Empty command:    ");
            assert!(matches!(e, CommandError::Empty { .. }));
        },
        Ok(_) => panic!("a blank line must be refused"),
    }
}

#[test]
fn check_command_blocked_line() {
    let cmds = vec![
        "firefox https://a.org".to_string(),
        "cmd /c calc".to_string(),
        "open \"unclosed".to_string(),
    ];
    match check_command(&cmds) {
        Err(e) => {
            assert_eq!(e.status_code(), 403);
            assert_eq!(e.message(), "Command blocked: Blocked executable: cmd");
            assert_eq!(e.blocked_command(), Some("cmd /c calc".to_string()));
        },
        Ok(_) => panic!("cmd must be refused"),
    }
}

#[test]
fn check_command_first_refusal_wins() {
    let cmds = vec!["open \"unclosed".to_string(), "cmd /c calc".to_string()];
    match check_command(&cmds) {
        Err(e) => assert_eq!(e.status_code(), 400),
        Ok(_) => panic!("must be refused"),
    }
}

#[test]
fn report_all_started() {
    let cmds = vec![words(&["firefox", "https://a.org"]), words(&["open", "x"])];
    let r = execution_report(&cmds, &[None, None]);
    assert!(r.success);
    assert!(!r.is_partial());
    assert_eq!(r.status_code(), 200);
    assert_eq!(r.results.len(), 2);
    assert_eq!(r.results[0].command, "firefox https://a.org");
    assert!(r.results[0].success);
    assert_eq!(r.results[0].error, None);
    assert_eq!(r.results[1].command, "open x");
}

#[test]
fn report_partial_failure() {
    let cmds = vec![words(&["missing-browser", "u"]), words(&["open", "x"])];
    let r = execution_report(&cmds, &[Some("No such file or directory (os error 2)".to_string()), None]);
    assert!(!r.success);
    assert!(r.is_partial());
    assert_eq!(r.status_code(), 206);
    assert!(!r.results[0].success);
    assert_eq!(r.results[0].error, Some("No such file or directory (os error 2)".to_string()));
    assert!(r.results[1].success);
}

#[test]
fn report_of_nothing_succeeds() {
    let r = execution_report(&[], &[]);
    assert!(r.success);
    assert_eq!(r.status_code(), 200);
    assert!(r.results.is_empty());
}

#[test]
fn path_executable_is_refused_by_its_file_name() {
    let parts = words(&["C:/Windows/System32/CMD.EXE"]);
    assert_eq!(check_blacklist(&parts), Some("Blocked executable: C:/Windows/System32/CMD.EXE".to_string()));
}

#[test]
fn backslash_path_line_is_refused_as_blocked_executable() {
    let cmds = vec![String::from(r"C:\Windows\System32\cmd.exe /c dir")];
    match check_command(&cmds) {
        Err(e) => {
            assert_eq!(e.status_code(), 403);
            assert_eq!(e.message(), "Command blocked: Blocked executable: C:/Windows/System32/cmd.exe");
            assert_eq!(e.blocked_command(), Some(cmds[0].clone()));
        },
        Ok(_) => panic!("must be refused"),
    }
}

#[test]
fn appending_arguments_keeps_the_refusal() {
    let parts = words(&["app", "--exec"]);
    let longer = words(&["app", "--exec", "https://x.org", "bash"]);
    assert_eq!(check_blacklist(&parts), check_blacklist(&longer));
    let parts = words(&["/bin/sh"]);
    let longer = words(&["/bin/sh", "harmless"]);
    assert_eq!(check_blacklist(&parts), check_blacklist(&longer));
}

#[test]
fn verdict_ignores_ascii_case() {
    let cases: Vec<Vec<String>> = vec![
        words(&["firefox", "https://example.com"]),
        words(&["cmd", "/c"]),
        words(&["app", "-command"]),
        words(&["tool", "--format=json"]),
    ];
    for parts in cases {
        let up: Vec<String> = parts.iter().map(|s| s.to_ascii_uppercase()).collect();
        assert_eq!(check_blacklist(&parts).is_some(), check_blacklist(&up).is_some());
    }
}

#[test]
fn trailing_separators_do_not_hide_the_executable() {
    assert_eq!(check_blacklist(&words(&["bash/"])), Some("Blocked executable: bash/".to_string()));
    assert_eq!(
        check_blacklist(&words(&["/usr/bin/cmd.exe/."])),
        Some("Blocked executable: /usr/bin/cmd.exe/.".to_string())
    );
    assert_eq!(
        check_blacklist(&words(&["/usr/bin/Bash//", "-c", "ls"])),
        Some("Blocked executable: /usr/bin/Bash//".to_string())
    );
}

#[test]
fn share_paths_are_refused_by_their_file_name() {
    assert_eq!(
        check_blacklist(&words(&["//server/share/cmd.exe"])),
        Some("Blocked executable: //server/share/cmd.exe".to_string())
    );
    assert_eq!(
        check_blacklist(&words(&["//server/share/tools/PowerShell.exe", "-NoLogo"])),
        Some("Blocked executable: //server/share/tools/PowerShell.exe".to_string())
    );
    assert_eq!(check_blacklist(&words(&["//server/share/firefox"])), None);
}

#[test]
fn drive_relative_name_follows_the_platform() {
    // refused where the drive prefix is read (Windows), let through where
    // the whole name is the file name (Unix)
    let r = check_blacklist(&words(&["C:cmd.exe"]));
    assert!(r == None || r == Some("Blocked executable: C:cmd.exe".to_string()));
}
