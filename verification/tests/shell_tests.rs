use kite_agent::shell::{
    capture_line, command_needs_powershell, powershell_needed, finish_output, poll_step, powershell_args, script_file_name,
    shell_plan, stream_name, PollStep, ShellPlan,
};

#[test]
fn plain_commands_go_to_cmd() {
    for c in ["git status", "npm install", "python app.py", "dir", "echo hello", "type notes.txt", "foo-bar-baz"] {
        assert!(!command_needs_powershell(c), "{}", c);
    }
}

#[test]
fn powershell_markers_route_to_powershell() {
    for c in ["echo $HOME", "Write-Output `n", "if (x) { y }", "a }", "line1\nline2"] {
        assert!(command_needs_powershell(c), "{:?}", c);
    }
}

#[test]
fn powershell_operators_route_to_powershell() {
    assert!(command_needs_powershell("if 1 -eq 1"));
    assert!(command_needs_powershell("X -NotMatch y"));
    assert!(command_needs_powershell("a -and b"));
    assert!(!command_needs_powershell("a -eqx b"));
    assert!(command_needs_powershell("git-lfs pull"));
}

#[test]
fn cmdlets_and_aliases_route_to_powershell() {
    assert!(command_needs_powershell("Get-ChildItem -Recurse"));
    assert!(command_needs_powershell("select-string foo *.txt"));
    assert!(command_needs_powershell("ls"));
    assert!(command_needs_powershell("  LS -la"));
    assert!(command_needs_powershell("sort file"));
    assert!(command_needs_powershell("foreach x"));
    assert!(command_needs_powershell("cat a.txt"));
    assert!(!command_needs_powershell("get-child2item"));
    assert!(!command_needs_powershell("-childitem"));
    assert!(!command_needs_powershell(""));
}

#[test]
fn shell_plan_cmd_trims_trailing_whitespace() {
    match shell_plan("dir  \n") {
        ShellPlan::Cmd { args } => assert_eq!(args, vec!["/c".to_string(), "dir".to_string()]),
        _ => panic!("expected cmd"),
    }
}

#[test]
fn shell_plan_powershell_stages_script_with_bom() {
    match shell_plan("echo $x\n") {
        ShellPlan::PowerShell { script } => {
            let mut want = vec![0xEF, 0xBB, 0xBF];
            want.extend_from_slice(b"echo $x");
            assert_eq!(script, want);
        }
        _ => panic!("expected powershell"),
    }
}

#[test]
fn script_names_and_args() {
    assert_eq!(script_file_name("kite_agent", 42, 7, "ps1"), "kite_agent_42_7.ps1");
    assert_eq!(script_file_name("kite_code", 0, 1234567, "py"), "kite_code_0_1234567.py");
    assert_eq!(
        powershell_args("C:\\t\\a.ps1"),
        vec!["-NoProfile", "-NonInteractive", "-ExecutionPolicy", "Bypass", "-File", "C:\\t\\a.ps1"]
    );
}

#[test]
fn poll_steps() {
    assert_eq!(poll_step(Some(Some(3)), 0, 10), PollStep::Exited(3));
    assert_eq!(poll_step(Some(None), 0, 10), PollStep::Exited(-1));
    assert_eq!(poll_step(None, 11, 10), PollStep::Kill);
    assert_eq!(poll_step(None, 10, 10), PollStep::Wait);
}

#[test]
fn capture_and_finish() {
    let mut acc = String::new();
    capture_line(&mut acc, "a", false);
    capture_line(&mut acc, "b", true);
    assert_eq!(acc, "a\n[stderr] b\n");
    assert_eq!(finish_output(acc.clone(), 0, None), "exit 0\na\n[stderr] b");
    assert_eq!(
        finish_output(acc, -1, Some(45)),
        "exit -1\na\n[stderr] b\n\n[killed: timed out after 45s]"
    );
    assert_eq!(stream_name(true), "err");
    assert_eq!(stream_name(false), "out");
}

#[test]
fn finish_cuts_long_output() {
    let acc = "x".repeat(13_000);
    let out = finish_output(acc, 2, None);
    assert_eq!(out, format!("exit 2\n{}\n\u{2026}[truncated]", "x".repeat(12_000)));
    assert_eq!(finish_output("  \n".to_string(), i32::MIN, None), "exit -2147483648\n");
}

#[test]
fn decision_from_the_lowercase_form() {
    // the operators and first word are read from the lowercase form given
    assert!(powershell_needed("GET-ITEM x", "get-item x"));
    assert!(powershell_needed("dir /b", "ls"));
    assert!(!powershell_needed("git status", "git status"));
    assert!(powershell_needed("echo $x", "echo $x"));
    assert!(powershell_needed("a -EQ b", "a -eq b"));
}

#[test]
fn routing_ignores_letter_case() {
    for c in ["GET-CHILDITEM", "Ls -la", "git STATUS", "A -EQ b", "echo $X"] {
        assert_eq!(command_needs_powershell(c), command_needs_powershell(&c.to_ascii_lowercase()));
        assert_eq!(command_needs_powershell(c), command_needs_powershell(&c.to_ascii_uppercase()));
    }
}
