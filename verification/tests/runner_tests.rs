use kite_agent::runner::{
    code_runner, expand_args, language_for_key, language_of, runner_for_key, launch_command, launch_failure, run_timeout_secs, snippet_bytes,
    Language,
};

#[test]
fn runners_by_language_name() {
    let (i, a, e) = code_runner(" Python ").unwrap();
    assert_eq!((i, a, e), ("python", vec!["{file}"], "py"));
    let (i, a, e) = code_runner("TS").unwrap();
    assert_eq!((i, a, e), ("npx", vec!["-y", "tsx", "{file}"], "ts"));
    let (i, a, e) = code_runner("pwsh").unwrap();
    assert_eq!(i, "powershell");
    assert_eq!(a, vec!["-NoProfile", "-NonInteractive", "-ExecutionPolicy", "Bypass", "-File", "{file}"]);
    assert_eq!(e, "ps1");
    assert_eq!(code_runner("nodejs").unwrap().0, "node");
    assert_eq!(code_runner("shell").unwrap().2, "sh");
    assert_eq!(code_runner("rb").unwrap().0, "ruby");
    assert_eq!(language_of("JavaScript"), Some(Language::JavaScript));
}

#[test]
fn unknown_language_is_refused() {
    assert_eq!(
        code_runner(" COBOL ").unwrap_err(),
        "unsupported language 'cobol' \u{2014} try python, javascript, powershell, bash, typescript or ruby"
    );
}

#[test]
fn timeouts_are_clamped() {
    assert_eq!(run_timeout_secs(None), 30);
    assert_eq!(run_timeout_secs(Some(0)), 1);
    assert_eq!(run_timeout_secs(Some(1000)), 300);
    assert_eq!(run_timeout_secs(Some(45)), 45);
}

#[test]
fn snippets_and_arguments() {
    assert_eq!(snippet_bytes("x", "ps1"), vec![0xEF, 0xBB, 0xBF, b'x']);
    assert_eq!(snippet_bytes("é", "py"), "é".as_bytes().to_vec());
    assert_eq!(expand_args(&vec!["-y", "tsx", "{file}"], "/t/a.ts"), vec!["-y", "tsx", "/t/a.ts"]);
    let (p, a) = launch_command(true, "npx", vec!["-y".to_string(), "/t/a.ts".to_string()]);
    assert_eq!(p, "cmd");
    assert_eq!(a, vec!["/C", "npx", "-y", "/t/a.ts"]);
    let (p, a) = launch_command(false, "npx", vec!["x".to_string()]);
    assert_eq!((p.as_str(), a), ("npx", vec!["x".to_string()]));
    assert_eq!(
        launch_failure("ruby", "not found"),
        "failed to launch ruby \u{2014} is it installed and on PATH? (not found)"
    );
}

#[test]
fn lookup_by_lowercased_key() {
    assert_eq!(language_for_key("py"), Some(Language::Python));
    assert_eq!(language_for_key("Py"), None);
    assert_eq!(language_for_key(" py"), None);
    assert_eq!(runner_for_key("ts").unwrap(), ("npx", vec!["-y", "tsx", "{file}"], "ts"));
    assert_eq!(
        runner_for_key("cobol").unwrap_err(),
        "unsupported language 'cobol' \u{2014} try python, javascript, powershell, bash, typescript or ruby"
    );
}

#[test]
fn loose_language_names() {
    assert_eq!(code_runner(" PYTHON\t"), code_runner("python"));
    assert_eq!(code_runner(" RB\t").unwrap().0, "ruby");
    assert_eq!(code_runner("\tCobol ").unwrap_err(), code_runner("cobol").unwrap_err());
}
