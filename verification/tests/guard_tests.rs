use kite_agent::pathguard::{GuardAsk, GuardNext, GuardReply, PathGuard};

fn comps(parts: &[&str]) -> Vec<Vec<u8>> {
    parts.iter().map(|p| p.as_bytes().to_vec()).collect()
}

fn ask(n: &GuardNext) -> GuardAsk {
    match n {
        GuardNext::Ask(a) => *a,
        GuardNext::Done(_) => panic!("expected an ask"),
    }
}

fn done(n: GuardNext) -> Result<Vec<Vec<u8>>, String> {
    match n {
        GuardNext::Done(r) => r,
        GuardNext::Ask(_) => panic!("expected a decision"),
    }
}

#[test]
fn blank_working_directory_is_refused() {
    let (_, n) = PathGuard::new("   ", "a.txt", true);
    assert_eq!(done(n), Err("agent has no working directory set".to_string()));
}

#[test]
fn existing_file_inside_is_accepted() {
    let (mut g, n) = PathGuard::new("/w", "f.txt", true);
    assert_eq!(ask(&n), GuardAsk::CanonicalizeBase);
    let n = g.step(GuardReply::Base(Ok(comps(&["/", "w"]))));
    assert_eq!(ask(&n), GuardAsk::CheckExists);
    let n = g.step(GuardReply::Exists(true));
    assert_eq!(ask(&n), GuardAsk::CanonicalizeTarget);
    assert!(g.accepts(&GuardReply::Target(Ok(vec![]))));
    assert!(!g.accepts(&GuardReply::Exists(true)));
    let n = g.step(GuardReply::Target(Ok(comps(&["/", "w", "f.txt"]))));
    assert_eq!(done(n), Ok(comps(&["/", "w", "f.txt"])));
}

#[test]
fn escaping_paths_are_refused() {
    let (mut g, _) = PathGuard::new("/w", "../etc/passwd", true);
    g.step(GuardReply::Base(Ok(comps(&["/", "w"]))));
    g.step(GuardReply::Exists(true));
    let n = g.step(GuardReply::Target(Ok(comps(&["/", "etc", "passwd"]))));
    assert_eq!(done(n), Err("path escapes the working directory".to_string()));
    let (mut g, _) = PathGuard::new("/w", "/wx/a", true);
    g.step(GuardReply::Base(Ok(comps(&["/", "w"]))));
    g.step(GuardReply::Exists(true));
    let n = g.step(GuardReply::Target(Ok(comps(&["/", "wx", "a"]))));
    assert_eq!(done(n), Err("path escapes the working directory".to_string()));
}

#[test]
fn missing_files_for_reads_and_writes() {
    let (mut g, _) = PathGuard::new("/w", "nope.txt", true);
    g.step(GuardReply::Base(Ok(comps(&["/", "w"]))));
    let n = g.step(GuardReply::Exists(false));
    assert_eq!(done(n), Err("no such file: nope.txt".to_string()));

    let (mut g, _) = PathGuard::new("/w", "new.txt", false);
    g.step(GuardReply::Base(Ok(comps(&["/", "w"]))));
    let n = g.step(GuardReply::Exists(false));
    assert_eq!(ask(&n), GuardAsk::CheckLink);
    let n = g.step(GuardReply::IsLink(false));
    assert_eq!(ask(&n), GuardAsk::CanonicalizeParent);
    let n = g.step(GuardReply::Parent { parent: Some(Ok(comps(&["/", "w"]))), file_name: Some(b"new.txt".to_vec()) });
    assert_eq!(done(n), Ok(comps(&["/", "w", "new.txt"])));
}

#[test]
fn resolution_failures() {
    let (mut g, _) = PathGuard::new("/w", "x", false);
    assert_eq!(done(g.step(GuardReply::Base(Err("gone".to_string())))), Err("working dir invalid: gone".to_string()));
    let fresh = || {
        let (mut g, _) = PathGuard::new("/w", "x", false);
        g.step(GuardReply::Base(Ok(comps(&["/", "w"]))));
        g.step(GuardReply::Exists(false));
        g.step(GuardReply::IsLink(false));
        g
    };
    let mut g = fresh();
    assert_eq!(done(g.step(GuardReply::Parent { parent: None, file_name: None })), Err("invalid path".to_string()));
    let mut g = fresh();
    assert_eq!(
        done(g.step(GuardReply::Parent { parent: Some(Err("bad".to_string())), file_name: None })),
        Err("parent directory invalid: bad".to_string())
    );
    let mut g = fresh();
    assert_eq!(
        done(g.step(GuardReply::Parent { parent: Some(Ok(comps(&["/", "w"]))), file_name: None })),
        Err("invalid file name".to_string())
    );
    let (mut g, _) = PathGuard::new("/w", "x", true);
    g.step(GuardReply::Base(Ok(comps(&["/", "w"]))));
    g.step(GuardReply::Exists(true));
    assert_eq!(done(g.step(GuardReply::Target(Err("denied".to_string())))), Err("denied".to_string()));
}

#[test]
fn dangling_links_are_refused() {
    let (mut g, _) = PathGuard::new("/w", "out", false);
    g.step(GuardReply::Base(Ok(comps(&["/", "w"]))));
    assert_eq!(ask(&g.step(GuardReply::Exists(false))), GuardAsk::CheckLink);
    assert_eq!(done(g.step(GuardReply::IsLink(true))), Err("path is a dangling link: out".to_string()));
}
