use kite_agent::files::{
    append_report, choose_sheet, default_location, delete_report, drop_plan, drop_plan_lowered, dropped_directory, dropped_image,
    dropped_text, file_read_text, image_mime, move_report, render_listing, render_preview, render_sheet,
    sheet_error, unzip_report, write_report, zip_check, zip_entry_name, zip_report, DropPlan, ListEntry,
};

#[test]
fn previews() {
    assert_eq!(render_preview(b"abc", 5), "abc");
    assert_eq!(render_preview(b"abcdef", 3), "abc\n\u{2026}[truncated]");
    assert_eq!(file_read_text(b"hi"), "hi");
}

#[test]
fn reports() {
    assert_eq!(write_report("h\u{e9}", "/w/a"), "wrote 3 bytes to /w/a");
    assert_eq!(append_report("abc", "/w/a"), "appended 3 bytes to /w/a");
    assert_eq!(delete_report(true, "/w/d"), "deleted directory /w/d");
    assert_eq!(delete_report(false, "/w/f"), "deleted /w/f");
    assert_eq!(move_report("/w/a", "/w/b"), "moved /w/a -> /w/b");
    assert_eq!(zip_report(2, "/w/o.zip"), "zipped 2 file(s) into /w/o.zip");
    assert_eq!(unzip_report(5, "/w"), "extracted 5 entries into /w");
    assert_eq!(default_location("  "), ".");
    assert_eq!(default_location("sub"), "sub");
    assert_eq!(zip_check(&vec![]), Err("no files given to zip".to_string()));
    assert_eq!(zip_check(&vec!["a".to_string()]), Ok(()));
    assert_eq!(zip_entry_name(None, "a/b"), "a/b");
    assert_eq!(zip_entry_name(Some("b".to_string()), "a/b"), "b");
}

#[test]
fn listings() {
    assert_eq!(render_listing(vec![]), "(empty directory)");
    let entries = vec![
        ListEntry::File { name: "b.txt".to_string(), size: "12 B".to_string() },
        ListEntry::Dir("zeta".to_string()),
        ListEntry::Unknown("a.lock".to_string()),
        ListEntry::Dir("alpha".to_string()),
    ];
    assert_eq!(render_listing(entries), "alpha/\nzeta/\na.lock\nb.txt  (12 B)");
}

#[test]
fn drop_plans() {
    assert!(matches!(drop_plan(true, 10, None), DropPlan::Directory));
    assert!(matches!(drop_plan(false, 10, Some("PNG")), DropPlan::ReadImage("image/png")));
    assert!(matches!(drop_plan(false, 10, Some("jpg")), DropPlan::ReadImage("image/jpeg")));
    match drop_plan(false, 8_000_001, Some("gif")) {
        DropPlan::Refuse(m) => assert_eq!(m, "image too large (8 MB max)"),
        _ => panic!(),
    }
    assert!(matches!(drop_plan(false, 3_000_000, Some("txt")), DropPlan::ReadText));
    match drop_plan(false, 3_000_001, None) {
        DropPlan::Refuse(m) => assert_eq!(m, "file too large to read as text (3 MB max)"),
        _ => panic!(),
    }
    assert_eq!(image_mime("svg"), Some("image/svg+xml"));
    assert_eq!(image_mime("tiff"), None);
}

#[test]
fn dropped_entries() {
    let d = dropped_directory(None, "/home/u");
    assert_eq!((d.kind.as_str(), d.name.as_str(), d.dir.as_str(), d.size), ("dir", "/home/u", "/home/u", 0));
    let i = dropped_image(Some("a.png".to_string()), "/x/a.png", Some("/x".to_string()), "image/png", &[1, 2, 3], 3);
    assert_eq!(i.content, "data:image/png;base64,AQID");
    assert_eq!(i.kind, "image");
    let b = dropped_text(Some("a.bin".to_string()), "/x/a.bin", None, &[1, 0, 2], 3);
    assert_eq!((b.kind.as_str(), b.content.as_str(), b.dir.as_str()), ("binary", "", ""));
    let t = dropped_text(None, "/x/t.md", Some("/x".to_string()), b"# hi", 4);
    assert_eq!((t.kind.as_str(), t.content.as_str(), t.name.as_str()), ("text", "# hi", "/x/t.md"));
    let mut late_nul = vec![b'a'; 9000];
    late_nul[8500] = 0;
    assert_eq!(dropped_text(None, "p", None, &late_nul, 9000).kind, "text");
}

#[test]
fn sheets() {
    assert_eq!(choose_sheet(&vec![], ""), Err("workbook has no sheets".to_string()));
    let names = vec!["One".to_string(), "Two".to_string()];
    assert_eq!(choose_sheet(&names, " "), Ok("One".to_string()));
    assert_eq!(choose_sheet(&names, "Two"), Ok("Two".to_string()));
    let rows = vec![vec!["a".to_string(), "b".to_string()], vec!["c".to_string()]];
    assert_eq!(render_sheet("One", 2, &rows), "Sheet: One  (2 sheets total)\na\tb\nc\n");
    let many: Vec<Vec<String>> = (0..501).map(|i| vec![i.to_string()]).collect();
    let out = render_sheet("S", 1, &many);
    assert!(out.ends_with("499\n\u{2026}[truncated at 500 rows]\n"));
    assert!(!out.contains("\n500\n"));
    assert_eq!(sheet_error("X", "missing"), "sheet 'X' not found: missing");
}

#[test]
fn drop_plans_for_lowered_extensions() {
    assert!(matches!(drop_plan_lowered(false, 10, "png"), DropPlan::ReadImage("image/png")));
    assert!(matches!(drop_plan_lowered(false, 10, "PNG"), DropPlan::ReadText));
    assert!(matches!(drop_plan_lowered(true, 10, "png"), DropPlan::Directory));
    match drop_plan_lowered(false, 3_000_001, "txt") {
        DropPlan::Refuse(m) => assert_eq!(m, "file too large to read as text (3 MB max)"),
        _ => panic!("expected a refusal"),
    }
}
