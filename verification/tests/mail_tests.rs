use kite_agent::mail::{
    compose_email,
    addr_to_string, cow_str, envelope_row, extract_text, fetch_row, find_header, list_plan, render_message,
    read_message, render_parsed, render_rows, search_command, sent_report, uid_set, Address, Envelope, FetchSummary,
    ListPlan, MailPart, ParsedMessage,
};

fn addr(name: Option<&str>, mbox: Option<&str>, host: Option<&str>) -> Address {
    Address {
        name: name.map(|s| s.as_bytes().to_vec()),
        mailbox: mbox.map(|s| s.as_bytes().to_vec()),
        host: host.map(|s| s.as_bytes().to_vec()),
    }
}

#[test]
fn optional_fields_as_text() {
    assert_eq!(cow_str(&Some(&b"hi"[..])), "hi");
    assert_eq!(cow_str(&Some(&[0xff, b'a'][..])), "\u{fffd}a");
    assert_eq!(cow_str(&None), "");
}

#[test]
fn addresses() {
    assert_eq!(addr_to_string(&addr(Some("Bob"), Some("bob"), Some("x.com"))), "Bob <bob@x.com>");
    assert_eq!(addr_to_string(&addr(None, Some("bob"), Some("x.com"))), "bob@x.com");
    assert_eq!(addr_to_string(&addr(None, Some("bob"), None)), "bob");
    assert_eq!(addr_to_string(&addr(Some("Ann"), None, None)), "Ann <>");
}

#[test]
fn envelope_rows() {
    let f = FetchSummary {
        uid: Some(5),
        envelope: Some(Envelope {
            subject: Some(b"  Hello \n".to_vec()),
            from: Some(vec![addr(Some("Bob"), Some("bob"), Some("x.com"))]),
        }),
    };
    assert_eq!(envelope_row(&f), "[5] Hello  \u{2014}  Bob <bob@x.com>");
    let g = FetchSummary { uid: None, envelope: None };
    assert_eq!(envelope_row(&g), "[0] (no subject)  \u{2014}  ");
    assert_eq!(fetch_row(&f).0, 5);
}

#[test]
fn rows_newest_first() {
    let rows = vec![
        (1, "a".to_string()),
        (3, "c".to_string()),
        (2, "b".to_string()),
        (3, "d".to_string()),
    ];
    assert_eq!(render_rows(rows), "c\nd\nb\na");
    assert_eq!(render_rows(vec![]), "");
}

#[test]
fn inbox_ranges() {
    match list_plan(0, 5) {
        ListPlan::Empty(m) => assert_eq!(m, "(inbox is empty)"),
        _ => panic!(),
    }
    match list_plan(100, 0) {
        ListPlan::Fetch(r) => assert_eq!(r, "91:100"),
        _ => panic!(),
    }
    match list_plan(5, 10) {
        ListPlan::Fetch(r) => assert_eq!(r, "1:5"),
        _ => panic!(),
    }
}

#[test]
fn search_commands_and_uid_sets() {
    assert_eq!(search_command("he said \"hi\""), "TEXT \"he said hi\"");
    assert_eq!(uid_set(&vec![3, 10, 7]).unwrap(), "10,7,3");
    assert_eq!(uid_set(&vec![]), Err("(no matches)".to_string()));
    let many: Vec<u32> = (1..=30).collect();
    let want: Vec<String> = (6..=30).rev().map(|u: u32| u.to_string()).collect();
    assert_eq!(uid_set(&many).unwrap(), want.join(","));
}

fn part(mime: &str, body: Option<&str>, subparts: usize) -> MailPart {
    MailPart { mimetype: mime.to_string(), body: body.map(|b| b.to_string()), subpart_count: subparts }
}

#[test]
fn body_extraction() {
    assert_eq!(extract_text(&vec![]), "");
    assert_eq!(extract_text(&vec![part("text/plain", Some("hi"), 0)]), "hi");
    assert_eq!(extract_text(&vec![part("text/html", None, 0)]), "");
    assert_eq!(extract_text(&vec![part("image/png", Some("x"), 0)]), "");
    let multi = vec![
        part("multipart/alternative", None, 3),
        part("text/plain", Some("  "), 0),
        part("text/html", Some("<b>x</b>"), 0),
        part("text/plain", Some("plain"), 0),
    ];
    assert_eq!(extract_text(&multi), "plain");
    let mixed = vec![
        part("multipart/mixed", None, 3),
        part("text/html", Some("<p>a</p>"), 0),
        part("application/pdf", Some("%PDF"), 0),
        part("text/plain", Some(" "), 0),
    ];
    assert_eq!(extract_text(&mixed), "<p>a</p> ");
}

#[test]
fn nested_parts_are_read_in_order() {
    // mixed( alternative( html, plain ), html ): the first level has no plain
    // child, so the texts of both subtrees are joined; the alternative gives
    // its plain child.
    let nested = vec![
        part("multipart/mixed", None, 2),
        part("multipart/alternative", None, 2),
        part("text/html", Some("<i>h</i>"), 0),
        part("text/plain", Some("inner"), 0),
        part("text/html", Some("<b>tail</b>"), 0),
    ];
    assert_eq!(extract_text(&nested), "inner<b>tail</b>");
}

#[test]
fn parsed_messages_render() {
    let m = ParsedMessage {
        headers: vec![("Subject".to_string(), "S".to_string()), ("Date".to_string(), "D".to_string())],
        parts: vec![part("text/plain", Some("body"), 0)],
    };
    assert_eq!(render_parsed(&m), "From: \nSubject: S\nDate: D\n\nbody");
}

#[test]
fn raw_messages_are_parsed_and_read() {
    let simple = read_message(b"Subject: hi\nFrom: a@b.c\n\nHello").unwrap();
    assert_eq!(simple, "From: a@b.c\nSubject: hi\nDate: \n\nHello");
    let raw = [
        "Subject: This is a test email\n",
        "Content-Type: multipart/alternative; boundary=foobar\n",
        "Date: Sun, 02 Oct 2016 07:06:22 -0700 (PDT)\n",
        "\n",
        "--foobar\n",
        "Content-Type: text/plain; charset=utf-8\n",
        "Content-Transfer-Encoding: quoted-printable\n",
        "\n",
        "This is the plaintext version, in utf-8. Proof by Euro: =E2=82=AC\n",
        "--foobar\n",
        "Content-Type: text/html\n",
        "Content-Transfer-Encoding: base64\n",
        "\n",
        "PGh0bWw+PGJvZHk+VGhpcyBpcyB0aGUgPGI+SFRNTDwvYj4gdmVyc2lvbiwgaW4g \n",
        "dXMtYXNjaWkuIFByb29mIGJ5IEV1cm86ICZldXJvOzwvYm9keT48L2h0bWw+Cg== \n",
        "--foobar--\n",
        "After the final boundary stuff gets ignored.\n",
    ]
    .concat();
    let out = read_message(raw.as_bytes()).unwrap();
    assert_eq!(
        out,
        "From: \nSubject: This is a test email\nDate: Sun, 02 Oct 2016 07:06:22 -0700 (PDT)\n\nThis is the plaintext version, in utf-8. Proof by Euro: \u{20AC}\r\n"
    );
}

#[test]
fn unparsable_messages_are_errors() {
    assert_eq!(
        read_message(b" leading space\n\nbody").unwrap_err(),
        "Header cannot start with a space; it is likely an overhanging line from a previous header"
    );
}

#[test]
fn message_summary() {
    let hs = vec![
        ("FROM".to_string(), "a@b.c".to_string()),
        ("Subject".to_string(), "Hi".to_string()),
        ("from".to_string(), "second".to_string()),
    ];
    assert_eq!(find_header(&hs, "from"), "a@b.c");
    assert_eq!(find_header(&hs, "date"), "");
    let long = "y".repeat(9000);
    let out = render_message(&hs, &long);
    assert_eq!(out, format!("From: a@b.c\nSubject: Hi\nDate: \n\n{}", "y".repeat(8000)));
    assert_eq!(sent_report("x@y.z"), "sent to x@y.z");
}

#[test]
fn composing_checks_both_addresses() {
    assert_eq!(compose_email("nope", "a@b.c", "s", "b").err(), Some("bad from address: Invalid input".to_string()));
    assert_eq!(compose_email("a@b.c", "nope", "s", "b").err(), Some("bad to address: Invalid input".to_string()));
    assert_eq!(compose_email("nope", "nope", "s", "b").err(), Some("bad from address: Invalid input".to_string()));
    let email = compose_email("Me <me@example.com>", "you@example.org", "hello", "body text").unwrap();
    let d = email.parts();
    assert_eq!(d.from.name.as_deref(), Some("Me"));
    assert_eq!((d.from.user.as_str(), d.from.domain.as_str()), ("me", "example.com"));
    assert_eq!(d.to.name, None);
    assert_eq!((d.to.user.as_str(), d.to.domain.as_str()), ("you", "example.org"));
    assert_eq!((d.subject.as_str(), d.body.as_str()), ("hello", "body text"));
    let env = email.message().envelope();
    assert_eq!(env.from().map(|a| a.to_string()), Some("me@example.com".to_string()));
    assert_eq!(env.to().iter().map(|a| a.to_string()).collect::<Vec<_>>(), vec!["you@example.org".to_string()]);
    let text = String::from_utf8(email.message().formatted()).unwrap();
    assert!(text.contains("Subject: hello"));
    assert!(text.contains("body text"));
}
