use kite_agent::mcp::{message_frame, needs_start, server_command, server_line, Registry};

#[test]
fn registry_operations() {
    let mut r: Registry<u32> = Registry::new();
    assert!(!r.contains_key("a"));
    r.insert("a".to_string(), 1);
    r.insert("b".to_string(), 2);
    assert!(r.contains_key("a"));
    r.insert("a".to_string(), 3);
    let mut keys = r.keys();
    keys.sort();
    assert_eq!(keys, vec!["a", "b"]);
    if let Some(v) = r.get_mut("b") {
        *v = 20;
    }
    assert!(r.get_mut("zz").is_none());
    assert_eq!(r.remove("b"), Some(20));
    assert_eq!(r.remove("b"), None);
    assert_eq!(r.remove("a"), Some(3));
    assert!(r.keys().is_empty());
}

#[test]
fn server_command_lines() {
    let args = vec!["-y".to_string(), "srv".to_string()];
    let (p, a) = server_command(true, "npx", &args);
    assert_eq!(p, "cmd");
    assert_eq!(a, vec!["/C", "npx", "-y", "srv"]);
    let (p, a) = server_command(false, "npx", &args);
    assert_eq!(p, "npx");
    assert_eq!(a, args);
    assert_eq!(server_line("{\"id\":1} \r\n"), "{\"id\":1}");
    assert_eq!(message_frame("{}"), b"{}\n".to_vec());
}

#[test]
fn put_then_take_restores() {
    let mut r: Registry<u32> = Registry::new();
    r.insert("a".to_string(), 1);
    let before = r.keys();
    r.insert("b".to_string(), 2);
    assert_eq!(r.remove("b"), Some(2));
    assert_eq!(r.keys(), before);
    assert!(!r.contains_key("b"));
}

#[test]
fn start_only_when_not_running() {
    let mut r: Registry<u32> = Registry::new();
    assert!(needs_start(&r, "fs"));
    r.insert("fs".to_string(), 7);
    assert!(!needs_start(&r, "fs"));
    assert!(needs_start(&r, "git"));
}
