use kite_agent::sorting::{sort_rows_desc, sort_strings, sort_u32_desc};
use kite_agent::text::{decimal_i64, decimal_u64, is_blank, join_strings, take_prefix, trim_str};

#[test]
fn trimming_and_numbers() {
    assert_eq!(trim_str("  a b \t\n"), "a b");
    assert_eq!(trim_str("\u{a0}x\u{a0}"), "x");
    assert!(is_blank(" \n\t"));
    assert!(!is_blank(" x "));
    assert_eq!(decimal_u64(0).iter().collect::<String>(), "0");
    assert_eq!(decimal_u64(u64::MAX).iter().collect::<String>(), u64::MAX.to_string());
    assert_eq!(decimal_i64(i64::MIN).iter().collect::<String>(), i64::MIN.to_string());
    assert_eq!(decimal_i64(-7).iter().collect::<String>(), "-7");
    assert_eq!(join_strings(&vec!["a".to_string(), "b".to_string()], ", "), "a, b");
    assert_eq!(take_prefix("h\u{e9}llo", 2), "h\u{e9}");
}

#[test]
fn sorts() {
    let rows = vec![(1, "x".to_string()), (2, "y".to_string()), (1, "z".to_string())];
    assert_eq!(
        sort_rows_desc(rows),
        vec![(2, "y".to_string()), (1, "x".to_string()), (1, "z".to_string())]
    );
    assert_eq!(sort_u32_desc(&vec![3, 9, 1, 9]), vec![9, 9, 3, 1]);
    let s = sort_strings(vec!["b".to_string(), "a".to_string(), "B".to_string(), "ab".to_string()]);
    assert_eq!(s, vec!["B", "a", "ab", "b"]);
}
