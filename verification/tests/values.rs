use appinfo_vdf::strutil::{str_eq, trim_str};
use appinfo_vdf::value::{obj_get, Value};

fn s(x: &str) -> String {
    x.to_string()
}

#[test]
fn trim_removes_surrounding_whitespace_only() {
    assert_eq!(trim_str("  windows  "), "windows");
    assert_eq!(trim_str("windows"), "windows");
    assert_eq!(trim_str(" \t\r\n"), "");
    assert_eq!(trim_str(""), "");
    assert_eq!(trim_str("a b"), "a b");
    assert_eq!(trim_str("\u{a0}x\u{3000}"), "x");
    assert_eq!(trim_str("\u{200b}"), "\u{200b}");
}

#[test]
fn str_eq_compares_characters() {
    assert!(str_eq("linux", "linux"));
    assert!(!str_eq("linux", "linu"));
    assert!(!str_eq("linux", "Linux"));
    assert!(str_eq("", ""));
}

#[test]
fn obj_get_takes_first_occurrence() {
    let fields = vec![
        (s("a"), Value::Num(1)),
        (s("b"), Value::Num(2)),
        (s("a"), Value::Num(3)),
    ];
    assert_eq!(obj_get(&fields, "a"), Some(&Value::Num(1)));
    assert_eq!(obj_get(&fields, "b"), Some(&Value::Num(2)));
    assert_eq!(obj_get(&fields, "c"), None);
}

#[test]
fn dup_copies_deeply() {
    let v = Value::Obj(vec![
        (s("k"), Value::Arr(vec![Value::Null, Value::Bool(true)])),
        (s("n"), Value::Num(9)),
        (s("s"), Value::Str(s("text"))),
    ]);
    assert_eq!(v.dup(), v);
}
