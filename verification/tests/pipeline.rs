use appinfo_vdf::filter::{filter_entry, get_launch_keys, Platform};
use appinfo_vdf::locate::{get_config_keys, locate};
use appinfo_vdf::value::Value;

fn s(x: &str) -> String {
    x.to_string()
}

fn obj(fields: Vec<(&str, Value)>) -> Value {
    Value::Obj(fields.into_iter().map(|(k, v)| (s(k), v)).collect())
}

fn entry_fields(fields: Vec<(&str, Value)>) -> Vec<(String, Value)> {
    fields.into_iter().map(|(k, v)| (s(k), v)).collect()
}

/// A database with one application that has one platform-agnostic
/// launch entry carrying one recognized and one unrecognized field.
fn sample_db() -> Value {
    obj(vec![(
        "entries",
        Value::Arr(vec![obj(vec![
            ("appid", Value::Num(42)),
            (
                "config",
                obj(vec![(
                    "launch",
                    obj(vec![(
                        "0",
                        obj(vec![
                            ("arguments", Value::Str(s("-x"))),
                            ("oslist_irrelevant", Value::Str(s("y"))),
                        ]),
                    )]),
                )]),
            ),
        ])]),
    )])
}

#[test]
fn no_oslist_matches_every_platform() {
    let launch = entry_fields(vec![(
        "0",
        obj(vec![("executable", Value::Str(s("game.sh")))]),
    )]);
    let expected = obj(vec![(
        "0",
        obj(vec![("executable", Value::Str(s("game.sh")))]),
    )]);
    assert_eq!(get_launch_keys(&launch, Platform::Windows), Some(expected));
    let expected_linux = obj(vec![(
        "0",
        obj(vec![("executable", Value::Str(s("game.sh")))]),
    )]);
    assert_eq!(
        get_launch_keys(&launch, Platform::Linux),
        Some(expected_linux)
    );
}

#[test]
fn padded_windows_oslist_matches_windows_only() {
    let mk = || {
        entry_fields(vec![(
            "0",
            obj(vec![
                ("executable", Value::Str(s("game.exe"))),
                ("config", obj(vec![("oslist", Value::Str(s("  windows  ")))])),
            ]),
        )])
    };
    let launch = mk();
    let expected = obj(vec![(
        "0",
        obj(vec![
            ("executable", Value::Str(s("game.exe"))),
            ("config", obj(vec![("oslist", Value::Str(s("  windows  ")))])),
        ]),
    )]);
    assert_eq!(get_launch_keys(&launch, Platform::Windows), Some(expected));
    assert_eq!(get_launch_keys(&mk(), Platform::Linux), None);
}

#[test]
fn unicode_whitespace_is_trimmed() {
    let launch = entry_fields(vec![(
        "0",
        obj(vec![
            ("arguments", Value::Str(s("-a"))),
            (
                "config",
                obj(vec![("oslist", Value::Str(s("\u{a0}linux\u{3000}\t")))]),
            ),
        ]),
    )]);
    assert!(get_launch_keys(&launch, Platform::Linux).is_some());
    assert!(get_launch_keys(&launch, Platform::Windows).is_none());
}

#[test]
fn oslist_comparison_is_exact_after_trim() {
    let mk = |oslist: &str| {
        entry_fields(vec![(
            "0",
            obj(vec![
                ("arguments", Value::Str(s("-a"))),
                ("config", obj(vec![("oslist", Value::Str(s(oslist)))])),
            ]),
        )])
    };
    assert!(get_launch_keys(&mk("windows"), Platform::Windows).is_some());
    assert!(get_launch_keys(&mk("Windows"), Platform::Windows).is_none());
    assert!(get_launch_keys(&mk("win"), Platform::Windows).is_none());
    assert!(get_launch_keys(&mk("win dows"), Platform::Windows).is_none());
}

#[test]
fn non_string_oslist_is_ignored() {
    let launch = entry_fields(vec![(
        "0",
        obj(vec![
            ("arguments", Value::Str(s("-a"))),
            ("config", obj(vec![("oslist", Value::Num(7))])),
        ]),
    )]);
    let r = get_launch_keys(&launch, Platform::Linux);
    let expected = obj(vec![(
        "0",
        obj(vec![
            ("arguments", Value::Str(s("-a"))),
            ("config", obj(vec![("oslist", Value::Num(7))])),
        ]),
    )]);
    assert_eq!(r, Some(expected));
}

#[test]
fn unsupported_platform_yields_nothing() {
    let launch = entry_fields(vec![(
        "0",
        obj(vec![("arguments", Value::Str(s("-a")))]),
    )]);
    assert_eq!(get_launch_keys(&launch, Platform::Unsupported), None);
}

#[test]
fn filtering_keeps_only_recognized_fields() {
    let entry = entry_fields(vec![
        ("zzz", Value::Str(s("dropped"))),
        ("workingdir", Value::Str(s("/w"))),
        ("executable", Value::Str(s("e"))),
        ("arguments", Value::Str(s("-a"))),
        (
            "config",
            obj(vec![
                ("oslist", Value::Str(s("linux"))),
                ("betakey", Value::Str(s("dropped too"))),
            ]),
        ),
    ]);
    let r = filter_entry(&entry, Platform::Linux);
    let expected = obj(vec![
        ("arguments", Value::Str(s("-a"))),
        ("executable", Value::Str(s("e"))),
        ("workingdir", Value::Str(s("/w"))),
        ("config", obj(vec![("oslist", Value::Str(s("linux")))])),
    ]);
    assert_eq!(r, Some(expected));
}

#[test]
fn unrecognized_only_entry_disappears() {
    let entry = entry_fields(vec![
        ("zzz", Value::Str(s("a"))),
        ("yyy", Value::Num(1)),
    ]);
    assert_eq!(filter_entry(&entry, Platform::Linux), None);
    let launch = entry_fields(vec![(
        "0",
        obj(vec![("zzz", Value::Str(s("a")))]),
    )]);
    assert_eq!(get_launch_keys(&launch, Platform::Linux), None);
}

#[test]
fn filtering_a_filtered_entry_changes_nothing() {
    let entry = entry_fields(vec![
        ("junk", Value::Null),
        ("executable", Value::Str(s("e"))),
        ("config", obj(vec![("oslist", Value::Str(s("linux")))])),
    ]);
    let first = filter_entry(&entry, Platform::Linux).unwrap();
    let refiltered = match &first {
        Value::Obj(fields) => filter_entry(fields, Platform::Linux).unwrap(),
        _ => panic!("filtered entry is an object"),
    };
    assert_eq!(refiltered, first);
}

#[test]
fn non_object_launch_entries_are_skipped() {
    let launch = entry_fields(vec![
        ("0", Value::Str(s("not an object"))),
        ("1", obj(vec![("arguments", Value::Str(s("-a")))])),
    ]);
    let r = get_launch_keys(&launch, Platform::Windows);
    let expected = obj(vec![("1", obj(vec![("arguments", Value::Str(s("-a")))]))]);
    assert_eq!(r, Some(expected));
}

#[test]
fn empty_nested_config_is_omitted() {
    // The nested config has no recognized field, so no nested config
    // object may appear in the output, not even an empty one.
    let entry = entry_fields(vec![
        ("arguments", Value::Str(s("-a"))),
        ("config", obj(vec![("betakey", Value::Str(s("b")))])),
    ]);
    let r = filter_entry(&entry, Platform::Linux);
    let expected = obj(vec![("arguments", Value::Str(s("-a")))]);
    assert_eq!(r, Some(expected));
}

#[test]
fn config_selector_requires_launch_object() {
    let config = entry_fields(vec![("other", Value::Num(3))]);
    assert_eq!(get_config_keys(&config, Platform::Linux), None);
    let config2 = entry_fields(vec![("launch", Value::Str(s("not an object")))]);
    assert_eq!(get_config_keys(&config2, Platform::Linux), None);
}

#[test]
fn config_selector_wraps_surviving_launch_entries() {
    let config = entry_fields(vec![
        ("other", Value::Num(3)),
        (
            "launch",
            obj(vec![("0", obj(vec![("workingdir", Value::Str(s("/w")))]))]),
        ),
    ]);
    let r = get_config_keys(&config, Platform::Windows);
    let expected = obj(vec![(
        "launch",
        obj(vec![("0", obj(vec![("workingdir", Value::Str(s("/w")))]))]),
    )]);
    assert_eq!(r, Some(expected));
}

#[test]
fn locate_finds_record_and_strips_fields() {
    let db = sample_db();
    let r = locate(42, &db, Platform::Linux);
    let expected = obj(vec![
        ("appid", Value::Num(42)),
        (
            "config",
            obj(vec![(
                "launch",
                obj(vec![("0", obj(vec![("arguments", Value::Str(s("-x")))]))]),
            )]),
        ),
    ]);
    assert_eq!(r, Some(expected));
}

#[test]
fn locate_unknown_appid_yields_nothing() {
    let db = sample_db();
    assert_eq!(locate(99, &db, Platform::Linux), None);
}

#[test]
fn locate_with_no_surviving_entry_yields_nothing() {
    // config.launch is present, but its only entry fails the platform
    // check: the result is nothing, not a record with an empty config.
    let db = obj(vec![(
        "entries",
        Value::Arr(vec![obj(vec![
            ("appid", Value::Num(7)),
            (
                "config",
                obj(vec![(
                    "launch",
                    obj(vec![(
                        "0",
                        obj(vec![
                            ("arguments", Value::Str(s("-a"))),
                            ("config", obj(vec![("oslist", Value::Str(s("windows")))])),
                        ]),
                    )]),
                )]),
            ),
        ])]),
    )]);
    assert_eq!(locate(7, &db, Platform::Linux), None);
}

#[test]
fn locate_skips_malformed_records() {
    let db = obj(vec![(
        "entries",
        Value::Arr(vec![
            Value::Str(s("not a record")),
            obj(vec![("no_appid", Value::Num(1))]),
            obj(vec![("appid", Value::Str(s("5")))]),
            obj(vec![
                ("appid", Value::Num(5)),
                (
                    "config",
                    obj(vec![(
                        "launch",
                        obj(vec![("0", obj(vec![("executable", Value::Str(s("e")))]))]),
                    )]),
                ),
            ]),
        ]),
    )]);
    let r = locate(5, &db, Platform::Windows);
    let expected = obj(vec![
        ("appid", Value::Num(5)),
        (
            "config",
            obj(vec![(
                "launch",
                obj(vec![("0", obj(vec![("executable", Value::Str(s("e")))]))]),
            )]),
        ),
    ]);
    assert_eq!(r, Some(expected));
}

#[test]
fn locate_ignores_out_of_range_appid() {
    // 4294967338 is 42 plus 2^32: a 32-bit identifier never matches it.
    let db = obj(vec![(
        "entries",
        Value::Arr(vec![obj(vec![
            ("appid", Value::Num(4294967338)),
            (
                "config",
                obj(vec![(
                    "launch",
                    obj(vec![("0", obj(vec![("arguments", Value::Str(s("-x")))]))]),
                )]),
            ),
        ])]),
    )]);
    assert_eq!(locate(42, &db, Platform::Linux), None);
}

#[test]
fn locate_needs_entries_array() {
    assert_eq!(locate(1, &obj(vec![]), Platform::Linux), None);
    assert_eq!(
        locate(1, &obj(vec![("entries", Value::Num(1))]), Platform::Linux),
        None
    );
    assert_eq!(locate(1, &Value::Str(s("db")), Platform::Linux), None);
}

#[test]
fn pipeline_is_deterministic() {
    let db = sample_db();
    let first = locate(42, &db, Platform::Linux);
    let second = locate(42, &db, Platform::Linux);
    assert_eq!(format!("{:?}", first), format!("{:?}", second));
    assert_eq!(first, second);
}
