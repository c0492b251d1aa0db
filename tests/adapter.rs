use yaml_adapter::{decode, encode, section_of, AdapterError, Filter, Policies, PolicyLine, Section, YamlAdapter};

fn rule(fields: &[&str]) -> Vec<String> {
    fields.iter().map(|f| f.to_string()).collect()
}

fn store_of(families: &[(&str, Vec<Vec<String>>)]) -> Policies {
    let mut p = Policies::new();
    for (key, rules) in families {
        p.insert_family(key.to_string(), rules.clone());
    }
    p
}

fn text_of(families: &[(&str, Vec<Vec<String>>)]) -> String {
    encode(&store_of(families))
}

fn sorted(p: &Policies) -> Vec<(String, Vec<Vec<String>>)> {
    let mut v: Vec<(String, Vec<Vec<String>>)> =
        p.families.iter().map(|f| (f.key.clone(), f.rules.clone())).collect();
    v.sort();
    v
}

fn family(text: &str, key: &str) -> Option<Vec<Vec<String>>> {
    let p = decode(text).unwrap();
    p.families.iter().find(|f| f.key == key).map(|f| f.rules.clone())
}

fn lines(ls: &[PolicyLine]) -> Vec<(char, String, Vec<String>)> {
    ls.iter().map(|l| (l.sec, l.ptype.clone(), l.rule.clone())).collect()
}

fn adapter() -> YamlAdapter {
    YamlAdapter::new("policy.yaml".to_string())
}

#[test]
fn round_trip_keeps_store() {
    let store = store_of(&[
        ("p", vec![rule(&["alice", "data1", "read"]), rule(&["bob", "data2", "write"])]),
        ("g", vec![rule(&["alice", "admin"])]),
        ("p2", vec![]),
        ("g2", vec![rule(&["true", "123", "null"]), rule(&[])]),
    ]);
    let text = encode(&store);
    let back = decode(&text).unwrap();
    assert_eq!(sorted(&back), sorted(&store));
}

#[test]
fn round_trip_of_empty_store() {
    let text = encode(&Policies::new());
    assert!(!text.trim().is_empty());
    assert!(decode(&text).unwrap().families.is_empty());
}

#[test]
fn encode_writes_keys_and_fields() {
    let text = text_of(&[("p", vec![rule(&["alice", "data1", "read"])])]);
    assert!(text.contains("alice"));
    assert!(text.contains("data1"));
    assert!(text.starts_with("p:"));
}

#[test]
fn blank_text_is_empty_store() {
    assert!(decode("").unwrap().families.is_empty());
    assert!(decode("  \n\t\r\n").unwrap().families.is_empty());
}

#[test]
fn decode_reads_the_file_format() {
    let text = "p:\n  - [alice, data1, read]\n  - [bob, data2, write]\ng:\n  - [alice, admin]\n";
    let p = decode(text).unwrap();
    assert_eq!(
        sorted(&p),
        vec![
            ("g".to_string(), vec![rule(&["alice", "admin"])]),
            ("p".to_string(), vec![rule(&["alice", "data1", "read"]), rule(&["bob", "data2", "write"])]),
        ]
    );
}

#[test]
fn decode_rejects_wrong_shapes() {
    assert!(matches!(decode("- a\n- b\n"), Err(AdapterError::Decode)));
    assert!(matches!(decode("p: x\n"), Err(AdapterError::Decode)));
    assert!(matches!(decode("p:\n  - x\n"), Err(AdapterError::Decode)));
    assert!(matches!(decode("p:\n  - [[a]]\n"), Err(AdapterError::Decode)));
    assert!(matches!(decode("p: [\n"), Err(AdapterError::Decode)));
}

#[test]
fn section_follows_first_character() {
    assert_eq!(section_of("p"), Some(Section::Permission));
    assert_eq!(section_of("p2"), Some(Section::Permission));
    assert_eq!(section_of("g"), Some(Section::Grouping));
    assert_eq!(section_of("x"), Some(Section::Grouping));
    assert_eq!(section_of(""), None);
}

#[test]
fn insert_family_replaces() {
    let mut p = store_of(&[("p", vec![rule(&["a"])])]);
    p.insert_family("p".to_string(), vec![rule(&["b"])]);
    p.insert_family("g".to_string(), vec![]);
    assert_eq!(
        sorted(&p),
        vec![("g".to_string(), vec![]), ("p".to_string(), vec![rule(&["b"])])]
    );
}

#[test]
fn remove_absent_rule_reports_false_and_keeps_store() {
    let text = text_of(&[("p", vec![rule(&["alice", "data1", "read"])])]);
    let u = adapter().remove_policy(&text, "p", &rule(&["bob", "data2", "write"])).unwrap();
    assert!(!u.reported);
    let after = u.contents.unwrap();
    assert_eq!(sorted(&decode(&after).unwrap()), sorted(&decode(&text).unwrap()));
}

#[test]
fn remove_from_missing_family_reports_false() {
    let text = text_of(&[("p", vec![rule(&["alice", "data1", "read"])])]);
    let u = adapter().remove_policy(&text, "g", &rule(&["alice", "admin"])).unwrap();
    assert!(!u.reported);
    assert!(u.contents.is_none());
}

#[test]
fn remove_policy_removes_every_copy() {
    let text = "p:\n  - [a, b]\n  - [c, d]\n  - [a, b]\n";
    let u = adapter().remove_policy(text, "p", &rule(&["a", "b"])).unwrap();
    assert!(u.reported);
    assert_eq!(family(&u.contents.unwrap(), "p"), Some(vec![rule(&["c", "d"])]));
}

#[test]
fn adds_never_duplicate_a_rule() {
    let a = adapter();
    let mut text = String::new();
    let steps = [
        rule(&["alice", "data1", "read"]),
        rule(&["bob", "data2", "write"]),
        rule(&["alice", "data1", "read"]),
    ];
    let mut reported = Vec::new();
    for r in steps.iter() {
        let u = a.add_policy(&text, "p", r.clone()).unwrap();
        reported.push(u.reported);
        if let Some(t) = u.contents {
            text = t;
        }
    }
    let u = a
        .add_policies(&text, "p", vec![rule(&["bob", "data2", "write"]), rule(&["carol", "data3", "read"])])
        .unwrap();
    assert!(!u.reported);
    assert!(u.contents.is_none());
    assert_eq!(reported, vec![true, true, false]);
    assert_eq!(
        family(&text, "p"),
        Some(vec![rule(&["alice", "data1", "read"]), rule(&["bob", "data2", "write"])])
    );
}

#[test]
fn add_policy_creates_family() {
    let text = text_of(&[("p", vec![rule(&["alice", "data1", "read"])])]);
    let u = adapter().add_policy(&text, "g", rule(&["alice", "admin"])).unwrap();
    assert!(u.reported);
    let after = u.contents.unwrap();
    assert_eq!(family(&after, "g"), Some(vec![rule(&["alice", "admin"])]));
    assert_eq!(family(&after, "p"), Some(vec![rule(&["alice", "data1", "read"])]));
}

#[test]
fn filtered_load_admits_matching_rules() {
    let text = text_of(&[("p", vec![rule(&["alice", "data1", "read"]), rule(&["bob", "data2", "write"])])]);
    let store = decode(&text).unwrap();
    let mut a = adapter();
    let filter = Filter { p: rule(&["", "data1", ""]), g: vec![] };
    let ls = a.load_filtered_policy(&store, &filter).unwrap();
    assert_eq!(lines(&ls), vec![('p', "p".to_string(), rule(&["alice", "data1", "read"]))]);
    assert!(a.is_filtered());
}

#[test]
fn filtered_load_that_admits_all_is_not_filtered() {
    let store = store_of(&[
        ("p", vec![rule(&["alice", "data1", "read"])]),
        ("g", vec![rule(&["alice", "admin"])]),
    ]);
    let mut a = adapter();
    let filter = Filter { p: rule(&["alice"]), g: rule(&["", "admin"]) };
    let ls = a.load_filtered_policy(&store, &filter).unwrap();
    assert_eq!(ls.len(), 2);
    assert!(!a.is_filtered());
}

#[test]
fn filtered_load_rejects_short_rules() {
    let store = store_of(&[("g", vec![rule(&["alice"]), rule(&["bob", "admin"])])]);
    let mut a = adapter();
    let filter = Filter { p: vec![], g: rule(&["", "admin"]) };
    let ls = a.load_filtered_policy(&store, &filter).unwrap();
    assert_eq!(lines(&ls), vec![('g', "g".to_string(), rule(&["bob", "admin"]))]);
    assert!(a.is_filtered());
}

#[test]
fn load_policy_clears_filtered_flag() {
    let store = store_of(&[("p", vec![rule(&["alice", "data1", "read"]), rule(&["bob", "data2", "write"])])]);
    let mut a = adapter();
    let filter = Filter { p: rule(&["bob"]), g: vec![] };
    a.load_filtered_policy(&store, &filter).unwrap();
    assert!(a.is_filtered());
    let ls = a.load_policy(&store).unwrap();
    assert_eq!(ls.len(), 2);
    assert!(!a.is_filtered());
}

#[test]
fn load_rejects_empty_family_key() {
    let store = store_of(&[("", vec![rule(&["a"])])]);
    let mut a = adapter();
    assert!(matches!(a.load_policy(&store), Err(AdapterError::InvalidFamilyKey)));
    assert!(!a.is_filtered());
}

#[test]
fn batch_add_with_existing_rule_adds_nothing() {
    let text = text_of(&[("p", vec![rule(&["alice", "data1", "read"])])]);
    let u = adapter()
        .add_policies(&text, "p", vec![rule(&["alice", "data1", "read"]), rule(&["bob", "data2", "write"])])
        .unwrap();
    assert!(!u.reported);
    assert!(u.contents.is_none());
}

#[test]
fn batch_add_with_repeated_rule_adds_nothing() {
    let text = text_of(&[("p", vec![rule(&["alice", "data1", "read"])])]);
    let r = rule(&["bob", "data2", "write"]);
    let u = adapter().add_policies(&text, "p", vec![r.clone(), r.clone()]).unwrap();
    assert!(!u.reported);
    assert!(u.contents.is_none());
    let u = adapter().add_policies(&text, "g", vec![r.clone(), rule(&["x"]), r]).unwrap();
    assert!(!u.reported);
    assert!(u.contents.is_none());
}

#[test]
fn batch_add_appends_in_order() {
    let text = text_of(&[("p", vec![rule(&["alice", "data1", "read"])])]);
    let u = adapter()
        .add_policies(&text, "p", vec![rule(&["bob", "data2", "write"]), rule(&["carol", "data3", "read"])])
        .unwrap();
    assert!(u.reported);
    assert_eq!(
        family(&u.contents.unwrap(), "p"),
        Some(vec![
            rule(&["alice", "data1", "read"]),
            rule(&["bob", "data2", "write"]),
            rule(&["carol", "data3", "read"]),
        ])
    );
}

#[test]
fn batch_remove_with_absent_rule_changes_nothing() {
    let text = text_of(&[("p", vec![rule(&["alice", "data1", "read"])])]);
    let u = adapter().remove_policies(&text, "p", &vec![rule(&["x", "y", "z"])]).unwrap();
    assert!(!u.reported);
    assert!(u.contents.is_none());
}

#[test]
fn batch_remove_removes_all() {
    let text = text_of(&[(
        "p",
        vec![rule(&["a", "1", "r"]), rule(&["b", "2", "w"]), rule(&["c", "3", "r"])],
    )]);
    let u = adapter()
        .remove_policies(&text, "p", &vec![rule(&["a", "1", "r"]), rule(&["c", "3", "r"])])
        .unwrap();
    assert!(u.reported);
    assert_eq!(family(&u.contents.unwrap(), "p"), Some(vec![rule(&["b", "2", "w"])]));
}

#[test]
fn batch_remove_from_missing_family_succeeds() {
    let text = text_of(&[("p", vec![rule(&["a"])])]);
    let u = adapter().remove_policies(&text, "g", &vec![rule(&["a"])]).unwrap();
    assert!(u.reported);
    assert!(u.contents.is_none());
}

#[test]
fn filtered_remove_compares_consecutive_fields() {
    let long = rule(&["alice", "data2_admin", "domain1", "domain2"]);
    let text = text_of(&[("g", vec![long.clone()])]);
    let u = adapter().remove_filtered_policy(&text, "g", 0, &rule(&["alice", "domain1"])).unwrap();
    assert!(u.reported);
    assert_eq!(family(&u.contents.unwrap(), "g"), Some(vec![long.clone()]));
    let u = adapter().remove_filtered_policy(&text, "g", 0, &rule(&["alice", "data2_admin"])).unwrap();
    assert!(u.reported);
    assert_eq!(family(&u.contents.unwrap(), "g"), Some(vec![]));
    let short = rule(&["alice", "data2_admin"]);
    let text = text_of(&[("g", vec![short.clone()])]);
    let u = adapter().remove_filtered_policy(&text, "g", 0, &rule(&["alice", "domain1"])).unwrap();
    assert!(u.reported);
    assert_eq!(family(&u.contents.unwrap(), "g"), Some(vec![short]));
}

#[test]
fn filtered_remove_keeps_disagreeing_rules() {
    let text = text_of(&[(
        "g",
        vec![rule(&["alice", "data2_admin", "domain1"]), rule(&["bob", "data2_admin", "domain2"])],
    )]);
    let u = adapter().remove_filtered_policy(&text, "g", 1, &rule(&["data2_admin", "domain2"])).unwrap();
    assert!(u.reported);
    assert_eq!(family(&u.contents.unwrap(), "g"), Some(vec![rule(&["alice", "data2_admin", "domain1"])]));
}

#[test]
fn filtered_remove_out_of_range_fails() {
    let text = text_of(&[("g", vec![rule(&["alice", "data2_admin"])])]);
    let u = adapter().remove_filtered_policy(&text, "g", 1, &rule(&["alice", "domain1"])).unwrap();
    assert!(!u.reported);
    assert!(u.contents.is_none());
    let u = adapter().remove_filtered_policy(&text, "g", usize::MAX, &rule(&["alice"])).unwrap();
    assert!(!u.reported);
}

#[test]
fn filtered_remove_within_range() {
    let text = text_of(&[("g", vec![rule(&["alice", "data2_admin"])])]);
    let u = adapter().remove_filtered_policy(&text, "g", 0, &rule(&["alice", ""])).unwrap();
    assert!(u.reported);
    assert_eq!(family(&u.contents.unwrap(), "g"), Some(vec![]));
}

#[test]
fn filtered_remove_without_values_fails_before_reading() {
    let u = adapter().remove_filtered_policy("p: [\n", "p", 0, &vec![]).unwrap();
    assert!(!u.reported);
    assert!(u.contents.is_none());
}

#[test]
fn filtered_remove_creates_missing_family() {
    let text = text_of(&[("p", vec![rule(&["a"])])]);
    let u = adapter().remove_filtered_policy(&text, "g", 0, &rule(&["a"])).unwrap();
    assert!(u.reported);
    assert_eq!(family(&u.contents.unwrap(), "g"), Some(vec![]));
}

#[test]
fn mutations_on_bad_text_fail_to_decode() {
    let a = adapter();
    assert!(matches!(a.add_policy("p: x\n", "p", rule(&["a"])), Err(AdapterError::Decode)));
    assert!(matches!(a.remove_policy("p: x\n", "p", &rule(&["a"])), Err(AdapterError::Decode)));
}

#[test]
fn save_needs_a_path() {
    let store = store_of(&[("p", vec![rule(&["a"])])]);
    let a = YamlAdapter::new(String::new());
    assert!(matches!(a.save_policy(&store), Err(AdapterError::Configuration)));
    assert_eq!(adapter().file_path(), "policy.yaml");
}

#[test]
fn clear_writes_empty_store() {
    let text = adapter().clear_policy();
    assert!(decode(&text).unwrap().families.is_empty());
}

#[test]
fn save_then_load_reproduces_rules() {
    let store = store_of(&[
        ("p", vec![rule(&["alice", "data1", "read"]), rule(&["bob", "data2", "write"])]),
        ("g", vec![rule(&["alice", "data2_admin"])]),
    ]);
    let mut a = adapter();
    let text = a.save_policy(&store).unwrap();
    let ls = a.load_policy(&decode(&text).unwrap()).unwrap();
    let mut got = lines(&ls);
    got.sort_by(|x, y| x.1.cmp(&y.1));
    assert_eq!(
        got,
        vec![
            ('g', "g".to_string(), rule(&["alice", "data2_admin"])),
            ('p', "p".to_string(), rule(&["alice", "data1", "read"])),
            ('p', "p".to_string(), rule(&["bob", "data2", "write"])),
        ]
    );
}
