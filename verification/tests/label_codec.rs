use admin_accounts::labels::{
    is_access_label, make_label, replace_access_labels, str_lt, strip_access_labels, to_labels,
};

fn strings(v: &[&str]) -> Vec<String> {
    v.iter().map(|s| s.to_string()).collect()
}

#[test]
fn to_labels_sorts_and_dedupes() {
    let out = to_labels(&strings(&["write", "read", "write", "admin"]));
    assert_eq!(out, strings(&["access.admin", "access.read", "access.write"]));
}

#[test]
fn to_labels_empty_input_yields_empty() {
    let out = to_labels(&strings(&[]));
    assert!(out.is_empty());
}

#[test]
fn to_labels_ignores_order_and_multiplicity() {
    let a = to_labels(&strings(&["b", "a", "b", "a", "a"]));
    let b = to_labels(&strings(&["a", "b"]));
    assert_eq!(a, b);
}

#[test]
fn to_labels_is_idempotent_under_renormalization() {
    let out = to_labels(&strings(&["zeta", "alpha", "zeta"]));
    let mut renorm = out.clone();
    renorm.sort();
    renorm.dedup();
    assert_eq!(out, renorm);
}

#[test]
fn strip_keeps_non_access_entries_in_order() {
    let meta = strings(&["role.x", "access.a", "note", "access.b"]);
    assert_eq!(strip_access_labels(&meta), strings(&["role.x", "note"]));
}

#[test]
fn replace_with_empty_list_removes_all_access_labels() {
    let meta = strings(&["access.a", "keep1", "access.b", "keep2"]);
    let out = replace_access_labels(&meta, &strings(&[]));
    assert_eq!(out, strings(&["keep1", "keep2"]));
}

#[test]
fn replace_appends_in_given_order_without_sorting() {
    let meta = strings(&["m1", "access.z"]);
    let out = replace_access_labels(&meta, &strings(&["b", "a"]));
    assert_eq!(out, strings(&["m1", "access.b", "access.a"]));
}

#[test]
fn make_label_prefixes_the_name() {
    assert_eq!(make_label("read"), "access.read".to_string());
}

#[test]
fn is_access_label_checks_the_prefix() {
    assert!(is_access_label("access."));
    assert!(is_access_label("access.x"));
    assert!(!is_access_label("access"));
    assert!(!is_access_label("Access.x"));
    assert!(!is_access_label("role.access"));
}

#[test]
fn str_lt_is_lexicographic() {
    assert!(str_lt("", "a"));
    assert!(str_lt("a", "b"));
    assert!(str_lt("ab", "b"));
    assert!(str_lt("a", "ab"));
    assert!(!str_lt("b", "a"));
    assert!(!str_lt("a", "a"));
    // by code point, so ASCII sorts before accented letters
    assert!(str_lt("z", "é"));
    assert!(!str_lt("é", "z"));
}
