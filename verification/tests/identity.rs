//! Names and namespaces.

use gwead::identity::{
    ancestor_namespaces, impl_ref_owner, is_identifier, is_on_chain, local_name_of, namespace_of,
    plugin_reference_candidates, qualify, same_namespace, validate_impl_ref, validate_name,
    validate_namespace, validate_reference, validate_step_type_name, validate_step_type_reference,
    NameKind, NameRule,
};
use gwead::text::{
    char_text, comes_first, contains_text, debug_list_text, decimal_text, ends_with, has_char,
    join, sort, split_once, split_two, starts_with, strip_prefix, strip_suffix, to_lower, trim,
    white_space,
};

#[test]
fn an_identity_reads_back() {
    for (namespace, name) in [("", "vault"), ("acme", "vault")] {
        let id = qualify(namespace, name);
        assert_eq!(namespace_of(&id), namespace);
        assert_eq!(local_name_of(&id), name);
    }
    assert_eq!(qualify("acme", "vault"), "acme/vault");
}

#[test]
fn a_chain_leads_upward() {
    assert_eq!(ancestor_namespaces("acme"), vec!["acme".to_string(), String::new()]);
    assert_eq!(ancestor_namespaces(""), vec![String::new()]);
    assert!(is_on_chain("acme/a", "acme/b"));
    assert!(is_on_chain("a", "acme/b"));
    assert!(!is_on_chain("acme/a", "b"));
    assert!(!is_on_chain("other/a", "acme/b"));
    assert!(same_namespace("acme/a", "acme/b"));
    assert!(!same_namespace("a", "acme/b"));
}

#[test]
fn a_reference_cannot_name_a_namespace() {
    assert_eq!(
        plugin_reference_candidates("acme/b", "vault").unwrap(),
        vec!["acme/vault".to_string(), "vault".to_string()]
    );
    let err = plugin_reference_candidates("acme/b", "other/vault").unwrap_err();
    assert_eq!(err.rule, NameRule::Bare);
}

#[test]
fn names_have_a_form() {
    assert!(is_identifier("a_1"));
    assert!(!is_identifier(""));
    assert!(!is_identifier("a-b"));
    assert!(validate_name(NameKind::Plugin, "vault").is_ok());
    assert!(validate_name(NameKind::Plugin, "acme/vault").is_err());
    assert!(validate_name(NameKind::StepId, "1st").is_err());
    assert!(validate_name(NameKind::Plugin, "1st").is_ok());
    assert!(validate_reference(NameKind::Role, "LLM_CHAT").is_ok());
    assert!(validate_namespace("").is_ok());
    assert!(validate_namespace("acme").is_ok());
    assert!(validate_namespace("acme/inner").is_err());
    let err = validate_name(NameKind::Plugin, "a b").unwrap_err();
    assert!(err.message().contains("a b"), "{}", err.message());
    assert!(err.message().contains(NameKind::Plugin.label()));
}

#[test]
fn step_types_belong_to_a_plugin() {
    assert!(validate_step_type_reference("script").is_ok());
    assert!(validate_step_type_reference("vault.sign").is_ok());
    assert!(validate_step_type_reference("a.b.c").is_err());
    assert!(validate_step_type_name("vault.sign", "vault", false).is_ok());
    assert!(validate_step_type_name("other.sign", "vault", false).is_err());
    assert!(validate_step_type_name("sign", "vault", false).is_err());
    assert!(validate_step_type_name("let", "gwead_intrinsics", true).is_ok());
}

#[test]
fn a_body_names_its_owner() {
    assert!(validate_impl_ref("crate-a.vault.sign").is_ok());
    assert!(validate_impl_ref("a..b").is_err());
    assert_eq!(impl_ref_owner("myapp.vault.sign"), Some("vault"));
    assert_eq!(impl_ref_owner("myapp.vault"), None);
}

#[test]
fn texts_are_cut_and_joined() {
    assert_eq!(split_once("a:b:c", ':'), ("a", Some("b:c")));
    assert_eq!(split_once("abc", ':'), ("abc", None));
    assert_eq!(split_two("abc", ':'), ("abc", ""));
    assert_eq!(trim(" \t x y\u{a0}\n"), "x y");
    assert!(white_space('\u{2003}'));
    assert!(!white_space('x'));
    assert_eq!(strip_prefix("*.a", "*."), Some("a"));
    assert_eq!(strip_prefix("a", "*."), None);
    assert_eq!(strip_suffix("a/*", "/*"), Some("a"));
    assert!(starts_with("abc", "ab"));
    assert!(ends_with("abc", "bc"));
    assert!(has_char("a.b", '.'));
    assert!(contains_text("xabcx", "abc"));
    assert!(!contains_text("xab", "abc"));
    assert_eq!(to_lower("ÄbC"), "Äbc");
    assert_eq!(decimal_text(0), "0");
    assert_eq!(decimal_text(18_446_744_073_709_551_615), "18446744073709551615");
    assert_eq!(char_text('é'), "é");
    assert_eq!(join(&vec!["a".to_string(), "b".to_string()], ", "), "a, b");
    assert_eq!(join(&Vec::new(), ", "), "");
}

#[test]
fn texts_are_ordered_as_std_orders_them() {
    assert!(comes_first("a", "b"));
    assert!(comes_first("a", "aa"));
    assert!(!comes_first("b", "a"));
    let mut given: Vec<String> = ["b", "", "a", "aa", "é", "z"]
        .iter()
        .map(|s| s.to_string())
        .collect();
    let ordered = sort(given.clone());
    given.sort();
    assert_eq!(ordered, given);
}

#[test]
fn a_list_is_shown_with_escapes() {
    let v = vec!["a\"b".to_string(), "c\n".to_string()];
    assert_eq!(debug_list_text(&v), format!("{v:?}"));
    assert_eq!(debug_list_text(&Vec::new()), "[]");
}
