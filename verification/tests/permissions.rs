//! Permission strings, and the checks against them.

use gwead::json::Json;
use gwead::permissions::{
    check_blobs, check_invoke_role, check_network_egress, check_step_type,
    describe_known_categories, parse_manifest_permissions, parse_permission, parse_permission_list,
    validate_app_category_name, AppPermissionCategory, BlobOp, HostPattern, NamePattern,
    PathPattern, Permission, PermissionCheck, PermissionParseError,
};


#[test]
fn parses_network_egress() {
    let p = parse_permission("network:egress:*").unwrap();
    assert_eq!(p, Permission::NetworkEgress(HostPattern::Any));

    let p = parse_permission("network:egress:*.example.com").unwrap();
    assert_eq!(
        p,
        Permission::NetworkEgress(HostPattern::Suffix("example.com".to_string()))
    );

    let p = parse_permission("network:egress:api.example.com").unwrap();
    assert_eq!(
        p,
        Permission::NetworkEgress(HostPattern::Exact("api.example.com".to_string()))
    );
}

#[test]
fn parses_blobs() {
    let p = parse_permission("blobs:write:media/*").unwrap();
    assert_eq!(
        p,
        Permission::Blobs(BlobOp::Write, PathPattern::Prefix("media".to_string()))
    );

    let p = parse_permission("blobs:read:*").unwrap();
    assert_eq!(p, Permission::Blobs(BlobOp::Read, PathPattern::Any));

    let p = parse_permission("blobs:delete:tmp/file.bin").unwrap();
    assert_eq!(
        p,
        Permission::Blobs(
            BlobOp::Delete,
            PathPattern::Exact("tmp/file.bin".to_string())
        )
    );

    for op in ["read", "write", "delete", "list", "stat", "watch"] {
        assert!(
            parse_permission(&format!("blobs:{op}:x")).is_ok(),
            "should parse blobs:{op}",
        );
    }
}

#[test]
fn namespaced_category_parses_as_app_defined() {
    // The kernel hardcodes no app-shaped categories. A
    // dot-namespaced category outside the kernel's six becomes
    // `AppDefined`; embedders enforce in their own layer.
    let p = parse_permission("acme.fs:read:foo").unwrap();
    assert_eq!(
        p,
        Permission::AppDefined {
            kind: "acme.fs".to_string(),
            value: Json::String("read:foo".to_string()),
        }
    );
}

#[test]
fn events_audit_storage_parse_as_app_defined_when_namespaced() {
    // Documents that app-shaped categories such as events/audit/
    // storage parse as AppDefined once namespaced.
    let p = parse_permission("acme.events:publish:catalog.item.created").unwrap();
    assert_eq!(
        p,
        Permission::AppDefined {
            kind: "acme.events".to_string(),
            value: Json::String("publish:catalog.item.created".to_string()),
        }
    );
    let p = parse_permission("acme.audit:write").unwrap();
    assert_eq!(
        p,
        Permission::AppDefined {
            kind: "acme.audit".to_string(),
            value: Json::String("write".to_string()),
        }
    );
    let p = parse_permission("acme.storage:inventory:read").unwrap();
    assert_eq!(
        p,
        Permission::AppDefined {
            kind: "acme.storage".to_string(),
            value: Json::String("inventory:read".to_string()),
        }
    );
}

/// The reservation rule exists so that adding a kernel category
/// later cannot silently capture an embedder's deployed grants.
/// Each of these must be a load error, not an AppDefined grant
/// waiting to change meaning.
#[test]
fn dot_free_unknown_categories_are_reserved_and_rejected() {
    for raw in [
        "fs:read:foo",
        "exec:spawn:ffmpeg",
        "env:read:PATH",
        "events:publish:x",
        "audit:write",
        "storage:inventory:read",
    ] {
        let err = parse_permission(raw).unwrap_err();
        assert!(
            matches!(err, PermissionParseError::ReservedCategory(_, _)),
            "{raw} should be rejected as a reserved category, got {err:?}"
        );
    }
}

/// A typo in a kernel category name must not parse into an
/// AppDefined grant that silently matches nothing; it is a
/// load-time error naming the offending category.
#[test]
fn misspelled_kernel_category_is_rejected_not_silently_app_defined() {
    let err = parse_permission("invok:plugin:victim").unwrap_err();
    match err {
        PermissionParseError::ReservedCategory(raw, cat) => {
            assert_eq!(raw, "invok:plugin:victim");
            assert_eq!(cat, "invok");
        }
        other => panic!("expected ReservedCategory, got {other:?}"),
    }
}

/// Wildcards outside the blessed shapes must be refused rather
/// than parsed as literals. Every entry here would otherwise
/// become an exact-match grant containing a `*` — a grant that
/// never matches and would change meaning if fnmatch-style
/// globbing were ever added.
#[test]
fn wildcards_outside_blessed_shapes_are_rejected() {
    for raw in [
        "network:egress:*.example.*",
        "network:egress:api.*.example.com",
        "network:egress:*example.com",
        "network:egress:api?.example.com",
        "network:egress:api[12].example.com",
        "blobs:read:a/*/b",
        "blobs:read:*/media",
        "blobs:write:media/*/thumbs",
        "step_type:*",
        "step_type:resize_*",
        "provide:step_type:script:*",
        "provide:step_type:*",
        "invoke:plugin:ff*",
        "invoke:role:LLM_*",
    ] {
        let err = parse_permission(raw).unwrap_err();
        assert!(
            matches!(err, PermissionParseError::Malformed(_, _)),
            "{raw} should be rejected as a reserved glob shape, got {err:?}"
        );
    }
}

/// The blessed shapes parse: glob rejection must not swallow the
/// wildcard forms the grammar does support.
#[test]
fn blessed_wildcard_shapes_still_parse() {
    assert_eq!(
        parse_permission("network:egress:*").unwrap(),
        Permission::NetworkEgress(HostPattern::Any)
    );
    assert_eq!(
        parse_permission("network:egress:*.example.com").unwrap(),
        Permission::NetworkEgress(HostPattern::Suffix("example.com".to_string()))
    );
    assert_eq!(
        parse_permission("blobs:read:*").unwrap(),
        Permission::Blobs(BlobOp::Read, PathPattern::Any)
    );
    assert_eq!(
        parse_permission("blobs:write:media/*").unwrap(),
        Permission::Blobs(BlobOp::Write, PathPattern::Prefix("media".to_string()))
    );
    assert_eq!(
        parse_permission("invoke:plugin:*").unwrap(),
        Permission::InvokePlugin(NamePattern::Any)
    );
    assert_eq!(
        parse_permission("invoke:role:*").unwrap(),
        Permission::InvokeRole(NamePattern::Any)
    );
}

#[test]
fn parses_provide_step_type() {
    assert_eq!(
        parse_permission("provide:step_type:script:lua").unwrap(),
        Permission::ProvideStepType {
            step_type: "script".to_string(),
            selector: Some("lua".to_string()),
        }
    );
    assert_eq!(
        parse_permission("provide:step_type:resize_image").unwrap(),
        Permission::ProvideStepType {
            step_type: "resize_image".to_string(),
            selector: None,
        }
    );
}

#[test]
fn rejects_malformed_provide() {
    assert!(parse_permission("provide:").is_err());
    assert!(parse_permission("provide:step_type").is_err());
    assert!(parse_permission("provide:step_type:").is_err());
    assert!(parse_permission("provide:step_type:script:").is_err());
    assert!(parse_permission("provide:action:sign").is_err());
}

#[test]
fn parses_invoke() {
    let p = parse_permission("invoke:plugin:*").unwrap();
    assert_eq!(p, Permission::InvokePlugin(NamePattern::Any));

    let p = parse_permission("invoke:plugin:ffprobe").unwrap();
    assert_eq!(
        p,
        Permission::InvokePlugin(NamePattern::Exact("ffprobe".to_string()))
    );

    let p = parse_permission("invoke:role:LLM_CHAT").unwrap();
    assert_eq!(
        p,
        Permission::InvokeRole(NamePattern::Exact("LLM_CHAT".to_string()))
    );
}

#[test]
fn rejects_malformed_invoke() {
    assert!(parse_permission("invoke:plugin:").is_err());
    assert!(parse_permission("invoke:").is_err());
    assert!(parse_permission("invoke:action:x").is_err());
}

/// `:` in a host pattern is reserved for port syntax.
#[test]
fn a_port_in_a_host_pattern_is_rejected() {
    let err = parse_permission("network:egress:example.com:8080").expect_err("refused");
    assert!(err.message().contains("reserved"), "{}", err.message());
    assert!(parse_permission("network:egress:*.example.com:443").is_err());
}

/// `*.` alone would be `Suffix("")` — a match-everything wildcard
/// that does not look like one.
#[test]
fn an_empty_suffix_is_rejected() {
    let err = parse_permission("network:egress:*.").expect_err("refused");
    assert!(err.message().contains("needs a suffix"),
        "{}",
        err.message());
    assert!(parse_permission("network:egress:*.example.com").is_ok());
}

#[test]
fn check_invoke_role_denies_by_default() {
    assert!(!check_invoke_role(&[], "ANY_ROLE").is_granted());
    // A plugin grant doesn't satisfy a role dispatch.
    let plugin_only = vec![Permission::InvokePlugin(NamePattern::Any)];
    assert!(!check_invoke_role(&plugin_only, "X").is_granted());
}

#[test]
fn check_step_type_exact_match_only() {
    let grants = vec![Permission::StepType("resize_image".to_string())];
    assert!(check_step_type(&grants, "resize_image").is_granted());
    assert!(!check_step_type(&grants, "resize").is_granted());
    assert!(!check_step_type(&[], "resize_image").is_granted());
}

#[test]
fn rejects_bad_blobs_op() {
    let err = parse_permission("blobs:execute:x").unwrap_err();
    assert!(matches!(err, PermissionParseError::Malformed(_, _)));
}

#[test]
fn rejects_empty_pattern() {
    assert!(parse_permission("network:egress:").is_err());
    assert!(parse_permission("blobs:read:").is_err());
}

#[test]
fn host_pattern_any_matches_anything() {
    let p = HostPattern::Any;
    assert!(p.matches("anything.test"));
    assert!(p.matches("localhost"));
    assert!(p.matches("10.0.0.1"));
}

#[test]
fn host_pattern_suffix_matches_subdomains() {
    let p = HostPattern::Suffix("example.com".to_string());
    assert!(p.matches("example.com")); // bare suffix
    assert!(p.matches("api.example.com"));
    assert!(p.matches("a.b.example.com"));
    assert!(!p.matches("notexample.com"));
    assert!(!p.matches("example.org"));
}

#[test]
fn host_pattern_exact_only_matches_exact() {
    let p = HostPattern::Exact("api.example.com".to_string());
    assert!(p.matches("api.example.com"));
    assert!(p.matches("API.EXAMPLE.COM")); // case-insensitive
    assert!(!p.matches("foo.api.example.com"));
    assert!(!p.matches("example.com"));
}

#[test]
fn path_pattern_prefix_matches_children_and_self() {
    let p = PathPattern::Prefix("media".to_string());
    assert!(p.matches("media")); // exact bare prefix
    assert!(p.matches("media/foo"));
    assert!(p.matches("media/a/b/c"));
    assert!(!p.matches("mediator")); // not "media/..."
    assert!(!p.matches("other/path"));
}

#[test]
fn check_network_egress_matches_any() {
    let grants = vec![Permission::NetworkEgress(HostPattern::Any)];
    assert!(check_network_egress(&grants, "anything").is_granted());
}

#[test]
fn check_network_egress_denies_by_default() {
    let grants = vec![];
    let check = check_network_egress(&grants, "evil.com");
    assert!(!check.is_granted());
    match check {
        PermissionCheck::Denied { requested } => {
            assert!(requested.contains("evil.com"));
        }
        _ => panic!("expected Denied"),
    }
}

#[test]
fn check_blobs_only_matches_same_op() {
    let grants = vec![Permission::Blobs(
        BlobOp::Read,
        PathPattern::Prefix("media".to_string()),
    )];
    assert!(check_blobs(&grants, BlobOp::Read, "media/x").is_granted());
    // Write isn't granted just because Read is.
    assert!(!check_blobs(&grants, BlobOp::Write, "media/x").is_granted());
}

#[test]
fn parse_list_collects_errors_on_first_bad_entry() {
    // The list parser fails on the first bad entry; an empty entry
    // in the middle fails the whole list.
    let raw = vec![
        "network:egress:*".to_string(),
        "".to_string(),
        "blobs:read:*".to_string(),
    ];
    let err = parse_permission_list(&raw).unwrap_err();
    assert!(matches!(err, PermissionParseError::Empty));
}

type Check = fn(&str) -> Result<(), String>;

fn publishes(value: &str) -> Result<(), String> {
    match value.split_once(':') {
        Some(("publish" | "subscribe", topic)) if !topic.is_empty() => Ok(()),
        _ => Err("expected publish:<topic> or subscribe:<topic>".to_string()),
    }
}

fn entries(raw: &[&str]) -> Vec<String> {
    raw.iter().map(|s| s.to_string()).collect()
}

#[test]
fn a_category_checks_its_values() {
    let cat = AppPermissionCategory::<Check>::new("acme.events".to_string());
    assert_eq!(cat.name(), "acme.events");
    assert!(!cat.is_value_checked());
    assert!(cat.check_value("anything").is_ok());

    let cat = cat.with_validator(publishes);
    assert!(cat.is_value_checked());
    assert!(cat.check_value("publish:catalog.item.created").is_ok());
    assert!(cat.check_value("publsh:catalog.item.created").is_err());
}

#[test]
fn a_manifest_may_name_declared_categories_only() {
    let categories = [
        AppPermissionCategory::<Check>::new("acme.storage".to_string()),
        AppPermissionCategory::<Check>::new("acme.events".to_string()).with_validator(publishes),
    ];
    let good = entries(&["acme.events:publish:x", "network:egress:*", "acme.storage:any"]);
    assert_eq!(
        parse_manifest_permissions(&good, &categories).unwrap(),
        vec![
            Permission::AppDefined {
                kind: "acme.events".to_string(),
                value: Json::String("publish:x".to_string()),
            },
            Permission::NetworkEgress(HostPattern::Any),
            Permission::AppDefined {
                kind: "acme.storage".to_string(),
                value: Json::String("any".to_string()),
            },
        ]
    );

    let unknown = entries(&["acme.evets:publish:x"]);
    let err = parse_manifest_permissions(&unknown, &categories).unwrap_err();
    assert!(matches!(err, PermissionParseError::UnknownAppCategory { .. }));
    assert!(err
        .message()
        .contains("Declared categories: acme.events, acme.storage."));

    let refused = entries(&["acme.events:publsh:x"]);
    let err = parse_manifest_permissions(&refused, &categories).unwrap_err();
    assert!(matches!(err, PermissionParseError::AppValueRejected { .. }));
    assert!(err.message().contains("expected publish:<topic>"));
}

#[test]
fn the_known_categories_are_listed_in_order() {
    let none: [AppPermissionCategory<Check>; 0] = [];
    assert!(describe_known_categories(&none).contains("declares no embedder permission categories"));
    let two = [
        AppPermissionCategory::<Check>::new("b.b".to_string()),
        AppPermissionCategory::<Check>::new("a.a".to_string()),
    ];
    assert!(describe_known_categories(&two).starts_with("Declared categories: a.a, b.b."));
}

#[test]
fn a_category_that_no_manifest_can_spell_is_refused() {
    assert!(validate_app_category_name("acme.events").is_ok());
    assert_eq!(
        validate_app_category_name(""),
        Err("category name is empty".to_string())
    );
    assert!(validate_app_category_name("events")
        .unwrap_err()
        .contains("has no dot"));
    assert!(validate_app_category_name("acme.events:publish")
        .unwrap_err()
        .ends_with("Declare the category alone: 'acme.events'"));
    assert!(validate_app_category_name("acme..events").is_err());
}

#[test]
fn white_space_around_an_entry_does_not_count() {
    assert_eq!(
        parse_permission("  network:egress:*\n").unwrap(),
        Permission::NetworkEgress(HostPattern::Any)
    );
    assert!(matches!(
        parse_permission("   "),
        Err(PermissionParseError::Empty)
    ));
}

#[test]
fn parses_bind_and_step_type() {
    assert_eq!(
        parse_permission("bind:native_impl:myapp.vault.sign").unwrap(),
        Permission::BindNativeImpl("myapp.vault.sign".to_string())
    );
    assert_eq!(
        parse_permission("step_type:media.resize").unwrap(),
        Permission::StepType("media.resize".to_string())
    );
    assert!(parse_permission("bind:native_impl:").is_err());
    assert!(parse_permission("bind:wasm_impl:x").is_err());
    assert!(parse_permission("step_type:").is_err());
    assert!(parse_permission("acme.fs:").is_err());
}

/// More grants take nothing away, and none grant nothing.
#[test]
fn grants_add_up() {
    let one = parse_permission_list(&entries(&["blobs:read:media/*"])).unwrap();
    let two = parse_permission_list(&entries(&["blobs:read:media/*", "invoke:role:LLM"])).unwrap();
    assert!(check_blobs(&one, BlobOp::Read, "media/x").is_granted());
    assert!(check_blobs(&two, BlobOp::Read, "media/x").is_granted());
    assert!(!check_invoke_role(&one, "LLM").is_granted());
    assert!(check_invoke_role(&two, "LLM").is_granted());
    match check_blobs(&one, BlobOp::List, "media/x") {
        PermissionCheck::Denied { requested } => assert_eq!(requested, "blobs:list:media/x"),
        _ => panic!("expected Denied"),
    }
}

#[test]
fn a_suffix_covers_whole_labels() {
    let p = HostPattern::Suffix("Example.com".to_string());
    assert!(p.matches("EXAMPLE.COM"));
    assert!(p.matches("api.example.COM"));
    assert!(!p.matches("badexample.com"));
    assert!(NamePattern::Any.matches("x"));
    assert!(!NamePattern::Exact("x".to_string()).matches("X"));
    assert!(PathPattern::Exact("a".to_string()).matches("a"));
}

/// A grant that names what nothing can be named is refused.
#[test]
fn a_grant_names_what_can_be() {
    for raw in [
        "invoke:plugin:acme.vault",
        "invoke:plugin:acme/vault",
        "invoke:role:a b",
        "step_type:a.b.c",
        "provide:step_type:script:a-b",
        "bind:native_impl:a..b",
    ] {
        assert!(
            matches!(
                parse_permission(raw),
                Err(PermissionParseError::Malformed(_, _))
            ),
            "{raw}"
        );
    }
}
