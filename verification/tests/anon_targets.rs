use anon_targets::attrs::AttrType;
use anon_targets::attrs::ConfiguredLabel;
use anon_targets::attrs::RawValue;
use anon_targets::attrs::Rule;
use anon_targets::coerce::AnonAttrCtx;
use anon_targets::config::Configuration;
use anon_targets::config::ExecutionPlatform;
use anon_targets::config::ExecutionPlatformResolution;
use anon_targets::engine::eval_anon_target;
use anon_targets::engine::Engine;
use anon_targets::engine::NestedReg;
use anon_targets::engine::ProviderTemplate;
use anon_targets::engine::RuleDef;
use anon_targets::engine::RuleImpl;
use anon_targets::engine::RuleOutcome;
use anon_targets::errors::AnonTargetsError;
use anon_targets::key::AnonTargetKey;
use anon_targets::registry::AnonTargetsRegistry;
use anon_targets::registry::PromiseId;

fn simple_rule() -> Rule {
    Rule {
        name: "my_rule".to_string(),
        schema: vec![
            ("src".to_string(), AttrType::Str),
            ("dep".to_string(), AttrType::Label),
            ("flag".to_string(), AttrType::Bool),
        ],
    }
}

fn simple_impl() -> RuleImpl {
    RuleImpl {
        outcome: RuleOutcome::Providers(vec![
            ("DefaultInfo".to_string(), ProviderTemplate::FromAttr("src".to_string())),
            ("RunInfo".to_string(), ProviderTemplate::Lit("ok".to_string())),
        ]),
        actions: vec!["compile".to_string()],
        nested: vec![],
    }
}

fn platform() -> ExecutionPlatform {
    ExecutionPlatform {
        name: "exec".to_string(),
        cfg: Configuration::Named("linux-x86_64".to_string()),
    }
}

fn resolution() -> ExecutionPlatformResolution {
    ExecutionPlatformResolution::new(Some(platform()))
}

fn engine() -> Engine {
    Engine::new(
        vec![RuleDef { rule: simple_rule(), body: simple_impl() }],
        vec![platform()],
    )
}

fn attrs_named(name: &str) -> Vec<(String, RawValue)> {
    vec![
        ("name".to_string(), RawValue::Str(name.to_string())),
        ("src".to_string(), RawValue::Str("main.c".to_string())),
    ]
}

#[test]
fn anon_target_name() {
    assert_eq!(
        AnonTargetKey::parse_target_label("//foo:bar")
            .unwrap()
            .to_string(),
        "//foo:bar"
    );
    assert_eq!(
        AnonTargetKey::parse_target_label("cell//foo/bar:baz")
            .unwrap()
            .to_string(),
        "cell//foo/bar:baz"
    );
    assert!(AnonTargetKey::parse_target_label("foo").is_err());
    assert!(AnonTargetKey::parse_target_label("//foo:").is_err());
}

#[test]
fn parse_rejects_wildcards_and_stray_shapes() {
    assert!(AnonTargetKey::parse_target_label("//foo/...").is_err());
    assert!(AnonTargetKey::parse_target_label("//foo:...").is_err());
    assert!(AnonTargetKey::parse_target_label("//foo:bar:baz").is_err());
    assert!(AnonTargetKey::parse_target_label("a/b//c:d").is_err());
    assert!(AnonTargetKey::parse_target_label("//foo//bar:baz").is_err());
    assert!(AnonTargetKey::parse_target_label("").is_err());
    let err = AnonTargetKey::parse_target_label("foo").unwrap_err();
    assert!(matches!(err, AnonTargetsError::NotTargetLabel(t) if t == "foo"));
}

#[test]
fn parse_allows_empty_cell_and_empty_package() {
    assert_eq!(
        AnonTargetKey::parse_target_label("//:tool").unwrap().to_string(),
        "//:tool"
    );
    let l = AnonTargetKey::parse_target_label("cell//:x").unwrap();
    assert_eq!(l.cell, "cell");
    assert_eq!(l.package, "");
    assert_eq!(l.name, "x");
}

#[test]
fn create_name_uses_the_synthetic_cell() {
    let l = AnonTargetKey::create_name("my_rule").unwrap();
    assert_eq!(l.to_string(), "anon//:my_rule");
    assert!(AnonTargetKey::create_name("").is_err());
    assert!(AnonTargetKey::create_name("bad name").is_err());
}

#[test]
fn coerce_name_accepts_labels_and_strings_only() {
    let resolved = RawValue::Label(ConfiguredLabel {
        target: AnonTargetKey::parse_target_label("//pkg:tool").unwrap(),
        cfg: Configuration::Named("linux-x86_64".to_string()),
    });
    let l = AnonTargetKey::coerce_name(&resolved).unwrap();
    assert_eq!(l.to_string(), "//pkg:tool");

    let text = RawValue::Str("cell//a:b".to_string());
    assert_eq!(AnonTargetKey::coerce_name(&text).unwrap().to_string(), "cell//a:b");

    let bad = AnonTargetKey::coerce_name(&RawValue::Str("nolabel".to_string())).unwrap_err();
    assert!(matches!(bad, AnonTargetsError::NotTargetLabel(t) if t == "nolabel"));

    let wrong = AnonTargetKey::coerce_name(&RawValue::Bool(true)).unwrap_err();
    assert!(
        matches!(wrong, AnonTargetsError::InvalidNameType { typ, value } if typ == "bool" && value == "True")
    );
}

#[test]
fn coerce_attr_denies_label_parsing_from_strings() {
    let err =
        AnonTargetKey::coerce_attr(&AttrType::Label, &RawValue::Str("//a:b".to_string()))
            .unwrap_err();
    assert!(matches!(err, AnonTargetsError::CantParseDuringCoerce(t) if t == "//a:b"));
}

#[test]
fn coerce_attr_checks_the_declared_type() {
    assert!(AnonTargetKey::coerce_attr(&AttrType::Str, &RawValue::Str("v".to_string())).is_ok());
    assert!(AnonTargetKey::coerce_attr(&AttrType::Bool, &RawValue::Bool(false)).is_ok());
    let err = AnonTargetKey::coerce_attr(&AttrType::Str, &RawValue::Bool(true)).unwrap_err();
    assert!(
        matches!(err, AnonTargetsError::CoercionFailed { expected, value } if expected == "string" && value == "True")
    );
    let err = AnonTargetKey::coerce_attr(&AttrType::Label, &RawValue::Bool(false)).unwrap_err();
    assert!(matches!(err, AnonTargetsError::CoercionFailed { expected, .. } if expected == "label"));
}

#[test]
fn restricted_context_denies_every_resolution() {
    let ctx = AnonAttrCtx::new();
    assert!(matches!(
        ctx.coerce_label("//a:b").unwrap_err(),
        AnonTargetsError::CantParseDuringCoerce(t) if t == "//a:b"
    ));
    assert!(ctx.coerce_path("some/path", true).is_err());
    assert!(ctx.coerce_target_pattern("//pkg/...").is_err());
    assert!(ctx.visit_query_function_literals("deps(//a:b)").is_err());
    let label = AnonTargetKey::parse_target_label("//a:b").unwrap();
    assert!(ctx.matching_data(&label).is_none());
    assert!(matches!(ctx.cfg(), Configuration::Unspecified));
    assert!(matches!(ctx.exec_cfg(), Configuration::Unspecified));
    assert!(matches!(ctx.platform_cfg(&label), Ok(Configuration::Unspecified)));
    assert!(ctx.resolved_transitions().is_empty());
}

#[test]
fn key_identity_ignores_attribute_order() {
    let rule = simple_rule();
    let res = resolution();
    let a = vec![
        ("src".to_string(), RawValue::Str("main.c".to_string())),
        ("flag".to_string(), RawValue::Bool(true)),
    ];
    let b = vec![
        ("flag".to_string(), RawValue::Bool(true)),
        ("src".to_string(), RawValue::Str("main.c".to_string())),
    ];
    let ka = AnonTargetKey::new(&res, &rule, &a).unwrap();
    let kb = AnonTargetKey::new(&res, &rule, &b).unwrap();
    assert!(ka.same_target(&kb));
    assert!(kb.same_target(&ka));
    let c = vec![
        ("src".to_string(), RawValue::Str("other.c".to_string())),
        ("flag".to_string(), RawValue::Bool(true)),
    ];
    let kc = AnonTargetKey::new(&res, &rule, &c).unwrap();
    assert!(!ka.same_target(&kc));
}

#[test]
fn key_without_name_attribute_gets_the_synthetic_one() {
    let rule = simple_rule();
    let key = AnonTargetKey::new(&resolution(), &rule, &vec![]).unwrap();
    assert_eq!(key.0.name.to_string(), "anon//:my_rule");
    let named = AnonTargetKey::new(&resolution(), &rule, &attrs_named("//p:t")).unwrap();
    assert_eq!(named.0.name.to_string(), "//p:t");
}

#[test]
fn duplicate_key_is_the_same_identity() {
    let key = AnonTargetKey::new(&resolution(), &simple_rule(), &attrs_named("//p:t")).unwrap();
    let copy = key.dupe();
    assert!(copy.same_target(&key));
    assert_eq!(copy.0.name.to_string(), "//p:t");
}

#[test]
fn register_rejects_unknown_attributes_and_adds_nothing() {
    let mut registry = AnonTargetsRegistry::new(resolution());
    let rule = simple_rule();
    let bad = vec![("nope".to_string(), RawValue::Str("v".to_string()))];
    let err = registry.register(PromiseId(1), &rule, &bad).unwrap_err();
    assert!(matches!(err, AnonTargetsError::UnknownAttribute(k) if k == "nope"));
    assert!(registry.get_promises().is_none());
}

#[test]
fn assert_no_promises_reports_pending_registrations() {
    let mut registry = AnonTargetsRegistry::new(resolution());
    assert!(registry.assert_no_promises().is_ok());
    registry
        .register(PromiseId(1), &simple_rule(), &attrs_named("//p:t"))
        .unwrap();
    let err = registry.assert_no_promises().unwrap_err();
    assert!(matches!(err, AnonTargetsError::AssertNoPromisesFailed));
}

#[test]
fn get_promises_swaps_the_batch_out() {
    let mut registry = AnonTargetsRegistry::new(resolution());
    registry
        .register(PromiseId(1), &simple_rule(), &attrs_named("//p:t"))
        .unwrap();
    let taken = registry.get_promises().unwrap();
    assert_eq!(taken.entries.len(), 1);
    assert!(registry.get_promises().is_none());
    assert!(registry.assert_no_promises().is_ok());
    registry
        .register(PromiseId(2), &simple_rule(), &attrs_named("//p:u"))
        .unwrap();
    assert_eq!(registry.entries.len(), 1);
}

#[test]
fn identical_registrations_share_one_analysis() {
    let mut registry = AnonTargetsRegistry::new(resolution());
    let rule = simple_rule();
    let a = vec![
        ("name".to_string(), RawValue::Str("//p:t".to_string())),
        ("src".to_string(), RawValue::Str("main.c".to_string())),
        ("flag".to_string(), RawValue::Bool(true)),
    ];
    let b = vec![
        ("flag".to_string(), RawValue::Bool(true)),
        ("name".to_string(), RawValue::Str("//p:t".to_string())),
        ("src".to_string(), RawValue::Str("main.c".to_string())),
    ];
    registry.register(PromiseId(1), &rule, &a).unwrap();
    registry.register(PromiseId(2), &rule, &b).unwrap();
    let key = AnonTargetKey::new(&resolution(), &rule, &a).unwrap();
    let taken = registry.get_promises().unwrap();
    let mut eng = engine();
    let bindings = taken.run_promises(&mut eng, &vec![0, 1]).unwrap();
    assert_eq!(eng.times_computed(&key), 1);
    assert_eq!(bindings.len(), 2);
    assert_eq!(bindings[0].0, PromiseId(1));
    assert_eq!(bindings[1].0, PromiseId(2));
    assert_eq!(bindings[0].1.len(), bindings[1].1.len());
    for (p, q) in bindings[0].1.iter().zip(bindings[1].1.iter()) {
        assert_eq!(p.name, q.name);
        assert_eq!(p.value, q.value);
    }
}

#[test]
fn promises_bind_in_registration_order() {
    let mut registry = AnonTargetsRegistry::new(resolution());
    let rule = simple_rule();
    for (pid, name) in [(10u64, "//p:r1"), (20, "//p:r2"), (30, "//p:r3")] {
        registry
            .register(PromiseId(pid), &rule, &attrs_named(name))
            .unwrap();
    }
    let taken = registry.get_promises().unwrap();
    let mut eng = engine();
    // Resolutions complete in the order R3, R1, R2.
    let bindings = taken.run_promises(&mut eng, &vec![2, 0, 1]).unwrap();
    let order: Vec<u64> = bindings.iter().map(|b| b.0 .0).collect();
    assert_eq!(order, vec![10, 20, 30]);
}

#[test]
fn analysis_renders_providers_from_attributes() {
    let mut eng = engine();
    let key = AnonTargetKey::new(&resolution(), &simple_rule(), &attrs_named("//p:t")).unwrap();
    let res = eval_anon_target(&mut eng, &key).unwrap();
    assert_eq!(res.providers.len(), 2);
    assert_eq!(res.providers[0].name, "DefaultInfo");
    assert_eq!(res.providers[0].value, "main.c");
    assert_eq!(res.providers[1].name, "RunInfo");
    assert_eq!(res.providers[1].value, "ok");
    assert_eq!(res.deferred.actions, vec!["compile".to_string()]);
    // A second request is answered from the cache.
    let again = eval_anon_target(&mut eng, &key).unwrap();
    assert_eq!(again.providers[0].value, "main.c");
    assert_eq!(eng.times_computed(&key), 1);
}

#[test]
fn analysis_fails_without_a_rule_implementation() {
    let mut eng = Engine::new(vec![], vec![platform()]);
    let key = AnonTargetKey::new(&resolution(), &simple_rule(), &attrs_named("//p:t")).unwrap();
    let err = eval_anon_target(&mut eng, &key).unwrap_err();
    assert!(matches!(err, AnonTargetsError::Wrapped(m) if m == "my_rule"));
}

#[test]
fn analysis_fails_without_a_matching_platform() {
    let mut eng = Engine::new(vec![RuleDef { rule: simple_rule(), body: simple_impl() }], vec![]);
    let key = AnonTargetKey::new(&resolution(), &simple_rule(), &attrs_named("//p:t")).unwrap();
    let err = eval_anon_target(&mut eng, &key).unwrap_err();
    assert!(matches!(err, AnonTargetsError::Wrapped(m) if m == "no matching execution platform"));
}

#[test]
fn a_failing_rule_implementation_aborts_the_batch() {
    let failing = RuleDef {
        rule: simple_rule(),
        body: RuleImpl {
            outcome: RuleOutcome::Fail("boom".to_string()),
            actions: vec![],
            nested: vec![],
        },
    };
    let mut eng = Engine::new(vec![failing], vec![platform()]);
    let mut registry = AnonTargetsRegistry::new(resolution());
    registry
        .register(PromiseId(1), &simple_rule(), &attrs_named("//p:t"))
        .unwrap();
    let taken = registry.get_promises().unwrap();
    let err = taken.run_promises(&mut eng, &vec![0]).unwrap_err();
    assert!(matches!(err, AnonTargetsError::Wrapped(m) if m == "boom"));
}

#[test]
fn a_provider_naming_a_missing_attribute_fails() {
    let body = RuleImpl {
        outcome: RuleOutcome::Providers(vec![(
            "DefaultInfo".to_string(),
            ProviderTemplate::FromAttr("absent".to_string()),
        )]),
        actions: vec![],
        nested: vec![],
    };
    let mut eng = Engine::new(vec![RuleDef { rule: simple_rule(), body }], vec![platform()]);
    let key = AnonTargetKey::new(&resolution(), &simple_rule(), &attrs_named("//p:t")).unwrap();
    let err = eval_anon_target(&mut eng, &key).unwrap_err();
    assert!(matches!(err, AnonTargetsError::UnknownAttribute(k) if k == "absent"));
}

#[test]
fn result_equality_always_reports_a_change() {
    let mut eng = engine();
    let key = AnonTargetKey::new(&resolution(), &simple_rule(), &attrs_named("//p:t")).unwrap();
    let a = eval_anon_target(&mut eng, &key);
    let b = eval_anon_target(&mut eng, &key);
    assert!(!AnonTargetKey::equality(&a, &b));
}

#[test]
fn a_cached_failure_is_not_retried() {
    let mut eng = Engine::new(vec![], vec![platform()]);
    let key = AnonTargetKey::new(&resolution(), &simple_rule(), &attrs_named("//p:t")).unwrap();
    assert!(eval_anon_target(&mut eng, &key).is_err());
    assert!(eval_anon_target(&mut eng, &key).is_err());
    assert_eq!(eng.times_computed(&key), 1);
}

fn parent_rule() -> Rule {
    Rule { name: "parent_rule".to_string(), schema: vec![] }
}

fn parent_def(nested: Vec<NestedReg>) -> RuleDef {
    RuleDef {
        rule: parent_rule(),
        body: RuleImpl {
            outcome: RuleOutcome::Providers(vec![(
                "DefaultInfo".to_string(),
                ProviderTemplate::Lit("parent".to_string()),
            )]),
            actions: vec![],
            nested,
        },
    }
}

#[test]
fn nested_registrations_resolve_during_the_parent_analysis() {
    let nested = vec![NestedReg {
        rule: "my_rule".to_string(),
        attrs: vec![("src".to_string(), RawValue::Str("lib.c".to_string()))],
    }];
    let mut eng = Engine::new(
        vec![parent_def(nested), RuleDef { rule: simple_rule(), body: simple_impl() }],
        vec![platform()],
    );
    let parent = AnonTargetKey::new(&resolution(), &parent_rule(), &vec![]).unwrap();
    let res = eval_anon_target(&mut eng, &parent).unwrap();
    assert_eq!(res.providers[0].value, "parent");
    // The child the parent registered was analyzed, once, under the
    // resolved platform.
    let child_attrs = vec![("src".to_string(), RawValue::Str("lib.c".to_string()))];
    let child = AnonTargetKey::new(&resolution(), &simple_rule(), &child_attrs).unwrap();
    assert_eq!(eng.times_computed(&child), 1);
    let child_res = eval_anon_target(&mut eng, &child).unwrap();
    assert_eq!(child_res.providers[0].value, "lib.c");
    assert_eq!(eng.times_computed(&child), 1);
}

#[test]
fn a_nested_registration_of_an_unknown_rule_fails() {
    let nested = vec![NestedReg { rule: "ghost_rule".to_string(), attrs: vec![] }];
    let mut eng = Engine::new(vec![parent_def(nested)], vec![platform()]);
    let parent = AnonTargetKey::new(&resolution(), &parent_rule(), &vec![]).unwrap();
    let err = eval_anon_target(&mut eng, &parent).unwrap_err();
    assert!(matches!(err, AnonTargetsError::Wrapped(m) if m == "ghost_rule"));
}

#[test]
fn self_registering_rules_hit_the_recursion_limit() {
    let looping = RuleDef {
        rule: Rule { name: "loop_rule".to_string(), schema: vec![] },
        body: RuleImpl {
            outcome: RuleOutcome::Providers(vec![]),
            actions: vec![],
            nested: vec![NestedReg { rule: "loop_rule".to_string(), attrs: vec![] }],
        },
    };
    let mut eng = Engine::new(vec![looping], vec![platform()]);
    let rule = Rule { name: "loop_rule".to_string(), schema: vec![] };
    let key = AnonTargetKey::new(&resolution(), &rule, &vec![]).unwrap();
    let err = eval_anon_target(&mut eng, &key).unwrap_err();
    assert!(matches!(err, AnonTargetsError::Wrapped(m) if m == "anonymous target recursion limit reached"));
    // The failure is recorded once for the identity and reused.
    assert_eq!(eng.times_computed(&key), 1);
    assert!(eval_anon_target(&mut eng, &key).is_err());
    assert_eq!(eng.times_computed(&key), 1);
}
