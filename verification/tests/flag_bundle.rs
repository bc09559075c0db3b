use stellar_k8s::flag_bundle::{BundleStore, Decision, FlagBundle, FlagVariant, SignedBundle};

const TEST_KEY: &[u8] = b"test-signing-key-1505";
const SECOND: i64 = 1_000_000;

fn bundle_with(version: u64, name: &str, rule_json: &str, variant: &str) -> FlagBundle {
    let mut bundle = FlagBundle::new(version);
    bundle.insert(FlagVariant::user_affecting(name, variant, rule_json));
    bundle
}

fn on() -> Decision {
    Decision { enabled: true, reason: "rule".to_string() }
}

fn off() -> Decision {
    Decision { enabled: false, reason: "rule".to_string() }
}

#[test]
fn signed_bundle_verifies_with_correct_key() {
    let signed = SignedBundle::sign(FlagBundle::new(1), TEST_KEY);
    assert!(signed.verify(TEST_KEY));
    assert!(!signed.verify(b"wrong-key"));
    assert_eq!(signed.signature.len(), 64);
}

#[test]
fn tampered_bundle_fails_verification() {
    let mut signed = SignedBundle::sign(FlagBundle::new(1), TEST_KEY);
    signed.bundle.version = 999;
    assert!(!signed.verify(TEST_KEY));
}

#[test]
fn canonical_bytes_are_compact() {
    let mut bundle = bundle_with(7, "f\"x", "{}", "on");
    bundle.published_at.secs = 1_735_732_800;
    bundle.published_at.nanos = 500_000_000;
    assert_eq!(
        String::from_utf8(bundle.canonical_bytes()).unwrap(),
        "{\"version\":7,\"published_at\":\"2025-01-01T12:00:00.500Z\",\"flags\":{\"f\\\"x\":\
         {\"name\":\"f\\\"x\",\"variant\":\"on\",\"rule_json\":\"{}\",\"user_affecting\":true}}}"
    );
    assert_eq!(
        SignedBundle::sign(bundle, TEST_KEY).signature,
        "1f94c2608447059563db4076315d2a2bbbb0644138b49ba97abf9d917fe8b92e"
    );
}

#[test]
fn install_rejects_bad_signature_and_keeps_last_good() {
    let mut store = BundleStore::new();
    let good = SignedBundle::sign(bundle_with(2, "f", "on", "on"), TEST_KEY);
    store.install(&good, TEST_KEY, 0).unwrap();

    let mut bad = SignedBundle::sign(bundle_with(3, "f", "off", "off"), TEST_KEY);
    bad.signature = "00".repeat(32);
    assert_eq!(store.install(&bad, TEST_KEY, 0), Err("bundle signature verification failed".to_string()));
    assert_eq!(store.version(), Some(2));
}

#[test]
fn install_rejects_stale_versions() {
    let mut store = BundleStore::new();
    assert_eq!(store.install(&SignedBundle::sign(FlagBundle::new(5), TEST_KEY), TEST_KEY, 0), Ok(5));
    let stale = SignedBundle::sign(FlagBundle::new(5), TEST_KEY);
    assert!(store.install(&stale, TEST_KEY, 0).is_err());
    let older = SignedBundle::sign(FlagBundle::new(4), TEST_KEY);
    assert!(store.install(&older, TEST_KEY, 0).is_err());
    assert_eq!(store.version(), Some(5));
}

#[test]
fn evaluation_is_audited_with_flag_variant_and_subject() {
    let mut store = BundleStore::new();
    store.install(&SignedBundle::sign(bundle_with(1, "pruner", "on", "v2"), TEST_KEY), TEST_KEY, 0).unwrap();
    let decision = store.evaluate_audited("pruner", "tenant-7", &on(), 3 * SECOND);
    assert!(decision.enabled);
    assert_eq!(decision.variant, "v2");
    let audit = store.audit();
    assert_eq!(audit.len(), 1);
    let entry = audit.entries()[0];
    assert_eq!(entry.flag, "pruner");
    assert_eq!(entry.variant, "v2");
    assert_eq!(entry.subject, "tenant-7");
    assert_eq!(entry.bundle_version, Some(1));
    assert_eq!(entry.at, 3 * SECOND);
}

#[test]
fn unknown_flag_is_off_but_still_audited() {
    let mut store = BundleStore::new();
    let decision = store.evaluate_audited("nope", "s", &on(), 0);
    assert!(!decision.enabled);
    assert_eq!(store.audit_len(), 1);
}

#[test]
fn kill_switch_works_with_no_bundle_loaded() {
    // Bundle delivery down: last-known-good is empty, kill-switch still applies.
    let mut store = BundleStore::new();
    store.kill("payments_v2", "incident-1234");
    assert_eq!(store.kill_switch.reason("payments_v2"), Some("incident-1234"));
    let decision = store.evaluate_audited("payments_v2", "s", &on(), 0);
    assert!(!decision.enabled);
    assert_eq!(decision.reason, "kill-switch");
    assert!(store.revive("payments_v2"));
    assert!(!store.revive("payments_v2"));
}

#[test]
fn kill_switch_overrides_an_enabled_bundle_flag() {
    let mut store = BundleStore::new();
    store.install(&SignedBundle::sign(bundle_with(1, "f", "on", "on"), TEST_KEY), TEST_KEY, 0).unwrap();
    assert!(store.evaluate_audited("f", "s", &on(), 0).enabled);
    store.kill("f", "rollback");
    assert!(!store.evaluate_audited("f", "s", &on(), 0).enabled);
}

#[test]
fn bundle_update_propagates_without_restart() {
    let mut store = BundleStore::new();
    assert!(store.bundle_age(0).is_none());
    store.install(&SignedBundle::sign(bundle_with(1, "f", "off", "off"), TEST_KEY), TEST_KEY, 0).unwrap();
    assert!(!store.evaluate_audited("f", "s", &off(), 0).enabled);
    store.install(&SignedBundle::sign(bundle_with(2, "f", "on", "on"), TEST_KEY), TEST_KEY, SECOND).unwrap();
    assert!(store.evaluate_audited("f", "s", &on(), SECOND).enabled);
    assert_eq!(store.version(), Some(2));
    assert_eq!(store.bundle_age(4 * SECOND), Some(3 * SECOND as i128));
}

#[test]
fn evaluation_is_submillisecond_in_process() {
    let mut store = BundleStore::new();
    store.install(&SignedBundle::sign(bundle_with(1, "f", "50", "on"), TEST_KEY), TEST_KEY, 0).unwrap();
    for _ in 0..100 {
        store.evaluate_audited("f", "tenant-1", &on(), 0);
    }
    let start = std::time::Instant::now();
    for _ in 0..1000 {
        store.evaluate_audited("f", "tenant-1", &on(), 0);
    }
    assert!(
        start.elapsed() < std::time::Duration::from_secs(1),
        "1000 evaluations took {:?}, exceeding the 1ms/eval budget",
        start.elapsed()
    );
}

#[test]
fn audit_entries_can_be_filtered_per_flag() {
    let mut store = BundleStore::new();
    store.evaluate_audited("a", "s", &on(), 0);
    store.evaluate_audited("b", "s", &on(), 0);
    store.evaluate_audited("a", "s", &on(), 0);
    assert_eq!(store.audit().for_flag("a").len(), 2);
    assert_eq!(store.audit().for_flag("b").len(), 1);
}

#[test]
fn a_variant_under_another_key_is_on_by_its_rule() {
    let mut bundle = FlagBundle::new(1);
    bundle.flags.insert("alias".to_string(), FlagVariant::user_affecting("f", "treatment", "{}"));
    let mut store = BundleStore::new();
    store.install(&SignedBundle::sign(bundle, TEST_KEY), TEST_KEY, 0).unwrap();
    let decision = store.evaluate_audited("f", "tenant", &on(), 0);
    assert!(decision.enabled);
    assert_eq!(decision.variant, "on");
    assert_eq!(store.rule_of("f"), Some("{}"));
    assert_eq!(store.rule_of("alias"), None);
    let decision = store.evaluate_audited("alias", "tenant", &on(), 0);
    assert!(!decision.enabled);
    assert_eq!(decision.variant, "off");
}

#[test]
fn the_last_variant_of_a_name_has_its_rule() {
    let mut bundle = FlagBundle::new(1);
    bundle.flags.insert("b".to_string(), FlagVariant::user_affecting("f", "treatment", "second"));
    bundle.flags.insert("a".to_string(), FlagVariant::user_affecting("f", "treatment", "first"));
    let mut store = BundleStore::new();
    assert_eq!(store.rule_of("f"), None);
    store.install(&SignedBundle::sign(bundle, TEST_KEY), TEST_KEY, 0).unwrap();
    assert_eq!(store.rule_of("f"), Some("second"));
}
