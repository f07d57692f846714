use kiro_rs::kiro::error_rules::{ErrorRule, ErrorRuleStore, MatchMode, RuleAction};

fn rule(keywords: &[&str]) -> ErrorRule {
    ErrorRule {
        name: "test".into(),
        enabled: true,
        keywords: keywords.iter().map(|s| s.to_string()).collect(),
        match_mode: MatchMode::Any,
        case_sensitive: false,
        status_codes: vec![],
        action: RuleAction::Disable,
        cooldown_secs: 60,
        self_healable: false,
        min_available: 0,
    }
}

/// The model-retirement body seen in the field must be hit by the simplest rule.
#[test]
fn matches_real_invalid_model_id_body() {
    let body = r#"{"message":"Invalid model ID. Please select a different model to continue.","reason":"INVALID_MODEL_ID"}"#;
    assert!(rule(&["Invalid model ID"]).matches(Some(400), body));
    assert!(rule(&["INVALID_MODEL_ID"]).matches(Some(400), body));
}

/// Case-insensitive by default: the upstream's capitalisation is not stable.
#[test]
fn case_insensitive_by_default() {
    let body = r#"{"reason":"INVALID_MODEL_ID"}"#;
    assert!(rule(&["invalid_model_id"]).matches(None, body));

    let mut sensitive = rule(&["invalid_model_id"]);
    sensitive.case_sensitive = true;
    assert!(!sensitive.matches(None, body), "a case-sensitive rule must not hit");
}

/// Status codes narrow the match.
#[test]
fn status_codes_narrow_the_match() {
    let mut r = rule(&["Invalid model ID"]);
    r.status_codes = vec![400];
    let body = "Invalid model ID";

    assert!(r.matches(Some(400), body));
    assert!(!r.matches(Some(500), body), "another status must not hit");
    assert!(
        !r.matches(None, body),
        "without a status, a rule limited to status codes must not hit"
    );
}

/// `all` needs every keyword.
#[test]
fn all_mode_requires_every_keyword() {
    let mut r = rule(&["suspended", "locked your account"]);
    r.match_mode = MatchMode::All;

    assert!(r.matches(None, "your account is suspended and we locked your account"));
    assert!(
        !r.matches(None, "your account is suspended"),
        "one missing keyword must not hit"
    );
}

/// An empty keyword list never matches everything.
#[test]
fn empty_keywords_never_match() {
    assert!(!rule(&[]).matches(Some(400), "anything at all"));
    let mut blank = rule(&["   "]);
    assert!(!blank.matches(Some(400), "anything"));
    blank.match_mode = MatchMode::All;
    assert!(!blank.matches(Some(400), "anything"));
}

/// A disabled rule takes no part.
#[test]
fn disabled_rule_never_matches() {
    let mut r = rule(&["Invalid model ID"]);
    r.enabled = false;
    assert!(!r.matches(Some(400), "Invalid model ID"));
}

/// Configuration order is priority order.
#[test]
fn first_match_follows_config_order() {
    let mut first = rule(&["Invalid model ID"]);
    first.name = "模型下架".into();
    let mut second = rule(&["Invalid"]);
    second.name = "宽泛兜底".into();

    let store = ErrorRuleStore::new(vec![first, second], None);
    let hit = store.first_match(Some(400), "Invalid model ID").unwrap();
    assert_eq!(hit.name, "模型下架");
}

/// The default empty table changes nothing.
#[test]
fn empty_store_has_no_enabled_rules() {
    let store = ErrorRuleStore::new(vec![], None);
    assert!(!store.has_enabled());
    assert!(store.first_match(Some(400), "Invalid model ID").is_none());
}

/// Writing cleans the input: blanks trimmed, blank keywords dropped, status
/// codes deduplicated and sorted, cooldown clamped.
#[test]
fn replace_sanitizes_input() {
    let mut store = ErrorRuleStore::new(vec![], None);
    let dirty = ErrorRule {
        name: "  ".into(),
        enabled: true,
        keywords: vec!["  Invalid model ID  ".into(), "   ".into()],
        match_mode: MatchMode::Any,
        case_sensitive: false,
        status_codes: vec![400, 400, 402],
        action: RuleAction::Cooldown,
        cooldown_secs: 999_999,
        self_healable: false,
        min_available: 0,
    };

    let saved = store.replace(vec![dirty]);
    let r = &saved[0];
    assert_eq!(r.name, "未命名规则", "a blank name gets the default");
    assert_eq!(r.keywords, vec!["Invalid model ID".to_string()]);
    assert_eq!(r.status_codes, vec![400, 402], "codes deduplicated and sorted");
    assert_eq!(r.cooldown_secs, 86_400, "cooldown clamped to the maximum");
    assert!(r.matches(Some(400), r#"{"reason":"invalid model id"}"#));
}

#[test]
fn rule_action_names_are_stable() {
    assert_eq!(RuleAction::Disable.as_str(), "disable");
    assert_eq!(RuleAction::Cooldown.as_str(), "cooldown");
    assert_eq!(RuleAction::CountFailure.as_str(), "countFailure");
    assert_eq!(RuleAction::Abort.as_str(), "abort");
}

#[test]
fn defaults_are_any_and_disable() {
    assert_eq!(MatchMode::default(), MatchMode::Any);
    assert_eq!(RuleAction::default(), RuleAction::Disable);
}

#[test]
fn unicode_lowercasing_applies_to_body_and_keyword() {
    // Non-ASCII case folding goes through the full Unicode mapping.
    assert!(rule(&["ÉCHEC"]).matches(None, "requête en échec"));
    assert!(rule(&["Straße"]).matches(None, "STRAßE gesperrt"));
}

#[test]
fn keywords_are_trimmed_before_matching() {
    assert!(rule(&["\t quota \n"]).matches(Some(429), "monthly quota exceeded"));
    assert!(!rule(&["quota exceeded!"]).matches(Some(429), "monthly quota exceeded"));
}

#[test]
fn any_mode_hits_on_a_later_keyword() {
    let r = rule(&["nothing", "else", "throttled"]);
    assert!(r.matches(Some(429), "you are being THROTTLED"));
    assert!(!r.matches(Some(429), "all good"));
}

#[test]
fn sanitize_keeps_sorted_unique_codes_and_small_cooldown() {
    let mut store = ErrorRuleStore::new(vec![], None);
    let mut r = rule(&[" a ", "", "b"]);
    r.name = "  keep me ".into();
    r.status_codes = vec![503, 400, 503, 429, 400];
    r.cooldown_secs = 0;
    let saved = store.replace(vec![r]);
    assert_eq!(saved[0].name, "keep me");
    assert_eq!(saved[0].keywords, vec!["a".to_string(), "b".to_string()]);
    assert_eq!(saved[0].status_codes, vec![400, 429, 503]);
    assert_eq!(saved[0].cooldown_secs, 1);
    let snap = store.snapshot();
    assert_eq!(snap.len(), 1);
    assert_eq!(snap[0].status_codes, vec![400, 429, 503]);
    assert!(store.has_enabled());
}

#[test]
fn first_match_skips_disabled_and_misses() {
    let mut off = rule(&["boom"]);
    off.enabled = false;
    off.name = "off".into();
    let mut other = rule(&["nope"]);
    other.name = "other".into();
    let mut hit = rule(&["boom"]);
    hit.name = "hit".into();
    let store = ErrorRuleStore::new(vec![off, other, hit], None);
    assert_eq!(store.first_match(None, "BOOM").unwrap().name, "hit");
    assert!(store.first_match(None, "quiet").is_none());
}

#[test]
fn sanitizing_twice_is_sanitizing_once() {
    let mut r = rule(&["  Quota ", " ", "x"]);
    r.name = "   ".into();
    r.status_codes = vec![500, 429, 500];
    r.cooldown_secs = 10_000_000;
    let once = kiro_rs::kiro::error_rules::sanitize_rule(r);
    let twice = kiro_rs::kiro::error_rules::sanitize_rule(once.clone());
    assert_eq!(twice, once);
    assert_eq!(once.name, "未命名规则");
}
