use kiro_rs::anthropic::empty_dump::{dump_dir, sanitize, switch_enabled, truncate, BODY_MAX};

#[test]
fn sanitize_strips_path_traversal() {
    assert_eq!(sanitize("../../etc/passwd"), "etcpasswd");
    assert_eq!(
        sanitize("9f8e7d6c-1234-4abc-89de-000000000001"),
        "9f8e7d6c-1234-4abc-89de-000000000001"
    );
    assert_eq!(sanitize(""), "");
    // An overlong id is cut to 64 characters.
    assert_eq!(sanitize(&"a".repeat(200)).len(), 64);
}

#[test]
fn truncate_respects_limit_and_char_boundary() {
    let short = "hello";
    assert_eq!(truncate(short), ("hello", false));

    // A multi-byte character straddling the limit must not be split.
    let long = "中".repeat(BODY_MAX);
    let (out, truncated) = truncate(&long);
    assert!(truncated);
    assert!(out.len() <= BODY_MAX);
    assert!(out.chars().all(|c| c == '中'), "no half character");
}

#[test]
fn truncate_keeps_the_largest_whole_prefix() {
    let long = "中".repeat(BODY_MAX);
    let (out, _) = truncate(&long);
    // 2 MiB is not a multiple of 3: the cut falls on the last whole character.
    assert_eq!(out.len(), BODY_MAX / 3 * 3);
    let exact = "a".repeat(BODY_MAX);
    assert_eq!(truncate(&exact), (exact.as_str(), false));
    let over = "a".repeat(BODY_MAX + 1);
    let (cut, flag) = truncate(&over);
    assert!(flag);
    assert_eq!(cut.len(), BODY_MAX);
}

#[test]
fn sanitize_keeps_only_safe_characters() {
    assert_eq!(sanitize("a b/c\\d.e_f-G9"), "abcde_f-G9");
    assert_eq!(sanitize("日志-42"), "-42");
    let mixed = format!("{}{}", "/".repeat(100), "x".repeat(70));
    assert_eq!(sanitize(&mixed), "x".repeat(64));
}

#[test]
fn switch_accepts_one_true_yes_in_any_case() {
    assert!(switch_enabled(Some("1")));
    assert!(switch_enabled(Some(" TRUE ")));
    assert!(switch_enabled(Some("Yes\n")));
    assert!(!switch_enabled(Some("0")));
    assert!(!switch_enabled(Some("on")));
    assert!(!switch_enabled(Some("")));
    assert!(!switch_enabled(None));
}

#[test]
fn dump_dir_defaults_when_unset_or_blank() {
    assert_eq!(dump_dir(None), "dump");
    assert_eq!(dump_dir(Some("   ")), "dump");
    assert_eq!(dump_dir(Some("/var/tmp/empty")), "/var/tmp/empty");
    assert_eq!(dump_dir(Some(" spaced ")), " spaced ");
}
