use kiro_rs::anthropic::cache_force::split_fits;
use kiro_rs::anthropic::cache_force::{
    resolve, simulate, CacheMode, ForcedCacheUsage, ResolvedCacheUsage,
};

fn split(total: i32, creation: i32, read: i32) -> (i32, i32, i32) {
    let u = simulate(total, creation, read).unwrap();
    (u.input_tokens, u.cache_creation_input_tokens, u.cache_read_input_tokens)
}

#[test]
fn forced_split_needs_a_positive_total() {
    assert!(simulate(0, 0, 0).is_none());
    assert!(simulate(-5, 3, 3).is_none());
}

#[test]
fn forced_split_of_one_token_is_all_input() {
    assert_eq!(
        simulate(1, 1, 1),
        Some(ForcedCacheUsage {
            input_tokens: 1,
            cache_creation_input_tokens: 0,
            cache_read_input_tokens: 0,
        })
    );
}

#[test]
fn forced_split_basic() {
    // Ratios 0.2 / 0.7 of a cacheable base of 999 (1000 capped at 999):
    // creation round(199.8) = 200, read round(699.3) = 699.
    assert_eq!(split(1000, 200, 699), (101, 200, 699));
    // Cacheable ratio 0.5: base 500, creation 100, read 350.
    assert_eq!(split(1000, 100, 350), (550, 100, 350));
}

#[test]
fn forced_split_always_keeps_one_input_token() {
    for total in [2, 10, 100, 1000, 100_000] {
        let (input, creation, read) = split(total, total, total);
        assert!(input >= 1);
        assert_eq!(input + creation + read, total);
        assert_eq!(creation, total - 1);
        assert_eq!(read, 0);
    }
    // Proposals adding up past the cap give the read whatever is left.
    assert_eq!(split(1000, 600, 900), (1, 600, 399));
}

fn resolved(
    input: i32,
    creation: i32,
    read: i32,
    e5m: i32,
    e1h: i32,
) -> ResolvedCacheUsage {
    ResolvedCacheUsage {
        input_tokens: input,
        cache_creation_input_tokens: creation,
        cache_read_input_tokens: read,
        ephemeral_5m_input_tokens: e5m,
        ephemeral_1h_input_tokens: e1h,
    }
}

#[test]
fn resolve_off_is_all_input() {
    assert_eq!(
        resolve(CacheMode::Off, (400, 200, 100), 1000, 500, 500, 300),
        resolved(1000, 0, 0, 0, 0)
    );
}

#[test]
fn resolve_auto_uses_the_hash_chain_split() {
    let r = resolve(CacheMode::Auto, (700, 200, 100), 1000, 0, 0, 300);
    assert_eq!(r, resolved(700, 200, 100, 200, 0));
}

#[test]
fn resolve_force_uses_the_forced_split_and_ttl_buckets() {
    assert_eq!(
        resolve(CacheMode::Force, (0, 0, 0), 1000, 200, 699, 300),
        resolved(101, 200, 699, 200, 0)
    );
    assert_eq!(
        resolve(CacheMode::Force, (0, 0, 0), 1000, 200, 699, 3600),
        resolved(101, 200, 699, 0, 200)
    );
}

#[test]
fn resolve_zero_or_negative_total_is_safe() {
    assert_eq!(
        resolve(CacheMode::Force, (0, 0, 0), 0, 0, 0, 300),
        resolved(0, 0, 0, 0, 0)
    );
    assert_eq!(
        resolve(CacheMode::Off, (0, 0, 0), -7, 0, 0, 300),
        resolved(0, 0, 0, 0, 0)
    );
}

#[test]
fn defaults() {
    assert_eq!(CacheMode::default(), CacheMode::Auto);
    assert_eq!(ResolvedCacheUsage::default(), resolved(0, 0, 0, 0, 0));
}

#[test]
fn split_fits_rejects_overflowing_proposals() {
    assert!(split_fits(1000, 200, 699));
    assert!(split_fits(0, i32::MIN, i32::MIN));
    assert!(!split_fits(1000, i32::MIN, 0));
    assert!(!split_fits(i32::MAX, 0, i32::MIN));
    assert!(split_fits(1000, -5, 10));
}
