use kiro_rs::kiro::model::events::metadata::{MetadataEvent, TokenUsage};

#[test]
fn sanitizes_negative_values() {
    let usage = TokenUsage {
        uncached_input_tokens: -1,
        output_tokens: -2,
        cache_read_input_tokens: -3,
        cache_write_input_tokens: -4,
    }
    .sanitized();

    assert_eq!(usage, TokenUsage::default());
}

#[test]
fn adds_multiple_provider_calls_without_overflowing() {
    let first = TokenUsage {
        uncached_input_tokens: i32::MAX,
        output_tokens: 3,
        cache_read_input_tokens: 20,
        cache_write_input_tokens: 4,
    };
    let second = TokenUsage {
        uncached_input_tokens: 7,
        output_tokens: 5,
        cache_read_input_tokens: 11,
        cache_write_input_tokens: 2,
    };

    assert_eq!(
        first.saturating_add(second),
        TokenUsage {
            uncached_input_tokens: i32::MAX,
            output_tokens: 8,
            cache_read_input_tokens: 31,
            cache_write_input_tokens: 6,
        }
    );
}

#[test]
fn subtracts_injected_tokens_across_input_buckets_only() {
    let usage = TokenUsage {
        uncached_input_tokens: 100,
        output_tokens: 23,
        cache_read_input_tokens: 300,
        cache_write_input_tokens: 40,
    };

    assert_eq!(
        usage.subtract_injected_input(125),
        TokenUsage {
            uncached_input_tokens: 100,
            output_tokens: 23,
            cache_read_input_tokens: 175,
            cache_write_input_tokens: 40,
        }
    );
}

#[test]
fn injected_token_subtraction_keeps_one_real_input_token() {
    let usage = TokenUsage {
        uncached_input_tokens: 2,
        output_tokens: 7,
        cache_read_input_tokens: 3,
        cache_write_input_tokens: 4,
    };
    let adjusted = usage.subtract_injected_input(i32::MAX);

    assert_eq!(adjusted.total_input_tokens(), 1);
    assert_eq!(adjusted.output_tokens, 7);
    assert_eq!(adjusted.uncached_input_tokens, 1);
    assert_eq!(adjusted.cache_write_input_tokens, 0);
    assert_eq!(adjusted.cache_read_input_tokens, 0);
}

#[test]
fn non_positive_injected_tokens_do_nothing() {
    let usage = TokenUsage {
        uncached_input_tokens: 5,
        output_tokens: 2,
        cache_read_input_tokens: 3,
        cache_write_input_tokens: 1,
    };
    assert_eq!(usage.subtract_injected_input(0), usage);
    assert_eq!(usage.subtract_injected_input(-10), usage);
}

/// An all-zero snapshot counts as missing.
#[test]
fn all_zero_snapshot_is_treated_as_empty() {
    assert!(TokenUsage::default().is_empty());
    assert!(!TokenUsage {
        output_tokens: 1,
        ..Default::default()
    }
    .is_empty());
}

#[test]
fn total_input_sums_the_three_input_buckets() {
    let usage = TokenUsage {
        uncached_input_tokens: 101,
        output_tokens: 23,
        cache_read_input_tokens: 300,
        cache_write_input_tokens: 40,
    };
    assert_eq!(usage.total_input_tokens(), 441);
}

#[test]
fn total_input_ignores_negative_buckets_and_saturates() {
    let usage = TokenUsage {
        uncached_input_tokens: -50,
        output_tokens: 0,
        cache_read_input_tokens: 10,
        cache_write_input_tokens: 5,
    };
    assert_eq!(usage.total_input_tokens(), 15);
    let big = TokenUsage {
        uncached_input_tokens: i32::MAX,
        output_tokens: 0,
        cache_read_input_tokens: i32::MAX,
        cache_write_input_tokens: 1,
    };
    assert_eq!(big.total_input_tokens(), i32::MAX);
}

#[test]
fn subtraction_drains_read_then_write_then_uncached() {
    let usage = TokenUsage {
        uncached_input_tokens: 10,
        output_tokens: 1,
        cache_read_input_tokens: 5,
        cache_write_input_tokens: 7,
    };
    assert_eq!(
        usage.subtract_injected_input(15),
        TokenUsage {
            uncached_input_tokens: 7,
            output_tokens: 1,
            cache_read_input_tokens: 0,
            cache_write_input_tokens: 0,
        }
    );
}

#[test]
fn subtraction_on_empty_input_changes_nothing() {
    let usage = TokenUsage {
        uncached_input_tokens: 0,
        output_tokens: 9,
        cache_read_input_tokens: 0,
        cache_write_input_tokens: 0,
    };
    assert_eq!(usage.subtract_injected_input(100), usage);
}

#[test]
fn merging_is_order_independent() {
    let a = TokenUsage {
        uncached_input_tokens: 1,
        output_tokens: -4,
        cache_read_input_tokens: 2,
        cache_write_input_tokens: 3,
    };
    let b = TokenUsage {
        uncached_input_tokens: 10,
        output_tokens: 20,
        cache_read_input_tokens: 30,
        cache_write_input_tokens: 40,
    };
    assert_eq!(a.saturating_add(b), b.saturating_add(a));
    assert_eq!(a.saturating_add(b).output_tokens, 20);
}

#[test]
fn metadata_event_defaults_to_no_usage() {
    assert!(MetadataEvent::default().token_usage.is_none());
}
