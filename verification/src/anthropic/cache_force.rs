//! Cache usage reporting with a panel-selectable mode.
//!
//! Beside the hash-chain simulation of real prefix hits (`Auto`), the
//! administrator can switch reporting off (`Off`) or force a split of the
//! estimated input total into `(input, cache_creation, cache_read)` by three
//! ratios (`Force`), whatever `cache_control` the request carried.  The ratios
//! are floating point and live with the settings; this module takes the split
//! they propose in whole tokens and settles it: the input count never drops
//! below one, and the three parts always add up to the total.
use vstd::prelude::*;

verus! {

/// The three-way switch of the panel.
#[derive(Debug, Clone, Copy, PartialEq, Eq, Structural)]
pub enum CacheMode {
    /// No cache fields at all: as the official API answers a request without
    /// `cache_control`.
    Off,
    /// The hash-chain simulation (the default, the behaviour before the panel
    /// existed).
    Auto,
    /// Split by the configured ratios, whatever the request says.
    Force,
}

impl Default for CacheMode {
    fn default() -> (r: Self)
        ensures
            r == CacheMode::Auto,
    {
        CacheMode::Auto
    }
}

/// The split `simulate` produces.
#[derive(Debug, Clone, Copy, PartialEq, Eq, Structural)]
pub struct ForcedCacheUsage {
    pub input_tokens: i32,
    pub cache_creation_input_tokens: i32,
    pub cache_read_input_tokens: i32,
}

/// The split the three modes resolve to, as handlers and streams report it.
///
/// `ephemeral_5m_input_tokens` and `ephemeral_1h_input_tokens` put the cache
/// creation into the TTL bucket the request asked for; they always add up to
/// `cache_creation_input_tokens`.
#[derive(Debug, Clone, Copy, PartialEq, Eq, Structural)]
pub struct ResolvedCacheUsage {
    pub input_tokens: i32,
    pub cache_creation_input_tokens: i32,
    pub cache_read_input_tokens: i32,
    pub ephemeral_5m_input_tokens: i32,
    pub ephemeral_1h_input_tokens: i32,
}

impl Default for ResolvedCacheUsage {
    fn default() -> (r: Self)
        ensures
            r == (ResolvedCacheUsage {
                input_tokens: 0,
                cache_creation_input_tokens: 0,
                cache_read_input_tokens: 0,
                ephemeral_5m_input_tokens: 0,
                ephemeral_1h_input_tokens: 0,
            }),
    {
        ResolvedCacheUsage {
            input_tokens: 0,
            cache_creation_input_tokens: 0,
            cache_read_input_tokens: 0,
            ephemeral_5m_input_tokens: 0,
            ephemeral_1h_input_tokens: 0,
        }
    }
}

/// Cache creation above this TTL (in seconds) goes into the one-hour bucket.
pub const FIVE_MINUTES_SECS: i64 = 300;

/// The creation count after capping it at `total - 1`.
pub open spec fn capped_creation(total: int, creation: int) -> int {
    if creation > total - 1 {
        total - 1
    } else {
        creation
    }
}

/// The read count once creation is capped: when creation and read together
/// would leave no input token, read shrinks to what is left of `total - 1`.
pub open spec fn capped_read(total: int, creation: int, read: int) -> int {
    let c = capped_creation(total, creation);
    if c + read > total - 1 {
        if total - 1 - c > 0 {
            total - 1 - c
        } else {
            0
        }
    } else {
        read
    }
}

/// The forced split of `total` input tokens, given the creation and read
/// counts proposed by the ratios (already rounded to whole tokens).
///
/// No split for a non-positive total; a total of one is all input; otherwise
/// at most `total - 1` tokens go to the cache, so at least one is input.
pub open spec fn forced_split(total: i32, creation: i32, read: i32) -> Option<ForcedCacheUsage> {
    if total <= 0 {
        None
    } else if total == 1 {
        Some(
            ForcedCacheUsage {
                input_tokens: 1,
                cache_creation_input_tokens: 0,
                cache_read_input_tokens: 0,
            },
        )
    } else {
        let c = capped_creation(total as int, creation as int);
        let r = capped_read(total as int, creation as int, read as int);
        let input = if total - c - r < 1 {
            1
        } else {
            total - c - r
        };
        Some(
            ForcedCacheUsage {
                input_tokens: input as i32,
                cache_creation_input_tokens: c as i32,
                cache_read_input_tokens: r as i32,
            },
        )
    }
}

/// The proposed counts stay within `i32` through the settling steps (for
/// counts from ratios in `[0, 1]` they always do).
pub open spec fn split_in_range(total: i32, creation: i32, read: i32) -> bool {
    total > 1 ==> {
        let c = capped_creation(total as int, creation as int);
        &&& total - c <= i32::MAX
        &&& i32::MIN <= c + read <= i32::MAX
        &&& (c + read <= total - 1 ==> total - c - read <= i32::MAX)
    }
}

/// Settles a forced split of `total` input tokens into input, cache creation
/// and cache read, from the creation and read counts the ratios propose.
///
/// Returns `None` for `total <= 0` (the caller keeps its usage as it is).
/// The input count is never below one: even when the ratios add up to one, a
/// request that happened had some new input, and zero input means "nothing
/// new" to Anthropic clients.  So at most `total - 1` tokens go to the cache.
pub fn simulate(total: i32, creation: i32, read: i32) -> (r: Option<ForcedCacheUsage>)
    requires
        split_in_range(total, creation, read),
    ensures
        r == forced_split(total, creation, read),
{
    if total <= 0 {
        return None;
    }
    if total == 1 {
        return Some(
            ForcedCacheUsage {
                input_tokens: 1,
                cache_creation_input_tokens: 0,
                cache_read_input_tokens: 0,
            },
        );
    }
    let cacheable_cap = total - 1;
    let mut creation = creation;
    let mut read = read;
    if creation > cacheable_cap {
        creation = cacheable_cap;
    }
    if creation + read > cacheable_cap {
        let left = cacheable_cap - creation;
        read = if left > 0 {
            left
        } else {
            0
        };
    }
    let rest = total - creation - read;
    let input_tokens = if rest < 1 {
        1
    } else {
        rest
    };
    Some(
        ForcedCacheUsage {
            input_tokens,
            cache_creation_input_tokens: creation,
            cache_read_input_tokens: read,
        },
    )
}

/// `total` raised to at least zero.
pub open spec fn non_negative_total(total: i32) -> i32 {
    if total < 0 {
        0
    } else {
        total
    }
}

/// The `(input, creation, read)` split the mode selects for a (non-negative)
/// total: all input when off, the hash-chain split when automatic, the forced
/// split (all input when there is none) when forced.
pub open spec fn mode_split(
    mode: CacheMode,
    auto_split: (i32, i32, i32),
    total: i32,
    creation: i32,
    read: i32,
) -> (i32, i32, i32) {
    match mode {
        CacheMode::Off => (total, 0, 0),
        CacheMode::Auto => auto_split,
        CacheMode::Force => match forced_split(total, creation, read) {
            Some(u) => (u.input_tokens, u.cache_creation_input_tokens, u.cache_read_input_tokens),
            None => (total, 0, 0),
        },
    }
}

/// The `(5m, 1h)` TTL buckets of a cache creation count: everything in the
/// one-hour bucket when the request asked for more than five minutes,
/// everything in the five-minute bucket otherwise, nothing when there is no
/// positive creation.
pub open spec fn ttl_buckets(creation: i32, ttl_secs: i64) -> (i32, i32) {
    if creation > 0 {
        if ttl_secs > FIVE_MINUTES_SECS {
            (0, creation)
        } else {
            (creation, 0)
        }
    } else {
        (0, 0)
    }
}

/// What `resolve` reports.
pub open spec fn resolved_usage(
    mode: CacheMode,
    auto_split: (i32, i32, i32),
    total: i32,
    creation: i32,
    read: i32,
    ttl_secs: i64,
) -> ResolvedCacheUsage {
    let (input, c, r) = mode_split(mode, auto_split, non_negative_total(total), creation, read);
    let (b5m, b1h) = ttl_buckets(c, ttl_secs);
    ResolvedCacheUsage {
        input_tokens: input,
        cache_creation_input_tokens: c,
        cache_read_input_tokens: r,
        ephemeral_5m_input_tokens: b5m,
        ephemeral_1h_input_tokens: b1h,
    }
}

/// The single exit of all three modes: splits `total` (raised to at least
/// zero) as the mode says, then puts the cache creation into the 5-minute or
/// 1-hour bucket by the largest TTL the request asked for (`ttl_secs`).
///
/// `auto_split` is the hash-chain split of this total (used in `Auto` mode);
/// `creation` and `read` are the counts the `Force` ratios propose for the
/// total raised to zero (used in `Force` mode).
pub fn resolve(
    mode: CacheMode,
    auto_split: (i32, i32, i32),
    total: i32,
    creation: i32,
    read: i32,
    ttl_secs: i64,
) -> (r: ResolvedCacheUsage)
    requires
        mode == CacheMode::Force ==> split_in_range(non_negative_total(total), creation, read),
    ensures
        r == resolved_usage(mode, auto_split, total, creation, read, ttl_secs),
{
    let total = if total < 0 {
        0
    } else {
        total
    };
    let (input_tokens, cache_creation_input_tokens, cache_read_input_tokens) = match mode {
        CacheMode::Off => (total, 0, 0),
        CacheMode::Auto => auto_split,
        CacheMode::Force => match simulate(total, creation, read) {
            Some(u) => (u.input_tokens, u.cache_creation_input_tokens, u.cache_read_input_tokens),
            None => (total, 0, 0),
        },
    };
    let (ephemeral_5m_input_tokens, ephemeral_1h_input_tokens) = if cache_creation_input_tokens
        > 0 {
        if ttl_secs > FIVE_MINUTES_SECS {
            (0, cache_creation_input_tokens)
        } else {
            (cache_creation_input_tokens, 0)
        }
    } else {
        (0, 0)
    };
    ResolvedCacheUsage {
        input_tokens,
        cache_creation_input_tokens,
        cache_read_input_tokens,
        ephemeral_5m_input_tokens,
        ephemeral_1h_input_tokens,
    }
}

/// A forced split of a positive total keeps at least one input token, puts at
/// most `total - 1` tokens into the cache, and its three parts add up to the
/// total exactly.  With non-negative proposals, the cache parts are
/// non-negative too.
pub proof fn lemma_forced_split_keeps_input_and_total(total: i32, creation: i32, read: i32)
    requires
        total >= 1,
        split_in_range(total, creation, read),
    ensures
        forced_split(total, creation, read) is Some,
        ({
            let u = forced_split(total, creation, read)->0;
            &&& u.input_tokens >= 1
            &&& u.cache_creation_input_tokens + u.cache_read_input_tokens <= total - 1
            &&& u.input_tokens + u.cache_creation_input_tokens + u.cache_read_input_tokens == total
            &&& (creation >= 0 && read >= 0) ==> (u.cache_creation_input_tokens >= 0
                && u.cache_read_input_tokens >= 0)
        }),
{
}

/// A non-positive total has no forced split.
pub proof fn lemma_forced_split_needs_positive_total(total: i32, creation: i32, read: i32)
    requires
        total <= 0,
    ensures
        forced_split(total, creation, read) is None,
{
}

/// Whatever the mode, the two TTL buckets add up to a non-negative reported
/// cache creation (and are both empty for a negative one); above a five-minute
/// TTL the five-minute bucket is empty, otherwise the one-hour bucket is.
pub proof fn lemma_ttl_buckets_partition_creation(
    mode: CacheMode,
    auto_split: (i32, i32, i32),
    total: i32,
    creation: i32,
    read: i32,
    ttl_secs: i64,
)
    ensures
        ({
            let r = resolved_usage(mode, auto_split, total, creation, read, ttl_secs);
            &&& r.cache_creation_input_tokens >= 0 ==> r.ephemeral_5m_input_tokens
                + r.ephemeral_1h_input_tokens == r.cache_creation_input_tokens
            &&& r.cache_creation_input_tokens <= 0 ==> r.ephemeral_5m_input_tokens == 0
                && r.ephemeral_1h_input_tokens == 0
            &&& ttl_secs > 300 ==> r.ephemeral_5m_input_tokens == 0
            &&& ttl_secs <= 300 ==> r.ephemeral_1h_input_tokens == 0
        }),
{
}

/// `Off` reports the whole (non-negative) total as input and no cache at all;
/// `Force` keeps its parts adding up to that total.
pub proof fn lemma_resolve_off_and_force_account_for_total(
    mode: CacheMode,
    auto_split: (i32, i32, i32),
    total: i32,
    creation: i32,
    read: i32,
    ttl_secs: i64,
)
    requires
        mode == CacheMode::Force ==> split_in_range(non_negative_total(total), creation, read),
    ensures
        ({
            let r = resolved_usage(mode, auto_split, total, creation, read, ttl_secs);
            &&& mode == CacheMode::Off ==> r == (ResolvedCacheUsage {
                input_tokens: if total < 0 {
                    0
                } else {
                    total
                },
                cache_creation_input_tokens: 0,
                cache_read_input_tokens: 0,
                ephemeral_5m_input_tokens: 0,
                ephemeral_1h_input_tokens: 0,
            })
            &&& mode == CacheMode::Force ==> r.input_tokens + r.cache_creation_input_tokens
                + r.cache_read_input_tokens == non_negative_total(total)
            &&& (mode == CacheMode::Force && total >= 1) ==> r.input_tokens >= 1
        }),
{
    if mode == CacheMode::Force && total >= 1 {
        lemma_forced_split_keeps_input_and_total(total, creation, read);
    }
}

/// In `Force` mode, a non-positive total reports nothing at all, and a
/// positive total reports exactly the forced split of it.
pub proof fn lemma_resolve_force_is_forced_split(
    auto_split: (i32, i32, i32),
    total: i32,
    creation: i32,
    read: i32,
    ttl_secs: i64,
)
    ensures
        ({
            let r = resolved_usage(CacheMode::Force, auto_split, total, creation, read, ttl_secs);
            &&& total <= 0 ==> r.input_tokens == 0 && r.cache_creation_input_tokens == 0
                && r.cache_read_input_tokens == 0
            &&& total >= 1 ==> {
                let u = forced_split(total, creation, read)->0;
                &&& forced_split(total, creation, read) is Some
                &&& r.input_tokens == u.input_tokens
                &&& r.cache_creation_input_tokens == u.cache_creation_input_tokens
                &&& r.cache_read_input_tokens == u.cache_read_input_tokens
            }
        }),
{
}

/// Whether the proposed counts stay within `i32` while `simulate` settles
/// them, so that `simulate` (and `resolve` in `Force` mode) may be called.
pub fn split_fits(total: i32, creation: i32, read: i32) -> (r: bool)
    ensures
        r == split_in_range(total, creation, read),
{
    if total <= 1 {
        return true;
    }
    let t = total as i64;
    let c: i64 = if creation as i64 > t - 1 {
        t - 1
    } else {
        creation as i64
    };
    let r = read as i64;
    let max = i32::MAX as i64;
    let min = i32::MIN as i64;
    t - c <= max && min <= c + r && c + r <= max && (c + r > t - 1 || t - c - r <= max)
}

/// In `Auto` mode the hash-chain split is reported as it is, whatever the
/// total and the forced proposals: its input, creation and read counts become
/// the reported ones.
pub proof fn lemma_resolve_auto_reports_hash_chain_split(
    auto_split: (i32, i32, i32),
    total: i32,
    creation: i32,
    read: i32,
    ttl_secs: i64,
)
    ensures
        ({
            let r = resolved_usage(CacheMode::Auto, auto_split, total, creation, read, ttl_secs);
            &&& r.input_tokens == auto_split.0
            &&& r.cache_creation_input_tokens == auto_split.1
            &&& r.cache_read_input_tokens == auto_split.2
        }),
{
}

/// The forced split of a total of at least two, case by case: proposals that
/// leave at least one input token are kept as they are; a creation proposal
/// of `total - 1` or more takes all of the cache share and reads nothing; a
/// smaller creation keeps its count and reads take the rest of the cache
/// share when they would reach it.  A total of one is all input.
pub proof fn lemma_forced_split_cases(total: i32, creation: i32, read: i32)
    requires
        split_in_range(total, creation, read),
    ensures
        total == 1 ==> forced_split(total, creation, read) == Some(
            ForcedCacheUsage {
                input_tokens: 1,
                cache_creation_input_tokens: 0,
                cache_read_input_tokens: 0,
            },
        ),
        (total >= 2 && 0 <= creation && 0 <= read && creation + read <= total - 1)
            ==> forced_split(total, creation, read) == Some(
            ForcedCacheUsage {
                input_tokens: (total - creation - read) as i32,
                cache_creation_input_tokens: creation,
                cache_read_input_tokens: read,
            },
        ),
        (total >= 2 && creation >= total - 1 && read >= 0) ==> forced_split(total, creation, read)
            == Some(
            ForcedCacheUsage {
                input_tokens: 1,
                cache_creation_input_tokens: (total - 1) as i32,
                cache_read_input_tokens: 0,
            },
        ),
        (total >= 2 && 0 <= creation < total - 1 && read >= total - 1 - creation) ==> forced_split(
            total,
            creation,
            read,
        ) == Some(
            ForcedCacheUsage {
                input_tokens: 1,
                cache_creation_input_tokens: creation,
                cache_read_input_tokens: (total - 1 - creation) as i32,
            },
        ),
{
}

} // verus!
