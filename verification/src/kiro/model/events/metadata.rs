//! Upstream metadata event.
//!
//! Kiro reports, in `metadataEvent.tokenUsage`, the server-side token usage of
//! one model call: the figures the upstream bills by.  The four fields are a
//! final snapshot of that call, not increments; a caller keeps the last
//! snapshot of a stream.
use vstd::prelude::*;

verus! {

/// `v` when it is not negative, `0` otherwise.
pub open spec fn non_negative(v: i32) -> i32 {
    if v < 0 {
        0
    } else {
        v
    }
}

/// The mathematical value `v` clamped into the range of `i32`.
pub open spec fn saturate_i32(v: int) -> i32 {
    if v > i32::MAX {
        i32::MAX
    } else if v < i32::MIN {
        i32::MIN
    } else {
        v as i32
    }
}

pub open spec fn min_int(a: int, b: int) -> int {
    if a <= b {
        a
    } else {
        b
    }
}

pub open spec fn max_int(a: int, b: int) -> int {
    if a >= b {
        a
    } else {
        b
    }
}

/// `a + b` on `i32` that stops at the bounds of the type.
fn saturating_add_i32(a: i32, b: i32) -> (r: i32)
    ensures
        r == saturate_i32(a + b),
{
    let s: i64 = a as i64 + b as i64;
    if s > i32::MAX as i64 {
        i32::MAX
    } else if s < i32::MIN as i64 {
        i32::MIN
    } else {
        s as i32
    }
}

fn min_i32(a: i32, b: i32) -> (r: i32)
    ensures
        r == min_int(a as int, b as int),
{
    if a <= b {
        a
    } else {
        b
    }
}

fn max_i32(a: i32, b: i32) -> (r: i32)
    ensures
        r == max_int(a as int, b as int),
{
    if a >= b {
        a
    } else {
        b
    }
}

/// Exact token usage of one Kiro model call.
#[derive(Debug, Clone, Copy, PartialEq, Eq, Structural)]
pub struct TokenUsage {
    /// Input tokens that neither hit nor were written to the cache.
    pub uncached_input_tokens: i32,
    /// Tokens the model produced.
    pub output_tokens: i32,
    /// Input tokens read from the server-side prompt cache.
    pub cache_read_input_tokens: i32,
    /// Input tokens written to the server-side prompt cache by this call.
    pub cache_write_input_tokens: i32,
}

impl Default for TokenUsage {
    fn default() -> (r: Self)
        ensures
            r == TokenUsage::zero(),
    {
        TokenUsage {
            uncached_input_tokens: 0,
            output_tokens: 0,
            cache_read_input_tokens: 0,
            cache_write_input_tokens: 0,
        }
    }
}

impl TokenUsage {
    /// The usage with every count at zero.
    pub open spec fn zero() -> TokenUsage {
        TokenUsage {
            uncached_input_tokens: 0,
            output_tokens: 0,
            cache_read_input_tokens: 0,
            cache_write_input_tokens: 0,
        }
    }

    /// Every count of `self` raised to at least zero.
    pub open spec fn spec_sanitized(self) -> TokenUsage {
        TokenUsage {
            uncached_input_tokens: non_negative(self.uncached_input_tokens),
            output_tokens: non_negative(self.output_tokens),
            cache_read_input_tokens: non_negative(self.cache_read_input_tokens),
            cache_write_input_tokens: non_negative(self.cache_write_input_tokens),
        }
    }

    /// All counts are at least zero.
    pub open spec fn is_sane(self) -> bool {
        &&& self.uncached_input_tokens >= 0
        &&& self.output_tokens >= 0
        &&& self.cache_read_input_tokens >= 0
        &&& self.cache_write_input_tokens >= 0
    }

    /// The unbounded sum of the three (sanitized) input buckets.
    pub open spec fn input_sum(self) -> int {
        let u = self.spec_sanitized();
        u.uncached_input_tokens + u.cache_write_input_tokens + u.cache_read_input_tokens
    }

    /// Total input tokens in the Anthropic sense: the three sanitized input
    /// buckets summed, capped at `i32::MAX`.
    pub open spec fn spec_total_input_tokens(self) -> i32 {
        saturate_i32(self.input_sum())
    }

    /// The sanitized snapshot is all zeros.
    pub open spec fn spec_is_empty(self) -> bool {
        self.spec_sanitized() == TokenUsage::zero()
    }

    /// Field-wise sum of the two sanitized usages, capped at `i32::MAX`.
    pub open spec fn spec_saturating_add(self, other: TokenUsage) -> TokenUsage {
        let l = self.spec_sanitized();
        let r = other.spec_sanitized();
        TokenUsage {
            uncached_input_tokens: saturate_i32(l.uncached_input_tokens + r.uncached_input_tokens),
            output_tokens: saturate_i32(l.output_tokens + r.output_tokens),
            cache_read_input_tokens: saturate_i32(
                l.cache_read_input_tokens + r.cache_read_input_tokens,
            ),
            cache_write_input_tokens: saturate_i32(
                l.cache_write_input_tokens + r.cache_write_input_tokens,
            ),
        }
    }

    /// How many tokens `subtract_injected_input(injected)` takes off in all:
    /// the non-negative part of `injected`, but never so much that fewer than
    /// one input token would be left.
    pub open spec fn injected_deduction(self, injected: i32) -> int {
        min_int(
            max_int(injected as int, 0),
            max_int(self.spec_total_input_tokens() - 1, 0),
        )
    }

    /// The deduction taken first from cache reads, then from cache writes,
    /// then from uncached input; output tokens are kept.
    pub open spec fn spec_subtract_injected_input(self, injected: i32) -> TokenUsage {
        let u = self.spec_sanitized();
        let d = self.injected_deduction(injected);
        let from_read = min_int(d, u.cache_read_input_tokens as int);
        let from_write = min_int(d - from_read, u.cache_write_input_tokens as int);
        let from_uncached = min_int(d - from_read - from_write, u.uncached_input_tokens as int);
        TokenUsage {
            uncached_input_tokens: (u.uncached_input_tokens - from_uncached) as i32,
            output_tokens: u.output_tokens,
            cache_read_input_tokens: (u.cache_read_input_tokens - from_read) as i32,
            cache_write_input_tokens: (u.cache_write_input_tokens - from_write) as i32,
        }
    }

    /// Clamps untrusted upstream values so that every count is non-negative.
    pub fn sanitized(self) -> (r: Self)
        ensures
            r == self.spec_sanitized(),
    {
        Self {
            uncached_input_tokens: max_i32(self.uncached_input_tokens, 0),
            output_tokens: max_i32(self.output_tokens, 0),
            cache_read_input_tokens: max_i32(self.cache_read_input_tokens, 0),
            cache_write_input_tokens: max_i32(self.cache_write_input_tokens, 0),
        }
    }

    /// Takes the proxy's own injected prompt tokens off the server's input
    /// figures.
    ///
    /// The upstream does not say in which cache bucket the injected prefix
    /// fell; it is a stable leading prefix, so it is attributed to cache reads,
    /// then cache writes, then uncached input.  The total taken off is exact;
    /// the split across buckets is an estimate.  At least one input token is
    /// always left, so an over-estimated injection cannot swallow real input.
    /// Output tokens are untouched.
    pub fn subtract_injected_input(self, injected_tokens: i32) -> (r: Self)
        ensures
            r == self.spec_subtract_injected_input(injected_tokens),
    {
        let mut usage = self.sanitized();
        let total = usage.total_input_tokens();
        let max_deduct = max_i32(total - 1, 0);
        let mut remaining = min_i32(max_i32(injected_tokens, 0), max_deduct);
        let from_read = min_i32(remaining, usage.cache_read_input_tokens);
        usage.cache_read_input_tokens = usage.cache_read_input_tokens - from_read;
        remaining = remaining - from_read;

        let from_write = min_i32(remaining, usage.cache_write_input_tokens);
        usage.cache_write_input_tokens = usage.cache_write_input_tokens - from_write;
        remaining = remaining - from_write;

        let from_uncached = min_i32(remaining, usage.uncached_input_tokens);
        usage.uncached_input_tokens = usage.uncached_input_tokens - from_uncached;

        usage
    }

    /// Merges the usage of several real provider calls made for one client
    /// request (web-search loops, multi-turn tools): the field-wise sum, capped
    /// at `i32::MAX` instead of overflowing.
    pub fn saturating_add(self, other: Self) -> (r: Self)
        ensures
            r == self.spec_saturating_add(other),
    {
        let left = self.sanitized();
        let right = other.sanitized();
        Self {
            uncached_input_tokens: saturating_add_i32(
                left.uncached_input_tokens,
                right.uncached_input_tokens,
            ),
            output_tokens: saturating_add_i32(left.output_tokens, right.output_tokens),
            cache_read_input_tokens: saturating_add_i32(
                left.cache_read_input_tokens,
                right.cache_read_input_tokens,
            ),
            cache_write_input_tokens: saturating_add_i32(
                left.cache_write_input_tokens,
                right.cache_write_input_tokens,
            ),
        }
    }

    /// Total input tokens in the Anthropic sense (sum of the three input
    /// buckets), capped at `i32::MAX`.
    pub fn total_input_tokens(self) -> (r: i32)
        ensures
            r == self.spec_total_input_tokens(),
            r >= 0,
    {
        let usage = self.sanitized();
        saturating_add_i32(
            saturating_add_i32(usage.uncached_input_tokens, usage.cache_write_input_tokens),
            usage.cache_read_input_tokens,
        )
    }

    /// Whether the snapshot is all zeros.
    ///
    /// The upstream sometimes sends an all-zero `tokenUsage`; taking it as the
    /// truth would book a request as using nothing, so callers treat it as
    /// missing and fall back to their estimate.
    pub fn is_empty(self) -> (r: bool)
        ensures
            r == self.spec_is_empty(),
    {
        let u = self.sanitized();
        u.uncached_input_tokens == 0 && u.output_tokens == 0 && u.cache_read_input_tokens == 0
            && u.cache_write_input_tokens == 0
    }
}

/// Payload of a `metadataEvent`.
#[derive(Debug, Clone, Copy, PartialEq, Eq, Structural)]
pub struct MetadataEvent {
    /// Some metadata events carry only a stop reason, so the usage is
    /// optional: its absence is not a usage of zero.
    pub token_usage: Option<TokenUsage>,
}

impl Default for MetadataEvent {
    fn default() -> (r: Self)
        ensures
            r.token_usage is None,
    {
        MetadataEvent { token_usage: None }
    }
}

/// Sanitizing leaves every count non-negative, raises each negative count to
/// zero and keeps every other count, and sanitizing twice is sanitizing once.
pub proof fn lemma_sanitized_is_sane_and_idempotent(u: TokenUsage)
    ensures
        u.spec_sanitized().is_sane(),
        u.spec_sanitized().spec_sanitized() == u.spec_sanitized(),
        u.is_sane() ==> u.spec_sanitized() == u,
        u.uncached_input_tokens < 0 ==> u.spec_sanitized().uncached_input_tokens == 0,
        u.output_tokens < 0 ==> u.spec_sanitized().output_tokens == 0,
        u.cache_read_input_tokens < 0 ==> u.spec_sanitized().cache_read_input_tokens == 0,
        u.cache_write_input_tokens < 0 ==> u.spec_sanitized().cache_write_input_tokens == 0,
        u.uncached_input_tokens >= 0 ==> u.spec_sanitized().uncached_input_tokens
            == u.uncached_input_tokens,
        u.output_tokens >= 0 ==> u.spec_sanitized().output_tokens == u.output_tokens,
        u.cache_read_input_tokens >= 0 ==> u.spec_sanitized().cache_read_input_tokens
            == u.cache_read_input_tokens,
        u.cache_write_input_tokens >= 0 ==> u.spec_sanitized().cache_write_input_tokens
            == u.cache_write_input_tokens,
{
}

/// The total input is never negative and equals the sum of the three
/// sanitized input buckets whenever that sum fits in an `i32`.
pub proof fn lemma_total_input_is_capped_sum(u: TokenUsage)
    ensures
        ({
            let s = u.spec_sanitized();
            let sum = s.uncached_input_tokens + s.cache_write_input_tokens
                + s.cache_read_input_tokens;
            &&& sum <= i32::MAX ==> u.spec_total_input_tokens() == sum
            &&& sum > i32::MAX ==> u.spec_total_input_tokens() == i32::MAX
        }),
        u.spec_total_input_tokens() >= 0,
        u.input_sum() <= i32::MAX ==> u.spec_total_input_tokens() == u.input_sum(),
        u.input_sum() > i32::MAX ==> u.spec_total_input_tokens() == i32::MAX,
{
}

/// Removing injected prompt tokens: output tokens are kept, no bucket grows,
/// exactly `injected_deduction` tokens are taken off the input (the
/// non-negative part of the injection, but at most one less than the total
/// input capped at `i32::MAX`, so an injection below the total input and below
/// `i32::MAX` is taken off in full), at least one
/// input token survives whenever there was one, a non-positive injection
/// changes nothing beyond sanitizing, and the buckets are drained in the order
/// cache read, cache write, uncached.
pub proof fn lemma_subtract_injected_input_laws(u: TokenUsage, injected: i32)
    ensures
        ({
            let s = u.spec_sanitized();
            let r = u.spec_subtract_injected_input(injected);
            &&& r.is_sane()
            &&& r.output_tokens == s.output_tokens
            &&& r.uncached_input_tokens <= s.uncached_input_tokens
            &&& r.cache_read_input_tokens <= s.cache_read_input_tokens
            &&& r.cache_write_input_tokens <= s.cache_write_input_tokens
            &&& r.input_sum() == u.input_sum() - u.injected_deduction(injected)
            &&& (s.uncached_input_tokens + s.cache_write_input_tokens + s.cache_read_input_tokens)
                - (r.uncached_input_tokens + r.cache_write_input_tokens + r.cache_read_input_tokens)
                == min_int(
                max_int(injected as int, 0),
                max_int(
                    min_int(
                        s.uncached_input_tokens + s.cache_write_input_tokens
                            + s.cache_read_input_tokens,
                        i32::MAX as int,
                    ) - 1,
                    0,
                ),
            )
            &&& (0 <= injected && injected < i32::MAX && injected < s.uncached_input_tokens
                + s.cache_write_input_tokens + s.cache_read_input_tokens) ==> (s.uncached_input_tokens
                + s.cache_write_input_tokens + s.cache_read_input_tokens) - (r.uncached_input_tokens
                + r.cache_write_input_tokens + r.cache_read_input_tokens) == injected
            &&& (u.input_sum() >= 1 ==> r.input_sum() >= 1)
            &&& (injected <= 0 ==> r == s)
            &&& (r.cache_write_input_tokens < s.cache_write_input_tokens
                ==> r.cache_read_input_tokens == 0)
            &&& (r.uncached_input_tokens < s.uncached_input_tokens ==> r.cache_read_input_tokens
                == 0 && r.cache_write_input_tokens == 0)
        }),
{
}

/// Merging the usage of two calls does not depend on their order, a merged
/// count is never below the count of either call, and each merged count is
/// the sum of the two calls' counts (negative ones read as zero), or
/// `i32::MAX` when that sum does not fit.
pub proof fn lemma_saturating_add_laws(a: TokenUsage, b: TokenUsage)
    ensures
        ({
            let m = a.spec_saturating_add(b);
            let x = a.spec_sanitized();
            let y = b.spec_sanitized();
            &&& x.output_tokens + y.output_tokens <= i32::MAX ==> m.output_tokens
                == x.output_tokens + y.output_tokens
            &&& x.output_tokens + y.output_tokens > i32::MAX ==> m.output_tokens == i32::MAX
            &&& x.uncached_input_tokens + y.uncached_input_tokens <= i32::MAX
                ==> m.uncached_input_tokens == x.uncached_input_tokens + y.uncached_input_tokens
            &&& x.uncached_input_tokens + y.uncached_input_tokens > i32::MAX
                ==> m.uncached_input_tokens == i32::MAX
            &&& x.cache_read_input_tokens + y.cache_read_input_tokens <= i32::MAX
                ==> m.cache_read_input_tokens == x.cache_read_input_tokens
                + y.cache_read_input_tokens
            &&& x.cache_read_input_tokens + y.cache_read_input_tokens > i32::MAX
                ==> m.cache_read_input_tokens == i32::MAX
            &&& x.cache_write_input_tokens + y.cache_write_input_tokens <= i32::MAX
                ==> m.cache_write_input_tokens == x.cache_write_input_tokens
                + y.cache_write_input_tokens
            &&& x.cache_write_input_tokens + y.cache_write_input_tokens > i32::MAX
                ==> m.cache_write_input_tokens == i32::MAX
        }),
        a.spec_saturating_add(b) == b.spec_saturating_add(a),
        a.spec_saturating_add(b).is_sane(),
        a.spec_saturating_add(b).output_tokens >= a.spec_sanitized().output_tokens,
        a.spec_saturating_add(b).uncached_input_tokens >= a.spec_sanitized().uncached_input_tokens,
        a.spec_saturating_add(b).cache_read_input_tokens
            >= a.spec_sanitized().cache_read_input_tokens,
        a.spec_saturating_add(b).cache_write_input_tokens
            >= a.spec_sanitized().cache_write_input_tokens,
{
}

/// A snapshot is empty exactly when it reports no input and no output.
pub proof fn lemma_empty_iff_nothing_reported(u: TokenUsage)
    ensures
        u.spec_is_empty() <==> (u.spec_total_input_tokens() == 0 && u.spec_sanitized().output_tokens
            == 0),
{
}

} // verus!
