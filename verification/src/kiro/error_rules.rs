//! Custom error rules: match an upstream error response by keywords and
//! dispose of the credential that produced it.
//!
//! The upstream changes its error wording and retires models without notice;
//! the built-in checks are fixed phrases.  This table of administrator-defined
//! rules reacts to new wording without a release.  A rule is evaluated before
//! any status-code branch; a hit decides the disposition of the round, a miss
//! leaves the built-in handling untouched.  The default table is empty, so by
//! default nothing changes.
use std::path::PathBuf;

use vstd::prelude::*;
use vstd::string::*;

use crate::text::{
    chars_of, contains, contains_chars, is_white_space, lemma_trim_idempotent, to_lowercase,
    trim, trim_chars, unicode_lowercase,
};

verus! {

#[verifier::external_type_specification]
#[verifier::external_body]
pub struct ExPathBuf(PathBuf);

/// How the keywords of a rule combine.
#[derive(Debug, Clone, Copy, PartialEq, Eq, Structural)]
pub enum MatchMode {
    /// One keyword suffices (the default).
    Any,
    /// Every keyword must occur.
    All,
}

impl Default for MatchMode {
    fn default() -> (r: Self)
        ensures
            r == MatchMode::Any,
    {
        MatchMode::Any
    }
}

/// What happens to the credential when a rule hits.
#[derive(Debug, Clone, Copy, PartialEq, Eq, Structural)]
pub enum RuleAction {
    /// Disable the credential and fail over to the next one (the default).
    Disable,
    /// Put the credential into a temporary cooldown, then fail over.
    Cooldown,
    /// Only count a failure; the consecutive-failure threshold does the rest.
    CountFailure,
    /// End the request at once: no retry, no failover, no failure counted.
    Abort,
}

impl Default for RuleAction {
    fn default() -> (r: Self)
        ensures
            r == RuleAction::Disable,
    {
        RuleAction::Disable
    }
}

impl RuleAction {
    /// The stable name of the action, as logs and traces show it.
    pub open spec fn spec_name(self) -> Seq<char> {
        match self {
            RuleAction::Disable => "disable"@,
            RuleAction::Cooldown => "cooldown"@,
            RuleAction::CountFailure => "countFailure"@,
            RuleAction::Abort => "abort"@,
        }
    }

    /// Stable name for logs and traces.
    pub fn as_str(self) -> (r: &'static str)
        ensures
            r@ == self.spec_name(),
    {
        match self {
            RuleAction::Disable => "disable",
            RuleAction::Cooldown => "cooldown",
            RuleAction::CountFailure => "countFailure",
            RuleAction::Abort => "abort",
        }
    }
}

/// One custom error rule.
#[derive(Debug, PartialEq)]
pub struct ErrorRule {
    /// Name shown in logs, traces and the panel ("disabled by which rule").
    pub name: String,
    /// A disabled rule takes no part in matching.
    pub enabled: bool,
    /// Keywords to look for.  An empty list never matches.
    pub keywords: Vec<String>,
    /// How the keywords combine.
    pub match_mode: MatchMode,
    /// Whether keywords are compared case-sensitively (default: no, the
    /// upstream's capitalisation is not stable).
    pub case_sensitive: bool,
    /// HTTP status codes the rule is limited to; empty means any status.
    pub status_codes: Vec<u16>,
    /// What to do on a hit.
    pub action: RuleAction,
    /// Cooldown length in seconds for `RuleAction::Cooldown`.
    pub cooldown_secs: u64,
    /// Whether a credential this rule disabled takes part in self-healing.
    pub self_healable: bool,
    /// Keep at least this many credentials available before disabling; `0`
    /// means no guard.
    pub min_available: u32,
}

/// The mathematical content of an [`ErrorRule`].
#[verifier::ext_equal]
pub struct ErrorRuleView {
    pub name: Seq<char>,
    pub enabled: bool,
    pub keywords: Seq<Seq<char>>,
    pub match_mode: MatchMode,
    pub case_sensitive: bool,
    pub status_codes: Seq<u16>,
    pub action: RuleAction,
    pub cooldown_secs: u64,
    pub self_healable: bool,
    pub min_available: u32,
}

/// The characters of each string, in order.
pub open spec fn strings_view(v: Seq<String>) -> Seq<Seq<char>> {
    v.map_values(|s: String| s@)
}

impl View for ErrorRule {
    type V = ErrorRuleView;

    open spec fn view(&self) -> ErrorRuleView {
        ErrorRuleView {
            name: self.name@,
            enabled: self.enabled,
            keywords: strings_view(self.keywords@),
            match_mode: self.match_mode,
            case_sensitive: self.case_sensitive,
            status_codes: self.status_codes@,
            action: self.action,
            cooldown_secs: self.cooldown_secs,
            self_healable: self.self_healable,
            min_available: self.min_available,
        }
    }
}

/// A copy of a list of strings.
fn clone_strings(v: &Vec<String>) -> (r: Vec<String>)
    ensures
        strings_view(r@) == strings_view(v@),
{
    let mut r: Vec<String> = Vec::new();
    let n = v.len();
    let mut i: usize = 0;
    while i < n
        invariant
            n == v@.len(),
            i <= n,
            r@.len() == i,
            forall|k: int| 0 <= k < i ==> r@[k]@ == v@[k]@,
        decreases n - i,
    {
        r.push(v[i].clone());
        i = i + 1;
    }
    assert(strings_view(r@) =~= strings_view(v@));
    r
}

/// A copy of a list of status codes.
fn clone_codes(v: &Vec<u16>) -> (r: Vec<u16>)
    ensures
        r@ == v@,
{
    let mut r: Vec<u16> = Vec::new();
    let n = v.len();
    let mut i: usize = 0;
    while i < n
        invariant
            n == v@.len(),
            i <= n,
            r@ == v@.take(i as int),
        decreases n - i,
    {
        r.push(v[i]);
        assert(v@.take(i + 1) == v@.take(i as int).push(v@[i as int]));
        i = i + 1;
    }
    assert(v@.take(n as int) == v@);
    r
}

impl Clone for ErrorRule {
    fn clone(&self) -> (r: Self)
        ensures
            r@ == self@,
    {
        ErrorRule {
            name: self.name.clone(),
            enabled: self.enabled,
            keywords: clone_strings(&self.keywords),
            match_mode: self.match_mode,
            case_sensitive: self.case_sensitive,
            status_codes: clone_codes(&self.status_codes),
            action: self.action,
            cooldown_secs: self.cooldown_secs,
            self_healable: self.self_healable,
            min_available: self.min_available,
        }
    }
}

/// The text a rule searches: the body itself, or its Unicode lower case when
/// the rule ignores case.
pub open spec fn haystack_of(body: Seq<char>, case_sensitive: bool) -> Seq<char> {
    if case_sensitive {
        body
    } else {
        unicode_lowercase(body)
    }
}

/// A keyword hits when, trimmed, it is not empty and occurs in the haystack
/// (lower-cased too when the rule ignores case).
#[verifier::opaque]
pub open spec fn keyword_hits(haystack: Seq<char>, keyword: Seq<char>, case_sensitive: bool) -> bool {
    let k = trim_chars(keyword);
    &&& k.len() > 0
    &&& contains_chars(haystack, if case_sensitive { k } else { unicode_lowercase(k) })
}

impl ErrorRuleView {
    /// The status constraint holds: no codes listed, or a status is known and
    /// listed.
    pub open spec fn status_allows(self, status: Option<u16>) -> bool {
        self.status_codes.len() > 0 ==> (status matches Some(code) && self.status_codes.contains(
            code,
        ))
    }

    /// The keywords hit the body as the match mode asks.
    pub open spec fn keywords_hit(self, body: Seq<char>) -> bool {
        let hay = haystack_of(body, self.case_sensitive);
        match self.match_mode {
            MatchMode::Any => exists|i: int|
                0 <= i < self.keywords.len() && #[trigger] keyword_hits(
                    hay,
                    self.keywords[i],
                    self.case_sensitive,
                ),
            MatchMode::All => forall|i: int|
                0 <= i < self.keywords.len() ==> #[trigger] keyword_hits(
                    hay,
                    self.keywords[i],
                    self.case_sensitive,
                ),
        }
    }

    /// Whether the rule hits a response with this status and body.
    pub open spec fn matches(self, status: Option<u16>, body: Seq<char>) -> bool {
        &&& self.enabled
        &&& self.keywords.len() > 0
        &&& self.status_allows(status)
        &&& self.keywords_hit(body)
    }
}

/// Whether `code` is one of `codes`.
fn has_code(codes: &Vec<u16>, code: u16) -> (r: bool)
    ensures
        r == codes@.contains(code),
{
    let n = codes.len();
    let mut i: usize = 0;
    while i < n
        invariant
            n == codes@.len(),
            i <= n,
            forall|k: int| 0 <= k < i ==> codes@[k] != code,
        decreases n - i,
    {
        if codes[i] == code {
            assert(codes@[i as int] == code);
            return true;
        }
        i = i + 1;
    }
    false
}

/// Whether one keyword hits the (already case-folded) haystack.
fn keyword_hit(haystack: &Vec<char>, keyword: &String, case_sensitive: bool) -> (r: bool)
    ensures
        r == keyword_hits(haystack@, keyword@, case_sensitive),
{
    reveal(keyword_hits);
    let trimmed = trim(keyword.as_str());
    if trimmed.as_str().is_empty() {
        return false;
    }
    let needle = if case_sensitive {
        chars_of(trimmed.as_str())
    } else {
        let lowered = to_lowercase(trimmed.as_str());
        chars_of(lowered.as_str())
    };
    contains(haystack.as_slice(), needle.as_slice())
}

impl ErrorRule {
    /// Whether this rule hits the given response.
    ///
    /// `status` is `None` when no HTTP status is available (a network-level
    /// error); a rule limited to status codes then never hits, since its
    /// constraint cannot be confirmed.
    pub fn matches(&self, status: Option<u16>, body: &str) -> (r: bool)
        ensures
            r == self@.matches(status, body@),
    {
        if !self.enabled || self.keywords.len() == 0 {
            return false;
        }
        if self.status_codes.len() > 0 {
            match status {
                Some(code) => {
                    if !has_code(&self.status_codes, code) {
                        return false;
                    }
                },
                None => {
                    return false;
                },
            }
        }
        let haystack = if self.case_sensitive {
            chars_of(body)
        } else {
            let lowered = to_lowercase(body);
            chars_of(lowered.as_str())
        };
        let ghost hay = haystack_of(body@, self.case_sensitive);
        let ghost kws = self@.keywords;
        let n = self.keywords.len();
        let mut i: usize = 0;
        match self.match_mode {
            MatchMode::Any => {
                while i < n
                    invariant
                        n == kws.len(),
                        kws == strings_view(self.keywords@),
                        self.enabled,
                        n > 0,
                        self@.status_allows(status),
                        self.match_mode == MatchMode::Any,
                        haystack@ == hay,
                        hay == haystack_of(body@, self.case_sensitive),
                        i <= n,
                        forall|k: int|
                            0 <= k < i ==> !#[trigger] keyword_hits(
                                hay,
                                kws[k],
                                self.case_sensitive,
                            ),
                    decreases n - i,
                {
                    if keyword_hit(&haystack, &self.keywords[i], self.case_sensitive) {
                        assert(keyword_hits(hay, kws[i as int], self.case_sensitive));
                        assert(kws == self@.keywords);
                        assert(hay == haystack_of(body@, self@.case_sensitive));
                        assert(self@.keywords_hit(body@));
                        return true;
                    }
                    i = i + 1;
                }
                false
            },
            MatchMode::All => {
                while i < n
                    invariant
                        n == kws.len(),
                        kws == strings_view(self.keywords@),
                        self.enabled,
                        n > 0,
                        self@.status_allows(status),
                        self.match_mode == MatchMode::All,
                        haystack@ == hay,
                        hay == haystack_of(body@, self.case_sensitive),
                        i <= n,
                        forall|k: int|
                            0 <= k < i ==> #[trigger] keyword_hits(
                                hay,
                                kws[k],
                                self.case_sensitive,
                            ),
                    decreases n - i,
                {
                    if !keyword_hit(&haystack, &self.keywords[i], self.case_sensitive) {
                        assert(!keyword_hits(hay, kws[i as int], self.case_sensitive));
                        assert(kws == self@.keywords);
                        assert(hay == haystack_of(body@, self@.case_sensitive));
                        assert(!self@.keywords_hit(body@));
                        return false;
                    }
                    i = i + 1;
                }
                true
            },
        }
    }
}

/// The name a rule gets when its own name is blank.
pub open spec fn unnamed_rule_name() -> Seq<char> {
    "未命名规则"@
}

/// The longest cooldown a rule may ask for: one day, the same bound as the
/// account-level risk cooldown.
pub const MAX_COOLDOWN_SECS: u64 = 86_400;

/// `secs` clamped into `1..=MAX_COOLDOWN_SECS`.
pub open spec fn clamp_cooldown(secs: u64) -> u64 {
    if secs < 1 {
        1
    } else if secs > MAX_COOLDOWN_SECS {
        MAX_COOLDOWN_SECS
    } else {
        secs
    }
}

/// The keywords trimmed, with the blank ones dropped, order kept.
pub open spec fn clean_keywords(keywords: Seq<Seq<char>>) -> Seq<Seq<char>>
    decreases keywords.len(),
{
    if keywords.len() == 0 {
        Seq::empty()
    } else {
        let rest = clean_keywords(keywords.drop_last());
        let t = trim_chars(keywords.last());
        if t.len() > 0 {
            rest.push(t)
        } else {
            rest
        }
    }
}

/// `out` is `input` sorted in increasing order with duplicates removed:
/// strictly increasing, and holding exactly the values of `input`.
pub open spec fn sorted_unique_of(out: Seq<u16>, input: Seq<u16>) -> bool {
    &&& forall|i: int, j: int| 0 <= i < j < out.len() ==> out[i] < out[j]
    &&& forall|c: u16| out.contains(c) <==> input.contains(c)
}

impl ErrorRuleView {
    /// `self` is what sanitizing `input` gives: name trimmed (a blank name
    /// replaced by the default one), keywords trimmed with blanks dropped,
    /// status codes sorted and deduplicated, cooldown clamped into one second
    /// to one day; everything else kept.
    pub open spec fn is_sanitized_form_of(self, input: ErrorRuleView) -> bool {
        &&& self.name == (if trim_chars(input.name).len() == 0 {
            unnamed_rule_name()
        } else {
            trim_chars(input.name)
        })
        &&& self.enabled == input.enabled
        &&& self.keywords == clean_keywords(input.keywords)
        &&& self.match_mode == input.match_mode
        &&& self.case_sensitive == input.case_sensitive
        &&& sorted_unique_of(self.status_codes, input.status_codes)
        &&& self.action == input.action
        &&& self.cooldown_secs == clamp_cooldown(input.cooldown_secs)
        &&& self.self_healable == input.self_healable
        &&& self.min_available == input.min_available
    }
}

/// The keywords of a rule, trimmed, with the blank ones dropped.
fn clean_keyword_list(keywords: &Vec<String>) -> (r: Vec<String>)
    ensures
        strings_view(r@) == clean_keywords(strings_view(keywords@)),
{
    let mut r: Vec<String> = Vec::new();
    let n = keywords.len();
    let mut i: usize = 0;
    while i < n
        invariant
            n == keywords@.len(),
            i <= n,
            strings_view(r@) == clean_keywords(strings_view(keywords@.take(i as int))),
        decreases n - i,
    {
        let t = trim(keywords[i].as_str());
        let ghost before = r@;
        assert(strings_view(keywords@.take(i + 1)).drop_last() == strings_view(
            keywords@.take(i as int),
        ));
        assert(strings_view(keywords@.take(i + 1)).last() == keywords@[i as int]@);
        if !t.as_str().is_empty() {
            r.push(t);
            assert(strings_view(r@) == strings_view(before).push(t@));
        }
        i = i + 1;
    }
    assert(keywords@.take(n as int) == keywords@);
    r
}

/// The status codes sorted increasingly, duplicates removed.
fn sorted_unique_codes(codes: &Vec<u16>) -> (r: Vec<u16>)
    ensures
        sorted_unique_of(r@, codes@),
{
    let mut out: Vec<u16> = Vec::new();
    let n = codes.len();
    let mut i: usize = 0;
    while i < n
        invariant
            n == codes@.len(),
            i <= n,
            sorted_unique_of(out@, codes@.take(i as int)),
        decreases n - i,
    {
        let c = codes[i];
        let m = out.len();
        let mut p: usize = 0;
        while p < m && out[p] < c
            invariant
                m == out@.len(),
                p <= m,
                forall|k: int| 0 <= k < p ==> out@[k] < c,
            decreases m - p,
        {
            p = p + 1;
        }
        let ghost before = out@;
        let ghost pre = codes@.take(i as int);
        let ghost post = codes@.take(i + 1);
        assert(post == pre.push(c));
        if p < m && out[p] == c {
            assert(before[p as int] == c);
            assert forall|x: u16| out@.contains(x) <==> post.contains(x) by {
                if post.contains(x) {
                    if x != c {
                        let j = choose|j: int|
                            0 <= j < post.len() && #[trigger] post[j] == x;
                        assert(pre[j] == x);
                    }
                }
                if out@.contains(x) {
                    assert(pre.contains(x));
                    let j = choose|j: int|
                        0 <= j < pre.len() && #[trigger] pre[j] == x;
                    assert(post[j] == x);
                }
            }
        } else {
            out.insert(p, c);
            assert forall|a: int, b: int| 0 <= a < b < out@.len() implies out@[a] < out@[b] by {
                if b < p {
                } else if b == p {
                } else if a < p {
                    if p < m {
                        assert(before[p as int] > c);
                    }
                } else if a == p {
                    assert(before[p as int] >= c);
                    assert(before[p as int] != c);
                } else {
                }
            }
            assert forall|x: u16| out@.contains(x) <==> post.contains(x) by {
                if post.contains(x) {
                    if x == c {
                        assert(out@[p as int] == c);
                    } else {
                        let j = choose|j: int|
                            0 <= j < post.len() && #[trigger] post[j] == x;
                        assert(pre[j] == x);
                        assert(before.contains(x));
                        let k = choose|k: int| 0 <= k < before.len() && #[trigger] before[k] == x;
                        if k < p {
                            assert(out@[k] == x);
                        } else {
                            assert(out@[k + 1] == x);
                        }
                    }
                }
                if out@.contains(x) {
                    let k = choose|k: int| 0 <= k < out@.len() && #[trigger] out@[k] == x;
                    if k < p {
                        assert(before[k] == x);
                    } else if k > p {
                        assert(before[k - 1] == x);
                    }
                    if x != c {
                        assert(before.contains(x));
                        assert(pre.contains(x));
                        let j = choose|j: int|
                            0 <= j < pre.len() && #[trigger] pre[j] == x;
                        assert(post[j] == x);
                    } else {
                        assert(post[i as int] == x);
                    }
                }
            }
        }
        i = i + 1;
    }
    assert(codes@.take(n as int) == codes@);
    out
}

/// Cleans a rule coming from the admin panel: trims the name (falling back to
/// a default for a blank one), trims keywords and drops blank ones, sorts and
/// deduplicates the status codes, and clamps the cooldown into one second to
/// one day.
pub fn sanitize_rule(rule: ErrorRule) -> (r: ErrorRule)
    ensures
        r@.is_sanitized_form_of(rule@),
{
    let trimmed = trim(rule.name.as_str());
    let name = if trimmed.as_str().is_empty() {
        "未命名规则".to_string()
    } else {
        trimmed
    };
    let keywords = clean_keyword_list(&rule.keywords);
    let status_codes = sorted_unique_codes(&rule.status_codes);
    let cooldown_secs = if rule.cooldown_secs < 1 {
        1
    } else if rule.cooldown_secs > MAX_COOLDOWN_SECS {
        MAX_COOLDOWN_SECS
    } else {
        rule.cooldown_secs
    };
    ErrorRule {
        name,
        enabled: rule.enabled,
        keywords,
        match_mode: rule.match_mode,
        case_sensitive: rule.case_sensitive,
        status_codes,
        action: rule.action,
        cooldown_secs,
        self_healable: rule.self_healable,
        min_available: rule.min_available,
    }
}

/// The views of a list of rules.
pub open spec fn rules_view(rules: Seq<ErrorRule>) -> Seq<ErrorRuleView> {
    rules.map_values(|r: ErrorRule| r@)
}

/// Rule `i` is the first rule of `rules` that hits the response: configuration
/// order is priority order.
pub open spec fn is_first_match(
    rules: Seq<ErrorRuleView>,
    i: int,
    status: Option<u16>,
    body: Seq<char>,
) -> bool {
    &&& 0 <= i < rules.len()
    &&& rules[i].matches(status, body)
    &&& forall|j: int| 0 <= j < i ==> !#[trigger] rules[j].matches(status, body)
}

/// The rule table.
///
/// It holds the rules in configuration order and the path of the
/// configuration file they are persisted to; sharing it between request
/// handlers and the admin API, and writing the file, is the caller's part.
pub struct ErrorRuleStore {
    rules: Vec<ErrorRule>,
    config_path: Option<PathBuf>,
}

impl View for ErrorRuleStore {
    type V = Seq<ErrorRuleView>;

    closed spec fn view(&self) -> Seq<ErrorRuleView> {
        rules_view(self.rules@)
    }
}

/// A copy of a list of rules.
fn clone_rules(rules: &Vec<ErrorRule>) -> (r: Vec<ErrorRule>)
    ensures
        rules_view(r@) == rules_view(rules@),
{
    let mut r: Vec<ErrorRule> = Vec::new();
    let n = rules.len();
    let mut i: usize = 0;
    while i < n
        invariant
            n == rules@.len(),
            i <= n,
            r@.len() == i,
            forall|k: int| 0 <= k < i ==> r@[k]@ == rules@[k]@,
        decreases n - i,
    {
        r.push(rules[i].clone());
        i = i + 1;
    }
    assert(rules_view(r@) =~= rules_view(rules@));
    r
}

impl ErrorRuleStore {
    /// The path the table is persisted to, if any.
    pub closed spec fn spec_config_path(&self) -> Option<PathBuf> {
        self.config_path
    }

    pub fn new(rules: Vec<ErrorRule>, config_path: Option<PathBuf>) -> (s: Self)
        ensures
            s@ == rules_view(rules@),
            s.spec_config_path() == config_path,
    {
        Self { rules, config_path }
    }

    /// The path the table is persisted to, if any.
    pub fn config_path(&self) -> (r: &Option<PathBuf>)
        ensures
            *r == self.spec_config_path(),
    {
        &self.config_path
    }

    /// A copy of the current table (what the admin API reads).
    pub fn snapshot(&self) -> (r: Vec<ErrorRule>)
        ensures
            rules_view(r@) == self@,
    {
        clone_rules(&self.rules)
    }

    /// Whether any rule is enabled.
    ///
    /// Lets the provider skip reading the response body when the table is
    /// empty (the default), so that it costs nothing.
    pub fn has_enabled(&self) -> (r: bool)
        ensures
            r == exists|i: int| 0 <= i < self@.len() && #[trigger] self@[i].enabled,
    {
        let n = self.rules.len();
        let mut i: usize = 0;
        while i < n
            invariant
                n == self.rules@.len(),
                i <= n,
                forall|k: int| 0 <= k < i ==> !#[trigger] self.rules@[k].enabled,
            decreases n - i,
        {
            if self.rules[i].enabled {
                assert(self@[i as int].enabled);
                return true;
            }
            i = i + 1;
        }
        assert forall|k: int| 0 <= k < self@.len() implies !#[trigger] self@[k].enabled by {
            assert(self@[k].enabled == self.rules@[k].enabled);
        }
        false
    }

    /// The first rule that hits the response, in configuration order.
    pub fn first_match(&self, status: Option<u16>, body: &str) -> (r: Option<ErrorRule>)
        ensures
            match r {
                Some(rule) => exists|i: int|
                    #[trigger] is_first_match(self@, i, status, body@) && rule@ == self@[i],
                None => forall|i: int|
                    0 <= i < self@.len() ==> !#[trigger] self@[i].matches(status, body@),
            },
    {
        let n = self.rules.len();
        let mut i: usize = 0;
        while i < n
            invariant
                n == self@.len(),
                self@ == rules_view(self.rules@),
                i <= n,
                forall|k: int| 0 <= k < i ==> !#[trigger] self@[k].matches(status, body@),
            decreases n - i,
        {
            if self.rules[i].matches(status, body) {
                assert(is_first_match(self@, i as int, status, body@));
                return Some(self.rules[i].clone());
            }
            i = i + 1;
        }
        None
    }

    /// Replaces the whole table with the sanitized form of `rules` and
    /// returns the table now in force.
    pub fn replace(&mut self, rules: Vec<ErrorRule>) -> (r: Vec<ErrorRule>)
        ensures
            final(self)@.len() == rules@.len(),
            forall|i: int|
                0 <= i < rules@.len() ==> #[trigger] final(self)@[i].is_sanitized_form_of(
                    rules@[i]@,
                ),
            rules_view(r@) == final(self)@,
            final(self).spec_config_path() == old(self).spec_config_path(),
    {
        let mut sanitized: Vec<ErrorRule> = Vec::new();
        let n = rules.len();
        let mut i: usize = 0;
        while i < n
            invariant
                n == rules@.len(),
                i <= n,
                sanitized@.len() == i,
                forall|k: int|
                    0 <= k < i ==> #[trigger] sanitized@[k]@.is_sanitized_form_of(rules@[k]@),
            decreases n - i,
        {
            sanitized.push(sanitize_rule(rules[i].clone()));
            i = i + 1;
        }
        let copy = clone_rules(&sanitized);
        self.rules = sanitized;
        copy
    }
}

/// A disabled rule, or one without keywords, never hits anything.
pub proof fn lemma_inactive_rule_never_matches(rule: ErrorRuleView, status: Option<u16>, body: Seq<char>)
    requires
        !rule.enabled || rule.keywords.len() == 0,
    ensures
        !rule.matches(status, body),
{
}

/// A rule limited to status codes never hits a response whose status is
/// unknown or not listed.
pub proof fn lemma_status_codes_narrow(rule: ErrorRuleView, status: Option<u16>, body: Seq<char>)
    requires
        rule.status_codes.len() > 0,
        status is None || !rule.status_codes.contains(status->0),
    ensures
        !rule.matches(status, body),
{
}

/// A rule whose keywords are all blank never hits, in either match mode.
pub proof fn lemma_blank_keywords_never_match(rule: ErrorRuleView, status: Option<u16>, body: Seq<char>)
    requires
        forall|i: int| 0 <= i < rule.keywords.len() ==> #[trigger] trim_chars(rule.keywords[i]).len() == 0,
    ensures
        !rule.matches(status, body),
{
    reveal(keyword_hits);
    if rule.keywords.len() > 0 {
        let hay = haystack_of(body, rule.case_sensitive);
        assert(!keyword_hits(hay, rule.keywords[0], rule.case_sensitive));
        assert forall|i: int| 0 <= i < rule.keywords.len() implies !#[trigger] keyword_hits(
            hay,
            rule.keywords[i],
            rule.case_sensitive,
        ) by {
            assert(trim_chars(rule.keywords[i]).len() == 0);
        }
    }
}

/// Each keyword cleaning keeps is the trimmed form of a non-blank keyword.
proof fn lemma_clean_keywords_sound(ks: Seq<Seq<char>>, j: int)
    requires
        0 <= j < clean_keywords(ks).len(),
    ensures
        exists|i: int|
            0 <= i < ks.len() && clean_keywords(ks)[j] == #[trigger] trim_chars(ks[i])
                && trim_chars(ks[i]).len() > 0,
    decreases ks.len(),
{
    let init = ks.drop_last();
    let rest = clean_keywords(init);
    if j < rest.len() {
        lemma_clean_keywords_sound(init, j);
        let i = choose|i: int|
            0 <= i < init.len() && rest[j] == #[trigger] trim_chars(init[i])
                && trim_chars(init[i]).len() > 0;
        assert(ks[i] == init[i]);
    } else {
        assert(trim_chars(ks[ks.len() - 1]) == clean_keywords(ks)[j]);
    }
}

/// Every non-blank keyword is kept, trimmed, by cleaning.
proof fn lemma_clean_keywords_complete(ks: Seq<Seq<char>>, i: int)
    requires
        0 <= i < ks.len(),
        trim_chars(ks[i]).len() > 0,
    ensures
        exists|j: int|
            0 <= j < clean_keywords(ks).len() && #[trigger] clean_keywords(ks)[j] == trim_chars(
                ks[i],
            ),
    decreases ks.len(),
{
    let init = ks.drop_last();
    let rest = clean_keywords(init);
    if i < init.len() {
        assert(ks[i] == init[i]);
        lemma_clean_keywords_complete(init, i);
        let j = choose|j: int| 0 <= j < rest.len() && #[trigger] rest[j] == trim_chars(init[i]);
        assert(clean_keywords(ks)[j] == rest[j]);
    } else {
        assert(clean_keywords(ks)[rest.len() as int] == trim_chars(ks[i]));
    }
}

/// With no blank keyword, cleaning trims each keyword in place.
proof fn lemma_clean_keywords_no_blank(ks: Seq<Seq<char>>)
    requires
        forall|i: int| 0 <= i < ks.len() ==> #[trigger] trim_chars(ks[i]).len() > 0,
    ensures
        clean_keywords(ks).len() == ks.len(),
        forall|i: int| 0 <= i < ks.len() ==> #[trigger] clean_keywords(ks)[i] == trim_chars(ks[i]),
    decreases ks.len(),
{
    if ks.len() > 0 {
        let init = ks.drop_last();
        assert forall|i: int| 0 <= i < init.len() implies #[trigger] trim_chars(init[i]).len()
            > 0 by {
            assert(ks[i] == init[i]);
        }
        lemma_clean_keywords_no_blank(init);
        assert(trim_chars(ks[ks.len() - 1]).len() > 0);
        assert forall|i: int| 0 <= i < ks.len() implies #[trigger] clean_keywords(ks)[i]
            == trim_chars(ks[i]) by {
            if i < init.len() {
                assert(ks[i] == init[i]);
            }
        }
    }
}

/// A keyword hits exactly when its trimmed form does, and a blank keyword
/// never hits.
proof fn lemma_keyword_hits_trimmed(hay: Seq<char>, k: Seq<char>, case_sensitive: bool)
    ensures
        keyword_hits(hay, trim_chars(k), case_sensitive) == keyword_hits(hay, k, case_sensitive),
        keyword_hits(hay, k, case_sensitive) ==> trim_chars(k).len() > 0,
{
    reveal(keyword_hits);
    lemma_trim_idempotent(k);
}

/// Sanitizing keeps the status constraint: the codes are the same as a set.
proof fn lemma_sanitize_keeps_status(input: ErrorRuleView, out: ErrorRuleView, status: Option<u16>)
    requires
        out.is_sanitized_form_of(input),
    ensures
        out.status_allows(status) == input.status_allows(status),
{
    if input.status_codes.len() > 0 {
        assert(input.status_codes.contains(input.status_codes[0]));
        assert(out.status_codes.contains(input.status_codes[0]));
    }
    if out.status_codes.len() > 0 {
        assert(out.status_codes.contains(out.status_codes[0]));
    }
}

/// With `any`, cleaning keeps the verdict of the keywords.
proof fn lemma_sanitize_keeps_any_keywords(input: ErrorRuleView, out: ErrorRuleView, body: Seq<char>)
    requires
        out.is_sanitized_form_of(input),
        input.match_mode == MatchMode::Any,
    ensures
        out.keywords_hit(body) == input.keywords_hit(body),
        out.keywords_hit(body) ==> out.keywords.len() > 0 && input.keywords.len() > 0,
{
    let hay = haystack_of(body, input.case_sensitive);
    let cs = input.case_sensitive;
    if input.keywords_hit(body) {
        let i = choose|i: int|
            0 <= i < input.keywords.len() && #[trigger] keyword_hits(hay, input.keywords[i], cs);
        lemma_keyword_hits_trimmed(hay, input.keywords[i], cs);
        lemma_clean_keywords_complete(input.keywords, i);
        let j = choose|j: int|
            0 <= j < out.keywords.len() && #[trigger] out.keywords[j] == trim_chars(
                input.keywords[i],
            );
        assert(keyword_hits(hay, out.keywords[j], cs));
    }
    if out.keywords_hit(body) {
        let j = choose|j: int|
            0 <= j < out.keywords.len() && #[trigger] keyword_hits(hay, out.keywords[j], cs);
        lemma_clean_keywords_sound(input.keywords, j);
        let i = choose|i: int|
            0 <= i < input.keywords.len() && out.keywords[j] == #[trigger] trim_chars(
                input.keywords[i],
            ) && trim_chars(input.keywords[i]).len() > 0;
        lemma_keyword_hits_trimmed(hay, input.keywords[i], cs);
        assert(keyword_hits(hay, input.keywords[i], cs));
    }
}

/// With no blank keyword, cleaning keeps the verdict of the keywords.
proof fn lemma_sanitize_keeps_nonblank_keywords(
    input: ErrorRuleView,
    out: ErrorRuleView,
    body: Seq<char>,
)
    requires
        out.is_sanitized_form_of(input),
        forall|i: int|
            0 <= i < input.keywords.len() ==> #[trigger] trim_chars(input.keywords[i]).len() > 0,
    ensures
        out.keywords_hit(body) == input.keywords_hit(body),
        out.keywords.len() == input.keywords.len(),
{
    let hay = haystack_of(body, input.case_sensitive);
    let cs = input.case_sensitive;
    lemma_clean_keywords_no_blank(input.keywords);
    assert forall|i: int| 0 <= i < input.keywords.len() implies keyword_hits(
        hay,
        #[trigger] out.keywords[i],
        cs,
    ) == keyword_hits(hay, input.keywords[i], cs) by {
        lemma_keyword_hits_trimmed(hay, input.keywords[i], cs);
    }
    if input.match_mode == MatchMode::Any {
        if input.keywords_hit(body) {
            let i = choose|i: int|
                0 <= i < input.keywords.len() && #[trigger] keyword_hits(
                    hay,
                    input.keywords[i],
                    cs,
                );
            assert(keyword_hits(hay, out.keywords[i], cs));
        }
        if out.keywords_hit(body) {
            let i = choose|i: int|
                0 <= i < out.keywords.len() && #[trigger] keyword_hits(hay, out.keywords[i], cs);
            assert(keyword_hits(hay, input.keywords[i], cs));
        }
    } else {
        if input.keywords_hit(body) {
            assert forall|i: int| 0 <= i < out.keywords.len() implies #[trigger] keyword_hits(
                hay,
                out.keywords[i],
                cs,
            ) by {
                assert(keyword_hits(hay, input.keywords[i], cs));
            }
        }
        if out.keywords_hit(body) {
            assert forall|i: int| 0 <= i < input.keywords.len() implies #[trigger] keyword_hits(
                hay,
                input.keywords[i],
                cs,
            ) by {
                assert(keyword_hits(hay, out.keywords[i], cs));
            }
        }
    }
}

/// Cleaning a rule keeps its verdict on every response, provided the rule
/// matches on any keyword, or has no blank keyword.  (With `all` and a blank
/// keyword, the raw rule can never hit, while the cleaned one, its blank
/// keyword dropped, can.)
pub proof fn lemma_sanitize_keeps_verdict(
    input: ErrorRuleView,
    out: ErrorRuleView,
    status: Option<u16>,
    body: Seq<char>,
)
    requires
        out.is_sanitized_form_of(input),
        input.match_mode == MatchMode::Any || forall|i: int|
            0 <= i < input.keywords.len() ==> #[trigger] trim_chars(input.keywords[i]).len() > 0,
    ensures
        out.matches(status, body) == input.matches(status, body),
{
    lemma_sanitize_keeps_status(input, out, status);
    if input.match_mode == MatchMode::Any {
        lemma_sanitize_keeps_any_keywords(input, out, body);
    } else {
        lemma_sanitize_keeps_nonblank_keywords(input, out, body);
    }
}

/// When no rule of a table is enabled, no rule hits any response: the
/// provider may skip reading the body whenever `has_enabled` is false, and
/// `first_match` would have found nothing.
pub proof fn lemma_no_enabled_rule_no_match(
    rules: Seq<ErrorRuleView>,
    status: Option<u16>,
    body: Seq<char>,
)
    requires
        !(exists|i: int| 0 <= i < rules.len() && #[trigger] rules[i].enabled),
    ensures
        forall|i: int| 0 <= i < rules.len() ==> !#[trigger] rules[i].matches(status, body),
        forall|i: int| !is_first_match(rules, i, status, body),
{
    assert forall|i: int| 0 <= i < rules.len() implies !#[trigger] rules[i].matches(
        status,
        body,
    ) by {
        assert(!rules[i].enabled);
    }
}

/// Two strictly increasing lists holding the same values are the same list.
proof fn lemma_sorted_unique_unique(s1: Seq<u16>, s2: Seq<u16>)
    requires
        forall|i: int, j: int| 0 <= i < j < s1.len() ==> s1[i] < s1[j],
        forall|i: int, j: int| 0 <= i < j < s2.len() ==> s2[i] < s2[j],
        forall|c: u16| s1.contains(c) <==> s2.contains(c),
    ensures
        s1 == s2,
    decreases s1.len(),
{
    if s1.len() == 0 {
        if s2.len() > 0 {
            assert(s2.contains(s2[0]));
        }
        assert(s1 =~= s2);
    } else {
        assert(s1.contains(s1[0]));
        assert(s2.len() > 0);
        assert(s2.contains(s2[0]));
        let k1 = choose|k: int| 0 <= k < s2.len() && s2[k] == s1[0];
        let k2 = choose|k: int| 0 <= k < s1.len() && s1[k] == s2[0];
        if k1 > 0 {
            assert(s2[0] < s2[k1]);
            assert(s1[k2] < s1[0] || k2 == 0);
        }
        assert(s1[0] == s2[0]);
        let t1 = s1.drop_first();
        let t2 = s2.drop_first();
        assert forall|c: u16| t1.contains(c) <==> t2.contains(c) by {
            if t1.contains(c) {
                let k = choose|k: int| 0 <= k < t1.len() && t1[k] == c;
                assert(s1[k + 1] == c);
                assert(s1.contains(c));
                let m = choose|m: int| 0 <= m < s2.len() && s2[m] == c;
                assert(m != 0);
                assert(t2[m - 1] == c);
            }
            if t2.contains(c) {
                let k = choose|k: int| 0 <= k < t2.len() && t2[k] == c;
                assert(s2[k + 1] == c);
                assert(s2.contains(c));
                let m = choose|m: int| 0 <= m < s1.len() && s1[m] == c;
                assert(m != 0);
                assert(t1[m - 1] == c);
            }
        }
        lemma_sorted_unique_unique(t1, t2);
        assert(s1.len() == s2.len());
        assert forall|i: int| 0 <= i < s1.len() implies s1[i] == s2[i] by {
            if i > 0 {
                assert(s1[i] == t1[i - 1]);
                assert(s2[i] == t2[i - 1]);
            }
        }
        assert(s1 =~= s2);
    }
}

/// The sanitized form of a rule is unique: two views that both are the
/// sanitized form of `input` are equal.  So what `replace` stores is exactly
/// what `sanitize_rule` gives for each rule.
pub proof fn lemma_sanitized_form_unique(input: ErrorRuleView, a: ErrorRuleView, b: ErrorRuleView)
    requires
        a.is_sanitized_form_of(input),
        b.is_sanitized_form_of(input),
    ensures
        a == b,
{
    lemma_sorted_unique_unique(a.status_codes, b.status_codes);
    assert(a =~= b);
}

/// Cleaning a keyword list that is already clean changes nothing.
proof fn lemma_clean_keywords_of_clean(ks: Seq<Seq<char>>)
    requires
        forall|i: int|
            0 <= i < ks.len() ==> #[trigger] trim_chars(ks[i]) == ks[i] && ks[i].len() > 0,
    ensures
        clean_keywords(ks) == ks,
    decreases ks.len(),
{
    if ks.len() > 0 {
        let init = ks.drop_last();
        assert forall|i: int| 0 <= i < init.len() implies #[trigger] trim_chars(init[i])
            == init[i] && init[i].len() > 0 by {
            assert(init[i] == ks[i]);
        }
        lemma_clean_keywords_of_clean(init);
        assert(trim_chars(ks[ks.len() - 1]) == ks[ks.len() - 1]);
        assert(ks.drop_last().push(ks.last()) =~= ks);
    }
}

/// The default rule name has no white space at either end.
proof fn lemma_unnamed_rule_name_trimmed()
    ensures
        trim_chars(unnamed_rule_name()) == unnamed_rule_name(),
        unnamed_rule_name().len() > 0,
{
    reveal(trim_chars);
    reveal_strlit("未命名规则");
    let s = unnamed_rule_name();
    assert(s.len() == 5);
    assert(!is_white_space(s[0]));
    assert(!is_white_space(s[4]));
    assert(s.last() == s[4]);
}

/// Sanitizing a sanitized rule gives it back unchanged.
pub proof fn lemma_sanitize_idempotent(input: ErrorRuleView, once: ErrorRuleView, twice: ErrorRuleView)
    requires
        once.is_sanitized_form_of(input),
        twice.is_sanitized_form_of(once),
    ensures
        twice == once,
{
    // The name.
    lemma_trim_idempotent(input.name);
    lemma_unnamed_rule_name_trimmed();
    // The keywords.
    let ks = clean_keywords(input.keywords);
    assert forall|j: int| 0 <= j < ks.len() implies #[trigger] trim_chars(ks[j]) == ks[j]
        && ks[j].len() > 0 by {
        lemma_clean_keywords_sound(input.keywords, j);
        let i = choose|i: int|
            0 <= i < input.keywords.len() && ks[j] == #[trigger] trim_chars(input.keywords[i])
                && trim_chars(input.keywords[i]).len() > 0;
        lemma_trim_idempotent(input.keywords[i]);
    }
    lemma_clean_keywords_of_clean(ks);
    // The status codes: the sorted list is its own sorted form.
    assert(sorted_unique_of(once.status_codes, once.status_codes));
    lemma_sanitized_form_unique(once, twice, once);
}

/// How one keyword hits: it is not blank once trimmed, and its trimmed form
/// occurs in the haystack as written when the rule minds case, or lower-cased
/// when it does not.
pub proof fn lemma_keyword_hit_by_case(haystack: Seq<char>, keyword: Seq<char>)
    ensures
        keyword_hits(haystack, keyword, true) == (trim_chars(keyword).len() > 0 && contains_chars(
            haystack,
            trim_chars(keyword),
        )),
        keyword_hits(haystack, keyword, false) == (trim_chars(keyword).len() > 0 && contains_chars(
            haystack,
            unicode_lowercase(trim_chars(keyword)),
        )),
{
    reveal(keyword_hits);
}

/// The verdict of a rule on a response: it is enabled, has keywords, its
/// status codes are empty or list the known status, and its trimmed non-blank
/// keywords occur in the body (one of them for `Any`, every one for `All`),
/// as written for a case-sensitive rule, and both sides lower-cased for a
/// rule that ignores case.
pub proof fn lemma_rule_verdict(rule: ErrorRuleView, status: Option<u16>, body: Seq<char>)
    ensures
        rule.case_sensitive ==> (rule.matches(status, body) == (rule.enabled && rule.keywords.len()
            > 0 && (rule.status_codes.len() == 0 || (status is Some && rule.status_codes.contains(
            status->0))) && (rule.match_mode == MatchMode::Any ==> exists|i: int|
            0 <= i < rule.keywords.len() && trim_chars(#[trigger] rule.keywords[i]).len() > 0
                && contains_chars(body, trim_chars(rule.keywords[i]))) && (rule.match_mode
            == MatchMode::All ==> forall|i: int|
            0 <= i < rule.keywords.len() ==> trim_chars(#[trigger] rule.keywords[i]).len() > 0
                && contains_chars(body, trim_chars(rule.keywords[i]))))),
        !rule.case_sensitive ==> (rule.matches(status, body) == (rule.enabled
            && rule.keywords.len() > 0 && (rule.status_codes.len() == 0 || (status is Some
            && rule.status_codes.contains(status->0))) && (rule.match_mode == MatchMode::Any
            ==> exists|i: int|
            0 <= i < rule.keywords.len() && trim_chars(#[trigger] rule.keywords[i]).len() > 0
                && contains_chars(unicode_lowercase(body), unicode_lowercase(
                trim_chars(rule.keywords[i]),
            ))) && (rule.match_mode == MatchMode::All ==> forall|i: int|
            0 <= i < rule.keywords.len() ==> trim_chars(#[trigger] rule.keywords[i]).len() > 0
                && contains_chars(unicode_lowercase(body), unicode_lowercase(
                trim_chars(rule.keywords[i]),
            ))))),
{
    let hay = haystack_of(body, rule.case_sensitive);
    let cs = rule.case_sensitive;
    let ks = rule.keywords;
    assert forall|i: int| 0 <= i < ks.len() implies #[trigger] keyword_hits(hay, ks[i], cs) == (
    trim_chars(ks[i]).len() > 0 && contains_chars(
        hay,
        if cs {
            trim_chars(ks[i])
        } else {
            unicode_lowercase(trim_chars(ks[i]))
        },
    )) by {
        reveal(keyword_hits);
    }
    let status_ok = rule.status_codes.len() == 0 || (status is Some && rule.status_codes.contains(
        status->0,
    ));
    assert(rule.status_allows(status) == status_ok);
    assert(rule.matches(status, body) == (rule.enabled && ks.len() > 0 && status_ok
        && rule.keywords_hit(body)));
    if rule.match_mode == MatchMode::Any {
        if cs {
            assert(rule.keywords_hit(body) == exists|i: int|
                0 <= i < ks.len() && trim_chars(#[trigger] ks[i]).len() > 0 && contains_chars(
                    body,
                    trim_chars(ks[i]),
                )) by {
                if rule.keywords_hit(body) {
                    let i = choose|i: int|
                        0 <= i < ks.len() && #[trigger] keyword_hits(hay, ks[i], cs);
                    assert(trim_chars(ks[i]).len() > 0 && contains_chars(body, trim_chars(ks[i])));
                }
                if exists|i: int|
                    0 <= i < ks.len() && trim_chars(#[trigger] ks[i]).len() > 0 && contains_chars(
                        body,
                        trim_chars(ks[i]),
                    ) {
                    let i = choose|i: int|
                        0 <= i < ks.len() && trim_chars(#[trigger] ks[i]).len() > 0
                            && contains_chars(body, trim_chars(ks[i]));
                    assert(keyword_hits(hay, ks[i], cs));
                }
            }
        } else {
            assert(rule.keywords_hit(body) == exists|i: int|
                0 <= i < ks.len() && trim_chars(#[trigger] ks[i]).len() > 0 && contains_chars(
                    unicode_lowercase(body),
                    unicode_lowercase(trim_chars(ks[i])),
                )) by {
                if rule.keywords_hit(body) {
                    let i = choose|i: int|
                        0 <= i < ks.len() && #[trigger] keyword_hits(hay, ks[i], cs);
                    assert(trim_chars(ks[i]).len() > 0 && contains_chars(
                        unicode_lowercase(body),
                        unicode_lowercase(trim_chars(ks[i])),
                    ));
                }
                if exists|i: int|
                    0 <= i < ks.len() && trim_chars(#[trigger] ks[i]).len() > 0 && contains_chars(
                        unicode_lowercase(body),
                        unicode_lowercase(trim_chars(ks[i])),
                    ) {
                    let i = choose|i: int|
                        0 <= i < ks.len() && trim_chars(#[trigger] ks[i]).len() > 0
                            && contains_chars(
                            unicode_lowercase(body),
                            unicode_lowercase(trim_chars(ks[i])),
                        );
                    assert(keyword_hits(hay, ks[i], cs));
                }
            }
        }
    } else {
        if rule.keywords_hit(body) {
            assert forall|i: int| 0 <= i < ks.len() implies trim_chars(#[trigger] ks[i]).len() > 0
                && contains_chars(
                hay,
                if cs {
                    trim_chars(ks[i])
                } else {
                    unicode_lowercase(trim_chars(ks[i]))
                },
            ) by {
                assert(keyword_hits(hay, ks[i], cs));
            }
        }
        if cs {
            if forall|i: int|
                0 <= i < ks.len() ==> trim_chars(#[trigger] ks[i]).len() > 0 && contains_chars(
                    body,
                    trim_chars(ks[i]),
                ) {
                assert forall|i: int| 0 <= i < ks.len() implies #[trigger] keyword_hits(
                    hay,
                    ks[i],
                    cs,
                ) by {
                    assert(trim_chars(ks[i]).len() > 0);
                }
            }
        } else {
            if forall|i: int|
                0 <= i < ks.len() ==> trim_chars(#[trigger] ks[i]).len() > 0 && contains_chars(
                    unicode_lowercase(body),
                    unicode_lowercase(trim_chars(ks[i])),
                ) {
                assert forall|i: int| 0 <= i < ks.len() implies #[trigger] keyword_hits(
                    hay,
                    ks[i],
                    cs,
                ) by {
                    assert(trim_chars(ks[i]).len() > 0);
                }
            }
        }
    }
}

/// What a cleaned rule looks like: its name is trimmed and not blank (a
/// trimmed non-blank name is kept as it is); its cooldown lies within one
/// second and one day (and is kept when it already does); every keyword it
/// holds is the trimmed form of a non-blank keyword of the input, and every
/// non-blank input keyword is held, trimmed; with no blank keyword the
/// keywords are trimmed one for one, in order; its status codes are strictly
/// increasing and are exactly the input's codes.
pub proof fn lemma_sanitized_rule_shape(input: ErrorRuleView, out: ErrorRuleView)
    requires
        out.is_sanitized_form_of(input),
    ensures
        trim_chars(out.name) == out.name,
        out.name.len() > 0,
        (trim_chars(input.name) == input.name && input.name.len() > 0) ==> out.name == input.name,
        1 <= out.cooldown_secs <= MAX_COOLDOWN_SECS,
        1 <= input.cooldown_secs <= MAX_COOLDOWN_SECS ==> out.cooldown_secs == input.cooldown_secs,
        forall|j: int|
            #![trigger out.keywords[j]]
            0 <= j < out.keywords.len() ==> exists|i: int|
                #![trigger input.keywords[i]]
                0 <= i < input.keywords.len() && out.keywords[j] == trim_chars(input.keywords[i])
                    && trim_chars(input.keywords[i]).len() > 0,
        forall|i: int|
            0 <= i < input.keywords.len() && trim_chars(#[trigger] input.keywords[i]).len() > 0
                ==> out.keywords.contains(trim_chars(input.keywords[i])),
        (forall|i: int|
            0 <= i < input.keywords.len() ==> trim_chars(#[trigger] input.keywords[i]).len() > 0)
            ==> (out.keywords.len() == input.keywords.len() && forall|i: int|
            0 <= i < input.keywords.len() ==> #[trigger] out.keywords[i] == trim_chars(
                input.keywords[i],
            )),
        forall|i: int, j: int|
            0 <= i < j < out.status_codes.len() ==> out.status_codes[i] < out.status_codes[j],
        forall|c: u16| out.status_codes.contains(c) <==> input.status_codes.contains(c),
{
    lemma_trim_idempotent(input.name);
    lemma_unnamed_rule_name_trimmed();
    assert forall|j: int|
        #![trigger out.keywords[j]]
        0 <= j < out.keywords.len() implies exists|i: int|
            #![trigger input.keywords[i]]
            0 <= i < input.keywords.len() && out.keywords[j] == trim_chars(input.keywords[i])
                && trim_chars(input.keywords[i]).len() > 0 by {
        lemma_clean_keywords_sound(input.keywords, j);
        let i = choose|i: int|
            0 <= i < input.keywords.len() && clean_keywords(input.keywords)[j]
                == #[trigger] trim_chars(input.keywords[i]) && trim_chars(input.keywords[i]).len()
                > 0;
    }
    assert forall|i: int|
        0 <= i < input.keywords.len() && trim_chars(#[trigger] input.keywords[i]).len()
            > 0 implies out.keywords.contains(trim_chars(input.keywords[i])) by {
        lemma_clean_keywords_complete(input.keywords, i);
        let j = choose|j: int|
            0 <= j < clean_keywords(input.keywords).len() && #[trigger] clean_keywords(
                input.keywords,
            )[j] == trim_chars(input.keywords[i]);
        assert(out.keywords[j] == trim_chars(input.keywords[i]));
    }
    if forall|i: int|
        0 <= i < input.keywords.len() ==> trim_chars(#[trigger] input.keywords[i]).len() > 0 {
        lemma_clean_keywords_no_blank(input.keywords);
    }
}

} // verus!
