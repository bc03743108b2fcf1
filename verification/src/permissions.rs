//! Permission modes, requests, decisions and the rule-based policy.
use vstd::prelude::*;
use crate::text::{chars_of, has_prefix, push_str};

verus! {

broadcast use vstd::string::group_string_axioms;

/// The mode controlling how the agent handles permission checks.
#[derive(Clone, Copy, Debug, PartialEq, Eq, Structural)]
pub enum PermissionMode {
    /// Approve every request without asking.
    AutoApprove,
    /// Ask the user for confirmation on each request.
    Interactive,
    /// Deny all requests that require permission.
    Deny,
}

/// What kind of resource a tool wants to access.
#[derive(Clone, Debug)]
pub enum ResourceKind {
    FileRead,
    FileWrite,
    ShellExec,
    Network,
    Custom(String),
}

/// The abstract value of a [`ResourceKind`].
pub enum ResourceKindView {
    FileRead,
    FileWrite,
    ShellExec,
    Network,
    Custom(Seq<char>),
}

impl View for ResourceKind {
    type V = ResourceKindView;

    open spec fn view(&self) -> ResourceKindView {
        match self {
            ResourceKind::FileRead => ResourceKindView::FileRead,
            ResourceKind::FileWrite => ResourceKindView::FileWrite,
            ResourceKind::ShellExec => ResourceKindView::ShellExec,
            ResourceKind::Network => ResourceKindView::Network,
            ResourceKind::Custom(name) => ResourceKindView::Custom(name@),
        }
    }
}

/// The text that `str`'s `Debug` formatting gives for `s`: the string quoted
/// and escaped.
pub uninterp spec fn debug_quoted(s: Seq<char>) -> Seq<char>;

/// Formats `s` with `Debug`.
///
/// Calls std's `format!("{:?}", s)` on a `&str`; the contract says only that the
/// result is a function of `s`, named [`debug_quoted`]: std documents the
/// quoting and escaping rules, which this library does not restate.
#[verifier::external_body]
fn debug_str(s: &str) -> (r: String)
    ensures
        r@ == debug_quoted(s@),
{
    format!("{:?}", s)
}

/// The text that `Debug` formatting gives for a resource kind: the variant's
/// name, and for `Custom` the quoted name in brackets.
pub open spec fn resource_debug(r: ResourceKindView) -> Seq<char> {
    match r {
        ResourceKindView::FileRead => "FileRead"@,
        ResourceKindView::FileWrite => "FileWrite"@,
        ResourceKindView::ShellExec => "ShellExec"@,
        ResourceKindView::Network => "Network"@,
        ResourceKindView::Custom(name) => "Custom("@ + debug_quoted(name) + ")"@,
    }
}

impl ResourceKind {
    /// The `Debug` text of this resource kind.
    pub fn debug_text(&self) -> (s: String)
        ensures
            s@ == resource_debug(self@),
    {
        match self {
            ResourceKind::FileRead => String::from_str("FileRead"),
            ResourceKind::FileWrite => String::from_str("FileWrite"),
            ResourceKind::ShellExec => String::from_str("ShellExec"),
            ResourceKind::Network => String::from_str("Network"),
            ResourceKind::Custom(name) => {
                let mut s = String::from_str("Custom(");
                let q = debug_str(name.as_str());
                push_str(&mut s, q.as_str());
                push_str(&mut s, ")");
                s
            },
        }
    }

    /// Whether two resource kinds are the same: the same variant, and for
    /// `Custom` the same name.
    pub fn same_as(&self, other: &ResourceKind) -> (r: bool)
        ensures
            r == (self@ == other@),
    {
        match (self, other) {
            (ResourceKind::FileRead, ResourceKind::FileRead) => true,
            (ResourceKind::FileWrite, ResourceKind::FileWrite) => true,
            (ResourceKind::ShellExec, ResourceKind::ShellExec) => true,
            (ResourceKind::Network, ResourceKind::Network) => true,
            (ResourceKind::Custom(a), ResourceKind::Custom(b)) => {
                let r = a.eq(b);
                r
            },
            _ => false,
        }
    }
}

/// A permission check request emitted by the tool system.
#[derive(Clone, Debug)]
pub struct PermissionRequest {
    pub tool_name: String,
    pub resource: ResourceKind,
    /// Free-form description of what is being accessed.
    pub description: String,
    /// Optional path or command being accessed.
    pub target: Option<String>,
}

/// The abstract value of a [`PermissionRequest`].
pub struct PermissionRequestView {
    pub tool_name: Seq<char>,
    pub resource: ResourceKindView,
    pub description: Seq<char>,
    pub target: Option<Seq<char>>,
}

impl View for PermissionRequest {
    type V = PermissionRequestView;

    open spec fn view(&self) -> PermissionRequestView {
        PermissionRequestView {
            tool_name: self.tool_name@,
            resource: self.resource@,
            description: self.description@,
            target: match self.target {
                Some(t) => Some(t@),
                None => None,
            },
        }
    }
}

/// The result of a permission check.
#[derive(Clone, Debug)]
pub enum PermissionDecision {
    Allow,
    Deny { reason: String },
    Ask { message: String },
}

/// The abstract value of a [`PermissionDecision`].
pub enum DecisionView {
    Allow,
    Deny(Seq<char>),
    Ask(Seq<char>),
}

impl View for PermissionDecision {
    type V = DecisionView;

    open spec fn view(&self) -> DecisionView {
        match self {
            PermissionDecision::Allow => DecisionView::Allow,
            PermissionDecision::Deny { reason } => DecisionView::Deny(reason@),
            PermissionDecision::Ask { message } => DecisionView::Ask(message@),
        }
    }
}

/// A pluggable policy that decides whether a tool action is allowed.
///
/// Different environments (CLI interactive, headless, SDK) can provide
/// different implementations.
pub trait PermissionPolicy: Send + Sync {
    /// What the policy decides for `request`.
    spec fn decision(&self, request: PermissionRequestView) -> DecisionView;

    fn check(&self, request: &PermissionRequest) -> (d: PermissionDecision)
        ensures
            d@ == self.decision(request@),
    ;
}

/// A single path/command allow-rule persisted in configuration.
#[derive(Clone, Debug)]
pub struct PermissionRule {
    pub resource: ResourceKind,
    /// Glob or prefix that the target must match.
    pub pattern: String,
    pub allow: bool,
}

/// A rule-based permission policy.
///
/// 1. If an explicit rule matches, use it.
/// 2. Otherwise fall back to the configured [`PermissionMode`].
pub struct RuleBasedPolicy {
    pub mode: PermissionMode,
    pub rules: Vec<PermissionRule>,
}

/// Whether the rest of `pattern` from position `i` matches the rest of
/// `target` from position `j`, as a glob: `*` matches any run of characters
/// (`/` included, so a trailing `*` works as a prefix match), `?` matches any
/// one character, and every other character matches itself.
pub open spec fn glob_at(pattern: Seq<char>, target: Seq<char>, i: int, j: int) -> bool
    decreases pattern.len() - i, target.len() - j,
{
    if i >= pattern.len() {
        j >= target.len()
    } else if pattern[i] == '*' {
        glob_at(pattern, target, i + 1, j) || (j < target.len() && glob_at(pattern, target, i, j + 1))
    } else {
        &&& j < target.len()
        &&& (pattern[i] == '?' || pattern[i] == target[j])
        &&& glob_at(pattern, target, i + 1, j + 1)
    }
}

/// Pattern semantics: the whole target matches the pattern as a glob (see
/// [`glob_at`]).
pub open spec fn pattern_matches_spec(pattern: Seq<char>, target: Seq<char>) -> bool {
    glob_at(pattern, target, 0, 0)
}

/// `c` is one of the glob wildcards `*` and `?`.
pub open spec fn is_wildcard(c: char) -> bool {
    c == '*' || c == '?'
}

/// The target text of a request: its target, or the empty text when it has none.
pub open spec fn target_text(request: PermissionRequestView) -> Seq<char> {
    match request.target {
        Some(t) => t,
        None => Seq::empty(),
    }
}

/// Whether `rule` applies to `request`.
pub open spec fn rule_applies(rule: PermissionRule, request: PermissionRequestView) -> bool {
    rule.resource@ == request.resource && pattern_matches_spec(rule.pattern@, target_text(request))
}

/// `i` is the position of the first rule in `rules` that applies to `request`.
pub open spec fn is_first_match(rules: Seq<PermissionRule>, request: PermissionRequestView, i: int) -> bool {
    &&& 0 <= i < rules.len()
    &&& rule_applies(rules[i], request)
    &&& forall|j: int| 0 <= j < i ==> !rule_applies(#[trigger] rules[j], request)
}

/// Some rule of `rules` applies to `request`.
pub open spec fn some_rule_applies(rules: Seq<PermissionRule>, request: PermissionRequestView) -> bool {
    exists|i: int| 0 <= i < rules.len() && rule_applies(#[trigger] rules[i], request)
}

/// The message of an `Ask` decision: who wants to access what.
pub open spec fn ask_message(request: PermissionRequestView) -> Seq<char> {
    request.tool_name + " wants to access "@ + resource_debug(request.resource) + ": "@
        + request.description
}

/// What the rule-based policy decides: the first applicable rule if there is
/// one, else the mode.
pub open spec fn rule_based_decision(
    mode: PermissionMode,
    rules: Seq<PermissionRule>,
    request: PermissionRequestView,
) -> DecisionView {
    if some_rule_applies(rules, request) {
        let i = choose|i: int| is_first_match(rules, request, i);
        if rules[i].allow {
            DecisionView::Allow
        } else {
            DecisionView::Deny("blocked by rule: "@ + rules[i].pattern@)
        }
    } else {
        match mode {
            PermissionMode::AutoApprove => DecisionView::Allow,
            PermissionMode::Deny => DecisionView::Deny("permission mode is Deny"@),
            PermissionMode::Interactive => DecisionView::Ask(ask_message(request)),
        }
    }
}

/// If some rule applies, there is exactly one first applicable rule.
pub proof fn lemma_first_match_exists(rules: Seq<PermissionRule>, request: PermissionRequestView)
    requires
        some_rule_applies(rules, request),
    ensures
        exists|i: int| is_first_match(rules, request, i),
    decreases rules.len(),
{
    let k = choose|k: int| 0 <= k < rules.len() && rule_applies(#[trigger] rules[k], request);
    if rule_applies(rules[0], request) {
        assert(is_first_match(rules, request, 0));
    } else {
        let rest = rules.drop_first();
        assert(rest[k - 1] == rules[k]);
        lemma_first_match_exists(rest, request);
        let i = choose|i: int| is_first_match(rest, request, i);
        assert forall|j: int| 0 <= j < i + 1 implies !rule_applies(#[trigger] rules[j], request) by {
            if j > 0 {
                assert(rules[j] == rest[j - 1]);
            }
        }
        assert(is_first_match(rules, request, i + 1));
    }
}

/// The first applicable rule is unique.
pub proof fn lemma_first_match_unique(
    rules: Seq<PermissionRule>,
    request: PermissionRequestView,
    i: int,
    j: int,
)
    requires
        is_first_match(rules, request, i),
        is_first_match(rules, request, j),
    ensures
        i == j,
{
    if i < j {
        assert(!rule_applies(rules[i], request));
    } else if j < i {
        assert(!rule_applies(rules[j], request));
    }
}

impl RuleBasedPolicy {
    pub fn new(mode: PermissionMode) -> (p: Self)
        ensures
            p.mode == mode,
            p.rules@ == Seq::<PermissionRule>::empty(),
    {
        RuleBasedPolicy { mode, rules: Vec::new() }
    }

    pub fn with_rules(mode: PermissionMode, rules: Vec<PermissionRule>) -> (p: Self)
        ensures
            p.mode == mode,
            p.rules@ == rules@,
    {
        RuleBasedPolicy { mode, rules }
    }

    /// Whether `pattern` matches `target` (see [`pattern_matches_spec`]).
    ///
    /// Fills, from the end of the pattern backwards, the table of which
    /// suffixes of the pattern match which suffixes of the target.
    pub fn pattern_matches(pattern: &str, target: &str) -> (r: bool)
        ensures
            r == pattern_matches_spec(pattern@, target@),
    {
        let p = chars_of(pattern);
        let t = chars_of(target);
        let n = t.len();
        // The row for the empty rest of the pattern: only the empty rest of
        // the target matches. `next[k]` is the entry for target position `k`
        // below `n`; `next_tail` the one for position `n`.
        let mut next: Vec<bool> = Vec::new();
        let mut j: usize = 0;
        while j < n
            invariant
                n == t@.len(),
                j <= n,
                next@.len() == j,
                forall|k: int| 0 <= k < j ==> next@[k] == glob_at(p@, t@, p@.len() as int, k),
            decreases n - j,
        {
            next.push(false);
            j = j + 1;
        }
        let mut next_tail = true;
        let mut i: usize = p.len();
        while i > 0
            invariant
                n == t@.len(),
                i <= p@.len(),
                next@.len() == n,
                forall|k: int| 0 <= k < n ==> next@[k] == glob_at(p@, t@, i as int, k),
                next_tail == glob_at(p@, t@, i as int, n as int),
            decreases i,
        {
            i = i - 1;
            let c = p[i];
            let cur_tail = c == '*' && next_tail;
            proof {
                assert(cur_tail == glob_at(p@, t@, i as int, n as int));
            }
            let mut cur: Vec<bool> = Vec::new();
            let mut k: usize = 0;
            while k < n
                invariant
                    n == t@.len(),
                    k <= n,
                    cur@.len() == k,
                decreases n - k,
            {
                cur.push(false);
                k = k + 1;
            }
            let mut m: usize = n;
            while m > 0
                invariant
                    n == t@.len(),
                    i < p@.len(),
                    c == p@[i as int],
                    m <= n,
                    cur@.len() == n,
                    next@.len() == n,
                    forall|k: int| 0 <= k < n ==> next@[k] == glob_at(p@, t@, i + 1, k),
                    next_tail == glob_at(p@, t@, i + 1, n as int),
                    cur_tail == glob_at(p@, t@, i as int, n as int),
                    forall|k: int| m <= k < n ==> cur@[k] == glob_at(p@, t@, i as int, k),
                decreases m,
            {
                m = m - 1;
                let after_cur = if m + 1 == n {
                    cur_tail
                } else {
                    cur[m + 1]
                };
                let after_next = if m + 1 == n {
                    next_tail
                } else {
                    next[m + 1]
                };
                let v = if c == '*' {
                    next[m] || after_cur
                } else {
                    (c == '?' || c == t[m]) && after_next
                };
                proof {
                    assert(v == glob_at(p@, t@, i as int, m as int));
                }
                cur.set(m, v);
            }
            next = cur;
            next_tail = cur_tail;
        }
        if n == 0 {
            next_tail
        } else {
            next[0]
        }
    }

    /// The first rule that applies to `request`, if any.
    pub fn match_rule(&self, request: &PermissionRequest) -> (r: Option<&PermissionRule>)
        ensures
            match r {
                Some(rule) => exists|i: int|
                    is_first_match(self.rules@, request@, i) && *rule == #[trigger] self.rules@[i],
                None => !some_rule_applies(self.rules@, request@),
            },
    {
        let target: &str = match &request.target {
            Some(t) => t.as_str(),
            None => "",
        };
        proof {
            reveal_strlit("");
            assert(target@ == target_text(request@));
        }
        let mut i: usize = 0;
        while i < self.rules.len()
            invariant
                i <= self.rules@.len(),
                target@ == target_text(request@),
                forall|j: int| 0 <= j < i ==> !rule_applies(#[trigger] self.rules@[j], request@),
            decreases self.rules@.len() - i,
        {
            let rule = &self.rules[i];
            if rule.resource.same_as(&request.resource) && Self::pattern_matches(
                rule.pattern.as_str(),
                target,
            ) {
                proof {
                    assert(is_first_match(self.rules@, request@, i as int));
                }
                return Some(rule);
            }
            i = i + 1;
        }
        None
    }

    /// Decides a request: the first applicable rule allows or blocks it;
    /// without one, the mode decides.
    pub fn check(&self, request: &PermissionRequest) -> (d: PermissionDecision)
        ensures
            d@ == rule_based_decision(self.mode, self.rules@, request@),
    {
        let m = self.match_rule(request);
        match m {
            Some(rule) => {
                proof {
                    let i = choose|i: int|
                        is_first_match(self.rules@, request@, i) && *rule == #[trigger] self.rules@[i];
                    let k = choose|k: int| is_first_match(self.rules@, request@, k);
                    lemma_first_match_unique(self.rules@, request@, i, k);
                }
                if rule.allow {
                    PermissionDecision::Allow
                } else {
                    let mut reason = String::from_str("blocked by rule: ");
                    push_str(&mut reason, rule.pattern.as_str());
                    PermissionDecision::Deny { reason }
                }
            },
            None => match self.mode {
                PermissionMode::AutoApprove => PermissionDecision::Allow,
                PermissionMode::Deny => PermissionDecision::Deny {
                    reason: String::from_str("permission mode is Deny"),
                },
                PermissionMode::Interactive => {
                    let mut message = request.tool_name.clone();
                    push_str(&mut message, " wants to access ");
                    let kind = request.resource.debug_text();
                    push_str(&mut message, kind.as_str());
                    push_str(&mut message, ": ");
                    push_str(&mut message, request.description.as_str());
                    PermissionDecision::Ask { message }
                },
            },
        }
    }
}

impl PermissionPolicy for RuleBasedPolicy {
    open spec fn decision(&self, request: PermissionRequestView) -> DecisionView {
        rule_based_decision(self.mode, self.rules@, request)
    }

    fn check(&self, request: &PermissionRequest) -> (d: PermissionDecision) {
        RuleBasedPolicy::check(self, request)
    }
}

/// An applicable rule decides a request whatever the mode.
pub proof fn law_rules_override_mode(
    m1: PermissionMode,
    m2: PermissionMode,
    rules: Seq<PermissionRule>,
    request: PermissionRequestView,
)
    requires
        some_rule_applies(rules, request),
    ensures
        rule_based_decision(m1, rules, request) == rule_based_decision(m2, rules, request),
{
}

/// Without an applicable rule the mode decides: auto-approval allows, the
/// deny mode denies, and the interactive mode asks.
pub proof fn law_mode_decides_otherwise(
    mode: PermissionMode,
    rules: Seq<PermissionRule>,
    request: PermissionRequestView,
)
    requires
        !some_rule_applies(rules, request),
    ensures
        mode == PermissionMode::AutoApprove ==> rule_based_decision(mode, rules, request) == DecisionView::Allow,
        mode == PermissionMode::Deny ==> rule_based_decision(mode, rules, request) == DecisionView::Deny(
            "permission mode is Deny"@,
        ),
        mode == PermissionMode::Interactive ==> rule_based_decision(mode, rules, request) == DecisionView::Ask(
            ask_message(request),
        ),
{
}

/// A `*` that ends a pattern matches every rest of the target.
proof fn lemma_final_star(p: Seq<char>, t: Seq<char>, j: int)
    requires
        p.len() > 0,
        p.last() == '*',
        0 <= j <= t.len(),
    ensures
        glob_at(p, t, p.len() - 1, j),
    decreases t.len() - j,
{
    assert(glob_at(p, t, p.len() as int, t.len() as int));
    if j < t.len() {
        lemma_final_star(p, t, j + 1);
    }
}

/// A run of pattern characters without wildcards, from `i` to `m`, matches the
/// same characters of the target at `j`, and then the rest must match.
proof fn lemma_literal_run(p: Seq<char>, t: Seq<char>, i: int, j: int, m: int)
    requires
        0 <= i <= m <= p.len(),
        0 <= j <= t.len(),
        forall|k: int| i <= k < m ==> !is_wildcard(#[trigger] p[k]),
    ensures
        glob_at(p, t, i, j) == {
            &&& j + (m - i) <= t.len()
            &&& t.subrange(j, j + (m - i)) == p.subrange(i, m)
            &&& glob_at(p, t, m, j + (m - i))
        },
    decreases m - i,
{
    if i < m {
        assert(!is_wildcard(p[i]));
        if j < t.len() {
            lemma_literal_run(p, t, i + 1, j + 1, m);
            if j + (m - i) <= t.len() {
                let a = t.subrange(j, j + (m - i));
                let b = p.subrange(i, m);
                assert(a[0] == t[j] && b[0] == p[i]);
                assert(t.subrange(j + 1, j + (m - i)) =~= a.drop_first());
                assert(p.subrange(i + 1, m) =~= b.drop_first());
                if a == b {
                    assert(a.drop_first() == b.drop_first());
                }
                if t[j] == p[i] && a.drop_first() == b.drop_first() {
                    assert forall|x: int| 0 <= x < a.len() implies a[x] == b[x] by {
                        if x > 0 {
                            assert(a[x] == a.drop_first()[x - 1]);
                            assert(b[x] == b.drop_first()[x - 1]);
                        }
                    }
                    assert(a =~= b);
                }
            }
        }
    } else {
        assert(t.subrange(j, j) =~= p.subrange(i, m));
    }
}

/// The pattern `*` matches every target.
pub proof fn law_star_matches_everything(target: Seq<char>)
    ensures
        pattern_matches_spec(seq!['*'], target),
{
    lemma_final_star(seq!['*'], target, 0);
}

/// A stem without wildcards followed by `*` matches exactly the targets that
/// start with the stem.
pub proof fn law_prefix_pattern(stem: Seq<char>, target: Seq<char>)
    requires
        forall|k: int| 0 <= k < stem.len() ==> !is_wildcard(#[trigger] stem[k]),
    ensures
        pattern_matches_spec(stem.push('*'), target) == has_prefix(target, stem),
{
    let p = stem.push('*');
    let n = stem.len() as int;
    assert forall|k: int| 0 <= k < n implies !is_wildcard(#[trigger] p[k]) by {
        assert(p[k] == stem[k]);
    }
    lemma_literal_run(p, target, 0, 0, n);
    assert(p.subrange(0, n) =~= stem);
    if n <= target.len() {
        lemma_final_star(p, target, n);
        assert(target.subrange(0, n) =~= target.take(n));
    }
}

/// A pattern without wildcards matches only the identical target.
pub proof fn law_plain_pattern(pattern: Seq<char>, target: Seq<char>)
    requires
        forall|k: int| 0 <= k < pattern.len() ==> !is_wildcard(#[trigger] pattern[k]),
    ensures
        pattern_matches_spec(pattern, target) == (target == pattern),
{
    let n = pattern.len() as int;
    lemma_literal_run(pattern, target, 0, 0, n);
    assert(pattern.subrange(0, n) =~= pattern);
    if n <= target.len() && target.subrange(0, n) == pattern && n == target.len() {
        assert(target.subrange(0, n) =~= target);
    }
}

/// A wildcard anywhere in a pattern: `*` matches any run of characters in
/// place, so `*.rs` matches every target that ends in `.rs`.
pub proof fn law_leading_star_suffix(suffix: Seq<char>, target: Seq<char>)
    requires
        forall|k: int| 0 <= k < suffix.len() ==> !is_wildcard(#[trigger] suffix[k]),
        suffix.len() <= target.len(),
        target.subrange(target.len() - suffix.len(), target.len() as int) == suffix,
    ensures
        pattern_matches_spec(seq!['*'] + suffix, target),
{
    let p = seq!['*'] + suffix;
    let n = suffix.len() as int;
    let start = target.len() - n;
    assert forall|k: int| 1 <= k < p.len() implies !is_wildcard(#[trigger] p[k]) by {
        assert(p[k] == suffix[k - 1]);
    }
    lemma_literal_run(p, target, 1, start, p.len() as int);
    assert(p.subrange(1, p.len() as int) =~= suffix);
    assert(glob_at(p, target, 1, start));
    lemma_star_reaches(p, target, 0, start);
}

/// A `*` at `i` lets the match of the rest start at any later position.
proof fn lemma_star_reaches(p: Seq<char>, t: Seq<char>, j: int, k: int)
    requires
        p.len() > 0,
        p[0] == '*',
        0 <= j <= k <= t.len(),
        glob_at(p, t, 1, k),
    ensures
        glob_at(p, t, 0, j),
    decreases k - j,
{
    if j < k {
        lemma_star_reaches(p, t, j + 1, k);
    }
}

} // verus!
