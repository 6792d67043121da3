//! The mathematical model of the rule table and of one admission decision.
//!
//! A rule is a pattern with a permit budget inside a fixed window: the window
//! opens on the first matching request, admission consumes one permit while
//! the window is open, and the first request to observe the window expired is
//! admitted for free while the rule resets. The admission gate scans the
//! table in declaration order and charges only the first matching rule.

use vstd::prelude::*;

use crate::config::LimitConfig;
use crate::pattern::pattern_ok;
use crate::pattern::regex_match;

verus! {

/// State of one rule: its pattern, its configured capacity `limit`, the
/// permits still available, the window length in milliseconds, and the time
/// the current window opened (`None` while no window is open).
#[verifier::ext_equal]
pub ghost struct RuleModel {
    pub pattern: Seq<char>,
    pub limit: nat,
    pub permits: nat,
    pub window_ms: nat,
    pub start_at: Option<nat>,
}

/// Invariant of one rule: the available permits never exceed the capacity.
pub open spec fn rule_inv(r: RuleModel) -> bool {
    r.permits <= r.limit
}

/// Milliseconds since `start`, saturating at zero for a clock reading that
/// lies before `start`.
pub open spec fn elapsed(start: nat, now: nat) -> nat {
    if now >= start {
        (now - start) as nat
    } else {
        0
    }
}

/// Whether the rule's window is open and has run out at time `now`.
pub open spec fn expired(r: RuleModel, now: nat) -> bool {
    r.start_at is Some && elapsed(r.start_at->0, now) > r.window_ms
}

/// Whether a request matching this rule at time `now` is admitted.
pub open spec fn rule_allow(r: RuleModel, now: nat) -> bool {
    if expired(r, now) {
        true
    } else {
        r.permits > 0
    }
}

/// Whether the decision is charged to the rule, so that the caller is handed
/// the rule's index. The one uncharged admission is the free pass of the
/// request that observes the window expired.
pub open spec fn rule_charged(r: RuleModel, now: nat) -> bool {
    !expired(r, now)
}

/// The rule's state after a matching request at time `now`: an expired rule
/// resets (window closed, budget back to full capacity); otherwise the window
/// opens if it was closed and one permit is consumed if any is left.
pub open spec fn rule_after(r: RuleModel, now: nat) -> RuleModel {
    if expired(r, now) {
        RuleModel { start_at: None, permits: r.limit, ..r }
    } else {
        RuleModel {
            start_at: if r.start_at is None {
                Some(now)
            } else {
                r.start_at
            },
            permits: if r.permits > 0 {
                (r.permits - 1) as nat
            } else {
                0
            },
            ..r
        }
    }
}

/// The rule's state after a release: one permit returned, never past the
/// configured capacity.
pub open spec fn rule_released(r: RuleModel) -> RuleModel {
    RuleModel {
        permits: if r.permits < r.limit {
            r.permits + 1
        } else {
            r.limit
        },
        ..r
    }
}

/// The state a rule starts from for configuration `c`: full budget, window
/// not yet opened.
pub open spec fn fresh_rule(c: LimitConfig) -> RuleModel {
    RuleModel {
        pattern: c.regex@,
        limit: c.limit as nat,
        permits: c.limit as nat,
        window_ms: c.duration as nat,
        start_at: None,
    }
}

/// The table a rule configuration starts from, in declaration order.
pub open spec fn fresh_table(cfg: Seq<LimitConfig>) -> Seq<RuleModel> {
    cfg.map_values(|c: LimitConfig| fresh_rule(c))
}

/// Whether every pattern of the configuration compiles.
pub open spec fn all_patterns_ok(cfg: Seq<LimitConfig>) -> bool {
    forall|i: int| 0 <= i < cfg.len() ==> pattern_ok(#[trigger] cfg[i].regex@)
}

/// Index of the first rule at or after `i` whose pattern matches `input`.
pub open spec fn first_match_from(rules: Seq<RuleModel>, input: Seq<char>, i: int) -> Option<int>
    decreases rules.len() - i,
{
    if i < 0 || i >= rules.len() {
        None
    } else if regex_match(rules[i].pattern, input) {
        Some(i)
    } else {
        first_match_from(rules, input, i + 1)
    }
}

/// Index of the earliest-declared rule whose pattern matches `input`.
pub open spec fn first_match(rules: Seq<RuleModel>, input: Seq<char>) -> Option<int> {
    first_match_from(rules, input, 0)
}

/// Index reported for `input` at time `now`: the first matching
/// rule's index when the decision is charged to it, absent for unmatched
/// input and for the free pass on expiry.
pub open spec fn gate_index(rules: Seq<RuleModel>, input: Seq<char>, now: nat) -> Option<int> {
    match first_match(rules, input) {
        None => None,
        Some(i) => if rule_charged(rules[i], now) {
            Some(i)
        } else {
            None
        },
    }
}

/// Whether `input` is admitted at time `now`. Unmatched input is always
/// admitted.
pub open spec fn gate_allow(rules: Seq<RuleModel>, input: Seq<char>, now: nat) -> bool {
    match first_match(rules, input) {
        None => true,
        Some(i) => rule_allow(rules[i], now),
    }
}

/// The table after the decision on `input` at time `now`: only the
/// first matching rule changes.
pub open spec fn gate_after(rules: Seq<RuleModel>, input: Seq<char>, now: nat) -> Seq<RuleModel> {
    match first_match(rules, input) {
        None => rules,
        Some(i) => rules.update(i, rule_after(rules[i], now)),
    }
}

/// Correspondence between the index handed back and the index of the
/// model's decision.
pub open spec fn index_agrees(idx: Option<usize>, model_idx: Option<int>) -> bool {
    match idx {
        None => model_idx is None,
        Some(i) => model_idx == Some(i as int),
    }
}

/// One whole observable admission step at some time `now`: the table moves as
/// the model says, and the reported index and decision are the model's.
pub open spec fn gate_step(
    before: Seq<RuleModel>,
    after: Seq<RuleModel>,
    input: Seq<char>,
    now: nat,
    idx: Option<usize>,
    allow: bool,
) -> bool {
    &&& after == gate_after(before, input, now)
    &&& allow == gate_allow(before, input, now)
    &&& index_agrees(idx, gate_index(before, input, now))
}

proof fn lemma_first_match_from_at(rules: Seq<RuleModel>, input: Seq<char>, k: int, i: int)
    requires
        0 <= k <= i < rules.len(),
        regex_match(rules[i].pattern, input),
        forall|j: int| k <= j < i ==> !regex_match(#[trigger] rules[j].pattern, input),
    ensures
        first_match_from(rules, input, k) == Some(i),
    decreases i - k,
{
    if k < i {
        lemma_first_match_from_at(rules, input, k + 1, i);
    }
}

/// A rule that matches, with no earlier rule matching, is the first match.
pub proof fn lemma_first_match_at(rules: Seq<RuleModel>, input: Seq<char>, i: int)
    requires
        0 <= i < rules.len(),
        regex_match(rules[i].pattern, input),
        forall|j: int| 0 <= j < i ==> !regex_match(#[trigger] rules[j].pattern, input),
    ensures
        first_match(rules, input) == Some(i),
{
    lemma_first_match_from_at(rules, input, 0, i);
}

proof fn lemma_first_match_from_none(rules: Seq<RuleModel>, input: Seq<char>, k: int)
    requires
        forall|j: int| k <= j < rules.len() ==> !regex_match(#[trigger] rules[j].pattern, input),
    ensures
        first_match_from(rules, input, k) is None,
    decreases rules.len() - k,
{
    if 0 <= k < rules.len() {
        lemma_first_match_from_none(rules, input, k + 1);
    }
}

/// When no rule's pattern matches, there is no first match.
pub proof fn lemma_first_match_none(rules: Seq<RuleModel>, input: Seq<char>)
    requires
        forall|j: int| 0 <= j < rules.len() ==> !regex_match(#[trigger] rules[j].pattern, input),
    ensures
        first_match(rules, input) is None,
{
    lemma_first_match_from_none(rules, input, 0);
}

/// Conversely, a first match of `Some(i)` means rule `i` matches and no rule
/// before it does.
pub proof fn lemma_first_match_least(rules: Seq<RuleModel>, input: Seq<char>)
    ensures
        first_match(rules, input) matches Some(i) ==> {
            &&& 0 <= i < rules.len()
            &&& regex_match(rules[i].pattern, input)
            &&& forall|j: int| 0 <= j < i ==> !regex_match(#[trigger] rules[j].pattern, input)
        },
        first_match(rules, input) is None ==> forall|j: int|
            0 <= j < rules.len() ==> !regex_match(#[trigger] rules[j].pattern, input),
{
    lemma_first_match_from_least(rules, input, 0);
}

proof fn lemma_first_match_from_least(rules: Seq<RuleModel>, input: Seq<char>, k: int)
    requires
        0 <= k,
    ensures
        first_match_from(rules, input, k) matches Some(i) ==> {
            &&& k <= i < rules.len()
            &&& regex_match(rules[i].pattern, input)
            &&& forall|j: int| k <= j < i ==> !regex_match(#[trigger] rules[j].pattern, input)
        },
        first_match_from(rules, input, k) is None ==> forall|j: int|
            k <= j < rules.len() ==> !regex_match(#[trigger] rules[j].pattern, input),
    decreases rules.len() - k,
{
    if k < rules.len() && !regex_match(rules[k].pattern, input) {
        lemma_first_match_from_least(rules, input, k + 1);
    }
}

} // verus!
