//! Laws of the admission gate, stated over the model and proved once for
//! all rule tables, inputs and times.

use vstd::math::min;
use vstd::prelude::*;

use crate::model::expired;
use crate::model::first_match;
use crate::model::gate_after;
use crate::model::gate_allow;
use crate::model::gate_index;
use crate::model::lemma_first_match_least;
use crate::model::rule_after;
use crate::model::rule_allow;
use crate::model::rule_charged;
use crate::model::rule_inv;
use crate::model::RuleModel;
use crate::pattern::regex_match;

verus! {

/// The rule's state after a run of matching requests at the given times.
pub open spec fn run_after(r: RuleModel, times: Seq<nat>) -> RuleModel
    decreases times.len(),
{
    if times.len() == 0 {
        r
    } else {
        run_after(rule_after(r, times[0]), times.drop_first())
    }
}

/// How many requests of a run of matching requests at the given times are
/// admitted.
pub open spec fn run_allowed(r: RuleModel, times: Seq<nat>) -> nat
    decreases times.len(),
{
    if times.len() == 0 {
        0
    } else {
        (if rule_allow(r, times[0]) {
            1nat
        } else {
            0nat
        }) + run_allowed(rule_after(r, times[0]), times.drop_first())
    }
}

/// While a rule's window stays open, a run of matching requests is admitted
/// exactly while permits last, and each admission consumes one permit.
pub proof fn lemma_open_window_run(r: RuleModel, times: Seq<nat>)
    requires
        rule_inv(r),
        r.start_at is Some,
        forall|k: int| 0 <= k < times.len() ==> #[trigger] times[k] <= r.start_at->0 + r.window_ms,
    ensures
        run_allowed(r, times) == min(times.len() as int, r.permits as int),
        run_after(r, times) == (RuleModel {
            permits: (r.permits - min(times.len() as int, r.permits as int)) as nat,
            ..r
        }),
    decreases times.len(),
{
    if times.len() == 0 {
        assert(run_after(r, times) =~= (RuleModel { permits: r.permits, ..r }));
    } else {
        let t0 = times[0];
        assert(!expired(r, t0));
        let r1 = rule_after(r, t0);
        let rest = times.drop_first();
        assert forall|k: int| 0 <= k < rest.len() implies #[trigger] rest[k] <= r1.start_at->0
            + r1.window_ms by {
            assert(rest[k] == times[k + 1]);
        }
        lemma_open_window_run(r1, rest);
    }
}

/// For a rule with capacity `N` and a window not yet opened, a run of `n`
/// matching requests arriving within the window length of the first one sees
/// exactly `min(n, N)` admissions; the remainder are rejected, and the
/// window stays open at the first request's time.
pub proof fn lemma_window_budget(r: RuleModel, times: Seq<nat>)
    requires
        rule_inv(r),
        r.start_at is None,
        r.permits == r.limit,
        times.len() >= 1,
        forall|k: int| 0 <= k < times.len() ==> #[trigger] times[k] <= times[0] + r.window_ms,
    ensures
        run_allowed(r, times) == min(times.len() as int, r.limit as int),
        run_after(r, times) == (RuleModel {
            permits: (r.limit - min(times.len() as int, r.limit as int)) as nat,
            start_at: Some(times[0]),
            ..r
        }),
{
    let t0 = times[0];
    let r1 = rule_after(r, t0);
    let rest = times.drop_first();
    assert(r1.start_at == Some(t0));
    assert forall|k: int| 0 <= k < rest.len() implies #[trigger] rest[k] <= r1.start_at->0
        + r1.window_ms by {
        assert(rest[k] == times[k + 1]);
    }
    lemma_open_window_run(r1, rest);
    assert(run_after(r, times) =~= (RuleModel {
        permits: (r.limit - min(times.len() as int, r.limit as int)) as nat,
        start_at: Some(times[0]),
        ..r
    }));
}

/// The table after a run of gate decisions on the same input at the given
/// times.
pub open spec fn gate_run_after(
    rules: Seq<RuleModel>,
    input: Seq<char>,
    times: Seq<nat>,
) -> Seq<RuleModel>
    decreases times.len(),
{
    if times.len() == 0 {
        rules
    } else {
        gate_run_after(gate_after(rules, input, times[0]), input, times.drop_first())
    }
}

/// How many of a run of gate decisions on the same input at the given times
/// admit the request.
pub open spec fn gate_run_allowed(rules: Seq<RuleModel>, input: Seq<char>, times: Seq<nat>) -> nat
    decreases times.len(),
{
    if times.len() == 0 {
        0
    } else {
        (if gate_allow(rules, input, times[0]) {
            1nat
        } else {
            0nat
        }) + gate_run_allowed(gate_after(rules, input, times[0]), input, times.drop_first())
    }
}

/// A run of gate decisions on one input is exactly a run of the first
/// matching rule, alone: that rule's state follows its own run, every other
/// rule is untouched, and the scan admits exactly as the rule does.
pub proof fn lemma_gate_run(rules: Seq<RuleModel>, input: Seq<char>, times: Seq<nat>)
    requires
        first_match(rules, input) matches Some(i),
    ensures
        gate_run_after(rules, input, times) == rules.update(
            first_match(rules, input)->0,
            run_after(rules[first_match(rules, input)->0], times),
        ),
        gate_run_allowed(rules, input, times) == run_allowed(
            rules[first_match(rules, input)->0],
            times,
        ),
    decreases times.len(),
{
    let i = first_match(rules, input)->0;
    lemma_first_match_least(rules, input);
    if times.len() == 0 {
        assert(rules.update(i, rules[i]) =~= rules);
    } else {
        let t0 = times[0];
        let rest = times.drop_first();
        let rules1 = gate_after(rules, input, t0);
        assert(rules1 == rules.update(i, rule_after(rules[i], t0)));
        assert forall|j: int| 0 <= j < i implies !regex_match(
            #[trigger] rules1[j].pattern,
            input,
        ) by {
            assert(rules1[j] == rules[j]);
        }
        crate::model::lemma_first_match_at(rules1, input, i);
        lemma_gate_run(rules1, input, rest);
        assert(rules1.update(i, run_after(rules1[i], rest)) =~= rules.update(
            i,
            run_after(rules[i], times),
        ));
    }
}

/// Unmatched input is always admitted, is charged to no rule, and consumes
/// no rule's budget.
pub proof fn lemma_unmatched_admitted(rules: Seq<RuleModel>, input: Seq<char>, now: nat)
    requires
        first_match(rules, input) is None,
    ensures
        gate_allow(rules, input, now),
        gate_index(rules, input, now) is None,
        gate_after(rules, input, now) == rules,
{
}

/// First rule to match wins: an admission decision touches the budget of the
/// earliest-declared matching rule alone; every other rule, matching or not,
/// is left exactly as it was.
pub proof fn lemma_first_match_wins(rules: Seq<RuleModel>, input: Seq<char>, now: nat)
    requires
        first_match(rules, input) matches Some(i),
    ensures
        gate_after(rules, input, now).len() == rules.len(),
        forall|j: int|
            0 <= j < rules.len() && j != first_match(rules, input)->0 ==> #[trigger] gate_after(
                rules,
                input,
                now,
            )[j] == rules[j],
        regex_match(rules[first_match(rules, input)->0].pattern, input),
        forall|j: int|
            0 <= j < first_match(rules, input)->0 ==> !regex_match(
                #[trigger] rules[j].pattern,
                input,
            ),
{
    lemma_first_match_least(rules, input);
}

/// A rule of capacity zero rejects every matching request while its window
/// has not been observed expired.
pub proof fn lemma_capacity_zero_rejects(r: RuleModel, now: nat)
    requires
        rule_inv(r),
        r.limit == 0,
        !expired(r, now),
    ensures
        !rule_allow(r, now),
{
}

/// The request that observes a rule's window expired is admitted for free:
/// charged to no rule, with the budget reset to full capacity. The next
/// matching request, at any time, opens a fresh window and is charged
/// against the full budget.
pub proof fn lemma_expiry_free_pass(r: RuleModel, now: nat, later: nat)
    requires
        rule_inv(r),
        expired(r, now),
    ensures
        rule_allow(r, now),
        !rule_charged(r, now),
        rule_after(r, now) == (RuleModel { start_at: None, permits: r.limit, ..r }),
        rule_charged(rule_after(r, now), later),
        r.limit > 0 ==> rule_allow(rule_after(r, now), later),
        rule_after(rule_after(r, now), later) == (RuleModel {
            start_at: Some(later),
            permits: if r.limit > 0 {
                (r.limit - 1) as nat
            } else {
                0
            },
            ..r
        }),
{
    assert(rule_after(r, now) =~= (RuleModel { start_at: None, permits: r.limit, ..r }));
    assert(rule_after(rule_after(r, now), later) =~= (RuleModel {
        start_at: Some(later),
        permits: if r.limit > 0 {
            (r.limit - 1) as nat
        } else {
            0
        },
        ..r
    }));
}

} // verus!
