//! The rule table, the admission gate, and the service wrapper around a
//! downstream handler.

use vstd::prelude::*;

use crate::clock;
use crate::config::ConfigError;
use crate::config::LimitConfig;
use crate::model::all_patterns_ok;
use crate::model::fresh_rule;
use crate::model::fresh_table;
use crate::model::gate_after;
use crate::model::gate_allow;
use crate::model::gate_index;
use crate::model::gate_step;
use crate::model::index_agrees;
use crate::model::lemma_first_match_at;
use crate::model::lemma_first_match_none;
use crate::model::rule_after;
use crate::model::rule_allow;
use crate::model::rule_charged;
use crate::model::rule_inv;
use crate::model::rule_released;
use crate::model::RuleModel;
use crate::pattern;

verus! {

/// Runtime state of one rule: the compiled matcher, the configured capacity,
/// the permits still available, the window length in milliseconds, and the
/// time the current window opened.
pub struct LimitInstance {
    pub regex: regex::Regex,
    pub limit_size: usize,
    pub permits: usize,
    pub duration: u64,
    pub start_at: Option<u64>,
}

impl View for LimitInstance {
    type V = RuleModel;

    open spec fn view(&self) -> RuleModel {
        RuleModel {
            pattern: pattern::regex_source(self.regex),
            limit: self.limit_size as nat,
            permits: self.permits as nat,
            window_ms: self.duration as nat,
            start_at: match self.start_at {
                Some(t) => Some(t as nat),
                None => None,
            },
        }
    }
}

impl LimitInstance {
    /// One matching request touches this rule at time `now`: the rule moves
    /// as the model's `rule_after` says; the first result says whether the
    /// decision is charged to the rule, the second whether it admits.
    fn step(&mut self, now: u64) -> (r: (bool, bool))
        ensures
            final(self)@ == rule_after(old(self)@, now as nat),
            r.0 == rule_charged(old(self)@, now as nat),
            r.1 == rule_allow(old(self)@, now as nat),
    {
        match self.start_at {
            None => {
                self.start_at = Some(now);
                if self.permits > 0 {
                    self.permits = self.permits - 1;
                    (true, true)
                } else {
                    (true, false)
                }
            },
            Some(t) => {
                if now >= t && now - t > self.duration {
                    self.start_at = None;
                    self.permits = self.limit_size;
                    (false, true)
                } else {
                    if self.permits > 0 {
                        self.permits = self.permits - 1;
                        (true, true)
                    } else {
                        (true, false)
                    }
                }
            },
        }
    }
}

/// Declares an ordered rule configuration from which limit services are
/// built. An absent configuration makes a pass-through service.
pub struct LimitLayer {
    pub config: Option<Vec<LimitConfig>>,
}

impl LimitLayer {
    /// A layer holding the given rules, in declaration order.
    pub fn new(config: Vec<LimitConfig>) -> (r: LimitLayer)
        ensures
            r.config == Some(config),
    {
        LimitLayer { config: Some(config) }
    }

    /// A layer holding the given rules, or none at all.
    pub fn with_opt(config: Option<Vec<LimitConfig>>) -> (r: LimitLayer)
        ensures
            r.config == config,
    {
        LimitLayer { config }
    }

    /// Compiles each rule of the configuration into its starting state.
    /// Construction aborts on the first pattern that does not compile.
    fn create_instances(&self) -> (r: Result<Option<Vec<LimitInstance>>, ConfigError>)
        ensures
            r is Ok <==> (self.config is None || all_patterns_ok((self.config->0)@)),
            r is Err ==> r->Err_0 == ConfigError::InvalidPattern,
            self.config is None ==> r is Ok && r->Ok_0 is None,
            r is Ok && self.config is Some ==> {
                &&& r->Ok_0 is Some
                &&& views_of((r->Ok_0->0)@) == fresh_table((self.config->0)@)
            },
    {
        match &self.config {
            None => Ok(None),
            Some(config) => {
                let n = config.len();
                let mut instances: Vec<LimitInstance> = Vec::new();
                let mut k: usize = 0;
                while k < n
                    invariant
                        self.config == Some(*config),
                        n == config@.len(),
                        k <= n,
                        instances@.len() == k,
                        forall|j: int| 0 <= j < k ==> pattern::pattern_ok(
                            #[trigger] config@[j].regex@,
                        ),
                        forall|j: int| 0 <= j < k ==> #[trigger] instances@[j]@ == fresh_rule(
                            config@[j],
                        ),
                    decreases n - k,
                {
                    let c = &config[k];
                    match pattern::compile(c.regex.as_str()) {
                        Err(_) => {
                            return Err(ConfigError::InvalidPattern);
                        },
                        Ok(re) => {
                            instances.push(
                                LimitInstance {
                                    regex: re,
                                    limit_size: c.limit,
                                    permits: c.limit,
                                    duration: c.duration,
                                    start_at: None,
                                },
                            );
                        },
                    }
                    k = k + 1;
                }
                proof {
                    assert(views_of(instances@) =~= fresh_table(config@));
                }
                Ok(Some(instances))
            },
        }
    }
}

impl LimitLayer {
    /// Wraps `inner` with this layer's admission gate. Fails, and builds no
    /// table, exactly when some rule's pattern does not compile.
    pub fn layer<S>(&self, inner: S) -> (r: Result<Limit<S>, ConfigError>)
        ensures
            r is Ok <==> (self.config is None || all_patterns_ok((self.config->0)@)),
            r is Err ==> r->Err_0 == ConfigError::InvalidPattern,
            r is Ok ==> {
                &&& (r->Ok_0).inner == inner
                &&& (r->Ok_0).wf()
                &&& (r->Ok_0).rules() == layer_rules(self.config)
            },
    {
        match self.create_instances() {
            Err(e) => Err(e),
            Ok(instances) => {
                let limit = Limit { inner, instances };
                proof {
                    assert(limit.rules() =~= layer_rules(self.config));
                }
                Ok(limit)
            },
        }
    }
}

/// The table a layer builds from its configuration: the starting state of
/// each rule, or the empty table when the configuration is absent.
pub open spec fn layer_rules(config: Option<Vec<LimitConfig>>) -> Seq<RuleModel> {
    match config {
        None => Seq::<RuleModel>::empty(),
        Some(cfg) => fresh_table(cfg@),
    }
}

/// The admission-gated service: scans the shared rule table before each
/// request and hands admitted requests on to the wrapped downstream handler.
pub struct Limit<S> {
    pub inner: S,
    pub instances: Option<Vec<LimitInstance>>,
}

impl<S> Limit<S> {
    /// The model of the rule table; an absent table behaves as an empty one.
    pub open spec fn rules(&self) -> Seq<RuleModel> {
        match self.instances {
            None => Seq::<RuleModel>::empty(),
            Some(v) => views_of(v@),
        }
    }

    /// Well-formedness: every rule's permits stay within its capacity.
    pub open spec fn wf(&self) -> bool {
        table_inv(self.rules())
    }

    /// Number of rules in the table.
    pub fn rule_count(&self) -> (n: usize)
        ensures
            n == self.rules().len(),
    {
        match &self.instances {
            None => 0,
            Some(v) => v.len(),
        }
    }

    /// The admission gate at an explicit clock reading `now` (milliseconds):
    /// scans the rules in declaration order and decides on the first whose
    /// pattern matches `input`, as the model's `gate_step` says. Unmatched
    /// input is admitted with no rule charged.
    pub fn is_allow_at(&mut self, input: &str, now: u64) -> (r: (Option<usize>, bool))
        requires
            old(self).wf(),
        ensures
            final(self).wf(),
            final(self).inner == old(self).inner,
            gate_step(old(self).rules(), final(self).rules(), input@, now as nat, r.0, r.1),
    {
        match &mut self.instances {
            None => (None, true),
            Some(instances) => scan_table(instances, input, now),
        }
    }

    /// The admission gate at the present moment: what `is_allow_at` decides
    /// at some clock reading.
    pub fn is_allow(&mut self, input: &str) -> (r: (Option<usize>, bool))
        requires
            old(self).wf(),
        ensures
            final(self).wf(),
            final(self).inner == old(self).inner,
            exists|now: nat|
                #[trigger] gate_step(
                    old(self).rules(),
                    final(self).rules(),
                    input@,
                    now,
                    r.0,
                    r.1,
                ),
    {
        let now = clock::now_ms();
        let r = self.is_allow_at(input, now);
        proof {
            assert(gate_step(old(self).rules(), self.rules(), input@, now as nat, r.0, r.1));
        }
        r
    }

    /// Returns one permit to rule `idx`, never past its configured capacity.
    pub fn add_permits(&mut self, idx: usize)
        requires
            old(self).wf(),
            idx < old(self).rules().len(),
        ensures
            final(self).wf(),
            final(self).inner == old(self).inner,
            final(self).rules() == old(self).rules().update(
                idx as int,
                rule_released(old(self).rules()[idx as int]),
            ),
    {
        match &mut self.instances {
            Some(instances) => {
                let inst = &mut instances[idx];
                if inst.permits < inst.limit_size {
                    inst.permits = inst.permits + 1;
                }
                proof {
                    assert(self.rules() =~= old(self).rules().update(
                        idx as int,
                        rule_released(old(self).rules()[idx as int]),
                    ));
                }
            },
            None => {
                proof {
                    assert(false);
                }
            },
        }
    }
}

/// A downstream handler in the request pipeline. Implementors live outside
/// this library; nothing is assumed of what they return or of how a call
/// changes them.
pub trait Service {
    type Output;

    type Error;

    fn handle(&mut self, input: &str) -> Result<Self::Output, Self::Error>;
}

/// Failure of an admission-gated request.
#[derive(Debug, PartialEq, Eq)]
pub enum LimitError<E> {
    /// The admission gate denied the request; the downstream handler was
    /// never invoked.
    LimitRejected,
    /// The downstream handler itself failed; its error is passed through.
    Downstream(E),
}

/// One whole gated request at some time `now`: the table moves as one
/// admission decision says; denial, and nothing else, is reported as
/// `LimitRejected` and leaves the downstream handler untouched; an admitted
/// request carries the charged rule's index in its result.
pub open spec fn handle_step<S: Service>(
    before: Limit<S>,
    after: Limit<S>,
    input: Seq<char>,
    now: nat,
    r: Result<(Option<usize>, S::Output), LimitError<S::Error>>,
) -> bool {
    &&& after.rules() == gate_after(before.rules(), input, now)
    &&& ((r matches Err(LimitError::LimitRejected)) <==> !gate_allow(before.rules(), input, now))
    &&& (!gate_allow(before.rules(), input, now) ==> after.inner == before.inner)
    &&& (r matches Ok(p) ==> index_agrees(p.0, gate_index(before.rules(), input, now)))
}

impl<S: Service> Limit<S> {
    /// Decides admission for `input` at the present moment, then either
    /// short-circuits with `LimitRejected` or hands the request to the
    /// downstream handler.
    pub fn handle(&mut self, input: &str) -> (r: Result<
        (Option<usize>, S::Output),
        LimitError<S::Error>,
    >)
        requires
            old(self).wf(),
        ensures
            final(self).wf(),
            exists|now: nat| #[trigger] handle_step(*old(self), *final(self), input@, now, r),
    {
        let (idx, allowed) = self.is_allow(input);
        let ghost now = choose|n: nat|
            gate_step(old(self).rules(), self.rules(), input@, n, idx, allowed);
        if allowed {
            let ghost mid = *self;
            let r: Result<(Option<usize>, S::Output), LimitError<S::Error>> = match self
                .inner
                .handle(input) {
                Ok(out) => Ok((idx, out)),
                Err(e) => Err(LimitError::Downstream(e)),
            };
            proof {
                assert(self.rules() == mid.rules());
                assert(handle_step(*old(self), *self, input@, now, r));
            }
            r
        } else {
            let r: Result<(Option<usize>, S::Output), LimitError<S::Error>> = Err(
                LimitError::LimitRejected,
            );
            proof {
                assert(handle_step(*old(self), *self, input@, now, r));
            }
            r
        }
    }
}

/// Scans the rules in declaration order; the first whose pattern matches
/// `input` decides and is stepped, exactly as the model's `gate_step` says.
fn scan_table(instances: &mut Vec<LimitInstance>, input: &str, now: u64) -> (r: (
    Option<usize>,
    bool,
))
    requires
        table_inv(views_of(old(instances)@)),
    ensures
        table_inv(views_of(final(instances)@)),
        gate_step(
            views_of(old(instances)@),
            views_of(final(instances)@),
            input@,
            now as nat,
            r.0,
            r.1,
        ),
{
    let n = instances.len();
    let mut i: usize = 0;
    while i < n
        invariant
            table_inv(views_of(instances@)),
            n == instances@.len(),
            i <= n,
            instances@ == old(instances)@,
            forall|j: int| 0 <= j < i ==> !crate::pattern::regex_match(
                #[trigger] views_of(instances@)[j].pattern,
                input@,
            ),
        decreases n - i,
    {
        if pattern::is_match(&instances[i].regex, input) {
            proof {
                lemma_first_match_at(views_of(instances@), input@, i as int);
            }
            let inst = &mut instances[i];
            let (charged, allow) = inst.step(now);
            let idx = if charged {
                Some(i)
            } else {
                None
            };
            proof {
                let rules0 = views_of(old(instances)@);
                assert(views_of(instances@) =~= rules0.update(
                    i as int,
                    rule_after(rules0[i as int], now as nat),
                ));
                assert(table_inv(views_of(instances@)));
            }
            return (idx, allow);
        }
        i = i + 1;
    }
    proof {
        lemma_first_match_none(views_of(instances@), input@);
    }
    (None, true)
}

/// The models of a sequence of rule instances, in order.
pub open spec fn views_of(s: Seq<LimitInstance>) -> Seq<RuleModel> {
    s.map_values(|x: LimitInstance| x@)
}

/// Every instance of the sequence satisfies the rule invariant.
pub open spec fn table_inv(rules: Seq<RuleModel>) -> bool {
    forall|i: int| 0 <= i < rules.len() ==> rule_inv(#[trigger] rules[i])
}

} // verus!
