use ratelimit::gate::Limit;
use ratelimit::gate::LimitError;
use ratelimit::gate::Service;
use ratelimit::ConfigError;
use ratelimit::LimitConfig;
use ratelimit::LimitLayer;

struct Echo;

impl Service for Echo {
    type Output = String;
    type Error = String;

    fn handle(&mut self, input: &str) -> Result<String, String> {
        Ok(input.to_string())
    }
}

struct Failing;

impl Service for Failing {
    type Output = String;
    type Error = String;

    fn handle(&mut self, input: &str) -> Result<String, String> {
        Err(format!("downstream failed on {}", input))
    }
}

fn gated(rules: Vec<LimitConfig>) -> Limit<Echo> {
    LimitLayer::new(rules).layer(Echo).unwrap()
}

fn rule(pattern: &str, limit: usize, duration_ms: u64) -> LimitConfig {
    LimitConfig { regex: String::from(pattern), limit, duration: duration_ms }
}

#[test]
fn test_limit() {
    let config = vec![rule(r"[A-Za-z]+$", 3, 50_000)];
    let mut svc = gated(config);

    let mut count = 0;
    for _ in 0..5 {
        match svc.handle("abc") {
            Ok((idx, out)) => {
                assert_eq!(idx, Some(0));
                assert_eq!(out, "abc");
                count += 1;
            }
            Err(e) => assert_eq!(e, LimitError::LimitRejected),
        }
    }
    assert_eq!(count, 3);
}

#[test]
fn unmatched_admitted_and_uncharged() {
    let mut svc = gated(vec![rule("^GET", 1, 60_000)]);

    for _ in 0..10 {
        let (idx, out) = svc.handle("POST /data").unwrap();
        assert_eq!(idx, None);
        assert_eq!(out, "POST /data");
    }
    // the rule's budget was untouched by the unmatched traffic
    let (idx, _) = svc.handle("GET /data").unwrap();
    assert_eq!(idx, Some(0));
    assert_eq!(svc.handle("GET /data"), Err(LimitError::LimitRejected));
}

#[test]
fn first_match_wins() {
    let mut svc = gated(vec![rule("^a", 1, 60_000), rule("a", 5, 60_000)]);

    // "abc" matches both rules; only the first is charged.
    let (idx, _) = svc.handle("abc").unwrap();
    assert_eq!(idx, Some(0));
    // the first rule is exhausted; the scan still stops at it
    assert_eq!(svc.handle("abc"), Err(LimitError::LimitRejected));
    // the second rule's budget is whole: input matching only it is admitted
    let (idx, _) = svc.handle("za").unwrap();
    assert_eq!(idx, Some(1));
}

#[test]
fn capacity_zero_rejects() {
    let mut svc = gated(vec![rule(".*", 0, 60_000)]);

    for t in [0_u64, 1, 10, 100] {
        let (idx, allow) = svc.is_allow_at("anything", t);
        assert_eq!(idx, Some(0));
        assert!(!allow);
    }
}

#[test]
fn window_expiry_free_pass() {
    let mut svc = gated(vec![rule("^GET", 1, 1_000)]);

    // request A opens the window and takes the one permit
    assert_eq!(svc.is_allow_at("GET /a", 0), (Some(0), true));
    // request B inside the window finds no permit left
    assert_eq!(svc.is_allow_at("GET /b", 500), (Some(0), false));
    // request C observes the expired window: admitted for free, uncharged
    assert_eq!(svc.is_allow_at("GET /c", 1_200), (None, true));
    // request D is charged against the freshly reset budget
    assert_eq!(svc.is_allow_at("GET /d", 1_300), (Some(0), true));
    // the reset budget of one is now spent again
    assert_eq!(svc.is_allow_at("GET /e", 1_400), (Some(0), false));
}

#[test]
fn release_returns_one_permit() {
    let mut svc = gated(vec![rule("^GET", 2, 60_000)]);

    assert_eq!(svc.is_allow_at("GET /", 0), (Some(0), true));
    assert_eq!(svc.is_allow_at("GET /", 1), (Some(0), true));
    assert_eq!(svc.is_allow_at("GET /", 2), (Some(0), false));
    svc.add_permits(0);
    assert_eq!(svc.is_allow_at("GET /", 3), (Some(0), true));
    assert_eq!(svc.is_allow_at("GET /", 4), (Some(0), false));
}

#[test]
fn release_never_exceeds_capacity() {
    let mut svc = gated(vec![rule("^GET", 1, 60_000)]);

    // releasing a full rule leaves its budget at the configured capacity
    svc.add_permits(0);
    svc.add_permits(0);
    assert_eq!(svc.is_allow_at("GET /", 0), (Some(0), true));
    assert_eq!(svc.is_allow_at("GET /", 1), (Some(0), false));
}

#[test]
fn absent_config_is_pass_through() {
    let layer = LimitLayer::with_opt(None);
    let mut svc = layer.layer(Echo).unwrap();

    for _ in 0..20 {
        let (idx, out) = svc.handle("GET /data").unwrap();
        assert_eq!(idx, None);
        assert_eq!(out, "GET /data");
    }
}

#[test]
fn empty_config_is_pass_through() {
    let mut svc = gated(vec![]);

    for _ in 0..20 {
        let (idx, _) = svc.handle("anything at all").unwrap();
        assert_eq!(idx, None);
    }
}

#[test]
fn invalid_pattern_aborts_construction() {
    let layer = LimitLayer::new(vec![rule("^GET", 1, 60_000), rule("(unclosed", 1, 60_000)]);
    let r = layer.layer(Echo);
    assert!(matches!(r, Err(ConfigError::InvalidPattern)));
}

#[test]
fn downstream_error_passes_through() {
    let layer = LimitLayer::new(vec![rule("^GET", 1, 60_000)]);
    let mut svc = layer.layer(Failing).unwrap();

    match svc.handle("GET /x") {
        Err(LimitError::Downstream(e)) => assert_eq!(e, "downstream failed on GET /x"),
        other => panic!("expected a downstream error, got {:?}", other),
    }
    // the admission above still consumed the permit
    assert_eq!(svc.handle("GET /y"), Err(LimitError::LimitRejected));
}

#[test]
fn matcher_distinguishes_inputs() {
    let mut svc = gated(vec![rule("[0-9]+", 5, 60_000)]);

    let (idx, _) = svc.handle("abc").unwrap();
    assert_eq!(idx, None);
    let (idx, _) = svc.handle("a1b").unwrap();
    assert_eq!(idx, Some(0));
}

#[test]
fn rule_count_reports_table_size() {
    let svc = gated(vec![rule("^a", 1, 1_000), rule("^b", 2, 2_000)]);
    assert_eq!(svc.rule_count(), 2);

    let empty = LimitLayer::with_opt(None).layer(Echo).unwrap();
    assert_eq!(empty.rule_count(), 0);
}
