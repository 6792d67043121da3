//! Rule configuration and the errors this library reports.

use vstd::prelude::*;

verus! {

/// One rate-limiting rule: requests whose text matches `regex` share a budget
/// of `limit` permits inside a window of `duration` milliseconds.
pub struct LimitConfig {
    /// Pattern, in regular-expression syntax, deciding which requests the
    /// rule applies to.
    pub regex: String,
    /// Number of permits available inside one window.
    pub limit: usize,
    /// Length of the window, in milliseconds.
    pub duration: u64,
}

/// Failure while building the rule table from its configuration.
#[derive(Debug, PartialEq, Eq, Clone, Copy)]
pub enum ConfigError {
    /// Some rule's pattern does not compile as a regular expression.
    InvalidPattern,
}

} // verus!
