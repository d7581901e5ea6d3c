//! Caps applied to the Xtream catalog in test mode.

use vstd::prelude::*;

use crate::env::{env_lookup, env_truthy, env_usize_positive, positive_usize_or, truthy, EnvVars};

verus! {

/// Caps applied after each Xtream API response (truncation only; the HTTP
/// body is still fetched once).
#[derive(Clone, Copy, Debug)]
pub struct MirageLimits {
    pub test_mode: bool,
    pub max_categories: usize,
    pub max_vod_per_category: usize,
    pub max_series_per_category: usize,
    pub max_episodes_per_series: usize,
}

/// The limits that the environment `vars` configures.
pub open spec fn spec_limits(vars: Seq<(String, String)>) -> MirageLimits {
    MirageLimits {
        test_mode: truthy(env_lookup(vars, "MIRAGE_TEST_MODE"@)),
        max_categories: positive_usize_or(env_lookup(vars, "MIRAGE_TEST_MAX_CATEGORIES"@), 1),
        max_vod_per_category: positive_usize_or(env_lookup(vars, "MIRAGE_TEST_MAX_VOD"@), 10),
        max_series_per_category: positive_usize_or(env_lookup(vars, "MIRAGE_TEST_MAX_SERIES"@), 10),
        max_episodes_per_series: positive_usize_or(
            env_lookup(vars, "MIRAGE_TEST_MAX_EPISODES"@),
            10,
        ),
    }
}

/// `s` cut to its first `max` items when `on`.
pub open spec fn cap<T>(s: Seq<T>, on: bool, max: usize) -> Seq<T> {
    if on && max < s.len() {
        s.take(max as int)
    } else {
        s
    }
}

impl MirageLimits {
    /// Reads `MIRAGE_TEST_MODE` (`1`/`true`/`yes`/`on`, any ASCII case) and the
    /// caps `MIRAGE_TEST_MAX_CATEGORIES` (default 1), `MIRAGE_TEST_MAX_VOD`,
    /// `MIRAGE_TEST_MAX_SERIES` and `MIRAGE_TEST_MAX_EPISODES` (default 10);
    /// a cap that is missing, not a number or 0 takes its default.
    pub fn from_env(env: &EnvVars) -> (l: Self)
        ensures
            l == spec_limits(env.vars@),
    {
        let test_mode = env_truthy(env, "MIRAGE_TEST_MODE");
        let max_categories = env_usize_positive(env, "MIRAGE_TEST_MAX_CATEGORIES", 1);
        let max_vod_per_category = env_usize_positive(env, "MIRAGE_TEST_MAX_VOD", 10);
        let max_series_per_category = env_usize_positive(env, "MIRAGE_TEST_MAX_SERIES", 10);
        let max_episodes_per_series = env_usize_positive(env, "MIRAGE_TEST_MAX_EPISODES", 10);
        MirageLimits {
            test_mode,
            max_categories,
            max_vod_per_category,
            max_series_per_category,
            max_episodes_per_series,
        }
    }

    /// Truncates `items` to `max` in test mode.
    pub fn cap_to<T>(&self, items: &mut Vec<T>, max: usize)
        ensures
            final(items)@ == cap(old(items)@, self.test_mode, max),
    {
        if self.test_mode && max < items.len() {
            items.truncate(max);
        }
    }
}

} // verus!
