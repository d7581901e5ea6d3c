//! Process configuration read from the environment.

use vstd::prelude::*;

use crate::env::{
    env_lookup, env_truthy, env_u32_positive, env_u64_positive, positive_u32_or, positive_u64_or,
    truthy, EnvVars,
};
use crate::limits::{spec_limits, MirageLimits};
use crate::naming::trimmed;
use crate::text::trim;
use crate::xtream::url::{trim_end_slashes, trim_end_slashes_exec};

verus! {

/// Where the TV catalog snapshot lives and how often it is rebuilt.
#[derive(Clone, Debug)]
pub struct TvCatalogConfig {
    pub catalog_path: String,
    pub refresh_secs: u64,
}

/// Where the movie catalog snapshot lives and how often it is rebuilt.
#[derive(Clone, Debug)]
pub struct MovieCatalogConfig {
    pub catalog_path: String,
    pub refresh_secs: u64,
}

/// Spacing and concurrency of the Xtream API JSON requests.
#[derive(Clone, Copy, Debug)]
pub struct UpstreamPaceConfig {
    pub min_interval_ms: u64,
    pub max_inflight: u32,
}

/// How `HEAD` requests for videos are answered.
#[derive(Clone, Copy, Debug)]
pub struct StreamConfig {
    /// Concurrent ranged `GET` probes on a metadata cache miss.
    pub max_inflight: u32,
    /// Answer `HEAD` with a redirect to the provider instead of probing.
    pub probe_use_upstream_head: bool,
}

#[derive(Clone, Debug)]
pub struct Config {
    pub xtream_base_url: String,
    pub xtream_username: String,
    pub xtream_password: String,
    pub listen: String,
    pub limits: MirageLimits,
    pub tv_catalog: TvCatalogConfig,
    pub movie_catalog: MovieCatalogConfig,
    pub upstream_pace: UpstreamPaceConfig,
    pub stream: StreamConfig,
}

/// A variable's value, or `default` when it is not set.
pub open spec fn value_or(v: Option<Seq<char>>, default: Seq<char>) -> Seq<char> {
    match v {
        Some(s) => s,
        None => default,
    }
}

/// The message of a missing required variable.
pub open spec fn required_message(key: Seq<char>) -> Seq<char> {
    key + " is required"@
}

/// The first required variable that is not set, if any.
pub open spec fn missing_required(vars: Seq<(String, String)>) -> Option<Seq<char>> {
    if env_lookup(vars, "XTREAM_BASE_URL"@) is None {
        Some("XTREAM_BASE_URL"@)
    } else if env_lookup(vars, "XTREAM_USERNAME"@) is None {
        Some("XTREAM_USERNAME"@)
    } else if env_lookup(vars, "XTREAM_PASSWORD"@) is None {
        Some("XTREAM_PASSWORD"@)
    } else {
        None
    }
}

/// What `Config::from_env` reads when every required variable is set.
pub open spec fn config_matches(c: Config, vars: Seq<(String, String)>) -> bool {
    &&& c.xtream_base_url@ == trim_end_slashes(
        trim(env_lookup(vars, "XTREAM_BASE_URL"@)->0),
    )
    &&& c.xtream_username@ == env_lookup(vars, "XTREAM_USERNAME"@)->0
    &&& c.xtream_password@ == env_lookup(vars, "XTREAM_PASSWORD"@)->0
    &&& c.listen@ == value_or(env_lookup(vars, "LISTEN"@), "127.0.0.1:8080"@)
    &&& c.limits == spec_limits(vars)
    &&& c.tv_catalog.catalog_path@ == value_or(
        env_lookup(vars, "MIRAGE_TV_CATALOG_PATH"@),
        "data/tv_catalog.rkyv"@,
    )
    &&& c.tv_catalog.refresh_secs == positive_u64_or(
        env_lookup(vars, "MIRAGE_TV_REFRESH_SECS"@),
        43200,
    )
    &&& c.movie_catalog.catalog_path@ == value_or(
        env_lookup(vars, "MIRAGE_MOVIE_CATALOG_PATH"@),
        "data/movie_catalog.rkyv"@,
    )
    &&& c.movie_catalog.refresh_secs == positive_u64_or(
        env_lookup(vars, "MIRAGE_MOVIE_REFRESH_SECS"@),
        43200,
    )
    &&& c.upstream_pace.min_interval_ms == positive_u64_or(
        env_lookup(vars, "MIRAGE_UPSTREAM_MIN_INTERVAL_MS"@),
        300,
    )
    &&& c.upstream_pace.max_inflight == positive_u32_or(
        env_lookup(vars, "MIRAGE_UPSTREAM_MAX_INFLIGHT"@),
        1,
    )
    &&& c.stream.max_inflight == positive_u32_or(
        env_lookup(vars, "MIRAGE_STREAM_MAX_INFLIGHT"@),
        16,
    )
    &&& c.stream.probe_use_upstream_head == truthy(
        env_lookup(vars, "MIRAGE_STREAM_PROBE_USE_UPSTREAM_HEAD"@),
    )
}

fn required(env: &EnvVars, key: &str) -> (r: Result<String, String>)
    ensures
        match r {
            Ok(v) => env_lookup(env.vars@, key@) == Some(v@),
            Err(m) => env_lookup(env.vars@, key@) is None && m@ == required_message(key@),
        },
{
    match env.get(key) {
        Some(v) => Ok(String::from_str(v)),
        None => {
            let mut m = String::from_str(key);
            m.append(" is required");
            Err(m)
        },
    }
}

fn string_or(env: &EnvVars, key: &str, default: &str) -> (r: String)
    ensures
        r@ == value_or(env_lookup(env.vars@, key@), default@),
{
    match env.get(key) {
        Some(v) => String::from_str(v),
        None => String::from_str(default),
    }
}

impl Config {
    /// Reads the configuration.  `XTREAM_BASE_URL`, `XTREAM_USERNAME` and
    /// `XTREAM_PASSWORD` are required (the first one missing is reported);
    /// the base URL is trimmed and loses its trailing slashes.
    pub fn from_env(env: &EnvVars) -> (r: Result<Self, String>)
        ensures
            match r {
                Ok(c) => missing_required(env.vars@) is None && config_matches(c, env.vars@),
                Err(m) => missing_required(env.vars@) matches Some(k) && m@ == required_message(k),
            },
    {
        let xtream_base_url = match required(env, "XTREAM_BASE_URL") {
            Ok(v) => v,
            Err(m) => return Err(m),
        };
        let xtream_username = match required(env, "XTREAM_USERNAME") {
            Ok(v) => v,
            Err(m) => return Err(m),
        };
        let xtream_password = match required(env, "XTREAM_PASSWORD") {
            Ok(v) => v,
            Err(m) => return Err(m),
        };
        let listen = string_or(env, "LISTEN", "127.0.0.1:8080");
        let t = trimmed(xtream_base_url.as_str());
        let base = trim_end_slashes_exec(t.as_str());
        let limits = MirageLimits::from_env(env);
        let tv_catalog = TvCatalogConfig {
            catalog_path: string_or(env, "MIRAGE_TV_CATALOG_PATH", "data/tv_catalog.rkyv"),
            refresh_secs: env_u64_positive(env, "MIRAGE_TV_REFRESH_SECS", 43200),
        };
        let movie_catalog = MovieCatalogConfig {
            catalog_path: string_or(env, "MIRAGE_MOVIE_CATALOG_PATH", "data/movie_catalog.rkyv"),
            refresh_secs: env_u64_positive(env, "MIRAGE_MOVIE_REFRESH_SECS", 43200),
        };
        let upstream_pace = UpstreamPaceConfig {
            min_interval_ms: env_u64_positive(env, "MIRAGE_UPSTREAM_MIN_INTERVAL_MS", 300),
            max_inflight: env_u32_positive(env, "MIRAGE_UPSTREAM_MAX_INFLIGHT", 1),
        };
        let stream = StreamConfig {
            max_inflight: env_u32_positive(env, "MIRAGE_STREAM_MAX_INFLIGHT", 16),
            probe_use_upstream_head: env_truthy(env, "MIRAGE_STREAM_PROBE_USE_UPSTREAM_HEAD"),
        };
        Ok(
            Config {
                xtream_base_url: base,
                xtream_username,
                xtream_password,
                listen,
                limits,
                tv_catalog,
                movie_catalog,
                upstream_pace,
                stream,
            },
        )
    }
}

/// Every count and interval read from the environment is at least 1: a
/// value that is missing, not a number, or 0 takes its default.
pub proof fn law_config_minimums(c: Config, vars: Seq<(String, String)>)
    requires
        config_matches(c, vars),
    ensures
        c.tv_catalog.refresh_secs >= 1,
        c.movie_catalog.refresh_secs >= 1,
        c.upstream_pace.min_interval_ms >= 1,
        c.upstream_pace.max_inflight >= 1,
        c.stream.max_inflight >= 1,
        c.limits.max_categories >= 1,
        c.limits.max_vod_per_category >= 1,
        c.limits.max_series_per_category >= 1,
        c.limits.max_episodes_per_series >= 1,
{
}

} // verus!
