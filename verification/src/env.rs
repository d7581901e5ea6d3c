//! The process environment as plain values, and the settings read from it.

use vstd::prelude::*;

use crate::text::{chars_of, lower_seq, lower_string, parse_u32, parse_u64, parse_usize};
use crate::text::{parse_u32_chars, parse_u64_chars, parse_usize_chars};

verus! {

/// The environment variables whose names and values are valid Unicode, in
/// the order the process listed them.
pub struct EnvVars {
    pub vars: Vec<(String, String)>,
}

/// Value of the first variable named `key`.
pub open spec fn env_lookup(vars: Seq<(String, String)>, key: Seq<char>) -> Option<Seq<char>>
    decreases vars.len(),
{
    if vars.len() == 0 {
        None
    } else if vars[0].0@ == key {
        Some(vars[0].1@)
    } else {
        env_lookup(vars.drop_first(), key)
    }
}

/// `1`, `true`, `yes` or `on`, ASCII case ignored.
pub open spec fn truthy(v: Option<Seq<char>>) -> bool {
    match v {
        Some(s) => {
            let l = lower_seq(s);
            l == "1"@ || l == "true"@ || l == "yes"@ || l == "on"@
        },
        None => false,
    }
}

/// The value parsed as `usize` when it is at least 1, else `default`.
pub open spec fn positive_usize_or(v: Option<Seq<char>>, default: usize) -> usize {
    match v {
        Some(s) => match parse_usize(s) {
            Some(n) => if n >= 1 {
                n
            } else {
                default
            },
            None => default,
        },
        None => default,
    }
}

/// The value parsed as `u64` when it is at least 1, else `default`.
pub open spec fn positive_u64_or(v: Option<Seq<char>>, default: u64) -> u64 {
    match v {
        Some(s) => match parse_u64(s) {
            Some(n) => if n >= 1 {
                n
            } else {
                default
            },
            None => default,
        },
        None => default,
    }
}

/// The value parsed as `u32` when it is at least 1, else `default`.
pub open spec fn positive_u32_or(v: Option<Seq<char>>, default: u32) -> u32 {
    match v {
        Some(s) => match parse_u32(s) {
            Some(n) => if n >= 1 {
                n
            } else {
                default
            },
            None => default,
        },
        None => default,
    }
}

pub open spec fn opt_str_view(v: Option<&str>) -> Option<Seq<char>> {
    match v {
        Some(s) => Some(s@),
        None => None,
    }
}

impl EnvVars {
    /// The value of the first variable named `key`.
    pub fn get(&self, key: &str) -> (r: Option<&str>)
        ensures
            opt_str_view(r) == env_lookup(self.vars@, key@),
    {
        let k = String::from_str(key);
        let mut i: usize = 0;
        assert(self.vars@.skip(0) =~= self.vars@);
        while i < self.vars.len()
            invariant
                i <= self.vars@.len(),
                k@ == key@,
                env_lookup(self.vars@, key@) == env_lookup(self.vars@.skip(i as int), key@),
            decreases self.vars@.len() - i,
        {
            assert(self.vars@.skip(i as int).drop_first() =~= self.vars@.skip(i + 1));
            if self.vars[i].0 == k {
                return Some(self.vars[i].1.as_str());
            }
            i = i + 1;
        }
        None
    }
}

/// Whether the variable holds a truthy value.
pub fn env_truthy(env: &EnvVars, key: &str) -> (b: bool)
    ensures
        b == truthy(env_lookup(env.vars@, key@)),
{
    proof {
        reveal_strlit("1");
        reveal_strlit("true");
        reveal_strlit("yes");
        reveal_strlit("on");
    }
    match env.get(key) {
        Some(v) => {
            let cs = chars_of(v);
            let l = lower_string(&cs, 0, cs.len());
            assert(cs@.subrange(0, cs@.len() as int) =~= cs@);
            let one = String::from_str("1");
            let t = String::from_str("true");
            let y = String::from_str("yes");
            let o = String::from_str("on");
            l == one || l == t || l == y || l == o
        },
        None => false,
    }
}

/// The variable as a `usize` of at least 1, else `default`.
pub fn env_usize_positive(env: &EnvVars, key: &str, default: usize) -> (n: usize)
    ensures
        n == positive_usize_or(env_lookup(env.vars@, key@), default),
{
    match env.get(key) {
        Some(v) => {
            let cs = chars_of(v);
            assert(cs@.subrange(0, cs@.len() as int) =~= cs@);
            match parse_usize_chars(&cs, 0, cs.len()) {
                Some(n) => if n >= 1 {
                    n
                } else {
                    default
                },
                None => default,
            }
        },
        None => default,
    }
}

/// The variable as a `u64` of at least 1, else `default`.
pub fn env_u64_positive(env: &EnvVars, key: &str, default: u64) -> (n: u64)
    ensures
        n == positive_u64_or(env_lookup(env.vars@, key@), default),
{
    match env.get(key) {
        Some(v) => {
            let cs = chars_of(v);
            assert(cs@.subrange(0, cs@.len() as int) =~= cs@);
            match parse_u64_chars(&cs, 0, cs.len()) {
                Some(n) => if n >= 1 {
                    n
                } else {
                    default
                },
                None => default,
            }
        },
        None => default,
    }
}

/// The variable as a `u32` of at least 1, else `default`.
pub fn env_u32_positive(env: &EnvVars, key: &str, default: u32) -> (n: u32)
    ensures
        n == positive_u32_or(env_lookup(env.vars@, key@), default),
{
    match env.get(key) {
        Some(v) => {
            let cs = chars_of(v);
            assert(cs@.subrange(0, cs@.len() as int) =~= cs@);
            match parse_u32_chars(&cs, 0, cs.len()) {
                Some(n) => if n >= 1 {
                    n
                } else {
                    default
                },
                None => default,
            }
        },
        None => default,
    }
}

} // verus!
