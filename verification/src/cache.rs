//! The series-detail cache: what is kept of a fetched detail.

use vstd::prelude::*;

use std::sync::Arc;

use crate::limits::{cap, MirageLimits};
use crate::ttl_cache::{fresh_value, IdTtlCache};
use crate::xtream::types::{season_keys_distinct, SeriesDetail, SeriesEpisode};

verus! {

/// How long a fetched series detail is reused: twelve hours, in nanoseconds.
pub const DEFAULT_SERIES_TTL_NANOS: u64 = 43_200_000_000_000;

/// `after` is `before` with each season cut to its first
/// `max_episodes_per_series` episodes in test mode, all else unchanged.
pub open spec fn episodes_capped(before: SeriesDetail, after: SeriesDetail, limits: MirageLimits) -> bool {
    &&& after.seasons == before.seasons
    &&& after.info == before.info
    &&& after.episodes@.len() == before.episodes@.len()
    &&& forall|i: int|
        0 <= i < before.episodes@.len() ==> (#[trigger] after.episodes@[i]).0 == before.episodes@[i].0
            && after.episodes@[i].1@ == cap(
            before.episodes@[i].1@,
            limits.test_mode,
            limits.max_episodes_per_series,
        )
}

/// In test mode, each season keeps only its first `max_episodes_per_series`
/// episodes; the rest of the detail is unchanged.
pub fn cap_episodes(detail: &mut SeriesDetail, limits: &MirageLimits)
    ensures
        episodes_capped(*old(detail), *final(detail), *limits),
        season_keys_distinct(*old(detail)) ==> season_keys_distinct(*final(detail)),
{
    let mut groups: Vec<(String, Vec<SeriesEpisode>)> = Vec::new();
    std::mem::swap(&mut groups, &mut detail.episodes);
    let ghost src = groups@;
    let total = groups.len();
    let mut rev: Vec<(String, Vec<SeriesEpisode>)> = Vec::new();
    while groups.len() > 0
        invariant
            groups@.len() + rev@.len() == src.len(),
            groups@ == src.take(groups@.len() as int),
            forall|k: int| 0 <= k < rev@.len() ==> rev@[k] == src[src.len() - 1 - k],
        decreases groups@.len(),
    {
        let g = groups.pop().unwrap();
        assert(g == src[groups@.len() as int]);
        assert(groups@ =~= src.take(groups@.len() as int));
        rev.push(g);
    }
    let mut i: usize = 0;
    while rev.len() > 0
        invariant
            i <= src.len(),
            total == src.len(),
            rev@.len() == src.len() - i,
            forall|k: int| 0 <= k < rev@.len() ==> rev@[k] == src[src.len() - 1 - k],
            detail.episodes@.len() == i,
            detail.seasons == old(detail).seasons,
            detail.info == old(detail).info,
            src == old(detail).episodes@,
            forall|k: int|
                0 <= k < i ==> (#[trigger] detail.episodes@[k]).0 == src[k].0
                    && detail.episodes@[k].1@ == cap(
                    src[k].1@,
                    limits.test_mode,
                    limits.max_episodes_per_series,
                ),
        decreases rev@.len(),
    {
        let (key, mut eps) = rev.pop().unwrap();
        assert(src[i as int] == (key, eps));
        limits.cap_to(&mut eps, limits.max_episodes_per_series);
        detail.episodes.push((key, eps));
        i = i + 1;
    }
}

/// Keeps a series detail fetched at `now`: its seasons capped in test mode,
/// stored for `series_id` until the cache's `ttl` after `now`; the entries
/// of other series are unchanged.
pub fn store_series_detail(
    cache: &mut IdTtlCache<Arc<SeriesDetail>>,
    series_id: i64,
    detail: SeriesDetail,
    limits: &MirageLimits,
    now: u64,
)
    requires
        now + old(cache).ttl <= u64::MAX,
    ensures
        final(cache).ttl == old(cache).ttl,
        final(cache).entries@.remove(series_id) == old(cache).entries@.remove(series_id),
        final(cache).entries@.contains_key(series_id),
        final(cache).entries@[series_id].0 == now + old(cache).ttl,
        episodes_capped(detail, *final(cache).entries@[series_id].1, *limits),
        season_keys_distinct(detail) ==> season_keys_distinct(*final(cache).entries@[series_id].1),
{
    let mut data = detail;
    cap_episodes(&mut data, limits);
    cache.insert(series_id, Arc::new(data), now);
    assert(final(cache).entries@.remove(series_id) =~= old(cache).entries@.remove(series_id));
}

/// A stored series detail is reused: until it expires, a lookup of its
/// series gives the detail with its seasons capped, and lookups of other
/// series see what they saw before it was stored.
pub proof fn law_stored_detail_is_reused(
    before: Map<i64, (u64, Arc<SeriesDetail>)>,
    after: Map<i64, (u64, Arc<SeriesDetail>)>,
    series_id: i64,
    detail: SeriesDetail,
    limits: MirageLimits,
    expires_at: u64,
    now: u64,
    other: i64,
)
    requires
        after.remove(series_id) == before.remove(series_id),
        after.contains_key(series_id),
        after[series_id].0 == expires_at,
        episodes_capped(detail, *after[series_id].1, limits),
        now < expires_at,
        other != series_id,
    ensures
        fresh_value(after, series_id, now) matches Some(v) && episodes_capped(detail, *v, limits),
        fresh_value(after, other, now) == fresh_value(before, other, now),
{
    assert(after.contains_key(other) == after.remove(series_id).contains_key(other));
    assert(before.contains_key(other) == before.remove(series_id).contains_key(other));
    if after.contains_key(other) {
        assert(after[other] == after.remove(series_id)[other]);
        assert(before[other] == before.remove(series_id)[other]);
    }
}

} // verus!
