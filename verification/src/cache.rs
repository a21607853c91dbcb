//! Disk-cache entries for board snapshots and issue details: each value is
//! stamped with its fetch time so callers can decide when a refetch is due,
//! and each lives at a filesystem-safe relative path under the cache dir.
use vstd::prelude::*;
use crate::text::{chars_of, decimal, push_char, push_decimal, to_owned_string};

verus! {

/// How long a cached board snapshot is served without hitting the API, in
/// seconds. Matches the poll cadence.
pub const BOARD_TTL: u64 = 1800;

/// How long a cached issue detail is reused across restarts, in seconds.
pub const DETAIL_TTL: u64 = 1800;

/// A cached value tagged with when it was fetched (unix seconds).
pub struct Cached<T> {
    pub fetched_at: u64,
    pub value: T,
}

/// The current time in whole seconds since the Unix epoch, read from the
/// system clock (`SystemTime::now().duration_since(UNIX_EPOCH)`, 0 for a
/// clock set before the epoch). Nothing is claimed about the value.
#[verifier::external_body]
pub(crate) fn now_unix() -> (r: u64) {
    std::time::SystemTime::now().duration_since(std::time::UNIX_EPOCH).map(|d| d.as_secs()).unwrap_or(0)
}

/// `now - then`, or 0 when `then` is later.
pub open spec fn elapsed(now: u64, then: u64) -> u64 {
    if now >= then {
        (now - then) as u64
    } else {
        0
    }
}

impl<T> Cached<T> {
    /// Seconds elapsed between the fetch and `now` (0 for a stamp in the future).
    pub fn age_at(&self, now: u64) -> (r: u64)
        ensures
            r == elapsed(now, self.fetched_at),
    {
        now.saturating_sub(self.fetched_at)
    }

    /// Whether the entry is younger than `ttl` seconds at time `now`.
    pub fn fresh_at(&self, now: u64, ttl: u64) -> (r: bool)
        ensures
            r == (elapsed(now, self.fetched_at) < ttl),
    {
        self.age_at(now) < ttl
    }

    /// Whether the entry is younger than `ttl` seconds by the system clock.
    pub fn is_fresh(&self, ttl: u64) -> (r: bool)
        ensures
            exists|now: u64| r == (elapsed(now, self.fetched_at) < ttl),
    {
        self.fresh_at(now_unix(), ttl)
    }

    /// Seconds elapsed since this entry was fetched, by the system clock.
    pub fn age(&self) -> (r: u64)
        ensures
            exists|now: u64| r == elapsed(now, self.fetched_at),
    {
        self.age_at(now_unix())
    }
}

/// The cache file of board `(owner, number)`, relative to the cache dir:
/// `boards/<owner>-<number>.json`.
pub fn board_path(owner: &str, number: u32) -> (r: String)
    ensures
        r@ == "boards/"@ + owner@ + seq!['-'] + decimal(number as nat) + ".json"@,
{
    let mut s = to_owned_string("boards/");
    s.append(owner);
    push_char(&mut s, '-');
    push_decimal(&mut s, number as u64);
    s.append(".json");
    s
}

/// `repo` with each `/` replaced by `__`, so it is one path segment.
pub open spec fn safe_segment(repo: Seq<char>) -> Seq<char>
    decreases repo.len(),
{
    if repo.len() == 0 {
        Seq::empty()
    } else {
        let p = safe_segment(repo.drop_last());
        if repo.last() == '/' {
            p + seq!['_', '_']
        } else {
            p.push(repo.last())
        }
    }
}

/// The cache file of issue `number` of `repo` (`owner/name`), relative to the
/// cache dir: `details/<owner>__<name>-<number>.json` — the repo's `/` never
/// becomes a directory separator.
pub fn detail_path(repo: &str, number: u64) -> (r: String)
    ensures
        r@ == "details/"@ + safe_segment(repo@) + seq!['-'] + decimal(number as nat) + ".json"@,
{
    let mut s = to_owned_string("details/");
    let ghost prefix = s@;
    let cs = chars_of(repo);
    let mut i: usize = 0;
    while i < cs.len()
        invariant
            i <= cs@.len(),
            cs@ == repo@,
            s@ == prefix + safe_segment(cs@.take(i as int)),
        decreases cs.len() - i,
    {
        assert(cs@.take(i + 1).drop_last() =~= cs@.take(i as int));
        if cs[i] == '/' {
            push_char(&mut s, '_');
            push_char(&mut s, '_');
        } else {
            push_char(&mut s, cs[i]);
        }
        i += 1;
    }
    assert(cs@.take(cs@.len() as int) =~= cs@);
    push_char(&mut s, '-');
    push_decimal(&mut s, number);
    s.append(".json");
    s
}

/// A detail file's repo segment never holds a `/`: the `owner/name` of the
/// repo can't introduce a directory separator into the file name.
pub proof fn law_safe_segment_has_no_slash(repo: Seq<char>)
    ensures
        !safe_segment(repo).contains('/'),
    decreases repo.len(),
{
    if repo.len() > 0 {
        law_safe_segment_has_no_slash(repo.drop_last());
        let p = safe_segment(repo.drop_last());
        if safe_segment(repo).contains('/') {
            let k = choose|k: int| 0 <= k < safe_segment(repo).len() && safe_segment(repo)[k] == '/';
            if k < p.len() {
                assert(p[k] == '/');
            }
        }
    }
}

/// What a launch shows after trying to fetch a board: the fetched board; if
/// the fetch failed, a cached snapshot when there is one (however stale);
/// else the fetch's error.
pub fn board_or_fallback<T, E>(fetched: Result<T, E>, cached: Option<T>) -> (r: Result<T, E>)
    ensures
        r == match fetched {
            Ok(v) => Ok(v),
            Err(e) => match cached {
                Some(c) => Ok(c),
                None => Err(e),
            },
        },
{
    match fetched {
        Ok(v) => Ok(v),
        Err(e) => match cached {
            Some(c) => Ok(c),
            None => Err(e),
        },
    }
}

} // verus!
