//! Limits of a search (time, nodes, depth, and a flag to stop it from outside)
//! and the manager that decides, while searching, whether to stop.

use crate::search::{now, SearchStats};
use std::sync::Arc;
use std::sync::atomic::AtomicBool;
use std::sync::atomic::Ordering;
use std::time::{Duration, Instant};
use vstd::prelude::*;

verus! {

/// The length of `Duration::MAX` in nanoseconds: `u64::MAX` seconds and
/// 999 999 999 nanoseconds.
pub const MAX_DURATION_NANOS: u128 = 18_446_744_073_709_551_615_999_999_999u128;

/// What `Duration::as_nanos` gives for a duration: its whole length in
/// nanoseconds.
pub uninterp spec fn nanos_of(d: Duration) -> u128;

/// `Duration::as_nanos`: the length of the duration in nanoseconds, which is
/// `nanos_of` of it.
#[verifier::external_body]
pub(crate) fn duration_nanos(d: &Duration) -> (r: u128)
    ensures
        r == nanos_of(*d),
{
    d.as_nanos()
}

/// `Duration::MAX`, which stands for no time limit; its length in nanoseconds
/// is `MAX_DURATION_NANOS`.
#[verifier::external_body]
fn no_time_limit() -> (r: Duration)
    ensures
        nanos_of(r) == MAX_DURATION_NANOS,
{
    Duration::MAX
}

/// `Instant::elapsed`, in nanoseconds (`Duration::as_nanos`): the time passed
/// since `start`. It depends on the clock; nothing is stated of it.
#[verifier::external_body]
pub(crate) fn elapsed_nanos(start: &Instant) -> (r: u128) {
    start.elapsed().as_nanos()
}

/// `Arc::clone`: another handle to the same flag (a pointer to the same
/// allocation, which Verus sees as the same value).
#[verifier::external_body]
fn share(flag: &Arc<AtomicBool>) -> (r: Arc<AtomicBool>)
    ensures
        r == *flag,
{
    Arc::clone(flag)
}

/// The time left until `limit` when `used` has passed, zero once it has
/// passed.
pub open spec fn time_left_spec(limit: u128, used: u128) -> int {
    if limit > used {
        limit - used
    } else {
        0
    }
}

/// Whether there is time for another iteration: ten times the time used so
/// far is less than the time left until the soft limit (all in nanoseconds).
pub fn enough_time(used: u128, soft_limit: u128) -> (r: bool)
    ensures
        r == (10 * used < time_left_spec(soft_limit, used)),
{
    let left: u128 = if soft_limit > used {
        soft_limit - used
    } else {
        0
    };
    match used.checked_mul(10) {
        Some(expected) => expected < left,
        None => false,
    }
}

fn flag_set(flag: &Arc<AtomicBool>) -> (r: bool) {
    flag.load(Ordering::Relaxed)
}

fn raise_flag(flag: &Arc<AtomicBool>) {
    flag.store(true, Ordering::Relaxed);
}

pub struct Limits {
    hard_time_limit: Duration,
    soft_time_limit: Duration,
    node_limit: u64,
    depth_limit: u16,
    stop: Arc<AtomicBool>,
}

impl Limits {
    pub closed spec fn nodes_spec(&self) -> u64 {
        self.node_limit
    }

    /// The hard time limit.
    pub closed spec fn hard_spec(&self) -> Duration {
        self.hard_time_limit
    }

    /// The soft time limit.
    pub closed spec fn soft_spec(&self) -> Duration {
        self.soft_time_limit
    }

    /// The stop flag.
    pub closed spec fn flag_spec(&self) -> Arc<AtomicBool> {
        self.stop
    }

    pub closed spec fn depth_spec(&self) -> u16 {
        self.depth_limit
    }

    /// No limits at all.
    pub fn new() -> (r: Limits)
        ensures
            r.nodes_spec() == u64::MAX,
            r.depth_spec() == u16::MAX,
            nanos_of(r.hard_spec()) == MAX_DURATION_NANOS,
            nanos_of(r.soft_spec()) == MAX_DURATION_NANOS,
    {
        Limits {
            hard_time_limit: no_time_limit(),
            soft_time_limit: no_time_limit(),
            node_limit: u64::MAX,
            depth_limit: u16::MAX,
            stop: Arc::new(AtomicBool::new(false)),
        }
    }

    /// Sets the time after which the search stops, if one is given.
    pub fn hard_time(&mut self, limit: Option<Duration>)
        ensures
            final(self).hard_spec() == (match limit {
                Some(d) => d,
                None => old(self).hard_spec(),
            }),
            final(self).soft_spec() == old(self).soft_spec(),
            final(self).flag_spec() == old(self).flag_spec(),
            final(self).nodes_spec() == old(self).nodes_spec(),
            final(self).depth_spec() == old(self).depth_spec(),
    {
        if let Some(limit) = limit {
            self.hard_time_limit = limit;
        }
    }

    /// Sets the time the search aims to take, if one is given.
    pub fn soft_time(&mut self, limit: Option<Duration>)
        ensures
            final(self).soft_spec() == (match limit {
                Some(d) => d,
                None => old(self).soft_spec(),
            }),
            final(self).hard_spec() == old(self).hard_spec(),
            final(self).flag_spec() == old(self).flag_spec(),
            final(self).nodes_spec() == old(self).nodes_spec(),
            final(self).depth_spec() == old(self).depth_spec(),
    {
        if let Some(limit) = limit {
            self.soft_time_limit = limit;
        }
    }

    /// Sets the node limit, if one is given.
    pub fn nodes(&mut self, limit: Option<u64>)
        ensures
            final(self).nodes_spec() == (match limit {
                Some(n) => n,
                None => old(self).nodes_spec(),
            }),
            final(self).depth_spec() == old(self).depth_spec(),
    {
        if let Some(limit) = limit {
            self.node_limit = limit;
        }
    }

    /// Sets the depth limit, if one is given.
    pub fn depth(&mut self, limit: Option<u16>)
        ensures
            final(self).depth_spec() == (match limit {
                Some(d) => d,
                None => old(self).depth_spec(),
            }),
            final(self).nodes_spec() == old(self).nodes_spec(),
    {
        if let Some(limit) = limit {
            self.depth_limit = limit;
        }
    }

    /// Starts the clock: a manager with these limits (its soft time limit is set
    /// to the hard one) sharing the stop flag, which it reads now.
    pub fn start_now(&self) -> (r: TimeMan)
        ensures
            r.hard_spec() == self.hard_spec(),
            r.soft_spec() == self.hard_spec(),
            r.flag_spec() == self.flag_spec(),
            r.nodes_spec() == self.nodes_spec(),
            r.depth_spec() == self.depth_spec(),
    {
        let cached_stop = flag_set(&self.stop);
        TimeMan {
            start_time: now(),
            hard_time_limit: self.hard_time_limit,
            soft_time_limit: self.hard_time_limit,
            node_limit: self.node_limit,
            depth_limit: self.depth_limit,
            stop: share(&self.stop),
            cached_stop,
        }
    }
}

impl Default for Limits {
    fn default() -> (r: Limits)
        ensures
            r.nodes_spec() == u64::MAX,
            r.depth_spec() == u16::MAX,
            nanos_of(r.hard_spec()) == MAX_DURATION_NANOS,
            nanos_of(r.soft_spec()) == MAX_DURATION_NANOS,
    {
        Limits::new()
    }
}

pub struct TimeMan {
    start_time: Instant,
    hard_time_limit: Duration,
    soft_time_limit: Duration,
    node_limit: u64,
    depth_limit: u16,
    stop: Arc<AtomicBool>,
    cached_stop: bool,
}

impl TimeMan {
    pub closed spec fn nodes_spec(&self) -> u64 {
        self.node_limit
    }

    /// The hard time limit.
    pub closed spec fn hard_spec(&self) -> Duration {
        self.hard_time_limit
    }

    /// The soft time limit.
    pub closed spec fn soft_spec(&self) -> Duration {
        self.soft_time_limit
    }

    /// The stop flag.
    pub closed spec fn flag_spec(&self) -> Arc<AtomicBool> {
        self.stop
    }

    pub closed spec fn depth_spec(&self) -> u16 {
        self.depth_limit
    }

    /// The answer `stop` gave last.
    pub closed spec fn cached(&self) -> bool {
        self.cached_stop
    }

    pub fn node_limit(&self) -> (r: u64)
        ensures
            r == self.nodes_spec(),
    {
        self.node_limit
    }

    pub fn hard_time_limit(&self) -> (r: Duration)
        ensures
            r == self.hard_spec(),
    {
        self.hard_time_limit
    }

    pub fn soft_time_limit(&self) -> (r: Duration)
        ensures
            r == self.soft_spec(),
    {
        self.soft_time_limit
    }

    pub fn depth_limit(&self) -> (r: u16)
        ensures
            r == self.depth_spec(),
    {
        self.depth_limit
    }

    /// Another handle to the stop flag.
    pub fn raw_stop_flag(&self) -> (r: Arc<AtomicBool>)
        ensures
            r == self.flag_spec(),
    {
        share(&self.stop)
    }

    /// The stop decision, given the time passed since the start in nanoseconds
    /// and whether the stop flag is set: the node or the depth limit is passed,
    /// the hard time limit is reached, or the flag is set.
    pub fn stop_decision(&self, stats: &SearchStats, elapsed: u128, flag: bool) -> (r: bool)
        ensures
            r == (stats.nodes > self.nodes_spec() || stats.depth > self.depth_spec() || elapsed >= nanos_of(
                self.hard_spec(),
            ) || flag),
    {
        let hard = duration_nanos(&self.hard_time_limit);
        stats.nodes > self.node_limit || stats.depth > self.depth_limit || elapsed >= hard || flag
    }

    /// Whether the search should stop: the node or the depth limit is passed,
    /// the hard time limit is reached, or the stop flag is set (see
    /// `stop_decision`). With `use_cached`, the last answer is given again
    /// unless the node count is a multiple of 1024. The clock and the flag come
    /// from outside.
    pub fn stop(&mut self, stats: &SearchStats, use_cached: bool) -> (r: bool)
        ensures
            final(self).nodes_spec() == old(self).nodes_spec(),
            final(self).depth_spec() == old(self).depth_spec(),
            final(self).hard_spec() == old(self).hard_spec(),
            final(self).soft_spec() == old(self).soft_spec(),
            use_cached && stats.nodes % 1024 != 0 ==> r == old(self).cached() && final(self).cached()
                == old(self).cached(),
            !(use_cached && stats.nodes % 1024 != 0) ==> {
                &&& (stats.nodes > old(self).nodes_spec() || stats.depth > old(self).depth_spec()) ==> r
                &&& final(self).cached() == r
            },
    {
        if use_cached && stats.nodes % 1024 != 0 {
            return self.cached_stop;
        }
        let elapsed = elapsed_nanos(&self.start_time);
        let flag = flag_set(&self.stop);
        let should_stop = self.stop_decision(stats, elapsed, flag);
        self.cached_stop = should_stop;
        should_stop
    }

    /// Whether there is time for another iteration, given the time passed since
    /// the start in nanoseconds: always without a hard time limit, else when
    /// ten times the time used is less than the time left until the soft limit.
    pub fn next_depth_decision(&self, elapsed: u128) -> (r: bool)
        ensures
            r == (nanos_of(self.hard_spec()) == MAX_DURATION_NANOS || 10 * elapsed < time_left_spec(
                nanos_of(self.soft_spec()),
                elapsed,
            )),
    {
        if duration_nanos(&self.hard_time_limit) == MAX_DURATION_NANOS {
            return true;
        }
        enough_time(elapsed, duration_nanos(&self.soft_time_limit))
    }

    /// Whether there is time for another iteration of the search, one ply deeper:
    /// not when the search should stop; else as `next_depth_decision` says. The
    /// answer of `stop` is kept as the cached one.
    pub fn enough_time_for_next_depth(&mut self, stats: &SearchStats) -> (r: bool)
        ensures
            final(self).nodes_spec() == old(self).nodes_spec(),
            final(self).depth_spec() == old(self).depth_spec(),
            final(self).hard_spec() == old(self).hard_spec(),
            final(self).soft_spec() == old(self).soft_spec(),
            (stats.nodes > old(self).nodes_spec() || stats.depth > old(self).depth_spec()) ==> !r,
            final(self).cached() ==> !r,
            !final(self).cached() && nanos_of(old(self).hard_spec()) == MAX_DURATION_NANOS ==> r,
    {
        if self.stop(stats, false) {
            return false;
        }
        let elapsed = elapsed_nanos(&self.start_time);
        self.next_depth_decision(elapsed)
    }

    /// Sets the stop flag, for every holder of it.
    pub fn force_stop(&mut self)
        ensures
            final(self).cached(),
            final(self).nodes_spec() == old(self).nodes_spec(),
            final(self).depth_spec() == old(self).depth_spec(),
    {
        raise_flag(&self.stop);
        self.cached_stop = true;
    }
}

} // verus!
