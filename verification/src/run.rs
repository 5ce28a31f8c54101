//! Runs and their completion times.
//!
//! A run is identified by a string id and carries its completion duration as
//! whole seconds plus a sub-second nanosecond part. In specifications a run is
//! abstracted to [`RunV`]: its id as a character sequence and its duration as
//! a total nanosecond count.

use vstd::prelude::*;

verus! {

/// A completion duration: whole seconds and a nanosecond remainder.
#[derive(Clone, Copy, PartialEq, Eq, Structural, Debug)]
pub struct RunTime {
    pub secs: u64,
    pub nanos: u32,
}

pub const NANOS_PER_SEC: u32 = 1_000_000_000;

impl RunTime {
    /// A duration is well formed when the nanosecond part is a true remainder.
    pub open spec fn wf(self) -> bool {
        self.nanos < NANOS_PER_SEC
    }

    /// The whole duration as a nanosecond count.
    pub open spec fn as_nanos(self) -> int {
        self.secs * (NANOS_PER_SEC as int) + self.nanos
    }

    pub fn new(secs: u64, nanos: u32) -> (r: RunTime)
        requires
            nanos < NANOS_PER_SEC,
        ensures
            r.wf(),
            r.secs == secs,
            r.nanos == nanos,
    {
        RunTime { secs, nanos }
    }

    /// The duration as a nanosecond count, computed exactly.
    pub fn exec_nanos(&self) -> (r: u128)
        ensures
            r == self.as_nanos(),
    {
        proof {
            assert((self.secs as int) * (NANOS_PER_SEC as int) + (self.nanos as int)
                <= 0xffff_ffff_ffff_ffff * (NANOS_PER_SEC as int) + 0xffff_ffff);
        }
        (self.secs as u128) * (NANOS_PER_SEC as u128) + (self.nanos as u128)
    }

    /// Whether `self` is no longer than `other`, compared as total durations.
    pub fn le(&self, other: &RunTime) -> (r: bool)
        ensures
            r == (self.as_nanos() <= other.as_nanos()),
    {
        self.exec_nanos() <= other.exec_nanos()
    }

    /// Whether the two durations are equal as total durations.
    pub fn time_eq(&self, other: &RunTime) -> (r: bool)
        ensures
            r == (self.as_nanos() == other.as_nanos()),
    {
        self.exec_nanos() == other.exec_nanos()
    }
}

/// The specification-level image of a [`Run`].
pub ghost struct RunV {
    pub id: Seq<char>,
    pub time_ns: int,
}

/// One recorded run: its upstream identifier and its completion time.
#[derive(Debug)]
pub struct Run {
    pub id: String,
    pub time: RunTime,
}

impl View for Run {
    type V = RunV;

    open spec fn view(&self) -> RunV {
        RunV { id: self.id@, time_ns: self.time.as_nanos() }
    }
}

impl Run {
    pub open spec fn wf(self) -> bool {
        self.time.wf()
    }

    pub fn new(id: String, time: RunTime) -> (r: Run)
        ensures
            r.id == id,
            r.time == time,
    {
        Run { id, time }
    }
}

impl Clone for Run {
    fn clone(&self) -> (r: Self)
        ensures
            r == *self,
    {
        Run { id: self.id.clone(), time: self.time }
    }
}

/// The specification image of a sequence of runs.
pub open spec fn runs_view(s: Seq<Run>) -> Seq<RunV> {
    s.map_values(|r: Run| r@)
}

/// Copy a list of runs element by element.
pub fn clone_runs(v: &Vec<Run>) -> (r: Vec<Run>)
    ensures
        r@ == v@,
{
    let mut r: Vec<Run> = Vec::new();
    let mut i: usize = 0;
    while i < v.len()
        invariant
            i <= v.len(),
            r@ == v@.take(i as int),
        decreases v.len() - i,
    {
        r.push(v[i].clone());
        proof {
            assert(r@ =~= v@.take(i + 1 as int));
        }
        i = i + 1;
    }
    proof {
        assert(v@.take(v@.len() as int) =~= v@);
    }
    r
}

} // verus!
