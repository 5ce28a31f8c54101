//! Watch-state for runs, supplied by the caller.
//!
//! The watch-state collaborator records, per run id, whether the run was
//! already watched, whether it is unwatchable, and an optional "deferred
//! until" timestamp. Only `unwatchable` takes part in record resolution; the
//! other two flags are presentation-time concerns (see
//! [`pick_presentable`]), so the resolver's memoized answers stay valid when
//! they change.

use vstd::prelude::*;
use crate::run::Run;

verus! {

/// Watch-state of one run. Timestamps are seconds since the Unix epoch.
#[derive(Clone, Copy, PartialEq, Eq, Structural, Debug)]
pub struct RunState {
    pub watched: bool,
    pub unwatchable: bool,
    pub deferred: Option<i64>,
}

impl RunState {
    /// The state a run has before anything is recorded about it.
    pub fn unmarked() -> (r: RunState)
        ensures
            r == (RunState { watched: false, unwatchable: false, deferred: None::<i64> }),
    {
        RunState { watched: false, unwatchable: false, deferred: None }
    }
}

/// A run id with its watch-state.
pub struct RunEntry {
    pub id: String,
    pub state: RunState,
}

/// Specification image of [`Data`].
pub ghost struct DataV {
    pub runs: Seq<(Seq<char>, RunState)>,
}

/// All recorded watch-state, keyed by run id.
pub struct Data {
    pub runs: Vec<RunEntry>,
}

impl View for Data {
    type V = DataV;

    open spec fn view(&self) -> DataV {
        DataV { runs: self.runs@.map_values(|e: RunEntry| (e.id@, e.state)) }
    }
}

impl DataV {
    /// Run ids are unique, as they come from a keyed map.
    pub open spec fn wf(self) -> bool {
        forall|i: int, j: int|
            0 <= i < j < self.runs.len() ==> #[trigger] self.runs[i].0
                != #[trigger] self.runs[j].0
    }

    /// The recorded state of the run, if any.
    pub open spec fn state_of(self, id: Seq<char>) -> Option<RunState> {
        if exists|i: int| 0 <= i < self.runs.len() && self.runs[i].0 == id {
            let i = choose|i: int| 0 <= i < self.runs.len() && self.runs[i].0 == id;
            Some(self.runs[i].1)
        } else {
            None
        }
    }

    /// A run with no recorded state is watchable.
    pub open spec fn is_unwatchable(self, id: Seq<char>) -> bool {
        match self.state_of(id) {
            Some(s) => s.unwatchable,
            None => false,
        }
    }

    /// A run with no recorded state is unwatched.
    pub open spec fn is_watched(self, id: Seq<char>) -> bool {
        match self.state_of(id) {
            Some(s) => s.watched,
            None => false,
        }
    }

    /// Whether the run is deferred to a moment after `now`.
    pub open spec fn is_deferred_past(self, id: Seq<char>, now: i64) -> bool {
        match self.state_of(id) {
            Some(s) => match s.deferred {
                Some(until) => until > now,
                None => false,
            },
            None => false,
        }
    }
}

impl Data {
    /// Watch-state starts empty for a fresh store.
    pub fn new() -> (r: Data)
        ensures
            r@.runs.len() == 0,
            r@.wf(),
    {
        Data { runs: Vec::new() }
    }

    fn find(&self, id: &String) -> (r: Option<usize>)
        requires
            self@.wf(),
        ensures
            match r {
                Some(i) => i < self.runs.len() && self@.runs[i as int].0 == id@
                    && self@.state_of(id@) == Some(self@.runs[i as int].1),
                None => self@.state_of(id@) is None,
            },
    {
        let mut i: usize = 0;
        while i < self.runs.len()
            invariant
                i <= self.runs.len(),
                forall|j: int| 0 <= j < i ==> #[trigger] self@.runs[j].0 != id@,
            decreases self.runs.len() - i,
        {
            if self.runs[i].id == *id {
                assert(self@.runs[i as int].0 == id@);
                return Some(i);
            }
            i = i + 1;
        }
        None
    }

    /// The recorded state of the run, if any.
    pub fn lookup(&self, id: &String) -> (r: Option<RunState>)
        requires
            self@.wf(),
        ensures
            r == self@.state_of(id@),
    {
        match self.find(id) {
            Some(i) => Some(self.runs[i].state),
            None => None,
        }
    }

    /// Whether the run is marked unwatchable.
    pub fn is_unwatchable(&self, id: &String) -> (r: bool)
        requires
            self@.wf(),
        ensures
            r == self@.is_unwatchable(id@),
    {
        match self.lookup(id) {
            Some(s) => s.unwatchable,
            None => false,
        }
    }

    fn update(&mut self, id: &String, state: RunState)
        requires
            old(self)@.wf(),
        ensures
            final(self)@.wf(),
            final(self)@.state_of(id@) == Some(state),
            forall|other: Seq<char>|
                other != id@ ==> #[trigger] final(self)@.state_of(other) == old(
                    self,
                )@.state_of(other),
    {
        let ghost pre = self@;
        match self.find(id) {
            Some(i) => {
                let entry = RunEntry { id: self.runs[i].id.clone(), state };
                self.runs.set(i, entry);
                proof {
                    assert(self@.runs =~= pre.runs.update(i as int, (id@, state)));
                    assert(self@.runs[i as int].0 == id@);
                    assert(self@.state_of(id@) == Some(state));
                }
            },
            None => {
                self.runs.push(RunEntry { id: id.clone(), state });
                proof {
                    assert(self@.runs =~= pre.runs.push((id@, state)));
                    assert(self@.runs[pre.runs.len() as int].0 == id@);
                    assert(self@.state_of(id@) == Some(state));
                }
            },
        }
        proof {
            assert forall|other: Seq<char>| other != id@ implies #[trigger] self@.state_of(other)
                == pre.state_of(other) by {
                assert(forall|j: int|
                    0 <= j < pre.runs.len() && j != pre.runs.len() ==> self@.runs[j].0
                        == #[trigger] pre.runs[j].0);
            }
        }
    }

    /// Record that the run was watched; its other marks stay as they were.
    pub fn mark_watched(&mut self, id: &String)
        requires
            old(self)@.wf(),
        ensures
            final(self)@.wf(),
            final(self)@.state_of(id@) == Some(
                match old(self)@.state_of(id@) {
                    Some(s) => RunState { watched: true, ..s },
                    None => RunState { watched: true, unwatchable: false, deferred: None },
                },
            ),
            forall|other: Seq<char>|
                other != id@ ==> #[trigger] final(self)@.state_of(other) == old(
                    self,
                )@.state_of(other),
    {
        let mut state = match self.lookup(id) {
            Some(s) => s,
            None => RunState::unmarked(),
        };
        state.watched = true;
        self.update(id, state);
    }

    /// Record that the run cannot be watched; it stops being a record
    /// candidate, and its other marks stay as they were.
    pub fn mark_unwatchable(&mut self, id: &String)
        requires
            old(self)@.wf(),
        ensures
            final(self)@.wf(),
            final(self)@.is_unwatchable(id@),
            final(self)@.state_of(id@) == Some(
                match old(self)@.state_of(id@) {
                    Some(s) => RunState { unwatchable: true, ..s },
                    None => RunState { watched: false, unwatchable: true, deferred: None },
                },
            ),
            forall|other: Seq<char>|
                other != id@ ==> #[trigger] final(self)@.state_of(other) == old(
                    self,
                )@.state_of(other),
    {
        let mut state = match self.lookup(id) {
            Some(s) => s,
            None => RunState::unmarked(),
        };
        state.unwatchable = true;
        self.update(id, state);
    }

    /// Defer presenting the run until the given moment; its other marks stay
    /// as they were.
    pub fn defer_until(&mut self, id: &String, until: i64)
        requires
            old(self)@.wf(),
        ensures
            final(self)@.wf(),
            final(self)@.state_of(id@) == Some(
                match old(self)@.state_of(id@) {
                    Some(s) => RunState { deferred: Some(until), ..s },
                    None => RunState { watched: false, unwatchable: false, deferred: Some(until) },
                },
            ),
            forall|other: Seq<char>|
                other != id@ ==> #[trigger] final(self)@.state_of(other) == old(
                    self,
                )@.state_of(other),
    {
        let mut state = match self.lookup(id) {
            Some(s) => s,
            None => RunState::unmarked(),
        };
        state.deferred = Some(until);
        self.update(id, state);
    }
}

/// Which run of a resolved record set to present, if any.
///
/// If any of the tied records was already watched, nothing is presented (a
/// record tied with a watched run brings nothing new). Otherwise the first
/// record not deferred past `now` is presented.
pub open spec fn spec_pick_presentable(wrs: Seq<Run>, data: DataV, now: i64) -> Option<Run>
    decreases wrs.len(),
{
    if exists|i: int| 0 <= i < wrs.len() && data.is_watched((#[trigger] wrs[i])@.id) {
        None
    } else if wrs.len() == 0 {
        None
    } else if !data.is_deferred_past(wrs[0]@.id, now) {
        Some(wrs[0])
    } else {
        spec_pick_presentable(wrs.skip(1), data, now)
    }
}

/// Presentation-time choice among tied records; see [`spec_pick_presentable`].
pub fn pick_presentable(wrs: &Vec<Run>, data: &Data, now: i64) -> (r: Option<Run>)
    requires
        data@.wf(),
    ensures
        match r {
            Some(run) => spec_pick_presentable(wrs@, data@, now) matches Some(p) && p@ == run@,
            None => spec_pick_presentable(wrs@, data@, now) is None,
        },
{
    let mut i: usize = 0;
    while i < wrs.len()
        invariant
            i <= wrs.len(),
            forall|j: int| 0 <= j < i ==> !data@.is_watched((#[trigger] wrs@[j])@.id),
        decreases wrs.len() - i,
    {
        let watched = match data.lookup(&wrs[i].id) {
            Some(s) => s.watched,
            None => false,
        };
        if watched {
            assert(data@.is_watched(wrs@[i as int]@.id));
            return None;
        }
        i = i + 1;
    }
    let ghost all_unwatched = wrs@;
    proof {
        assert(wrs@.skip(0) =~= wrs@);
    }
    let mut k: usize = 0;
    while k < wrs.len()
        invariant
            k <= wrs.len(),
            wrs@ == all_unwatched,
            forall|j: int| 0 <= j < wrs@.len() ==> !data@.is_watched((#[trigger] wrs@[j])@.id),
            spec_pick_presentable(wrs@, data@, now) == spec_pick_presentable(
                wrs@.skip(k as int),
                data@,
                now,
            ),
        decreases wrs.len() - k,
    {
        let deferred = match data.lookup(&wrs[k].id) {
            Some(s) => match s.deferred {
                Some(until) => until > now,
                None => false,
            },
            None => false,
        };
        proof {
            let rest = wrs@.skip(k as int);
            assert(rest[0] == wrs@[k as int]);
            assert(!(exists|i: int|
                0 <= i < rest.len() && data@.is_watched((#[trigger] rest[i])@.id))) by {
                assert forall|i: int| 0 <= i < rest.len() implies !data@.is_watched(
                    (#[trigger] rest[i])@.id,
                ) by {
                    assert(rest[i] == wrs@[k + i]);
                }
            }
            assert(deferred == data@.is_deferred_past(wrs@[k as int]@.id, now));
            assert(rest.skip(1) =~= wrs@.skip(k + 1 as int));
        }
        if !deferred {
            return Some(wrs[k].clone());
        }
        k = k + 1;
    }
    proof {
        assert(wrs@.skip(wrs@.len() as int) =~= Seq::<Run>::empty());
    }
    None
}

} // verus!
