//! The upstream leaderboard source, as data.
//!
//! The resolver consumes an external data source through three capabilities:
//! looking up source categories, games and levels by id, and fetching the
//! leaderboard for one concrete query. Transport, retries and caching on the
//! wire are owned by the collaborator that produces this data; the resolver
//! sees the collaborator as a [`Source`]: the table of answers the upstream
//! service gives during one resolution pass. An id or query with no entry is
//! a failed fetch.
//!
//! Leaderboards arrive sorted ascending by completion time and list every run
//! at most once; [`SourceV::wf`] states these collaborator obligations, and
//! the resolver does not re-sort.

use vstd::prelude::*;
use crate::run::{Run, RunV, runs_view};

verus! {

/// One variable fixed to one value inside a filter.
#[derive(Debug)]
pub struct VarChoice {
    pub variable: String,
    pub value: String,
}

/// Specification image of [`VarChoice`].
pub ghost struct ChoiceV {
    pub variable: Seq<char>,
    pub value: Seq<char>,
}

impl View for VarChoice {
    type V = ChoiceV;

    open spec fn view(&self) -> ChoiceV {
        ChoiceV { variable: self.variable@, value: self.value@ }
    }
}

impl Clone for VarChoice {
    fn clone(&self) -> (r: Self)
        ensures
            r@ == self@,
    {
        VarChoice { variable: self.variable.clone(), value: self.value.clone() }
    }
}

/// The specification image of a filter: one choice per filtered variable.
pub type FilterV = Seq<ChoiceV>;

/// The image of an optional filter.
pub open spec fn filter_view(f: Option<Vec<VarChoice>>) -> Option<FilterV> {
    match f {
        Some(v) => Some(v@.map_values(|c: VarChoice| c@)),
        None => None,
    }
}

/// Copy an optional filter.
pub fn clone_filter(f: &Option<Vec<VarChoice>>) -> (r: Option<Vec<VarChoice>>)
    ensures
        filter_view(r) == filter_view(*f),
{
    match f {
        None => None,
        Some(v) => {
            let mut out: Vec<VarChoice> = Vec::new();
            let mut i: usize = 0;
            while i < v.len()
                invariant
                    i <= v.len(),
                    out@.map_values(|c: VarChoice| c@) == v@.map_values(|c: VarChoice| c@).take(
                        i as int,
                    ),
                decreases v.len() - i,
            {
                out.push(v[i].clone());
                proof {
                    assert(out@.map_values(|c: VarChoice| c@) =~= v@.map_values(
                        |c: VarChoice| c@,
                    ).take(i + 1 as int));
                }
                i = i + 1;
            }
            proof {
                let m = v@.map_values(|c: VarChoice| c@);
                assert(m.take(m.len() as int) =~= m);
            }
            Some(out)
        },
    }
}

/// Whether two optional filters have the same image.
pub fn filter_eq(a: &Option<Vec<VarChoice>>, b: &Option<Vec<VarChoice>>) -> (r: bool)
    ensures
        r == (filter_view(*a) == filter_view(*b)),
{
    match (a, b) {
        (None, None) => true,
        (Some(va), Some(vb)) => {
            let ghost ma = va@.map_values(|c: VarChoice| c@);
            let ghost mb = vb@.map_values(|c: VarChoice| c@);
            if va.len() != vb.len() {
                proof {
                    assert(ma.len() != mb.len());
                }
                return false;
            }
            let mut i: usize = 0;
            while i < va.len()
                invariant
                    i <= va.len(),
                    forall|j: int| 0 <= j < i ==> ma[j] == mb[j],
                decreases va.len() - i,
            {
                if !(va[i].variable == vb[i].variable && va[i].value == vb[i].value) {
                    proof {
                        assert(ma[i as int] != mb[i as int]);
                    }
                    return false;
                }
                proof {
                    assert(ma[i as int] == mb[i as int]);
                }
                i = i + 1;
            }
            proof {
                assert(ma =~= mb);
            }
            true
        },
        _ => {
            proof {
                assert(filter_view(*a) is Some <==> a is Some);
            }
            false
        },
    }
}

/// Specification image of [`Query`].
pub ghost struct QueryV {
    pub cat_id: Seq<char>,
    pub level_id: Option<Seq<char>>,
    pub filter: Option<FilterV>,
}

/// One concrete leaderboard query: a source category, an optional level for
/// individual-level categories, and an optional variable filter.
///
/// A filter lists its choices in the category's variable order; the same
/// choices in another order name a different query, so the source must key
/// its boards in that order too.
#[derive(Debug)]
pub struct Query {
    pub cat_id: String,
    pub level_id: Option<String>,
    pub filter: Option<Vec<VarChoice>>,
}

/// The image of an optional level id.
pub open spec fn level_view(l: Option<String>) -> Option<Seq<char>> {
    match l {
        Some(s) => Some(s@),
        None => None,
    }
}

impl View for Query {
    type V = QueryV;

    open spec fn view(&self) -> QueryV {
        QueryV {
            cat_id: self.cat_id@,
            level_id: level_view(self.level_id),
            filter: filter_view(self.filter),
        }
    }
}

impl Clone for Query {
    fn clone(&self) -> (r: Self)
        ensures
            r@ == self@,
    {
        Query {
            cat_id: self.cat_id.clone(),
            level_id: match &self.level_id {
                Some(l) => Some(l.clone()),
                None => None,
            },
            filter: clone_filter(&self.filter),
        }
    }
}

/// Whether two queries have the same image.
pub fn query_eq(a: &Query, b: &Query) -> (r: bool)
    ensures
        r == (a@ == b@),
{
    if !(a.cat_id == b.cat_id) {
        return false;
    }
    let level_ok = match &a.level_id {
        None => b.level_id.is_none(),
        Some(la) => match &b.level_id {
            Some(lb) => *la == *lb,
            None => false,
        },
    };
    if !level_ok {
        proof {
            assert(level_view(a.level_id) != level_view(b.level_id));
        }
        return false;
    }
    if !filter_eq(&a.filter, &b.filter) {
        return false;
    }
    proof {
        assert(level_view(a.level_id) == level_view(b.level_id));
        assert(a@ == b@);
    }
    true
}

/// A source category as the resolver sees it: its id and whether its
/// leaderboards are per level.
pub struct SourceCategory {
    pub id: String,
    pub is_il: bool,
}

impl Clone for SourceCategory {
    fn clone(&self) -> (r: Self)
        ensures
            r.id@ == self.id@,
            r.is_il == self.is_il,
    {
        SourceCategory { id: self.id.clone(), is_il: self.is_il }
    }
}

/// One leaderboard the upstream service answers with.
pub struct Board {
    pub query: Query,
    pub runs: Vec<Run>,
}

/// Specification image of [`Board`].
pub ghost struct BoardV {
    pub query: QueryV,
    pub runs: Seq<RunV>,
}

impl View for Board {
    type V = BoardV;

    open spec fn view(&self) -> BoardV {
        BoardV { query: self.query@, runs: runs_view(self.runs@) }
    }
}

/// Specification image of [`Source`].
pub ghost struct SourceV {
    pub categories: Seq<(Seq<char>, bool)>,
    pub games: Seq<Seq<char>>,
    pub levels: Seq<Seq<char>>,
    pub boards: Seq<BoardV>,
}

/// Everything the upstream service answers during one pass.
pub struct Source {
    /// Source categories by id, with their individual-level flag.
    pub categories: Vec<SourceCategory>,
    /// Ids of source games that fetch successfully.
    pub games: Vec<String>,
    /// Ids of levels that fetch successfully.
    pub levels: Vec<String>,
    /// The leaderboard for each query the service can answer.
    pub boards: Vec<Board>,
}

impl View for Source {
    type V = SourceV;

    open spec fn view(&self) -> SourceV {
        SourceV {
            categories: self.categories@.map_values(|c: SourceCategory| (c.id@, c.is_il)),
            games: self.games@.map_values(|s: String| s@),
            levels: self.levels@.map_values(|s: String| s@),
            boards: self.boards@.map_values(|b: Board| b@),
        }
    }
}

/// Runs sorted ascending by completion time, ties adjacent.
pub open spec fn sorted_by_time(runs: Seq<RunV>) -> bool {
    forall|i: int, j: int|
        0 <= i <= j < runs.len() ==> (#[trigger] runs[i]).time_ns <= (#[trigger] runs[j]).time_ns
}

/// No run id occurs twice.
pub open spec fn distinct_ids(runs: Seq<RunV>) -> bool {
    forall|i: int, j: int|
        0 <= i < j < runs.len() ==> (#[trigger] runs[i]).id != (#[trigger] runs[j]).id
}

impl SourceV {
    /// What the upstream collaborator promises of its answers: ids and
    /// queries are unique keys, and each leaderboard is sorted ascending by
    /// completion time and lists every run at most once.
    pub open spec fn wf(self) -> bool {
        &&& forall|i: int, j: int|
            0 <= i < j < self.categories.len() ==> (#[trigger] self.categories[i]).0
                != (#[trigger] self.categories[j]).0
        &&& forall|i: int, j: int|
            0 <= i < j < self.boards.len() ==> (#[trigger] self.boards[i]).query
                != (#[trigger] self.boards[j]).query
        &&& forall|i: int| 0 <= i < self.boards.len() ==> sorted_by_time(
            (#[trigger] self.boards[i]).runs,
        )
        &&& forall|i: int| 0 <= i < self.boards.len() ==> distinct_ids(
            (#[trigger] self.boards[i]).runs,
        )
    }

    /// The individual-level flag of the source category, if it fetches.
    pub open spec fn category_of(self, id: Seq<char>) -> Option<bool> {
        if exists|i: int| 0 <= i < self.categories.len() && self.categories[i].0 == id {
            let i = choose|i: int| 0 <= i < self.categories.len() && self.categories[i].0 == id;
            Some(self.categories[i].1)
        } else {
            None
        }
    }

    /// Whether the source game with this id fetches.
    pub open spec fn has_game(self, id: Seq<char>) -> bool {
        self.games.contains(id)
    }

    /// Whether the level with this id fetches.
    pub open spec fn has_level(self, id: Seq<char>) -> bool {
        self.levels.contains(id)
    }

    /// The leaderboard for the query, if the fetch succeeds.
    pub open spec fn board_of(self, q: QueryV) -> Option<Seq<RunV>> {
        if exists|i: int| 0 <= i < self.boards.len() && self.boards[i].query == q {
            let i = choose|i: int| 0 <= i < self.boards.len() && self.boards[i].query == q;
            Some(self.boards[i].runs)
        } else {
            None
        }
    }
}

impl Source {
    /// Look the source category up by id.
    pub fn lookup_category(&self, id: &String) -> (r: Option<bool>)
        requires
            self@.wf(),
        ensures
            r == self@.category_of(id@),
    {
        let mut i: usize = 0;
        while i < self.categories.len()
            invariant
                i <= self.categories.len(),
                forall|j: int| 0 <= j < i ==> (#[trigger] self@.categories[j]).0 != id@,
            decreases self.categories.len() - i,
        {
            if self.categories[i].id == *id {
                assert(self@.categories[i as int].0 == id@);
                return Some(self.categories[i].is_il);
            }
            i = i + 1;
        }
        None
    }

    /// Whether the source game with this id fetches.
    pub fn has_game(&self, id: &String) -> (r: bool)
        ensures
            r == self@.has_game(id@),
    {
        let mut i: usize = 0;
        while i < self.games.len()
            invariant
                i <= self.games.len(),
                forall|j: int| 0 <= j < i ==> #[trigger] self@.games[j] != id@,
            decreases self.games.len() - i,
        {
            if self.games[i] == *id {
                assert(self@.games[i as int] == id@);
                return true;
            }
            i = i + 1;
        }
        false
    }

    /// Whether the level with this id fetches.
    pub fn has_level(&self, id: &String) -> (r: bool)
        ensures
            r == self@.has_level(id@),
    {
        let mut i: usize = 0;
        while i < self.levels.len()
            invariant
                i <= self.levels.len(),
                forall|j: int| 0 <= j < i ==> #[trigger] self@.levels[j] != id@,
            decreases self.levels.len() - i,
        {
            if self.levels[i] == *id {
                assert(self@.levels[i as int] == id@);
                return true;
            }
            i = i + 1;
        }
        false
    }

    /// Look the leaderboard for the query up.
    pub fn lookup_board(&self, q: &Query) -> (r: Option<&Vec<Run>>)
        requires
            self@.wf(),
        ensures
            match r {
                Some(runs) => self@.board_of(q@) == Some(runs_view(runs@)),
                None => self@.board_of(q@) is None,
            },
    {
        let mut i: usize = 0;
        while i < self.boards.len()
            invariant
                i <= self.boards.len(),
                forall|j: int| 0 <= j < i ==> (#[trigger] self@.boards[j]).query != q@,
            decreases self.boards.len() - i,
        {
            if query_eq(&self.boards[i].query, q) {
                assert(self@.boards[i as int].query == q@);
                return Some(&self.boards[i].runs);
            }
            i = i + 1;
        }
        None
    }
}

} // verus!
