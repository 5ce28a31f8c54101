//! The record resolver: entity cache, leaderboard dispatch, memoization.
//!
//! A [`Resolver`] owns the mutable state of one resolution pass: the entity
//! caches (source categories, source games, levels — each fetched at most
//! once per distinct id), the memo of resolved record sets per (game name,
//! category name), and a ghost log of the leaderboard queries dispatched
//! upstream. Configuration and watch-state stay plain immutable data passed
//! by reference into [`Resolver::resolve`].
//!
//! Every memo entry records the fuel its result was computed on and is valid
//! for it: [`Resolver::wf`] ties each entry to
//! [`category_result`]. Fuel monotonicity then justifies serving a cached
//! entry to any caller holding at least that much fuel — in particular a
//! repeated top-level `resolve` returns the cached list and performs no
//! fetch at all.

use vstd::prelude::*;
use crate::config::{Config, GameConfig, find_game};
use crate::data::Data;
use crate::errors::{ConfigurationError, Error, UpstreamError, UpstreamErrorV, ErrorV};
use crate::expand::{cats_view, expand, queries_view};
use crate::run::{Run, clone_runs, runs_view};
use crate::semantics::{category_result, first_missing_level, game_result, has_il,
    lemma_category_result_fuel_mono, lemma_dedup_has_id, lemma_tied_from_take,
    queries_candidates, query_candidates, resolve_cats, subcats_results, tied_prefix,
    watchable_of, full_fuel, finalize, min_time, runs_at, dedup, has_id};
use crate::run::RunV;
use crate::source::{Query, QueryV, Source, SourceCategory, SourceV};

verus! {

/// One memoized record set: the key, the resolved runs, and the fuel the
/// resolution ran on.
pub struct MemoEntry {
    pub game_name: String,
    pub cat_name: String,
    pub runs: Vec<Run>,
    pub fuel: usize,
}

/// The mutable state of one resolution pass.
pub struct Resolver {
    /// Source categories fetched so far, in fetch order.
    pub categories: Vec<SourceCategory>,
    /// Source game ids fetched so far, in fetch order.
    pub games: Vec<String>,
    /// Level ids fetched so far, in fetch order.
    pub levels: Vec<String>,
    /// Record sets resolved so far, keyed by (game name, category name).
    pub memo: Vec<MemoEntry>,
    /// Every leaderboard query dispatched upstream, in dispatch order.
    pub board_log: Ghost<Seq<QueryV>>,
}

impl Resolver {
    /// Whether the source category with this id was fetched already.
    pub open spec fn cached_category(self, id: Seq<char>) -> bool {
        exists|i: int|
            0 <= i < self.categories.len() && (#[trigger] self.categories@[i]).id@ == id
    }

    /// Whether the source game with this id was fetched already.
    pub open spec fn cached_game(self, id: Seq<char>) -> bool {
        exists|i: int| 0 <= i < self.games.len() && (#[trigger] self.games@[i])@ == id
    }

    /// Whether the level with this id was fetched already.
    pub open spec fn cached_level(self, id: Seq<char>) -> bool {
        exists|i: int| 0 <= i < self.levels.len() && (#[trigger] self.levels@[i])@ == id
    }

    /// The entity caches hold each id at most once — one fetch per distinct
    /// id per pass — and agree with the source.
    pub open spec fn entity_wf(self, source: SourceV) -> bool {
        &&& forall|i: int, j: int|
            0 <= i < j < self.categories.len() ==> (#[trigger] self.categories@[i]).id@ != (
            #[trigger] self.categories@[j]).id@
        &&& forall|i: int|
            0 <= i < self.categories.len() ==> source.category_of(
                (#[trigger] self.categories@[i]).id@,
            ) == Some(self.categories@[i].is_il)
        &&& forall|i: int, j: int|
            0 <= i < j < self.games.len() ==> (#[trigger] self.games@[i])@ != (
            #[trigger] self.games@[j])@
        &&& forall|i: int| 0 <= i < self.games.len() ==> source.has_game((#[trigger] self.games@[i])@)
        &&& forall|i: int, j: int|
            0 <= i < j < self.levels.len() ==> (#[trigger] self.levels@[i])@ != (
            #[trigger] self.levels@[j])@
        &&& forall|i: int|
            0 <= i < self.levels.len() ==> source.has_level((#[trigger] self.levels@[i])@)
    }

    /// Whether some record set is memoized under this key.
    pub open spec fn memo_has(self, game_name: Seq<char>, cat_name: Seq<char>) -> bool {
        exists|i: int|
            0 <= i < self.memo.len() && (#[trigger] self.memo@[i]).game_name@ == game_name
                && self.memo@[i].cat_name@ == cat_name
    }

    /// One memo entry is valid: its game exists, its fuel is within the
    /// game's full fuel, and its runs are exactly the category's record set
    /// on that fuel.
    pub open spec fn memo_entry_wf(
        entry: MemoEntry,
        source: SourceV,
        data: crate::data::DataV,
        config: crate::config::ConfigV,
    ) -> bool {
        match find_game(config, entry.game_name@) {
            None => false,
            Some(game) => entry.fuel <= full_fuel(game) && category_result(
                source,
                data,
                game,
                entry.game_name@,
                entry.cat_name@,
                entry.fuel as nat,
            ) == Ok::<_, ErrorV>(runs_view(entry.runs@)),
        }
    }

    /// Memo keys are unique and every entry is valid.
    pub open spec fn memo_wf(
        self,
        source: SourceV,
        data: crate::data::DataV,
        config: crate::config::ConfigV,
    ) -> bool {
        &&& forall|i: int, j: int|
            0 <= i < j < self.memo.len() ==> ((#[trigger] self.memo@[i]).game_name@ != (
            #[trigger] self.memo@[j]).game_name@ || self.memo@[i].cat_name@
                != self.memo@[j].cat_name@)
        &&& forall|i: int|
            0 <= i < self.memo.len() ==> Self::memo_entry_wf(
                #[trigger] self.memo@[i],
                source,
                data,
                config,
            )
    }

    /// The resolver's full invariant for one pass over fixed inputs.
    pub open spec fn wf(
        self,
        source: SourceV,
        data: crate::data::DataV,
        config: crate::config::ConfigV,
    ) -> bool {
        self.entity_wf(source) && self.memo_wf(source, data, config)
    }

    /// A resolution pass starts with empty caches, an empty memo and an
    /// empty fetch log.
    pub fn new() -> (r: Resolver)
        ensures
            forall|source: SourceV, data: crate::data::DataV, config: crate::config::ConfigV|
                #[trigger] r.wf(source, data, config),
            r.board_log@ == Seq::<QueryV>::empty(),
            r.memo@.len() == 0,
    {
        Resolver {
            categories: Vec::new(),
            games: Vec::new(),
            levels: Vec::new(),
            memo: Vec::new(),
            board_log: Ghost(Seq::empty()),
        }
    }

    /// The source category with this id, through the entity cache: at most
    /// one upstream fetch per distinct id per pass.
    pub fn src_category(&mut self, source: &Source, id: &String) -> (r: Result<bool, Error>)
        requires
            source@.wf(),
            old(self).entity_wf(source@),
        ensures
            final(self).entity_wf(source@),
            final(self).memo == old(self).memo,
            final(self).games == old(self).games,
            final(self).levels == old(self).levels,
            final(self).board_log == old(self).board_log,
            old(self).cached_category(id@) ==> *final(self) == *old(self),
            match r {
                Ok(is_il) => source@.category_of(id@) == Some(is_il)
                    && final(self).cached_category(id@),
                Err(e) => source@.category_of(id@) is None && e@ == ErrorV::Upstream(
                    UpstreamErrorV::Category { id: id@ },
                ) && *final(self) == *old(self),
            },
    {
        let mut i: usize = 0;
        while i < self.categories.len()
            invariant
                i <= self.categories.len(),
                forall|j: int| 0 <= j < i ==> (#[trigger] self.categories@[j]).id@ != id@,
            decreases self.categories.len() - i,
        {
            if self.categories[i].id == *id {
                assert(self.categories@[i as int].id@ == id@);
                return Ok(self.categories[i].is_il);
            }
            i = i + 1;
        }
        assert(!self.cached_category(id@));
        match source.lookup_category(id) {
            Some(is_il) => {
                self.categories.push(SourceCategory { id: id.clone(), is_il });
                proof {
                    assert(self.categories@.last().id@ == id@);
                    assert(forall|j: int|
                        0 <= j < self.categories@.len() - 1 ==> self.categories@[j] == (
                        #[trigger] old(self).categories@[j]));
                }
                Ok(is_il)
            },
            None => Err(Error::Upstream(UpstreamError::Category { id: id.clone() })),
        }
    }

    /// The source game with this id, through the entity cache.
    pub fn src_game(&mut self, source: &Source, id: &String) -> (r: Result<(), Error>)
        requires
            source@.wf(),
            old(self).entity_wf(source@),
        ensures
            final(self).entity_wf(source@),
            final(self).memo == old(self).memo,
            final(self).categories == old(self).categories,
            final(self).levels == old(self).levels,
            final(self).board_log == old(self).board_log,
            old(self).cached_game(id@) ==> *final(self) == *old(self),
            match r {
                Ok(_) => source@.has_game(id@) && final(self).cached_game(id@),
                Err(e) => !source@.has_game(id@) && e@ == ErrorV::Upstream(
                    UpstreamErrorV::Game { id: id@ },
                ) && *final(self) == *old(self),
            },
    {
        let mut i: usize = 0;
        while i < self.games.len()
            invariant
                i <= self.games.len(),
                forall|j: int| 0 <= j < i ==> (#[trigger] self.games@[j])@ != id@,
            decreases self.games.len() - i,
        {
            if self.games[i] == *id {
                assert(self.games@[i as int]@ == id@);
                return Ok(());
            }
            i = i + 1;
        }
        assert(!self.cached_game(id@));
        if source.has_game(id) {
            self.games.push(id.clone());
            proof {
                assert(self.games@.last()@ == id@);
                assert(forall|j: int|
                    0 <= j < self.games@.len() - 1 ==> self.games@[j] == (#[trigger] old(
                        self,
                    ).games@[j]));
            }
            Ok(())
        } else {
            Err(Error::Upstream(UpstreamError::Game { id: id.clone() }))
        }
    }

    /// The level with this id, through the entity cache.
    pub fn level(&mut self, source: &Source, id: &String) -> (r: Result<(), Error>)
        requires
            source@.wf(),
            old(self).entity_wf(source@),
        ensures
            final(self).entity_wf(source@),
            final(self).memo == old(self).memo,
            final(self).categories == old(self).categories,
            final(self).games == old(self).games,
            final(self).board_log == old(self).board_log,
            old(self).cached_level(id@) ==> *final(self) == *old(self),
            match r {
                Ok(_) => source@.has_level(id@) && final(self).cached_level(id@),
                Err(e) => !source@.has_level(id@) && e@ == ErrorV::Upstream(
                    UpstreamErrorV::Level { id: id@ },
                ) && *final(self) == *old(self),
            },
    {
        let mut i: usize = 0;
        while i < self.levels.len()
            invariant
                i <= self.levels.len(),
                forall|j: int| 0 <= j < i ==> (#[trigger] self.levels@[j])@ != id@,
            decreases self.levels.len() - i,
        {
            if self.levels[i] == *id {
                assert(self.levels@[i as int]@ == id@);
                return Ok(());
            }
            i = i + 1;
        }
        assert(!self.cached_level(id@));
        if source.has_level(id) {
            self.levels.push(id.clone());
            proof {
                assert(self.levels@.last()@ == id@);
                assert(forall|j: int|
                    0 <= j < self.levels@.len() - 1 ==> self.levels@[j] == (#[trigger] old(
                        self,
                    ).levels@[j]));
            }
            Ok(())
        } else {
            Err(Error::Upstream(UpstreamError::Level { id: id.clone() }))
        }
    }

    /// Fetch every configured level, in order; the first level the source
    /// cannot answer fails the call.
    pub fn require_levels(&mut self, source: &Source, levels: &Vec<String>) -> (r: Result<
        (),
        Error,
    >)
        requires
            source@.wf(),
            old(self).entity_wf(source@),
        ensures
            final(self).entity_wf(source@),
            final(self).memo == old(self).memo,
            final(self).categories == old(self).categories,
            final(self).games == old(self).games,
            final(self).board_log == old(self).board_log,
            match r {
                Ok(_) => first_missing_level(
                    source@,
                    levels@.map_values(|s: String| s@),
                ) is None,
                Err(e) => first_missing_level(source@, levels@.map_values(|s: String| s@))
                    matches Some(l) && e@ == ErrorV::Upstream(UpstreamErrorV::Level { id: l }),
            },
    {
        let ghost lv = levels@.map_values(|s: String| s@);
        proof {
            assert(lv.skip(0) =~= lv);
        }
        let mut i: usize = 0;
        while i < levels.len()
            invariant
                i <= levels.len(),
                first_missing_level(source@, lv) == first_missing_level(
                    source@,
                    lv.skip(i as int),
                ),
                self.entity_wf(source@),
                self.memo == old(self).memo,
                self.categories == old(self).categories,
                self.games == old(self).games,
                self.board_log == old(self).board_log,
            decreases levels.len() - i,
        {
            let ghost rest = lv.skip(i as int);
            match self.level(source, &levels[i]) {
                Ok(_) => {
                    proof {
                        assert(rest[0] == lv[i as int]);
                        assert(source@.has_level(rest[0]));
                        assert(rest.skip(1) =~= lv.skip(i + 1 as int));
                    }
                },
                Err(e) => {
                    proof {
                        assert(rest[0] == lv[i as int]);
                        assert(first_missing_level(source@, rest) == Some(lv[i as int]));
                    }
                    return Err(e);
                },
            }
            i = i + 1;
        }
        proof {
            assert(lv.skip(lv.len() as int) =~= Seq::<Seq<char>>::empty());
        }
        Ok(())
    }

    /// Dispatch one leaderboard query upstream. Every call is one fetch:
    /// leaderboards themselves are not cached, only resolved record sets.
    fn leaderboard(&mut self, source: &Source, q: &Query) -> (r: Result<Vec<Run>, Error>)
        requires
            source@.wf(),
        ensures
            final(self).memo == old(self).memo,
            final(self).categories == old(self).categories,
            final(self).games == old(self).games,
            final(self).levels == old(self).levels,
            final(self).board_log@ == old(self).board_log@.push(q@),
            match r {
                Ok(runs) => source@.board_of(q@) == Some(runs_view(runs@)),
                Err(e) => source@.board_of(q@) is None && e@ == ErrorV::Upstream(
                    UpstreamErrorV::Leaderboard { query: q@ },
                ),
            },
    {
        let ghost log = self.board_log@;
        proof {
            self.board_log@ = log.push(q@);
        }
        match source.lookup_board(q) {
            Some(runs) => Ok(clone_runs(runs)),
            None => Err(Error::Upstream(UpstreamError::Leaderboard { query: q.clone() })),
        }
    }


    /// The candidates of one leaderboard query: dispatch the fetch, drop
    /// unwatchable runs, keep the tied-fastest prefix.
    fn fetch_candidates(&mut self, source: &Source, data: &Data, q: &Query) -> (r: Result<
        Vec<Run>,
        Error,
    >)
        requires
            source@.wf(),
            data@.wf(),
        ensures
            final(self).memo == old(self).memo,
            final(self).categories == old(self).categories,
            final(self).games == old(self).games,
            final(self).levels == old(self).levels,
            final(self).board_log@ == old(self).board_log@.push(q@),
            match r {
                Ok(c) => query_candidates(source@, data@, q@) == Ok::<_, ErrorV>(
                    runs_view(c@),
                ),
                Err(e) => query_candidates(source@, data@, q@) == Err::<Seq<RunV>, _>(e@),
            },
    {
        match self.leaderboard(source, q) {
            Ok(runs) => {
                let w = watchable_runs(data, &runs);
                Ok(tied_prefix_runs(&w))
            },
            Err(e) => Err(e),
        }
    }

    /// Collect the candidates of every expanded query, in order: one
    /// leaderboard fetch per query, the first failing fetch aborting the
    /// collection.
    fn collect_candidates(&mut self, source: &Source, data: &Data, queries: &Vec<Query>) -> (r:
        Result<Vec<Run>, Error>)
        requires
            source@.wf(),
            data@.wf(),
        ensures
            final(self).memo == old(self).memo,
            final(self).categories == old(self).categories,
            final(self).games == old(self).games,
            final(self).levels == old(self).levels,
            match r {
                Ok(pool) => queries_candidates(source@, data@, queries_view(queries@))
                    == Ok::<_, ErrorV>(runs_view(pool@)) && final(self).board_log@ == old(
                    self,
                ).board_log@ + queries_view(queries@),
                Err(e) => queries_candidates(source@, data@, queries_view(queries@))
                    == Err::<Seq<RunV>, _>(e@),
            },
    {
        let ghost qv = queries_view(queries@);
        let ghost log0 = self.board_log@;
        proof {
            assert(qv.skip(0) =~= qv);
            assert(log0 + qv.take(0) =~= log0);
        }
        let mut pool: Vec<Run> = Vec::new();
        let mut i: usize = 0;
        while i < queries.len()
            invariant
                i <= queries.len(),
                self.memo == old(self).memo,
                self.categories == old(self).categories,
                self.games == old(self).games,
                self.levels == old(self).levels,
                self.board_log@ == log0 + qv.take(i as int),
                match queries_candidates(source@, data@, qv.skip(i as int)) {
                    Ok(rest) => queries_candidates(source@, data@, qv) == Ok::<_, ErrorV>(
                        runs_view(pool@) + rest,
                    ),
                    Err(e) => queries_candidates(source@, data@, qv) == Err::<Seq<RunV>, _>(e),
                },
            decreases queries.len() - i,
        {
            let ghost rest = qv.skip(i as int);
            proof {
                assert(rest[0] == qv[i as int]);
                assert(rest.skip(1) =~= qv.skip(i + 1 as int));
                assert(queries@[i as int]@ == qv[i as int]);
            }
            match self.fetch_candidates(source, data, &queries[i]) {
                Ok(mut c) => {
                    let ghost poolv = runs_view(pool@);
                    let ghost cv = runs_view(c@);
                    pool.append(&mut c);
                    proof {
                        assert(runs_view(pool@) =~= poolv + cv);
                        assert(self.board_log@ =~= log0 + qv.take(i + 1 as int));
                        if queries_candidates(source@, data@, qv.skip(i + 1 as int)) is Ok {
                            let r2 = queries_candidates(
                                source@,
                                data@,
                                qv.skip(i + 1 as int),
                            )->Ok_0;
                            assert(poolv + (cv + r2) =~= (poolv + cv) + r2);
                        }
                    }
                },
                Err(e) => {
                    return Err(e);
                },
            }
            i = i + 1;
        }
        proof {
            assert(qv.skip(qv.len() as int) =~= Seq::<QueryV>::empty());
            assert(runs_view(pool@) + Seq::<RunV>::empty() =~= runs_view(pool@));
            assert(qv.take(qv.len() as int) =~= qv);
        }
        Ok(pool)
    }


    /// Whether a record set memoized under this key was computed on at most
    /// this much fuel, so a caller holding this fuel can be served from it.
    pub open spec fn memo_hit(self, game_name: Seq<char>, cat_name: Seq<char>, fuel: nat) -> bool {
        exists|i: int|
            0 <= i < self.memo.len() && (#[trigger] self.memo@[i]).game_name@ == game_name
                && self.memo@[i].cat_name@ == cat_name && self.memo@[i].fuel <= fuel
    }

    /// Resolve one category of `game` on the given fuel: serve the memoized
    /// record set when one is usable, otherwise expand, fetch, filter,
    /// recurse into sub-categories on one unit less fuel, tie-break, and
    /// memoize.
    fn resolve_category(
        &mut self,
        source: &Source,
        data: &Data,
        config: &Config,
        game: &GameConfig,
        game_name: &String,
        cat_name: &String,
        fuel: usize,
    ) -> (r: Result<Vec<Run>, Error>)
        requires
            source@.wf(),
            data@.wf(),
            config@.wf(),
            old(self).wf(source@, data@, config@),
            find_game(config@, game_name@) == Some(game@),
            fuel <= full_fuel(game@),
        ensures
            final(self).wf(source@, data@, config@),
            match r {
                Ok(rs) => category_result(
                    source@,
                    data@,
                    game@,
                    game_name@,
                    cat_name@,
                    fuel as nat,
                ) == Ok::<_, ErrorV>(runs_view(rs@)),
                Err(e) => category_result(
                    source@,
                    data@,
                    game@,
                    game_name@,
                    cat_name@,
                    fuel as nat,
                ) == Err::<Seq<RunV>, _>(e@),
            },
            r is Ok ==> final(self).memo_has(game_name@, cat_name@),
            old(self).memo_hit(game_name@, cat_name@, fuel as nat) ==> *final(self) == *old(
                self,
            ),
        decreases fuel,
    {
        let hit = self.memo_find(game_name, cat_name);
        if let Some(idx) = hit {
            // an entry is reusable only by a caller holding at least the fuel
            // it was computed on; a deeper caller recomputes instead
            if self.memo[idx].fuel <= fuel {
                let out = clone_runs(&self.memo[idx].runs);
                proof {
                    let entry = self.memo@[idx as int];
                    assert(Self::memo_entry_wf(entry, source@, data@, config@));
                    lemma_category_result_fuel_mono(
                        source@,
                        data@,
                        game@,
                        game_name@,
                        cat_name@,
                        entry.fuel as nat,
                        fuel as nat,
                    );
                }
                return Ok(out);
            }
        }
        proof {
            if old(self).memo_hit(game_name@, cat_name@, fuel as nat) {
                let j = choose|j: int|
                    0 <= j < self.memo.len() && (#[trigger] self.memo@[j]).game_name@
                        == game_name@ && self.memo@[j].cat_name@ == cat_name@
                        && self.memo@[j].fuel <= fuel;
                match hit {
                    Some(idx) => {
                        assert(j == idx as int);
                        assert(false);
                    },
                    None => {
                        assert(self.memo_has(game_name@, cat_name@));
                        assert(false);
                    },
                }
            }
        }
        let cfg = match game.category(cat_name) {
            Some(c) => c,
            None => {
                return Err(
                    Error::Configuration(
                        ConfigurationError::NoSuchCategory {
                            game_name: game_name.clone(),
                            cat_name: cat_name.clone(),
                        },
                    ),
                );
            },
        };
        if fuel == 0 {
            return Err(
                Error::Configuration(
                    ConfigurationError::SubcategoryCycle {
                        game_name: game_name.clone(),
                        cat_name: cat_name.clone(),
                    },
                ),
            );
        }
        let ghost idsv = cfg@.src_categories;
        proof {
            assert(idsv.skip(0) =~= idsv);
        }
        let mut cats: Vec<SourceCategory> = Vec::new();
        let mut i: usize = 0;
        while i < cfg.src_categories.len()
            invariant
                i <= cfg.src_categories.len(),
                self.entity_wf(source@),
                self.memo == old(self).memo,
                match resolve_cats(source@, idsv.skip(i as int)) {
                    Ok(rest) => resolve_cats(source@, idsv) == Ok::<_, ErrorV>(
                        cats_view(cats@) + rest,
                    ),
                    Err(e) => resolve_cats(source@, idsv) == Err::<Seq<(Seq<char>, bool)>, _>(
                        e,
                    ),
                },
            decreases cfg.src_categories.len() - i,
        {
            let ghost rest = idsv.skip(i as int);
            proof {
                assert(rest[0] == idsv[i as int]);
                assert(idsv[i as int] == cfg.src_categories@[i as int]@);
                assert(rest.skip(1) =~= idsv.skip(i + 1 as int));
            }
            match self.src_category(source, &cfg.src_categories[i]) {
                Ok(is_il) => {
                    let ghost cview = cats_view(cats@);
                    cats.push(SourceCategory { id: cfg.src_categories[i].clone(), is_il });
                    proof {
                        assert(cats_view(cats@) =~= cview + seq![(idsv[i as int], is_il)]);
                        if resolve_cats(source@, idsv.skip(i + 1 as int)) is Ok {
                            let r2 = resolve_cats(source@, idsv.skip(i + 1 as int))->Ok_0;
                            assert(cview + (seq![(idsv[i as int], is_il)] + r2) =~= (cview
                                + seq![(idsv[i as int], is_il)]) + r2);
                        }
                    }
                },
                Err(e) => {
                    return Err(e);
                },
            }
            i = i + 1;
        }
        proof {
            assert(idsv.skip(idsv.len() as int) =~= Seq::<Seq<char>>::empty());
            assert(cats_view(cats@) + Seq::<(Seq<char>, bool)>::empty() =~= cats_view(cats@));
        }
        let any_il = any_individual_level(&cats);
        if any_il {
            match self.require_levels(source, &cfg.levels) {
                Ok(_) => {},
                Err(e) => {
                    return Err(e);
                },
            }
        }
        let queries = expand(cfg, &cats);
        let mut pool = match self.collect_candidates(source, data, &queries) {
            Ok(p) => p,
            Err(e) => {
                return Err(e);
            },
        };
        let ghost directv = runs_view(pool@);
        let ghost subv = cfg@.subcategories;
        let ghost subfuel = (fuel - 1) as nat;
        let ghost mut subsofar: Seq<RunV> = Seq::empty();
        proof {
            assert(subv.skip(0) =~= subv);
            assert(directv + subsofar =~= directv);
        }
        let mut s: usize = 0;
        while s < cfg.subcategories.len()
            invariant
                s <= cfg.subcategories.len(),
                1 <= fuel,
                subfuel == (fuel - 1) as nat,
                self.wf(source@, data@, config@),
                runs_view(pool@) == directv + subsofar,
                match subcats_results(source@, data@, game@, game_name@, subv.skip(s as int), subfuel) {
                    Ok(rest) => subcats_results(source@, data@, game@, game_name@, subv, subfuel)
                        == Ok::<_, ErrorV>(subsofar + rest),
                    Err(e) => subcats_results(source@, data@, game@, game_name@, subv, subfuel)
                        == Err::<Seq<RunV>, _>(e),
                },
            decreases cfg.subcategories.len() - s,
        {
            let ghost rest = subv.skip(s as int);
            proof {
                assert(rest[0] == subv[s as int]);
                assert(subv[s as int] == cfg.subcategories@[s as int]@);
                assert(rest.skip(1) =~= subv.skip(s + 1 as int));
            }
            match self.resolve_category(
                source,
                data,
                config,
                game,
                game_name,
                &cfg.subcategories[s],
                fuel - 1,
            ) {
                Ok(mut sub) => {
                    let ghost subview = runs_view(sub@);
                    let ghost sofar0 = subsofar;
                    pool.append(&mut sub);
                    proof {
                        assert(runs_view(pool@) =~= (directv + sofar0) + subview);
                        subsofar = sofar0 + subview;
                        assert(directv + subsofar =~= (directv + sofar0) + subview);
                        if subcats_results(source@, data@, game@, game_name@, subv.skip(
                            s + 1 as int,
                        ), subfuel) is Ok {
                            let r2 = subcats_results(
                                source@,
                                data@,
                                game@,
                                game_name@,
                                subv.skip(s + 1 as int),
                                subfuel,
                            )->Ok_0;
                            assert(sofar0 + (subview + r2) =~= (sofar0 + subview) + r2);
                        }
                    }
                },
                Err(e) => {
                    return Err(e);
                },
            }
            s = s + 1;
        }
        proof {
            assert(subv.skip(subv.len() as int) =~= Seq::<Seq<char>>::empty());
            assert(subsofar + Seq::<RunV>::empty() =~= subsofar);
        }
        let out = finalize_pool(&pool);
        proof {
            assert(category_result(source@, data@, game@, game_name@, cat_name@, fuel as nat)
                == Ok::<_, ErrorV>(runs_view(out@)));
        }
        // the key can be occupied here: this resolution may itself have been a
        // recomputation past an entry whose fuel was above the caller's
        match self.memo_find(game_name, cat_name) {
            None => {
                let ghost pre = self.memo@;
                let entry = MemoEntry {
                    game_name: game_name.clone(),
                    cat_name: cat_name.clone(),
                    runs: clone_runs(&out),
                    fuel,
                };
                self.memo.push(entry);
                proof {
                    assert(forall|j: int|
                        0 <= j < pre.len() ==> self.memo@[j] == #[trigger] pre[j]);
                    assert(self.memo@[pre.len() as int].game_name@ == game_name@);
                    assert(Self::memo_entry_wf(
                        self.memo@[pre.len() as int],
                        source@,
                        data@,
                        config@,
                    ));
                }
            },
            Some(_) => {},
        }
        Ok(out)
    }

    /// Resolve the named category of the named game to its current record
    /// set: the tied globally fastest watchable runs across every concrete
    /// leaderboard and every sub-category, each run listed once.
    ///
    /// The result is memoized: resolving the same (game, category) again in
    /// the same pass returns the cached list unchanged and performs no
    /// upstream fetch.
    pub fn resolve(
        &mut self,
        source: &Source,
        data: &Data,
        config: &Config,
        game_name: &String,
        cat_name: &String,
    ) -> (r: Result<Vec<Run>, Error>)
        requires
            source@.wf(),
            data@.wf(),
            config@.wf(),
            old(self).wf(source@, data@, config@),
        ensures
            final(self).wf(source@, data@, config@),
            match r {
                Ok(rs) => game_result(source@, data@, config@, game_name@, cat_name@)
                    == Ok::<_, ErrorV>(runs_view(rs@)),
                Err(e) => game_result(source@, data@, config@, game_name@, cat_name@)
                    == Err::<Seq<RunV>, _>(e@),
            },
            r is Ok ==> final(self).memo_has(game_name@, cat_name@),
            old(self).memo_has(game_name@, cat_name@) ==> *final(self) == *old(self),
    {
        let game = match config.game(game_name) {
            Some(g) => g,
            None => {
                proof {
                    if old(self).memo_has(game_name@, cat_name@) {
                        let j = choose|j: int|
                            0 <= j < self.memo.len() && (#[trigger] self.memo@[j]).game_name@
                                == game_name@ && self.memo@[j].cat_name@ == cat_name@;
                        assert(Self::memo_entry_wf(self.memo@[j], source@, data@, config@));
                        assert(false);
                    }
                }
                return Err(
                    Error::Configuration(
                        ConfigurationError::NoSuchGame { game_name: game_name.clone() },
                    ),
                );
            },
        };
        let fuel = game.categories.len();
        proof {
            assert(full_fuel(game@) == game.categories@.len());
            if old(self).memo_has(game_name@, cat_name@) {
                let j = choose|j: int|
                    0 <= j < self.memo.len() && (#[trigger] self.memo@[j]).game_name@
                        == game_name@ && self.memo@[j].cat_name@ == cat_name@;
                assert(Self::memo_entry_wf(self.memo@[j], source@, data@, config@));
                assert(self.memo@[j].fuel <= fuel);
                assert(old(self).memo_hit(game_name@, cat_name@, fuel as nat));
            }
        }
        self.resolve_category(source, data, config, game, game_name, cat_name, fuel)
    }


    /// Fetch every upstream game the configured game references, in order,
    /// through the entity cache; the ids are returned for presentation. The
    /// first id the source cannot answer fails the call.
    pub fn src_games(&mut self, source: &Source, game: &GameConfig) -> (r: Result<
        Vec<String>,
        Error,
    >)
        requires
            source@.wf(),
            old(self).entity_wf(source@),
        ensures
            final(self).entity_wf(source@),
            final(self).memo == old(self).memo,
            final(self).categories == old(self).categories,
            final(self).levels == old(self).levels,
            final(self).board_log == old(self).board_log,
            match r {
                Ok(ids) => ids@.map_values(|s: String| s@) == game@.src_games && forall|i: int|
                    0 <= i < game@.src_games.len() ==> source@.has_game(
                        #[trigger] game@.src_games[i],
                    ),
                Err(e) => exists|i: int|
                    0 <= i < game@.src_games.len() && !source@.has_game(
                        #[trigger] game@.src_games[i],
                    ) && e@ == ErrorV::Upstream(UpstreamErrorV::Game { id: game@.src_games[i] }),
            },
    {
        let ghost gv = game@.src_games;
        let mut out: Vec<String> = Vec::new();
        let mut i: usize = 0;
        while i < game.src_games.len()
            invariant
                i <= game.src_games.len(),
                self.entity_wf(source@),
                self.memo == old(self).memo,
                self.categories == old(self).categories,
                self.levels == old(self).levels,
                self.board_log == old(self).board_log,
                out@.map_values(|s: String| s@) == gv.take(i as int),
                forall|j: int| 0 <= j < i ==> source@.has_game(#[trigger] gv[j]),
            decreases game.src_games.len() - i,
        {
            proof {
                assert(gv[i as int] == game.src_games@[i as int].id@);
            }
            match self.src_game(source, &game.src_games[i].id) {
                Ok(_) => {
                    out.push(game.src_games[i].id.clone());
                    proof {
                        assert(out@.map_values(|s: String| s@) =~= gv.take(i + 1 as int));
                    }
                },
                Err(e) => {
                    return Err(e);
                },
            }
            i = i + 1;
        }
        proof {
            assert(gv.take(gv.len() as int) =~= gv);
        }
        Ok(out)
    }

    /// The index of the memo entry under this key, if one exists.
    fn memo_find(&self, game_name: &String, cat_name: &String) -> (r: Option<usize>)
        ensures
            match r {
                Some(i) => i < self.memo.len() && self.memo@[i as int].game_name@ == game_name@
                    && self.memo@[i as int].cat_name@ == cat_name@,
                None => !self.memo_has(game_name@, cat_name@),
            },
    {
        let mut i: usize = 0;
        while i < self.memo.len()
            invariant
                i <= self.memo.len(),
                forall|j: int|
                    0 <= j < i ==> ((#[trigger] self.memo@[j]).game_name@ != game_name@
                        || self.memo@[j].cat_name@ != cat_name@),
            decreases self.memo.len() - i,
        {
            if self.memo[i].game_name == *game_name && self.memo[i].cat_name == *cat_name {
                return Some(i);
            }
            i = i + 1;
        }
        None
    }
}


/// The runs of one leaderboard not marked unwatchable, in order.
fn watchable_runs(data: &Data, runs: &Vec<Run>) -> (r: Vec<Run>)
    requires
        data@.wf(),
    ensures
        runs_view(r@) == watchable_of(data@, runs_view(runs@)),
{
    let ghost rv = runs_view(runs@);
    let mut out: Vec<Run> = Vec::new();
    let mut i: usize = 0;
    while i < runs.len()
        invariant
            i <= runs.len(),
            runs_view(out@) == watchable_of(data@, rv.take(i as int)),
        decreases runs.len() - i,
    {
        let unwatchable = data.is_unwatchable(&runs[i].id);
        proof {
            assert(rv.take(i + 1 as int).drop_last() =~= rv.take(i as int));
            assert(rv.take(i + 1 as int).last() == rv[i as int]);
            assert(rv[i as int] == runs@[i as int]@);
        }
        if !unwatchable {
            out.push(runs[i].clone());
            proof {
                assert(runs_view(out@) =~= watchable_of(data@, rv.take(i as int)) + seq![
                    rv[i as int],
                ]);
            }
        } else {
            proof {
                assert(watchable_of(data@, rv.take(i as int)) + Seq::<RunV>::empty()
                    =~= watchable_of(data@, rv.take(i as int)));
            }
        }
        i = i + 1;
    }
    proof {
        assert(rv.take(rv.len() as int) =~= rv);
    }
    out
}

/// The maximal prefix of the (already filtered, sorted) runs tied at the
/// first run's completion time.
fn tied_prefix_runs(runs: &Vec<Run>) -> (r: Vec<Run>)
    ensures
        runs_view(r@) == tied_prefix(runs_view(runs@)),
{
    let ghost rv = runs_view(runs@);
    let mut out: Vec<Run> = Vec::new();
    if runs.len() == 0 {
        proof {
            assert(runs_view(out@) =~= rv);
        }
        return out;
    }
    let ghost t0 = rv[0].time_ns;
    let mut n: usize = 0;
    while n < runs.len() && runs[n].time.time_eq(&runs[0].time)
        invariant
            n <= runs.len(),
            forall|k: int| 0 <= k < n ==> (#[trigger] rv[k]).time_ns == t0,
        decreases runs.len() - n,
    {
        proof {
            assert(rv[n as int] == runs@[n as int]@);
        }
        n = n + 1;
    }
    proof {
        if n < runs.len() {
            assert(rv[n as int] == runs@[n as int]@);
        }
        lemma_tied_from_take(rv, t0, n as int);
    }
    let mut k: usize = 0;
    while k < n
        invariant
            k <= n <= runs.len(),
            runs_view(out@) == rv.take(k as int),
        decreases n - k,
    {
        out.push(runs[k].clone());
        proof {
            assert(runs_view(out@) =~= rv.take(k + 1 as int));
        }
        k = k + 1;
    }
    out
}

/// Whether some run in the list carries this id.
fn contains_id(v: &Vec<Run>, id: &String) -> (r: bool)
    ensures
        r == has_id(runs_view(v@), id@),
{
    let ghost rv = runs_view(v@);
    let mut i: usize = 0;
    while i < v.len()
        invariant
            i <= v.len(),
            forall|j: int| 0 <= j < i ==> (#[trigger] rv[j]).id != id@,
        decreases v.len() - i,
    {
        if v[i].id == *id {
            proof {
                assert(rv[i as int].id == id@);
            }
            return true;
        }
        proof {
            assert(rv[i as int] == v@[i as int]@);
        }
        i = i + 1;
    }
    false
}

/// Apply the global tie-break and de-duplication to a merged candidate pool.
fn finalize_pool(pool: &Vec<Run>) -> (r: Vec<Run>)
    ensures
        runs_view(r@) == finalize(runs_view(pool@)),
{
    let ghost pv = runs_view(pool@);
    if pool.len() == 0 {
        let out: Vec<Run> = Vec::new();
        proof {
            assert(runs_view(out@) =~= pv);
        }
        return out;
    }
    let mut m: crate::run::RunTime = pool[0].time;
    proof {
        assert(pv.take(1)[0] == pv[0]);
        assert(pv[0] == pool@[0]@);
        assert(min_time(pv.take(1)) == pv[0].time_ns);
    }
    let mut i: usize = 1;
    while i < pool.len()
        invariant
            1 <= i <= pool.len(),
            m.as_nanos() == min_time(pv.take(i as int)),
        decreases pool.len() - i,
    {
        proof {
            assert(pv.take(i + 1 as int).drop_last() =~= pv.take(i as int));
            assert(pv.take(i + 1 as int).last() == pv[i as int]);
            assert(pv[i as int] == pool@[i as int]@);
        }
        if pool[i].time.le(&m) {
            m = pool[i].time;
        }
        i = i + 1;
    }
    proof {
        assert(pv.take(pv.len() as int) =~= pv);
    }
    let mut sel: Vec<Run> = Vec::new();
    let mut k: usize = 0;
    while k < pool.len()
        invariant
            k <= pool.len(),
            runs_view(sel@) == runs_at(pv.take(k as int), m.as_nanos()),
        decreases pool.len() - k,
    {
        proof {
            assert(pv.take(k + 1 as int).drop_last() =~= pv.take(k as int));
            assert(pv.take(k + 1 as int).last() == pv[k as int]);
            assert(pv[k as int] == pool@[k as int]@);
        }
        if pool[k].time.time_eq(&m) {
            sel.push(pool[k].clone());
            proof {
                assert(runs_view(sel@) =~= runs_at(pv.take(k as int), m.as_nanos()) + seq![
                    pv[k as int],
                ]);
            }
        } else {
            proof {
                assert(runs_at(pv.take(k as int), m.as_nanos()) + Seq::<RunV>::empty()
                    =~= runs_at(pv.take(k as int), m.as_nanos()));
            }
        }
        k = k + 1;
    }
    proof {
        assert(pv.take(pv.len() as int) =~= pv);
    }
    let ghost sv = runs_view(sel@);
    let mut out: Vec<Run> = Vec::new();
    let mut d: usize = 0;
    while d < sel.len()
        invariant
            d <= sel.len(),
            runs_view(out@) == dedup(sv.take(d as int)),
        decreases sel.len() - d,
    {
        proof {
            assert(sv.take(d + 1 as int).drop_last() =~= sv.take(d as int));
            assert(sv.take(d + 1 as int).last() == sv[d as int]);
            assert(sv[d as int] == sel@[d as int]@);
            lemma_dedup_has_id(sv.take(d as int), sv[d as int].id);
        }
        if !contains_id(&out, &sel[d].id) {
            out.push(sel[d].clone());
            proof {
                assert(runs_view(out@) =~= dedup(sv.take(d as int)).push(sv[d as int]));
            }
        }
        d = d + 1;
    }
    proof {
        assert(sv.take(sv.len() as int) =~= sv);
    }
    out
}


/// Whether any resolved source category is individual-level.
fn any_individual_level(cats: &Vec<SourceCategory>) -> (r: bool)
    ensures
        r == has_il(cats_view(cats@)),
{
    let ghost cv = cats_view(cats@);
    let mut i: usize = 0;
    while i < cats.len()
        invariant
            i <= cats.len(),
            forall|j: int| 0 <= j < i ==> !(#[trigger] cv[j]).1,
        decreases cats.len() - i,
    {
        if cats[i].is_il {
            proof {
                assert(cv[i as int].1);
            }
            return true;
        }
        proof {
            assert(cv[i as int] == (cats@[i as int].id@, cats@[i as int].is_il));
        }
        i = i + 1;
    }
    false
}

} // verus!
