//! What resolution means.
//!
//! These specification functions define, over the images of the input data,
//! the exact record set (or error) that resolving a category must produce:
//! the expansion of a category configuration into concrete leaderboard
//! queries, the per-query candidate runs, the recursive merge of
//! sub-category records, the global tie-break and the de-duplication by run
//! identity. The executable resolver in [`crate::model`] is verified to
//! return precisely these values.
//!
//! Sub-category recursion is bounded by a fuel value. A resolution pass
//! starts with as much fuel as the game has categories, so a sub-category
//! chain can exhaust it only by repeating a category; running out reports a
//! [`ConfigurationErrorV::SubcategoryCycle`]. The fuel-monotonicity lemmas
//! below show that any successfully resolved record set is independent of the
//! exact fuel value, which lets memoized results be reused at any recursion
//! depth.

use vstd::prelude::*;
use crate::config::{CategoryConfigV, GameConfigV, ConfigV, VariableValuesV, find_category,
    find_game};
use crate::data::DataV;
use crate::errors::{ConfigurationErrorV, ErrorV, UpstreamErrorV};
use crate::run::RunV;
use crate::source::{ChoiceV, FilterV, QueryV, SourceV};

verus! {

// ---------------------------------------------------------------------------
// Entity resolution
// ---------------------------------------------------------------------------

/// Look every referenced source category up, in order; the first id the
/// source cannot answer fails the whole lookup.
pub open spec fn resolve_cats(source: SourceV, ids: Seq<Seq<char>>) -> Result<
    Seq<(Seq<char>, bool)>,
    ErrorV,
>
    decreases ids.len(),
{
    if ids.len() == 0 {
        Ok(Seq::empty())
    } else {
        match source.category_of(ids[0]) {
            None => Err(ErrorV::Upstream(UpstreamErrorV::Category { id: ids[0] })),
            Some(is_il) => match resolve_cats(source, ids.skip(1)) {
                Err(e) => Err(e),
                Ok(rest) => Ok(seq![(ids[0], is_il)] + rest),
            },
        }
    }
}

/// The first configured level the source cannot answer, if any.
pub open spec fn first_missing_level(source: SourceV, levels: Seq<Seq<char>>) -> Option<Seq<char>>
    decreases levels.len(),
{
    if levels.len() == 0 {
        None
    } else if !source.has_level(levels[0]) {
        Some(levels[0])
    } else {
        first_missing_level(source, levels.skip(1))
    }
}

/// Whether any referenced source category is individual-level.
pub open spec fn has_il(cats: Seq<(Seq<char>, bool)>) -> bool {
    exists|i: int| 0 <= i < cats.len() && (#[trigger] cats[i]).1
}

// ---------------------------------------------------------------------------
// Query expansion
// ---------------------------------------------------------------------------

/// One combination extended by every allowed value of one more variable.
pub open spec fn combo_values(combo: FilterV, var: VariableValuesV) -> Seq<FilterV> {
    var.values.map_values(
        |v: Seq<char>| combo.push(ChoiceV { variable: var.variable, value: v }),
    )
}

/// Every combination extended by every allowed value of one more variable,
/// combination-major.
pub open spec fn extend_combos(combos: Seq<FilterV>, var: VariableValuesV) -> Seq<FilterV>
    decreases combos.len(),
{
    if combos.len() == 0 {
        Seq::empty()
    } else {
        extend_combos(combos.drop_last(), var) + combo_values(combos.last(), var)
    }
}

/// The Cartesian product of the allowed values across all filtered
/// variables: every complete filter, earlier variables varying slowest.
pub open spec fn filter_combos(vars: Seq<VariableValuesV>) -> Seq<FilterV>
    decreases vars.len(),
{
    if vars.len() == 0 {
        seq![Seq::<ChoiceV>::empty()]
    } else {
        extend_combos(filter_combos(vars.drop_last()), vars.last())
    }
}

/// The filters a category's queries carry: the unfiltered query when no
/// variable is restricted, otherwise one filter per combination.
pub open spec fn filters_of(cfg: CategoryConfigV) -> Seq<Option<FilterV>> {
    if cfg.variable_state.len() == 0 {
        seq![None]
    } else {
        filter_combos(cfg.variable_state).map_values(|c: FilterV| Some(c))
    }
}

/// The queries one (source category, filter) pair expands to: one per
/// configured level for an individual-level category, else a single
/// whole-category query.
pub open spec fn pair_queries(
    cat: (Seq<char>, bool),
    filter: Option<FilterV>,
    levels: Seq<Seq<char>>,
) -> Seq<QueryV> {
    if cat.1 {
        levels.map_values(|l: Seq<char>| QueryV { cat_id: cat.0, level_id: Some(l), filter })
    } else {
        seq![QueryV { cat_id: cat.0, level_id: None, filter }]
    }
}

/// The queries of one filter across every referenced source category.
pub open spec fn filter_queries(
    cats: Seq<(Seq<char>, bool)>,
    filter: Option<FilterV>,
    levels: Seq<Seq<char>>,
) -> Seq<QueryV>
    decreases cats.len(),
{
    if cats.len() == 0 {
        Seq::empty()
    } else {
        filter_queries(cats.drop_last(), filter, levels) + pair_queries(
            cats.last(),
            filter,
            levels,
        )
    }
}

/// Every concrete leaderboard query of a category, filter-major.
pub open spec fn queries_of(
    filters: Seq<Option<FilterV>>,
    cats: Seq<(Seq<char>, bool)>,
    levels: Seq<Seq<char>>,
) -> Seq<QueryV>
    decreases filters.len(),
{
    if filters.len() == 0 {
        Seq::empty()
    } else {
        queries_of(filters.drop_last(), cats, levels) + filter_queries(
            cats,
            filters.last(),
            levels,
        )
    }
}

/// The full expansion of a category configuration, given the resolved
/// source categories.
pub open spec fn category_queries(cfg: CategoryConfigV, cats: Seq<(Seq<char>, bool)>) -> Seq<
    QueryV,
> {
    queries_of(filters_of(cfg), cats, cfg.levels)
}

// ---------------------------------------------------------------------------
// Per-query candidates
// ---------------------------------------------------------------------------

/// The runs not marked unwatchable, in leaderboard order.
pub open spec fn watchable_of(data: DataV, runs: Seq<RunV>) -> Seq<RunV>
    decreases runs.len(),
{
    if runs.len() == 0 {
        runs
    } else {
        watchable_of(data, runs.drop_last()) + if !data.is_unwatchable(runs.last().id) {
            seq![runs.last()]
        } else {
            Seq::empty()
        }
    }
}

/// The longest prefix whose runs all complete in time `t`.
pub open spec fn tied_from(runs: Seq<RunV>, t: int) -> Seq<RunV>
    decreases runs.len(),
{
    if runs.len() == 0 || runs[0].time_ns != t {
        Seq::empty()
    } else {
        seq![runs[0]] + tied_from(runs.skip(1), t)
    }
}

/// The maximal prefix tied at the first run's time — on a leaderboard sorted
/// ascending, the runs tied at the minimum time.
pub open spec fn tied_prefix(runs: Seq<RunV>) -> Seq<RunV> {
    if runs.len() == 0 {
        runs
    } else {
        tied_from(runs, runs[0].time_ns)
    }
}

/// What one leaderboard query contributes: its watchable runs tied at the
/// minimum time, or the upstream error when the fetch fails.
pub open spec fn query_candidates(source: SourceV, data: DataV, q: QueryV) -> Result<
    Seq<RunV>,
    ErrorV,
> {
    match source.board_of(q) {
        None => Err(ErrorV::Upstream(UpstreamErrorV::Leaderboard { query: q })),
        Some(runs) => Ok(tied_prefix(watchable_of(data, runs))),
    }
}

/// The concatenated candidates of all queries, in order; the first failing
/// fetch fails the whole collection.
pub open spec fn queries_candidates(source: SourceV, data: DataV, qs: Seq<QueryV>) -> Result<
    Seq<RunV>,
    ErrorV,
>
    decreases qs.len(),
{
    if qs.len() == 0 {
        Ok(Seq::empty())
    } else {
        match query_candidates(source, data, qs[0]) {
            Err(e) => Err(e),
            Ok(c) => match queries_candidates(source, data, qs.skip(1)) {
                Err(e) => Err(e),
                Ok(rest) => Ok(c + rest),
            },
        }
    }
}

// ---------------------------------------------------------------------------
// Global tie-break and de-duplication
// ---------------------------------------------------------------------------

/// The minimum completion time in a non-empty pool.
pub open spec fn min_time(runs: Seq<RunV>) -> int
    recommends
        runs.len() > 0,
    decreases runs.len(),
{
    if runs.len() <= 1 {
        runs[0].time_ns
    } else {
        let m = min_time(runs.drop_last());
        if runs.last().time_ns < m {
            runs.last().time_ns
        } else {
            m
        }
    }
}

/// The runs completing exactly in time `t`, in pool order.
pub open spec fn runs_at(runs: Seq<RunV>, t: int) -> Seq<RunV>
    decreases runs.len(),
{
    if runs.len() == 0 {
        runs
    } else {
        runs_at(runs.drop_last(), t) + if runs.last().time_ns == t {
            seq![runs.last()]
        } else {
            Seq::empty()
        }
    }
}

/// Whether some run in the sequence carries this id.
pub open spec fn has_id(runs: Seq<RunV>, id: Seq<char>) -> bool {
    exists|i: int| 0 <= i < runs.len() && (#[trigger] runs[i]).id == id
}

/// Keep the first run of each id, dropping later duplicates.
pub open spec fn dedup(runs: Seq<RunV>) -> Seq<RunV>
    decreases runs.len(),
{
    if runs.len() == 0 {
        runs
    } else {
        let init = dedup(runs.drop_last());
        if has_id(runs.drop_last(), runs.last().id) {
            init
        } else {
            init.push(runs.last())
        }
    }
}

/// The final record set of a candidate pool: empty for an empty pool (no
/// record currently known), otherwise the pool's globally fastest runs,
/// de-duplicated by run identity.
pub open spec fn finalize(pool: Seq<RunV>) -> Seq<RunV> {
    if pool.len() == 0 {
        pool
    } else {
        dedup(runs_at(pool, min_time(pool)))
    }
}

// ---------------------------------------------------------------------------
// Category resolution
// ---------------------------------------------------------------------------

/// The record set of one category, resolved with the given recursion fuel.
///
/// The category's configuration is looked up; its referenced source
/// categories are fetched; for individual-level references every configured
/// level must fetch; each expanded query contributes its candidates;
/// sub-categories are resolved recursively on one unit less fuel; and the
/// merged pool is tie-broken globally and de-duplicated.
pub open spec fn category_result(
    source: SourceV,
    data: DataV,
    game: GameConfigV,
    game_name: Seq<char>,
    cat_name: Seq<char>,
    fuel: nat,
) -> Result<Seq<RunV>, ErrorV>
    decreases fuel, 0int,
{
    match find_category(game, cat_name) {
        None => Err(
            ErrorV::Configuration(ConfigurationErrorV::NoSuchCategory { game_name, cat_name }),
        ),
        Some(cfg) => if fuel == 0 {
            Err(
                ErrorV::Configuration(
                    ConfigurationErrorV::SubcategoryCycle { game_name, cat_name },
                ),
            )
        } else {
            match resolve_cats(source, cfg.src_categories) {
                Err(e) => Err(e),
                Ok(cats) => if has_il(cats) && first_missing_level(source, cfg.levels) is Some {
                    Err(
                        ErrorV::Upstream(
                            UpstreamErrorV::Level {
                                id: first_missing_level(source, cfg.levels)->Some_0,
                            },
                        ),
                    )
                } else {
                    match queries_candidates(source, data, category_queries(cfg, cats)) {
                        Err(e) => Err(e),
                        Ok(direct) => match subcats_results(
                            source,
                            data,
                            game,
                            game_name,
                            cfg.subcategories,
                            (fuel - 1) as nat,
                        ) {
                            Err(e) => Err(e),
                            Ok(subs) => Ok(finalize(direct + subs)),
                        },
                    }
                },
            }
        },
    }
}

/// The concatenated record sets of the named sub-categories, in order; the
/// first failure aborts the whole merge.
pub open spec fn subcats_results(
    source: SourceV,
    data: DataV,
    game: GameConfigV,
    game_name: Seq<char>,
    names: Seq<Seq<char>>,
    fuel: nat,
) -> Result<Seq<RunV>, ErrorV>
    decreases fuel, names.len() as int + 1,
{
    if names.len() == 0 {
        Ok(Seq::empty())
    } else {
        match category_result(source, data, game, game_name, names[0], fuel) {
            Err(e) => Err(e),
            Ok(rs) => match subcats_results(source, data, game, game_name, names.skip(1), fuel) {
                Err(e) => Err(e),
                Ok(rest) => Ok(rs + rest),
            },
        }
    }
}

/// The fuel a resolution pass starts with: as much as the game has
/// categories. A sub-category chain that long must repeat a category, so
/// fuel can run out only on a reference cycle.
pub open spec fn full_fuel(game: GameConfigV) -> nat {
    game.categories.len()
}

/// The record set of `resolve(game_name, cat_name)`: the game is looked up
/// in the configuration and its category resolved on full fuel.
pub open spec fn game_result(
    source: SourceV,
    data: DataV,
    config: ConfigV,
    game_name: Seq<char>,
    cat_name: Seq<char>,
) -> Result<Seq<RunV>, ErrorV> {
    match find_game(config, game_name) {
        None => Err(ErrorV::Configuration(ConfigurationErrorV::NoSuchGame { game_name })),
        Some(game) => category_result(source, data, game, game_name, cat_name, full_fuel(game)),
    }
}

// ---------------------------------------------------------------------------
// Fuel monotonicity
// ---------------------------------------------------------------------------

/// A category result that is `Ok` on some fuel stays the same on more fuel:
/// the fuel bound only decides how cycles are detected, never which records
/// a resolvable category has.
pub proof fn lemma_category_result_fuel_mono(
    source: SourceV,
    data: DataV,
    game: GameConfigV,
    game_name: Seq<char>,
    cat_name: Seq<char>,
    f1: nat,
    f2: nat,
)
    requires
        f1 <= f2,
        category_result(source, data, game, game_name, cat_name, f1) is Ok,
    ensures
        category_result(source, data, game, game_name, cat_name, f2) == category_result(
            source,
            data,
            game,
            game_name,
            cat_name,
            f1,
        ),
    decreases f1, 0int,
{
    if f1 == f2 {
    } else {
        let cfg = find_category(game, cat_name)->Some_0;
        let cats = resolve_cats(source, cfg.src_categories)->Ok_0;
        lemma_subcats_results_fuel_mono(
            source,
            data,
            game,
            game_name,
            cfg.subcategories,
            (f1 - 1) as nat,
            (f2 - 1) as nat,
        );
    }
}

/// Companion of [`lemma_category_result_fuel_mono`] for sub-category lists.
pub proof fn lemma_subcats_results_fuel_mono(
    source: SourceV,
    data: DataV,
    game: GameConfigV,
    game_name: Seq<char>,
    names: Seq<Seq<char>>,
    f1: nat,
    f2: nat,
)
    requires
        f1 <= f2,
        subcats_results(source, data, game, game_name, names, f1) is Ok,
    ensures
        subcats_results(source, data, game, game_name, names, f2) == subcats_results(
            source,
            data,
            game,
            game_name,
            names,
            f1,
        ),
    decreases f1, names.len() as int + 1,
{
    if names.len() == 0 {
    } else {
        lemma_category_result_fuel_mono(source, data, game, game_name, names[0], f1, f2);
        lemma_subcats_results_fuel_mono(source, data, game, game_name, names.skip(1), f1, f2);
    }
}

/// A sequence extended by one run carries an id exactly when the sequence
/// did or the new run does.
pub proof fn lemma_has_id_push(runs: Seq<RunV>, r: RunV, id: Seq<char>)
    ensures
        has_id(runs.push(r), id) == (has_id(runs, id) || r.id == id),
{
    if has_id(runs.push(r), id) {
        let i = choose|i: int| 0 <= i < runs.push(r).len() && (#[trigger] runs.push(r)[i]).id
            == id;
        if i < runs.len() {
            assert(runs[i].id == id);
        } else {
            assert(runs.push(r)[runs.len() as int] == r);
        }
    }
    if has_id(runs, id) {
        let i = choose|i: int| 0 <= i < runs.len() && (#[trigger] runs[i]).id == id;
        assert(runs.push(r)[i].id == id);
    }
    if r.id == id {
        assert(runs.push(r)[runs.len() as int].id == id);
    }
}

/// De-duplication keeps exactly the ids of its input.
pub proof fn lemma_dedup_has_id(runs: Seq<RunV>, id: Seq<char>)
    ensures
        has_id(dedup(runs), id) == has_id(runs, id),
    decreases runs.len(),
{
    if runs.len() == 0 {
    } else {
        let init = runs.drop_last();
        let last = runs.last();
        lemma_dedup_has_id(init, id);
        assert(runs == init.push(last));
        lemma_has_id_push(init, last, id);
        if !has_id(init, last.id) {
            lemma_has_id_push(dedup(init), last, id);
        }
    }
}

/// De-duplication leaves no id twice.
pub proof fn lemma_dedup_distinct(runs: Seq<RunV>)
    ensures
        crate::source::distinct_ids(dedup(runs)),
    decreases runs.len(),
{
    if runs.len() == 0 {
    } else {
        let init = runs.drop_last();
        let last = runs.last();
        lemma_dedup_distinct(init);
        if !has_id(init, last.id) {
            lemma_dedup_has_id(init, last.id);
            let out = dedup(init).push(last);
            assert forall|i: int, j: int| 0 <= i < j < out.len() implies (#[trigger] out[i]).id
                != (#[trigger] out[j]).id by {
                if j == out.len() - 1 {
                    assert(out[i] == dedup(init)[i]);
                    assert(has_id(dedup(init), dedup(init)[i].id));
                }
            }
        }
    }
}

/// The tied prefix is the longest prefix of runs completing in time `t`.
pub proof fn lemma_tied_from_take(runs: Seq<RunV>, t: int, n: int)
    requires
        0 <= n <= runs.len(),
        forall|k: int| 0 <= k < n ==> (#[trigger] runs[k]).time_ns == t,
        n == runs.len() || runs[n].time_ns != t,
    ensures
        tied_from(runs, t) == runs.take(n),
    decreases n,
{
    if n == 0 {
        assert(runs.take(0) =~= Seq::<RunV>::empty());
    } else {
        assert(runs[0].time_ns == t);
        let rest = runs.skip(1);
        assert forall|k: int| 0 <= k < n - 1 implies (#[trigger] rest[k]).time_ns == t by {
            assert(rest[k] == runs[k + 1]);
        }
        if n - 1 < rest.len() {
            assert(rest[n - 1] == runs[n as int]);
        }
        lemma_tied_from_take(rest, t, n - 1);
        assert(runs.take(n) =~= seq![runs[0]] + rest.take(n - 1));
    }
}

/// Two successful resolutions of one category agree, whatever fuel each ran
/// on.
pub proof fn lemma_category_result_fuel_agree(
    source: SourceV,
    data: DataV,
    game: GameConfigV,
    game_name: Seq<char>,
    cat_name: Seq<char>,
    f1: nat,
    f2: nat,
)
    requires
        category_result(source, data, game, game_name, cat_name, f1) is Ok,
        category_result(source, data, game, game_name, cat_name, f2) is Ok,
    ensures
        category_result(source, data, game, game_name, cat_name, f1) == category_result(
            source,
            data,
            game,
            game_name,
            cat_name,
            f2,
        ),
{
    if f1 <= f2 {
        lemma_category_result_fuel_mono(source, data, game, game_name, cat_name, f1, f2);
    } else {
        lemma_category_result_fuel_mono(source, data, game, game_name, cat_name, f2, f1);
    }
}

} // verus!
