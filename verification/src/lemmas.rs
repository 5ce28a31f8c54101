//! Proved properties of record resolution.
//!
//! These lemmas state, over the specification functions of
//! [`crate::semantics`], the guarantees the resolver gives its callers: a
//! single-leaderboard category resolves to exactly the watchable tied-fastest
//! prefix; a parent keeps only the faster sibling's runs; no resolved list
//! repeats a run id; an all-unwatchable leaderboard contributes nothing
//! without failing; and a category's expansion dispatches exactly the product
//! of its value counts per source category.

use vstd::prelude::*;
use crate::config::{CategoryConfigV, ConfigV, VariableValuesV, find_category, find_game};
use crate::data::DataV;
use crate::errors::ErrorV;
use crate::run::RunV;
use crate::semantics::{category_queries, category_result, combo_values, dedup, extend_combos,
    filter_combos, filter_queries, filters_of, finalize, full_fuel, game_result, has_id, has_il,
    lemma_category_result_fuel_agree, lemma_dedup_distinct, lemma_dedup_has_id, min_time,
    pair_queries, queries_candidates, queries_of, query_candidates, resolve_cats, runs_at,
    subcats_results, tied_from, tied_prefix, watchable_of};
use crate::source::{QueryV, SourceV, distinct_ids, sorted_by_time};

verus! {

// ---------------------------------------------------------------------------
// Pool arithmetic
// ---------------------------------------------------------------------------

/// The minimum time is a lower bound for every pool element.
pub proof fn lemma_min_time_le(s: Seq<RunV>, i: int)
    requires
        0 <= i < s.len(),
    ensures
        min_time(s) <= s[i].time_ns,
    decreases s.len(),
{
    if s.len() > 1 {
        if i == s.len() - 1 {
        } else {
            lemma_min_time_le(s.drop_last(), i);
        }
    }
}

/// The minimum time is attained by some pool element.
pub proof fn lemma_min_time_attained(s: Seq<RunV>) -> (i: int)
    requires
        s.len() > 0,
    ensures
        0 <= i < s.len(),
        s[i].time_ns == min_time(s),
    decreases s.len(),
{
    if s.len() == 1 {
        0
    } else {
        if s.last().time_ns < min_time(s.drop_last()) {
            s.len() - 1
        } else {
            lemma_min_time_attained(s.drop_last())
        }
    }
}

/// Everything kept at time `t` completes in time `t`.
pub proof fn lemma_runs_at_time(s: Seq<RunV>, t: int)
    ensures
        forall|i: int| 0 <= i < runs_at(s, t).len() ==> (#[trigger] runs_at(s, t)[i]).time_ns == t,
    decreases s.len(),
{
    if s.len() > 0 {
        lemma_runs_at_time(s.drop_last(), t);
        assert forall|i: int| 0 <= i < runs_at(s, t).len() implies (
        #[trigger] runs_at(s, t)[i]).time_ns == t by {
            if i < runs_at(s.drop_last(), t).len() {
                assert(runs_at(s, t)[i] == runs_at(s.drop_last(), t)[i]);
            } else {
                assert(runs_at(s, t)[i] == s.last());
            }
        }
    }
}

/// A pool whose runs all complete in time `t` is kept whole.
pub proof fn lemma_runs_at_all(s: Seq<RunV>, t: int)
    requires
        forall|i: int| 0 <= i < s.len() ==> (#[trigger] s[i]).time_ns == t,
    ensures
        runs_at(s, t) == s,
    decreases s.len(),
{
    if s.len() > 0 {
        lemma_runs_at_all(s.drop_last(), t);
        assert(runs_at(s, t) =~= s.drop_last().push(s.last()));
        assert(s.drop_last().push(s.last()) =~= s);
    }
}

/// A pool whose runs all complete in time `t` has minimum `t`.
pub proof fn lemma_min_time_all(s: Seq<RunV>, t: int)
    requires
        s.len() > 0,
        forall|i: int| 0 <= i < s.len() ==> (#[trigger] s[i]).time_ns == t,
    ensures
        min_time(s) == t,
{
    let i = lemma_min_time_attained(s);
}

/// De-duplication only keeps pool elements.
pub proof fn lemma_dedup_subset(s: Seq<RunV>)
    ensures
        forall|i: int| 0 <= i < dedup(s).len() ==> s.contains(#[trigger] dedup(s)[i]),
    decreases s.len(),
{
    if s.len() > 0 {
        lemma_dedup_subset(s.drop_last());
        assert forall|i: int| 0 <= i < dedup(s).len() implies s.contains(
            #[trigger] dedup(s)[i],
        ) by {
            if i < dedup(s.drop_last()).len() {
                let x = dedup(s.drop_last())[i];
                assert(s.drop_last().contains(x));
                let j = choose|j: int| 0 <= j < s.drop_last().len() && s.drop_last()[j] == x;
                assert(s[j] == x);
            } else {
                assert(dedup(s)[i] == s.last());
                assert(s[s.len() - 1] == s.last());
            }
        }
    }
}

/// De-duplicating a list with no repeated id changes nothing.
pub proof fn lemma_dedup_identity(s: Seq<RunV>)
    requires
        distinct_ids(s),
    ensures
        dedup(s) == s,
    decreases s.len(),
{
    if s.len() > 0 {
        lemma_dedup_identity(s.drop_last());
        if has_id(s.drop_last(), s.last().id) {
            let j = choose|j: int|
                0 <= j < s.drop_last().len() && (#[trigger] s.drop_last()[j]).id
                    == s.last().id;
            assert(s[j].id == s[s.len() - 1].id);
            assert(false);
        }
        assert(dedup(s) =~= s);
    }
}

// ---------------------------------------------------------------------------
// Watchable filtering
// ---------------------------------------------------------------------------

/// The watchable runs carry only ids the leaderboard had.
pub proof fn lemma_watchable_has_id(data: DataV, s: Seq<RunV>, id: Seq<char>)
    ensures
        has_id(watchable_of(data, s), id) ==> has_id(s, id),
    decreases s.len(),
{
    if s.len() > 0 {
        lemma_watchable_has_id(data, s.drop_last(), id);
        if has_id(watchable_of(data, s), id) {
            let w = watchable_of(data, s);
            let i = choose|i: int| 0 <= i < w.len() && (#[trigger] w[i]).id == id;
            if i < watchable_of(data, s.drop_last()).len() {
                assert(has_id(watchable_of(data, s.drop_last()), id));
                let j = choose|j: int|
                    0 <= j < s.drop_last().len() && (#[trigger] s.drop_last()[j]).id == id;
                assert(s[j].id == id);
            } else {
                assert(w[i] == s.last());
                assert(s[s.len() - 1].id == id);
            }
        }
    }
}

/// The watchable runs come from the leaderboard.
pub proof fn lemma_watchable_contains(data: DataV, s: Seq<RunV>)
    ensures
        forall|i: int|
            0 <= i < watchable_of(data, s).len() ==> s.contains(
                #[trigger] watchable_of(data, s)[i],
            ),
    decreases s.len(),
{
    if s.len() > 0 {
        lemma_watchable_contains(data, s.drop_last());
        assert forall|i: int| 0 <= i < watchable_of(data, s).len() implies s.contains(
            #[trigger] watchable_of(data, s)[i],
        ) by {
            if i < watchable_of(data, s.drop_last()).len() {
                let x = watchable_of(data, s.drop_last())[i];
                let j = choose|j: int| 0 <= j < s.drop_last().len() && s.drop_last()[j] == x;
                assert(s[j] == x);
            } else {
                assert(watchable_of(data, s)[i] == s.last());
                assert(s[s.len() - 1] == s.last());
            }
        }
    }
}

/// Dropping unwatchable runs keeps ids distinct.
pub proof fn lemma_watchable_distinct(data: DataV, s: Seq<RunV>)
    requires
        distinct_ids(s),
    ensures
        distinct_ids(watchable_of(data, s)),
    decreases s.len(),
{
    if s.len() > 0 {
        lemma_watchable_distinct(data, s.drop_last());
        let w = watchable_of(data, s);
        let winit = watchable_of(data, s.drop_last());
        if !data.is_unwatchable(s.last().id) {
            if has_id(winit, s.last().id) {
                lemma_watchable_has_id(data, s.drop_last(), s.last().id);
                let j = choose|j: int|
                    0 <= j < s.drop_last().len() && (#[trigger] s.drop_last()[j]).id
                        == s.last().id;
                assert(s[j].id == s[s.len() - 1].id);
                assert(false);
            }
            assert forall|i: int, j: int| 0 <= i < j < w.len() implies (#[trigger] w[i]).id != (
            #[trigger] w[j]).id by {
                if j == w.len() - 1 {
                    assert(w[i] == winit[i]);
                    assert(has_id(winit, winit[i].id));
                }
            }
        } else {
            assert(w =~= winit);
        }
    }
}

/// Dropping unwatchable runs keeps the ascending order.
pub proof fn lemma_watchable_sorted(data: DataV, s: Seq<RunV>)
    requires
        sorted_by_time(s),
    ensures
        sorted_by_time(watchable_of(data, s)),
    decreases s.len(),
{
    if s.len() > 0 {
        assert(sorted_by_time(s.drop_last())) by {
            assert(forall|i: int, j: int|
                0 <= i <= j < s.len() - 1 ==> (#[trigger] s.drop_last()[i]).time_ns <= (
                #[trigger] s.drop_last()[j]).time_ns);
        }
        lemma_watchable_sorted(data, s.drop_last());
        lemma_watchable_contains(data, s.drop_last());
        let w = watchable_of(data, s);
        let winit = watchable_of(data, s.drop_last());
        if !data.is_unwatchable(s.last().id) {
            assert forall|i: int, j: int| 0 <= i <= j < w.len() implies (
            #[trigger] w[i]).time_ns <= (#[trigger] w[j]).time_ns by {
                if j == w.len() - 1 && i < j {
                    let x = winit[i];
                    let k = choose|k: int|
                        0 <= k < s.drop_last().len() && s.drop_last()[k] == x;
                    assert(s[k] == x);
                    assert(s[k].time_ns <= s[s.len() - 1].time_ns);
                }
            }
        } else {
            assert(w =~= winit);
        }
    }
}

/// A leaderboard whose every run is unwatchable filters to nothing.
pub proof fn lemma_watchable_none(data: DataV, s: Seq<RunV>)
    requires
        forall|i: int| 0 <= i < s.len() ==> data.is_unwatchable((#[trigger] s[i]).id),
    ensures
        watchable_of(data, s) == Seq::<RunV>::empty(),
    decreases s.len(),
{
    if s.len() > 0 {
        lemma_watchable_none(data, s.drop_last());
        assert(s[s.len() - 1] == s.last());
        assert(watchable_of(data, s) =~= Seq::<RunV>::empty());
    } else {
        assert(watchable_of(data, s) =~= Seq::<RunV>::empty());
    }
}

// ---------------------------------------------------------------------------
// Tied prefixes
// ---------------------------------------------------------------------------

/// Every run of the tied prefix completes in the tied time.
pub proof fn lemma_tied_from_time(s: Seq<RunV>, t: int)
    ensures
        forall|i: int|
            0 <= i < tied_from(s, t).len() ==> (#[trigger] tied_from(s, t)[i]).time_ns == t,
    decreases s.len(),
{
    if s.len() > 0 && s[0].time_ns == t {
        lemma_tied_from_time(s.skip(1), t);
        assert forall|i: int| 0 <= i < tied_from(s, t).len() implies (
        #[trigger] tied_from(s, t)[i]).time_ns == t by {
            if i > 0 {
                assert(tied_from(s, t)[i] == tied_from(s.skip(1), t)[i - 1]);
            }
        }
    }
}

/// The tied prefix is a prefix.
pub proof fn lemma_tied_from_is_prefix(s: Seq<RunV>, t: int)
    ensures
        tied_from(s, t).len() <= s.len(),
        tied_from(s, t) == s.take(tied_from(s, t).len() as int),
    decreases s.len(),
{
    if s.len() > 0 && s[0].time_ns == t {
        lemma_tied_from_is_prefix(s.skip(1), t);
        let n = tied_from(s, t).len() as int;
        assert(s.take(n) =~= seq![s[0]] + s.skip(1).take(n - 1));
    } else {
        assert(s.take(0) =~= Seq::<RunV>::empty());
    }
}

/// A prefix of a list with distinct ids has distinct ids.
pub proof fn lemma_take_distinct(s: Seq<RunV>, n: int)
    requires
        distinct_ids(s),
        0 <= n <= s.len(),
    ensures
        distinct_ids(s.take(n)),
{
    assert forall|i: int, j: int| 0 <= i < j < s.take(n).len() implies (
    #[trigger] s.take(n)[i]).id != (#[trigger] s.take(n)[j]).id by {
        assert(s.take(n)[i] == s[i]);
        assert(s.take(n)[j] == s[j]);
    }
}

// ---------------------------------------------------------------------------
// Expansion counting
// ---------------------------------------------------------------------------

/// The product of the variables' allowed-value counts.
pub open spec fn values_product(vars: Seq<VariableValuesV>) -> nat
    decreases vars.len(),
{
    if vars.len() == 0 {
        1
    } else {
        values_product(vars.drop_last()) * vars.last().values.len()
    }
}

proof fn lemma_extend_combos_len(combos: Seq<crate::source::FilterV>, var: VariableValuesV)
    ensures
        extend_combos(combos, var).len() == combos.len() * var.values.len(),
    decreases combos.len(),
{
    if combos.len() == 0 {
    } else {
        lemma_extend_combos_len(combos.drop_last(), var);
        assert(combo_values(combos.last(), var).len() == var.values.len());
        assert((combos.len() - 1) * var.values.len() + var.values.len() == combos.len()
            * var.values.len()) by (nonlinear_arith);
    }
}

/// The Cartesian expansion has exactly one combination per choice of one
/// value for every variable.
pub proof fn lemma_combo_count(vars: Seq<VariableValuesV>)
    ensures
        filter_combos(vars).len() == values_product(vars),
    decreases vars.len(),
{
    if vars.len() > 0 {
        lemma_combo_count(vars.drop_last());
        lemma_extend_combos_len(filter_combos(vars.drop_last()), vars.last());
    }
}

proof fn lemma_filter_queries_len_no_il(
    cats: Seq<(Seq<char>, bool)>,
    filter: Option<crate::source::FilterV>,
    levels: Seq<Seq<char>>,
)
    requires
        forall|i: int| 0 <= i < cats.len() ==> !(#[trigger] cats[i]).1,
    ensures
        filter_queries(cats, filter, levels).len() == cats.len(),
    decreases cats.len(),
{
    if cats.len() > 0 {
        assert(sub_no_il(cats));
        lemma_filter_queries_len_no_il(cats.drop_last(), filter, levels);
        assert(cats[cats.len() - 1] == cats.last());
        assert(pair_queries(cats.last(), filter, levels).len() == 1);
    }
}

spec fn sub_no_il(cats: Seq<(Seq<char>, bool)>) -> bool {
    forall|i: int| 0 <= i < cats.drop_last().len() ==> !(#[trigger] cats.drop_last()[i]).1
}

proof fn lemma_queries_of_len_no_il(
    filters: Seq<Option<crate::source::FilterV>>,
    cats: Seq<(Seq<char>, bool)>,
    levels: Seq<Seq<char>>,
)
    requires
        forall|i: int| 0 <= i < cats.len() ==> !(#[trigger] cats[i]).1,
    ensures
        queries_of(filters, cats, levels).len() == filters.len() * cats.len(),
    decreases filters.len(),
{
    if filters.len() == 0 {
    } else {
        lemma_queries_of_len_no_il(filters.drop_last(), cats, levels);
        lemma_filter_queries_len_no_il(cats, filters.last(), levels);
        assert((filters.len() - 1) * cats.len() + cats.len() == filters.len() * cats.len())
            by (nonlinear_arith);
    }
}

/// A category with `v` filtered variables and only whole-category (non
/// individual-level) source references expands to exactly
/// (product of the variables' value counts) × (number of source categories)
/// leaderboard queries — `k^v · c` when every variable offers `k` values.
pub proof fn lemma_query_count(cfg: CategoryConfigV, cats: Seq<(Seq<char>, bool)>)
    requires
        cfg.variable_state.len() > 0,
        forall|i: int| 0 <= i < cats.len() ==> !(#[trigger] cats[i]).1,
    ensures
        category_queries(cfg, cats).len() == values_product(cfg.variable_state) * cats.len(),
{
    lemma_combo_count(cfg.variable_state);
    lemma_queries_of_len_no_il(filters_of(cfg), cats, cfg.levels);
}

// ---------------------------------------------------------------------------
// Resolved record sets
// ---------------------------------------------------------------------------

proof fn lemma_queries_of_no_cats(
    filters: Seq<Option<crate::source::FilterV>>,
    levels: Seq<Seq<char>>,
)
    ensures
        queries_of(filters, Seq::empty(), levels) == Seq::<QueryV>::empty(),
    decreases filters.len(),
{
    if filters.len() > 0 {
        lemma_queries_of_no_cats(filters.drop_last(), levels);
        assert(queries_of(filters, Seq::empty(), levels) =~= Seq::<QueryV>::empty());
    }
}

/// When the source answers every referenced category id, the entity lookup
/// succeeds and pairs each id with its individual-level flag, in order.
pub proof fn lemma_resolve_cats_ok(source: SourceV, ids: Seq<Seq<char>>)
    requires
        forall|i: int| 0 <= i < ids.len() ==> source.category_of(#[trigger] ids[i]) is Some,
    ensures
        resolve_cats(source, ids) matches Ok(cats) && cats.len() == ids.len() && forall|i: int|
            0 <= i < ids.len() ==> #[trigger] cats[i] == (
                ids[i],
                source.category_of(ids[i])->Some_0,
            ),
    decreases ids.len(),
{
    if ids.len() > 0 {
        assert(source.category_of(ids[0]) is Some);
        let rest = ids.skip(1);
        assert forall|i: int| 0 <= i < rest.len() implies source.category_of(
            #[trigger] rest[i],
        ) is Some by {
            assert(rest[i] == ids[i + 1]);
        }
        lemma_resolve_cats_ok(source, rest);
        let cats = resolve_cats(source, ids)->Ok_0;
        let tail = resolve_cats(source, rest)->Ok_0;
        assert forall|i: int| 0 <= i < ids.len() implies #[trigger] cats[i] == (
            ids[i],
            source.category_of(ids[i])->Some_0,
        ) by {
            if i > 0 {
                assert(cats[i] == tail[i - 1]);
                assert(rest[i - 1] == ids[i]);
            }
        }
    }
}

/// When the source answers every query, collecting candidates succeeds: a
/// query whose candidates are empty never fails the collection.
pub proof fn lemma_queries_candidates_ok(source: SourceV, data: DataV, qs: Seq<QueryV>)
    requires
        forall|i: int| 0 <= i < qs.len() ==> source.board_of(#[trigger] qs[i]) is Some,
    ensures
        queries_candidates(source, data, qs) is Ok,
    decreases qs.len(),
{
    if qs.len() > 0 {
        assert(source.board_of(qs[0]) is Some);
        let rest = qs.skip(1);
        assert forall|i: int| 0 <= i < rest.len() implies source.board_of(
            #[trigger] rest[i],
        ) is Some by {
            assert(rest[i] == qs[i + 1]);
        }
        lemma_queries_candidates_ok(source, data, rest);
    }
}

/// No run identifier appears more than once in any resolved record list.
pub proof fn lemma_no_duplicate_ids(
    source: SourceV,
    data: DataV,
    config: ConfigV,
    game_name: Seq<char>,
    cat_name: Seq<char>,
    rs: Seq<RunV>,
)
    requires
        game_result(source, data, config, game_name, cat_name) == Ok::<_, ErrorV>(rs),
    ensures
        distinct_ids(rs),
{
    let game = find_game(config, game_name)->Some_0;
    let fuel = full_fuel(game);
    let cfg = find_category(game, cat_name)->Some_0;
    let cats = resolve_cats(source, cfg.src_categories)->Ok_0;
    let direct = queries_candidates(source, data, category_queries(cfg, cats))->Ok_0;
    let subs = subcats_results(source, data, game, game_name, cfg.subcategories, (fuel
        - 1) as nat)->Ok_0;
    let pool = direct + subs;
    assert(rs == finalize(pool));
    if pool.len() == 0 {
    } else {
        lemma_dedup_distinct(runs_at(pool, min_time(pool)));
    }
}

/// For a category with no variable filtering, no sub-categories and exactly
/// one non-individual-level source category, the record set is exactly the
/// maximal prefix of the watchable-filtered leaderboard tied at its minimum
/// time.
pub proof fn lemma_single_board_record(
    source: SourceV,
    data: DataV,
    config: ConfigV,
    game_name: Seq<char>,
    cat_name: Seq<char>,
    cat_id: Seq<char>,
    board: Seq<RunV>,
    rs: Seq<RunV>,
)
    requires
        source.wf(),
        find_game(config, game_name) is Some,
        find_category(find_game(config, game_name)->Some_0, cat_name) matches Some(cfg)
            && cfg.variable_state.len() == 0 && cfg.src_categories == seq![cat_id]
            && cfg.subcategories.len() == 0,
        source.category_of(cat_id) == Some(false),
        source.board_of(QueryV { cat_id, level_id: None, filter: None }) == Some(board),
        game_result(source, data, config, game_name, cat_name) == Ok::<_, ErrorV>(rs),
    ensures
        rs == tied_prefix(watchable_of(data, board)),
        watchable_of(data, board).len() > 0 ==> rs.len() > 0 && forall|i: int|
            0 <= i < rs.len() ==> (#[trigger] rs[i]).time_ns == min_time(
                watchable_of(data, board),
            ),
{
    let game = find_game(config, game_name)->Some_0;
    let fuel = full_fuel(game);
    let cfg = find_category(game, cat_name)->Some_0;
    let q = QueryV { cat_id, level_id: None, filter: None };
    let w = watchable_of(data, board);
    let tp = tied_prefix(w);

    // the expansion is the single unfiltered whole-category query
    assert(full_fuel(game) > 0);
    assert(cfg.src_categories[0] == cat_id);
    assert(cfg.src_categories.skip(1) =~= Seq::<Seq<char>>::empty());
    assert(resolve_cats(source, cfg.src_categories.skip(1)) == Ok::<_, ErrorV>(
        Seq::<(Seq<char>, bool)>::empty(),
    ));
    assert(resolve_cats(source, cfg.src_categories) is Ok);
    let cats = resolve_cats(source, cfg.src_categories)->Ok_0;
    assert(cats =~= seq![(cat_id, false)]) by {
        assert(cats == seq![(cat_id, false)] + Seq::<(Seq<char>, bool)>::empty());
    }
    assert(!has_il(cats)) by {
        assert(forall|i: int| 0 <= i < cats.len() ==> !(#[trigger] cats[i]).1);
    }
    assert(filters_of(cfg) == seq![None::<crate::source::FilterV>]);
    let filters = filters_of(cfg);
    assert(filters.drop_last() =~= Seq::<Option<crate::source::FilterV>>::empty());
    assert(cats.drop_last() =~= Seq::<(Seq<char>, bool)>::empty());
    assert(cats.last() == (cat_id, false));
    assert(pair_queries((cat_id, false), None, cfg.levels) =~= seq![q]);
    assert(filter_queries(cats, None, cfg.levels) =~= seq![q]) by {
        assert(filter_queries(cats.drop_last(), None, cfg.levels) == Seq::<QueryV>::empty());
        assert(filter_queries(cats, None, cfg.levels) == filter_queries(
            cats.drop_last(),
            None,
            cfg.levels,
        ) + pair_queries(cats.last(), None, cfg.levels));
    }
    assert(queries_of(filters.drop_last(), cats, cfg.levels) == Seq::<QueryV>::empty());
    assert(filters.last() == None::<crate::source::FilterV>);
    assert(category_queries(cfg, cats) =~= seq![q]) by {
        assert(queries_of(filters, cats, cfg.levels) == queries_of(
            filters.drop_last(),
            cats,
            cfg.levels,
        ) + filter_queries(cats, filters.last(), cfg.levels));
    }

    // its candidates are the watchable tied prefix
    let qs = category_queries(cfg, cats);
    assert(qs[0] == q);
    assert(qs.skip(1) =~= Seq::<QueryV>::empty());
    assert(query_candidates(source, data, q) == Ok::<_, ErrorV>(tp));
    assert(queries_candidates(source, data, qs.skip(1)) == Ok::<_, ErrorV>(
        Seq::<RunV>::empty(),
    ));
    assert(queries_candidates(source, data, qs) == Ok::<_, ErrorV>(tp + Seq::<RunV>::empty()));
    let direct = queries_candidates(source, data, qs)->Ok_0;
    assert(direct =~= tp);

    // no sub-categories, so the pool is exactly the tied prefix
    assert(cfg.subcategories =~= Seq::<Seq<char>>::empty());
    let subs = subcats_results(source, data, game, game_name, cfg.subcategories, (fuel
        - 1) as nat)->Ok_0;
    let pool = direct + subs;
    assert(pool =~= tp);
    assert(rs == finalize(tp));

    if w.len() == 0 {
        assert(tp =~= Seq::<RunV>::empty());
        assert(rs =~= tp);
    } else {
        let t0 = w[0].time_ns;
        lemma_tied_from_time(w, t0);
        assert(tp.len() > 0) by {
            assert(tied_from(w, t0)[0] == w[0]);
        }
        // every tied run completes in the minimum time
        let bi = choose|i: int| 0 <= i < source.boards.len() && source.boards[i].query == q;
        assert(sorted_by_time(board));
        assert(distinct_ids(board));
        lemma_watchable_sorted(data, board);
        let mi = lemma_min_time_attained(w);
        lemma_min_time_le(w, 0);
        assert(w[0].time_ns <= w[mi].time_ns);
        assert(min_time(w) == t0);
        lemma_min_time_all(tp, t0);
        // the finalize pass keeps the tied prefix unchanged
        lemma_runs_at_all(tp, t0);
        lemma_watchable_distinct(data, board);
        lemma_tied_from_is_prefix(w, t0);
        lemma_take_distinct(w, tied_from(w, t0).len() as int);
        assert(distinct_ids(tp));
        lemma_dedup_identity(tp);
        assert(rs == tp);
        lemma_tied_from_time(w, t0);
    }
}

/// Given two sibling sub-categories whose records stand at times `t1 < t2`,
/// a parent that merges exactly those two keeps only runs at `t1` and none
/// at `t2`.
pub proof fn lemma_parent_takes_faster_sibling(
    source: SourceV,
    data: DataV,
    config: ConfigV,
    game_name: Seq<char>,
    parent: Seq<char>,
    sub1: Seq<char>,
    sub2: Seq<char>,
    t1: int,
    t2: int,
    r1: Seq<RunV>,
    r2: Seq<RunV>,
    rp: Seq<RunV>,
)
    requires
        find_game(config, game_name) is Some,
        find_category(find_game(config, game_name)->Some_0, parent) matches Some(cfg)
            && cfg.src_categories.len() == 0 && cfg.subcategories == seq![sub1, sub2],
        game_result(source, data, config, game_name, sub1) == Ok::<_, ErrorV>(r1),
        game_result(source, data, config, game_name, sub2) == Ok::<_, ErrorV>(r2),
        r1.len() > 0,
        forall|i: int| 0 <= i < r1.len() ==> (#[trigger] r1[i]).time_ns == t1,
        forall|i: int| 0 <= i < r2.len() ==> (#[trigger] r2[i]).time_ns == t2,
        t1 < t2,
        game_result(source, data, config, game_name, parent) == Ok::<_, ErrorV>(rp),
    ensures
        rp.len() > 0,
        forall|i: int| 0 <= i < rp.len() ==> (#[trigger] rp[i]).time_ns == t1,
        forall|i: int| 0 <= i < rp.len() ==> (#[trigger] rp[i]).time_ns != t2,
{
    let game = find_game(config, game_name)->Some_0;
    let fuel = full_fuel(game);
    let cfg = find_category(game, parent)->Some_0;
    let subfuel = (fuel - 1) as nat;

    // the parent has no leaderboard queries of its own
    assert(cfg.src_categories =~= Seq::<Seq<char>>::empty());
    let cats = resolve_cats(source, cfg.src_categories)->Ok_0;
    assert(cats =~= Seq::<(Seq<char>, bool)>::empty());
    assert(!has_il(cats));
    lemma_queries_of_no_cats(filters_of(cfg), cfg.levels);
    assert(category_queries(cfg, cats) =~= Seq::<QueryV>::empty());
    let direct = queries_candidates(source, data, category_queries(cfg, cats))->Ok_0;
    assert(direct =~= Seq::<RunV>::empty());

    // its pool is the two siblings' record sets, which agree with their own
    // top-level resolutions whatever fuel each ran on
    let names = cfg.subcategories;
    let tail = names.skip(1);
    assert(names[0] == sub1);
    assert(tail[0] == sub2);
    assert(tail.skip(1) =~= Seq::<Seq<char>>::empty());
    assert(subcats_results(source, data, game, game_name, names, subfuel) is Ok);
    assert(category_result(source, data, game, game_name, sub1, subfuel) is Ok);
    assert(subcats_results(source, data, game, game_name, tail, subfuel) is Ok);
    assert(category_result(source, data, game, game_name, sub2, subfuel) is Ok);
    assert(subcats_results(source, data, game, game_name, tail.skip(1), subfuel)
        == Ok::<_, ErrorV>(Seq::<RunV>::empty()));
    let r1p = category_result(source, data, game, game_name, sub1, subfuel)->Ok_0;
    let r2p = category_result(source, data, game, game_name, sub2, subfuel)->Ok_0;
    lemma_category_result_fuel_agree(source, data, game, game_name, sub1, subfuel, fuel);
    lemma_category_result_fuel_agree(source, data, game, game_name, sub2, subfuel, fuel);
    assert(r1p == r1);
    assert(r2p == r2);
    let subs = subcats_results(source, data, game, game_name, names, subfuel)->Ok_0;
    assert(subcats_results(source, data, game, game_name, tail, subfuel) == Ok::<_, ErrorV>(
        r2 + Seq::<RunV>::empty(),
    ));
    assert(subs == r1 + (r2 + Seq::<RunV>::empty()));
    assert(subs =~= r1 + r2);
    let pool = direct + subs;
    assert(pool =~= r1 + r2);
    assert(rp == finalize(pool));
    assert(pool.len() > 0);

    // the pool's minimum is t1: attained by the first sibling, and no pool
    // element is faster
    assert(pool[0].time_ns == t1);
    lemma_min_time_le(pool, 0);
    let mi = lemma_min_time_attained(pool);
    assert(pool[mi].time_ns == t1 || pool[mi].time_ns == t2) by {
        if mi < r1.len() {
            assert(pool[mi] == r1[mi]);
        } else {
            assert(pool[mi] == r2[mi - r1.len()]);
        }
    }
    assert(min_time(pool) == t1);

    // so the parent's record set holds runs at t1 only
    lemma_runs_at_time(pool, t1);
    lemma_dedup_subset(runs_at(pool, t1));
    assert forall|i: int| 0 <= i < rp.len() implies (#[trigger] rp[i]).time_ns == t1 by {
        let x = rp[i];
        assert(runs_at(pool, t1).contains(x));
        let j = choose|j: int| 0 <= j < runs_at(pool, t1).len() && runs_at(pool, t1)[j] == x;
        assert(runs_at(pool, t1)[j].time_ns == t1);
    }
    lemma_runs_at_keeps_first(pool, t1);
    let ra = runs_at(pool, t1);
    assert(ra.len() > 0);
    assert(has_id(ra, ra[0].id));
    lemma_dedup_has_id(ra, ra[0].id);
    if rp.len() == 0 {
        let k = choose|k: int| 0 <= k < dedup(ra).len() && (#[trigger] dedup(ra)[k]).id
            == ra[0].id;
        assert(false);
    }
}

/// A pool containing a run at time `t` keeps at least one run at `t`.
proof fn lemma_runs_at_keeps_first(s: Seq<RunV>, t: int)
    requires
        s.len() > 0,
        exists|i: int| 0 <= i < s.len() && (#[trigger] s[i]).time_ns == t,
    ensures
        runs_at(s, t).len() > 0,
    decreases s.len(),
{
    let i = choose|i: int| 0 <= i < s.len() && (#[trigger] s[i]).time_ns == t;
    if i == s.len() - 1 {
        assert(s.last().time_ns == t);
    } else {
        assert(s.drop_last()[i].time_ns == t);
        lemma_runs_at_keeps_first(s.drop_last(), t);
    }
}

/// A leaderboard whose every run is marked unwatchable contributes no
/// candidates — and no failure: the query still answers successfully.
pub proof fn lemma_unwatchable_board_contributes_nothing(
    source: SourceV,
    data: DataV,
    q: QueryV,
    board: Seq<RunV>,
)
    requires
        source.board_of(q) == Some(board),
        forall|i: int| 0 <= i < board.len() ==> data.is_unwatchable((#[trigger] board[i]).id),
    ensures
        query_candidates(source, data, q) == Ok::<_, ErrorV>(Seq::<RunV>::empty()),
{
    lemma_watchable_none(data, board);
}

} // verus!
