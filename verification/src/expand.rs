//! Expanding a category configuration into concrete leaderboard queries.
//!
//! A category with `v` filtered variables offering `k1 × … × kv` value
//! combinations, `c` referenced source categories and — for individual-level
//! categories — `l` configured levels expands to `k1·…·kv · c` queries
//! (`· l` more for individual-level references); with no filtered variables a
//! single unfiltered query per source category (per level). The expansion is
//! exactly [`category_queries`](crate::semantics::category_queries).
//!
//! The variable-value combinations themselves are produced by `itertools`.

use vstd::prelude::*;
use itertools::Itertools;
use crate::config::{CategoryConfig, VariableValues};
use crate::semantics::{category_queries, filter_combos, filter_queries, filters_of,
    pair_queries, queries_of};
use crate::source::{FilterV, Query, QueryV, SourceCategory, VarChoice, clone_filter,
    filter_view};

verus! {

/// The image of a produced combination list.
pub open spec fn combos_view(s: Seq<Vec<VarChoice>>) -> Seq<FilterV> {
    s.map_values(|c: Vec<VarChoice>| c@.map_values(|ch: VarChoice| ch@))
}

/// The image of a query list.
pub open spec fn queries_view(s: Seq<Query>) -> Seq<QueryV> {
    s.map_values(|q: Query| q@)
}

/// The image of a resolved source-category list.
pub open spec fn cats_view(s: Seq<SourceCategory>) -> Seq<(Seq<char>, bool)> {
    s.map_values(|c: SourceCategory| (c.id@, c.is_il))
}

/// One variable fixed to one of its allowed values.
fn choice_of(var: &VariableValues, value: &String) -> (r: VarChoice)
    ensures
        r@.variable == var@.variable,
        r@.value == value@,
{
    VarChoice { variable: var.variable.clone(), value: value.clone() }
}

/// Relies on `itertools::Itertools::multi_cartesian_product`: the Cartesian
/// product of the variables' allowed values, one combination per element,
/// earlier variables varying slowest — the order and the combinations of
/// [`filter_combos`]. An empty input yields the single empty combination; a
/// variable without allowed values yields no combination.
#[verifier::external_body]
fn multi_cartesian_product(vars: &Vec<VariableValues>) -> (r: Vec<Vec<VarChoice>>)
    ensures
        combos_view(r@) == filter_combos(vars@.map_values(|v: VariableValues| v@)),
{
    vars.iter()
        .map(|var| var.values.iter().map(|value| choice_of(var, value)).collect::<Vec<_>>())
        .multi_cartesian_product()
        .collect()
}

/// The filters the category's queries carry: `None` alone when no variable
/// is restricted, else one `Some` per value combination.
pub fn expand_filters(cfg: &CategoryConfig) -> (r: Vec<Option<Vec<VarChoice>>>)
    ensures
        r@.map_values(|f: Option<Vec<VarChoice>>| filter_view(f)) == filters_of(cfg@),
{
    if cfg.variable_state.len() == 0 {
        let mut out: Vec<Option<Vec<VarChoice>>> = Vec::new();
        out.push(None);
        proof {
            assert(out@.map_values(|f: Option<Vec<VarChoice>>| filter_view(f)) =~= filters_of(
                cfg@,
            ));
        }
        out
    } else {
        let combos = multi_cartesian_product(&cfg.variable_state);
        let ghost cv = combos_view(combos@);
        let ghost goal = cv.map_values(|c: FilterV| Some(c));
        let mut out: Vec<Option<Vec<VarChoice>>> = Vec::new();
        let mut i: usize = 0;
        while i < combos.len()
            invariant
                i <= combos.len(),
                out@.map_values(|f: Option<Vec<VarChoice>>| filter_view(f)) == goal.take(i as int),
            decreases combos.len() - i,
        {
            let c2 = clone_filter_vec(&combos[i]);
            proof {
                assert(c2@.map_values(|ch: VarChoice| ch@) == cv[i as int]);
                assert(goal[i as int] == Some(cv[i as int]));
            }
            out.push(Some(c2));
            proof {
                assert(out@.map_values(|f: Option<Vec<VarChoice>>| filter_view(f)) =~= goal.take(
                    i + 1 as int,
                ));
            }
            i = i + 1;
        }
        proof {
            assert(goal.take(goal.len() as int) =~= goal);
            assert(cfg@.variable_state =~= cfg.variable_state@.map_values(
                |v: VariableValues| v@,
            ));
        }
        out
    }
}

/// Copy one combination.
fn clone_filter_vec(c: &Vec<VarChoice>) -> (r: Vec<VarChoice>)
    ensures
        r@.map_values(|ch: VarChoice| ch@) == c@.map_values(|ch: VarChoice| ch@),
{
    let mut out: Vec<VarChoice> = Vec::new();
    let mut i: usize = 0;
    while i < c.len()
        invariant
            i <= c.len(),
            out@.map_values(|ch: VarChoice| ch@) == c@.map_values(|ch: VarChoice| ch@).take(
                i as int,
            ),
        decreases c.len() - i,
    {
        out.push(c[i].clone());
        proof {
            assert(out@.map_values(|ch: VarChoice| ch@) =~= c@.map_values(
                |ch: VarChoice| ch@,
            ).take(i + 1 as int));
        }
        i = i + 1;
    }
    proof {
        let m = c@.map_values(|ch: VarChoice| ch@);
        assert(m.take(m.len() as int) =~= m);
    }
    out
}

/// Expand the category configuration into its concrete leaderboard queries,
/// given the referenced source categories in configuration order.
pub fn expand(cfg: &CategoryConfig, cats: &Vec<SourceCategory>) -> (r: Vec<Query>)
    ensures
        queries_view(r@) == category_queries(cfg@, cats_view(cats@)),
{
    let filters = expand_filters(cfg);
    let ghost fv = filters@.map_values(|f: Option<Vec<VarChoice>>| filter_view(f));
    let ghost cv = cats_view(cats@);
    let ghost lv = cfg@.levels;
    let mut out: Vec<Query> = Vec::new();
    let mut fi: usize = 0;
    while fi < filters.len()
        invariant
            fi <= filters.len(),
            queries_view(out@) == queries_of(fv.take(fi as int), cv, lv),
        decreases filters.len() - fi,
    {
        let ghost f = fv[fi as int];
        let ghost out_before = queries_view(out@);
        let mut ci: usize = 0;
        while ci < cats.len()
            invariant
                ci <= cats.len(),
                fi < filters.len(),
                f == fv[fi as int],
                out_before == queries_of(fv.take(fi as int), cv, lv),
                queries_view(out@) == out_before + filter_queries(cv.take(ci as int), f, lv),
            decreases cats.len() - ci,
        {
            let ghost mid_before = queries_view(out@);
            if cats[ci].is_il {
                let ghost pair_goal = lv.map_values(
                    |l: Seq<char>| QueryV { cat_id: cv[ci as int].0, level_id: Some(l), filter: f },
                );
                let mut li: usize = 0;
                while li < cfg.levels.len()
                    invariant
                        li <= cfg.levels.len(),
                        fi < filters.len(),
                        ci < cats.len(),
                        cats@[ci as int].is_il,
                        f == fv[fi as int],
                        queries_view(out@) == mid_before + pair_goal.take(li as int),
                    decreases cfg.levels.len() - li,
                {
                    let q = Query {
                        cat_id: cats[ci].id.clone(),
                        level_id: Some(cfg.levels[li].clone()),
                        filter: clone_filter(&filters[fi]),
                    };
                    proof {
                        assert(cv[ci as int] == (cats@[ci as int].id@, cats@[ci as int].is_il));
                        assert(lv[li as int] == cfg.levels@[li as int]@);
                        assert(fv[fi as int] == filter_view(filters@[fi as int]));
                        assert(q@ == QueryV { cat_id: cv[ci as int].0, level_id: Some(lv[li as int]), filter: f });
                        assert(pair_goal[li as int] == q@);
                    }
                    let ghost pre = out@;
                    let ghost qv = q@;
                    out.push(q);
                    proof {
                        let now = queries_view(out@);
                        let want = mid_before + pair_goal.take(li + 1 as int);
                        assert(now.len() == want.len());
                        assert forall|j: int| 0 <= j < now.len() implies now[j] == want[j] by {
                            if j < pre.len() {
                                assert(out@[j] == pre[j]);
                                assert(now[j] == queries_view(pre)[j]);
                            } else {
                                assert(out@[j] == q);
                                assert(now[j] == qv);
                                assert(want[j] == pair_goal[li as int]);
                            }
                        }
                        assert(now =~= want);
                    }
                    li = li + 1;
                }
                proof {
                    assert(pair_goal.take(pair_goal.len() as int) =~= pair_goal);
                    assert(pair_queries(cv[ci as int], f, lv) == pair_goal);
                }
            } else {
                let q = Query {
                    cat_id: cats[ci].id.clone(),
                    level_id: None,
                    filter: clone_filter(&filters[fi]),
                };
                out.push(q);
                proof {
                    assert(queries_view(out@) =~= mid_before + pair_queries(
                        cv[ci as int],
                        f,
                        lv,
                    ));
                }
            }
            proof {
                assert(cv.take(ci + 1 as int).drop_last() =~= cv.take(ci as int));
                assert(cv.take(ci + 1 as int).last() == cv[ci as int]);
                assert(queries_view(out@) =~= out_before + filter_queries(
                    cv.take(ci + 1 as int),
                    f,
                    lv,
                ));
            }
            ci = ci + 1;
        }
        proof {
            assert(cv.take(cv.len() as int) =~= cv);
            assert(fv.take(fi + 1 as int).drop_last() =~= fv.take(fi as int));
            assert(fv.take(fi + 1 as int).last() == fv[fi as int]);
            assert(queries_view(out@) =~= queries_of(fv.take(fi + 1 as int), cv, lv));
        }
        fi = fi + 1;
    }
    proof {
        assert(fv.take(fv.len() as int) =~= fv);
    }
    out
}

} // verus!
