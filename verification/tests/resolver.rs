use speedrun_records::config::{CategoryConfig, CategoryEntry, Config, GameConfig, GameEntry,
    SrcGameRef, VariableValues};
use speedrun_records::data::Data;
use speedrun_records::data::RunEntry;
use speedrun_records::data::RunState;
use speedrun_records::errors::{ConfigurationError, Error, UpstreamError};
use speedrun_records::expand::expand;
use speedrun_records::model::Resolver;
use speedrun_records::run::{Run, RunTime};
use speedrun_records::source::{Board, Query, Source, SourceCategory, VarChoice};

fn s(x: &str) -> String {
    x.to_string()
}

fn run(id: &str, secs: u64) -> Run {
    Run { id: s(id), time: RunTime { secs, nanos: 0 } }
}

fn filter(choices: &[(&str, &str)]) -> Option<Vec<VarChoice>> {
    Some(
        choices
            .iter()
            .map(|(var, val)| VarChoice { variable: s(var), value: s(val) })
            .collect(),
    )
}

fn board(cat: &str, level: Option<&str>, f: Option<Vec<VarChoice>>, runs: Vec<Run>) -> Board {
    Board {
        query: Query { cat_id: s(cat), level_id: level.map(s), filter: f },
        runs,
    }
}

fn category(
    src: &[&str],
    vars: &[(&str, &[&str])],
    subs: &[&str],
    levels: &[&str],
) -> CategoryConfig {
    CategoryConfig {
        src_categories: src.iter().map(|x| s(x)).collect(),
        variable_state: vars
            .iter()
            .map(|(var, vals)| VariableValues {
                variable: s(var),
                values: vals.iter().map(|v| s(v)).collect(),
            })
            .collect(),
        subcategories: subs.iter().map(|x| s(x)).collect(),
        levels: levels.iter().map(|x| s(x)).collect(),
    }
}

fn one_game_config(cats: Vec<(&str, CategoryConfig)>) -> Config {
    Config {
        games: vec![GameEntry {
            name: s("game"),
            config: GameConfig {
                src_games: vec![SrcGameRef { id: s("sg1"), ignored_categories: vec![] }],
                categories: cats
                    .into_iter()
                    .map(|(name, config)| CategoryEntry { name: s(name), config })
                    .collect(),
            },
        }],
    }
}

fn unwatchable_data(ids: &[&str]) -> Data {
    Data {
        runs: ids
            .iter()
            .map(|id| RunEntry {
                id: s(id),
                state: RunState { watched: false, unwatchable: true, deferred: None },
            })
            .collect(),
    }
}

fn ids(runs: &[Run]) -> Vec<String> {
    runs.iter().map(|r| r.id.clone()).collect()
}

#[test]
fn resolves_spec_example_global_minimum() {
    // category "Any%" with one source category and a platform variable with
    // two values; the switch board holds the global minimum
    let config = one_game_config(vec![(
        "Any%",
        category(&["abc123"], &[("platform", &["pc", "switch"])], &[], &[]),
    )]);
    let source = Source {
        categories: vec![SourceCategory { id: s("abc123"), is_il: false }],
        games: vec![s("sg1")],
        levels: vec![],
        boards: vec![
            board("abc123", None, filter(&[("platform", "pc")]), vec![run("r1", 60), run("r2", 65)]),
            board("abc123", None, filter(&[("platform", "switch")]), vec![run("r3", 55)]),
        ],
    };
    let data = Data::new();
    let mut resolver = Resolver::new();
    let wrs = resolver.resolve(&source, &data, &config, &s("game"), &s("Any%")).unwrap();
    assert_eq!(ids(&wrs), vec![s("r3")]);
}

#[test]
fn single_board_returns_tied_prefix() {
    // empty variable state, one non-individual-level source category: the
    // result is the maximal watchable prefix tied at the minimum time
    let config = one_game_config(vec![("100%", category(&["c1"], &[], &[], &[]))]);
    let source = Source {
        categories: vec![SourceCategory { id: s("c1"), is_il: false }],
        games: vec![],
        levels: vec![],
        boards: vec![board(
            "c1",
            None,
            None,
            vec![run("a", 100), run("b", 100), run("c", 100), run("d", 120)],
        )],
    };
    let data = Data::new();
    let mut resolver = Resolver::new();
    let wrs = resolver.resolve(&source, &data, &config, &s("game"), &s("100%")).unwrap();
    assert_eq!(ids(&wrs), vec![s("a"), s("b"), s("c")]);
}

#[test]
fn unwatchable_run_excluded_from_tie() {
    // the fastest run is unwatchable: the record moves to the next time
    let config = one_game_config(vec![("100%", category(&["c1"], &[], &[], &[]))]);
    let source = Source {
        categories: vec![SourceCategory { id: s("c1"), is_il: false }],
        games: vec![],
        levels: vec![],
        boards: vec![board("c1", None, None, vec![run("a", 90), run("b", 95), run("c", 95)])],
    };
    let data = unwatchable_data(&["a"]);
    let mut resolver = Resolver::new();
    let wrs = resolver.resolve(&source, &data, &config, &s("game"), &s("100%")).unwrap();
    assert_eq!(ids(&wrs), vec![s("b"), s("c")]);
}

#[test]
fn second_resolve_returns_equal_results() {
    let config = one_game_config(vec![(
        "Any%",
        category(&["abc123"], &[("platform", &["pc", "switch"])], &[], &[]),
    )]);
    let source = Source {
        categories: vec![SourceCategory { id: s("abc123"), is_il: false }],
        games: vec![],
        levels: vec![],
        boards: vec![
            board("abc123", None, filter(&[("platform", "pc")]), vec![run("r1", 60)]),
            board("abc123", None, filter(&[("platform", "switch")]), vec![run("r3", 55)]),
        ],
    };
    let data = Data::new();
    let mut resolver = Resolver::new();
    let first = resolver.resolve(&source, &data, &config, &s("game"), &s("Any%")).unwrap();
    let memo_len = resolver.memo.len();
    let second = resolver.resolve(&source, &data, &config, &s("game"), &s("Any%")).unwrap();
    assert_eq!(ids(&first), ids(&second));
    // the second call is a pure cache hit: nothing new is memoized
    assert_eq!(resolver.memo.len(), memo_len);
}

#[test]
fn parent_keeps_only_faster_sibling() {
    // two sibling sub-categories at 50s and 70s: the parent resolves to the
    // 50s runs only
    let config = one_game_config(vec![
        ("parent", category(&[], &[], &["fast", "slow"], &[])),
        ("fast", category(&["cf"], &[], &[], &[])),
        ("slow", category(&["cs"], &[], &[], &[])),
    ]);
    let source = Source {
        categories: vec![
            SourceCategory { id: s("cf"), is_il: false },
            SourceCategory { id: s("cs"), is_il: false },
        ],
        games: vec![],
        levels: vec![],
        boards: vec![
            board("cf", None, None, vec![run("f1", 50), run("f2", 50)]),
            board("cs", None, None, vec![run("s1", 70)]),
        ],
    };
    let data = Data::new();
    let mut resolver = Resolver::new();
    let wrs = resolver.resolve(&source, &data, &config, &s("game"), &s("parent")).unwrap();
    assert_eq!(ids(&wrs), vec![s("f1"), s("f2")]);
    assert!(wrs.iter().all(|r| r.time.secs == 50));
}

#[test]
fn run_reachable_twice_listed_once() {
    // the same run tops two equivalent source categories and is also the
    // record of a sub-category: it appears exactly once
    let config = one_game_config(vec![
        ("main", category(&["c1", "c2"], &[], &["sub"], &[])),
        ("sub", category(&["c1"], &[], &[], &[])),
    ]);
    let source = Source {
        categories: vec![
            SourceCategory { id: s("c1"), is_il: false },
            SourceCategory { id: s("c2"), is_il: false },
        ],
        games: vec![],
        levels: vec![],
        boards: vec![
            board("c1", None, None, vec![run("shared", 42)]),
            board("c2", None, None, vec![run("shared", 42), run("other", 44)]),
        ],
    };
    let data = Data::new();
    let mut resolver = Resolver::new();
    let wrs = resolver.resolve(&source, &data, &config, &s("game"), &s("main")).unwrap();
    assert_eq!(ids(&wrs), vec![s("shared")]);
}

#[test]
fn all_unwatchable_variant_contributes_nothing() {
    // one variant's whole board is unwatchable; the other still yields the
    // record, and resolution does not fail
    let config = one_game_config(vec![(
        "Any%",
        category(&["c1"], &[("region", &["us", "eu"])], &[], &[]),
    )]);
    let source = Source {
        categories: vec![SourceCategory { id: s("c1"), is_il: false }],
        games: vec![],
        levels: vec![],
        boards: vec![
            board("c1", None, filter(&[("region", "us")]), vec![run("u1", 30), run("u2", 31)]),
            board("c1", None, filter(&[("region", "eu")]), vec![run("e1", 35)]),
        ],
    };
    let data = unwatchable_data(&["u1", "u2"]);
    let mut resolver = Resolver::new();
    let wrs = resolver.resolve(&source, &data, &config, &s("game"), &s("Any%")).unwrap();
    assert_eq!(ids(&wrs), vec![s("e1")]);
}

#[test]
fn two_variables_expand_to_four_queries() {
    // two variables with two values each: exactly 4 filtered queries per
    // non-individual-level source category, filters in odometer order
    let cfg = category(&["c1"], &[("a", &["a1", "a2"]), ("b", &["b1", "b2"])], &[], &[]);
    let cats = vec![SourceCategory { id: s("c1"), is_il: false }];
    let queries = expand(&cfg, &cats);
    assert_eq!(queries.len(), 4);
    let expect = [
        [("a", "a1"), ("b", "b1")],
        [("a", "a1"), ("b", "b2")],
        [("a", "a2"), ("b", "b1")],
        [("a", "a2"), ("b", "b2")],
    ];
    for (q, want) in queries.iter().zip(expect.iter()) {
        assert_eq!(q.cat_id, "c1");
        assert!(q.level_id.is_none());
        let f = q.filter.as_ref().unwrap();
        assert_eq!(f.len(), 2);
        for (choice, (var, val)) in f.iter().zip(want.iter()) {
            assert_eq!(choice.variable, *var);
            assert_eq!(choice.value, *val);
        }
    }
}

#[test]
fn four_filtered_boards_resolve_to_global_minimum() {
    let config = one_game_config(vec![(
        "Any%",
        category(&["c1"], &[("a", &["a1", "a2"]), ("b", &["b1", "b2"])], &[], &[]),
    )]);
    let source = Source {
        categories: vec![SourceCategory { id: s("c1"), is_il: false }],
        games: vec![],
        levels: vec![],
        boards: vec![
            board("c1", None, filter(&[("a", "a1"), ("b", "b1")]), vec![run("w", 11)]),
            board("c1", None, filter(&[("a", "a1"), ("b", "b2")]), vec![run("x", 12)]),
            board("c1", None, filter(&[("a", "a2"), ("b", "b1")]), vec![run("y", 10)]),
            board("c1", None, filter(&[("a", "a2"), ("b", "b2")]), vec![run("z", 13)]),
        ],
    };
    let data = Data::new();
    let mut resolver = Resolver::new();
    let wrs = resolver.resolve(&source, &data, &config, &s("game"), &s("Any%")).unwrap();
    assert_eq!(ids(&wrs), vec![s("y")]);
}

#[test]
fn individual_level_category_queries_each_level() {
    let config = one_game_config(vec![(
        "ILs",
        category(&["il1"], &[], &[], &["lv1", "lv2"]),
    )]);
    let source = Source {
        categories: vec![SourceCategory { id: s("il1"), is_il: true }],
        games: vec![],
        levels: vec![s("lv1"), s("lv2")],
        boards: vec![
            board("il1", Some("lv1"), None, vec![run("a", 20)]),
            board("il1", Some("lv2"), None, vec![run("b", 18)]),
        ],
    };
    let data = Data::new();
    let mut resolver = Resolver::new();
    let wrs = resolver.resolve(&source, &data, &config, &s("game"), &s("ILs")).unwrap();
    assert_eq!(ids(&wrs), vec![s("b")]);
}

#[test]
fn empty_pool_resolves_to_empty_list() {
    let config = one_game_config(vec![("empty", category(&["c1"], &[], &[], &[]))]);
    let source = Source {
        categories: vec![SourceCategory { id: s("c1"), is_il: false }],
        games: vec![],
        levels: vec![],
        boards: vec![board("c1", None, None, vec![])],
    };
    let data = Data::new();
    let mut resolver = Resolver::new();
    let wrs = resolver.resolve(&source, &data, &config, &s("game"), &s("empty")).unwrap();
    assert!(wrs.is_empty());
}

#[test]
fn missing_game_is_configuration_error() {
    let config = one_game_config(vec![]);
    let source = Source { categories: vec![], games: vec![], levels: vec![], boards: vec![] };
    let data = Data::new();
    let mut resolver = Resolver::new();
    let err = resolver.resolve(&source, &data, &config, &s("nope"), &s("Any%")).unwrap_err();
    assert!(matches!(
        err,
        Error::Configuration(ConfigurationError::NoSuchGame { game_name }) if game_name == "nope"
    ));
}

#[test]
fn missing_category_is_configuration_error() {
    let config = one_game_config(vec![("Any%", category(&["c1"], &[], &[], &[]))]);
    let source = Source {
        categories: vec![SourceCategory { id: s("c1"), is_il: false }],
        games: vec![],
        levels: vec![],
        boards: vec![],
    };
    let data = Data::new();
    let mut resolver = Resolver::new();
    let err = resolver.resolve(&source, &data, &config, &s("game"), &s("missing")).unwrap_err();
    assert!(matches!(
        err,
        Error::Configuration(ConfigurationError::NoSuchCategory { game_name, cat_name })
            if game_name == "game" && cat_name == "missing"
    ));
}

#[test]
fn subcategory_cycle_is_configuration_error() {
    let config = one_game_config(vec![
        ("a", category(&[], &[], &["b"], &[])),
        ("b", category(&[], &[], &["a"], &[])),
    ]);
    let source = Source { categories: vec![], games: vec![], levels: vec![], boards: vec![] };
    let data = Data::new();
    let mut resolver = Resolver::new();
    let err = resolver.resolve(&source, &data, &config, &s("game"), &s("a")).unwrap_err();
    assert!(matches!(
        err,
        Error::Configuration(ConfigurationError::SubcategoryCycle { .. })
    ));
}

#[test]
fn missing_source_category_is_upstream_error() {
    let config = one_game_config(vec![("Any%", category(&["ghost"], &[], &[], &[]))]);
    let source = Source { categories: vec![], games: vec![], levels: vec![], boards: vec![] };
    let data = Data::new();
    let mut resolver = Resolver::new();
    let err = resolver.resolve(&source, &data, &config, &s("game"), &s("Any%")).unwrap_err();
    assert!(matches!(
        err,
        Error::Upstream(UpstreamError::Category { id }) if id == "ghost"
    ));
}

#[test]
fn missing_level_is_upstream_error() {
    let config = one_game_config(vec![("ILs", category(&["il1"], &[], &[], &["lv1"]))]);
    let source = Source {
        categories: vec![SourceCategory { id: s("il1"), is_il: true }],
        games: vec![],
        levels: vec![],
        boards: vec![],
    };
    let data = Data::new();
    let mut resolver = Resolver::new();
    let err = resolver.resolve(&source, &data, &config, &s("game"), &s("ILs")).unwrap_err();
    assert!(matches!(
        err,
        Error::Upstream(UpstreamError::Level { id }) if id == "lv1"
    ));
}

#[test]
fn missing_board_is_upstream_error() {
    let config = one_game_config(vec![("Any%", category(&["c1"], &[], &[], &[]))]);
    let source = Source {
        categories: vec![SourceCategory { id: s("c1"), is_il: false }],
        games: vec![],
        levels: vec![],
        boards: vec![],
    };
    let data = Data::new();
    let mut resolver = Resolver::new();
    let err = resolver.resolve(&source, &data, &config, &s("game"), &s("Any%")).unwrap_err();
    assert!(matches!(err, Error::Upstream(UpstreamError::Leaderboard { .. })));
}

#[test]
fn failed_category_is_not_cached_and_retry_succeeds() {
    // the board is missing on the first pass; a later pass (fresh resolver,
    // same memo state is fine since errors are never cached) succeeds
    let config = one_game_config(vec![("Any%", category(&["c1"], &[], &[], &[]))]);
    let bad = Source {
        categories: vec![SourceCategory { id: s("c1"), is_il: false }],
        games: vec![],
        levels: vec![],
        boards: vec![],
    };
    let good = Source {
        categories: vec![SourceCategory { id: s("c1"), is_il: false }],
        games: vec![],
        levels: vec![],
        boards: vec![board("c1", None, None, vec![run("a", 9)])],
    };
    let data = Data::new();
    let mut resolver = Resolver::new();
    assert!(resolver.resolve(&bad, &data, &config, &s("game"), &s("Any%")).is_err());
    assert_eq!(resolver.memo.len(), 0);
    let mut retry = Resolver::new();
    let wrs = retry.resolve(&good, &data, &config, &s("game"), &s("Any%")).unwrap();
    assert_eq!(ids(&wrs), vec![s("a")]);
}

#[test]
fn failing_subcategory_aborts_parent_but_keeps_sibling_entries() {
    // the first sub-category resolves and is memoized; the second fails, so
    // the parent fails and is not cached itself
    let config = one_game_config(vec![
        ("parent", category(&[], &[], &["ok", "bad"], &[])),
        ("ok", category(&["c1"], &[], &[], &[])),
        ("bad", category(&["ghost"], &[], &[], &[])),
    ]);
    let source = Source {
        categories: vec![SourceCategory { id: s("c1"), is_il: false }],
        games: vec![],
        levels: vec![],
        boards: vec![board("c1", None, None, vec![run("a", 5)])],
    };
    let data = Data::new();
    let mut resolver = Resolver::new();
    let err = resolver.resolve(&source, &data, &config, &s("game"), &s("parent")).unwrap_err();
    assert!(matches!(err, Error::Upstream(UpstreamError::Category { .. })));
    // the successful sibling stayed memoized; the parent did not
    assert_eq!(resolver.memo.len(), 1);
    assert_eq!(resolver.memo[0].cat_name, "ok");
}

#[test]
fn entity_cache_fetches_each_id_once() {
    // two categories referencing the same source category: the entity cache
    // holds it once
    let config = one_game_config(vec![
        ("one", category(&["c1"], &[], &[], &[])),
        ("two", category(&["c1"], &[], &[], &[])),
    ]);
    let source = Source {
        categories: vec![SourceCategory { id: s("c1"), is_il: false }],
        games: vec![],
        levels: vec![],
        boards: vec![board("c1", None, None, vec![run("a", 7)])],
    };
    let data = Data::new();
    let mut resolver = Resolver::new();
    resolver.resolve(&source, &data, &config, &s("game"), &s("one")).unwrap();
    resolver.resolve(&source, &data, &config, &s("game"), &s("two")).unwrap();
    assert_eq!(resolver.categories.len(), 1);
    assert_eq!(resolver.categories[0].id, "c1");
}

#[test]
fn src_games_fetches_configured_games() {
    let config = one_game_config(vec![]);
    let source = Source {
        categories: vec![],
        games: vec![s("sg1")],
        levels: vec![],
        boards: vec![],
    };
    let mut resolver = Resolver::new();
    let game = &config.games[0].config;
    let fetched = resolver.src_games(&source, game).unwrap();
    assert_eq!(fetched, vec![s("sg1")]);
    // a fresh pass against a source that cannot answer reports the failure
    let mut fresh = Resolver::new();
    assert!(matches!(
        fresh
            .src_games(
                &Source { categories: vec![], games: vec![], levels: vec![], boards: vec![] },
                game,
            )
            .unwrap_err(),
        Error::Upstream(UpstreamError::Game { id }) if id == "sg1"
    ));
}
