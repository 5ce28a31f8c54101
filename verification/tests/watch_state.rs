use speedrun_records::data::{Data, pick_presentable};
use speedrun_records::run::{Run, RunTime};

fn run(id: &str, secs: u64) -> Run {
    Run { id: id.to_string(), time: RunTime { secs, nanos: 0 } }
}

#[test]
fn marks_accumulate_per_run() {
    let mut data = Data::new();
    let id = "r1".to_string();
    data.mark_watched(&id);
    data.defer_until(&id, 1000);
    let state = data.lookup(&id).unwrap();
    assert!(state.watched);
    assert!(!state.unwatchable);
    assert_eq!(state.deferred, Some(1000));
    data.mark_unwatchable(&id);
    let state = data.lookup(&id).unwrap();
    assert!(state.watched);
    assert!(state.unwatchable);
    assert_eq!(state.deferred, Some(1000));
    assert!(data.is_unwatchable(&id));
}

#[test]
fn unmarked_runs_are_watchable() {
    let data = Data::new();
    assert!(!data.is_unwatchable(&"r1".to_string()));
    assert_eq!(data.lookup(&"r1".to_string()), None);
}

#[test]
fn marking_one_run_leaves_others_alone() {
    let mut data = Data::new();
    data.mark_unwatchable(&"r1".to_string());
    assert!(data.is_unwatchable(&"r1".to_string()));
    assert!(!data.is_unwatchable(&"r2".to_string()));
    assert_eq!(data.lookup(&"r2".to_string()), None);
}

#[test]
fn presents_first_record_when_nothing_is_marked() {
    let data = Data::new();
    let wrs = vec![run("a", 10), run("b", 10)];
    let picked = pick_presentable(&wrs, &data, 0).unwrap();
    assert_eq!(picked.id, "a");
}

#[test]
fn watched_tie_presents_nothing() {
    // a record tied with an already-watched run brings nothing new
    let mut data = Data::new();
    data.mark_watched(&"b".to_string());
    let wrs = vec![run("a", 10), run("b", 10)];
    assert!(pick_presentable(&wrs, &data, 0).is_none());
}

#[test]
fn deferred_record_is_skipped_until_due() {
    let mut data = Data::new();
    data.defer_until(&"a".to_string(), 500);
    let wrs = vec![run("a", 10), run("b", 10)];
    // before the deadline the second tied run is presented instead
    let picked = pick_presentable(&wrs, &data, 100).unwrap();
    assert_eq!(picked.id, "b");
    // once the deadline passed the first run is presented again
    let picked = pick_presentable(&wrs, &data, 500).unwrap();
    assert_eq!(picked.id, "a");
}

#[test]
fn all_deferred_presents_nothing() {
    let mut data = Data::new();
    data.defer_until(&"a".to_string(), 500);
    data.defer_until(&"b".to_string(), 900);
    let wrs = vec![run("a", 10), run("b", 10)];
    assert!(pick_presentable(&wrs, &data, 100).is_none());
}

#[test]
fn empty_record_set_presents_nothing() {
    let data = Data::new();
    assert!(pick_presentable(&vec![], &data, 0).is_none());
}
