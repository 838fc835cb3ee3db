use migr::cli::RunRevMigration;
use migr::engine::{check_table, execute_exact, execution_plan, run_migrations};
use migr::error::MigrError;
use migr::meta::{load_states, setup, MetaRow, MetaTable};
use migr::ops::{migration_redo, migration_rev, migration_run};
use migr::repo::{list, sort_ids, MigrationDir};
use migr::resolver::find_exact;
use migr::sync::sync;
use migr::Direction;

fn dir(name: &str) -> MigrationDir {
    MigrationDir {
        name: name.to_string(),
        files: vec!["up.sql".to_string(), "down.sql".to_string()],
    }
}

fn table_of(rows: &[(&str, bool)]) -> MetaTable {
    let mut t = MetaTable::new_empty();
    for (id, pending) in rows {
        t.insert(id.to_string()).unwrap();
        t.set_pending(id, *pending);
    }
    t
}

fn ids_of(t: &MetaTable) -> Vec<(String, bool)> {
    t.rows_vec().iter().map(|r| (r.id.clone(), r.pending)).collect()
}

fn args(exact: Option<&str>, count: Option<usize>, all: bool) -> RunRevMigration {
    RunRevMigration { exact: exact.map(|s| s.to_string()), count, all }
}

#[test]
fn list_up_is_ascending_and_down_is_its_reverse() {
    let entries = vec![dir("0002_b"), dir("0001_a"), dir("0003_c")];
    let up = list(&entries, Direction::Up).unwrap();
    let down = list(&entries, Direction::Down).unwrap();
    let up_ids: Vec<&str> = up.iter().map(|m| m.id.as_str()).collect();
    let down_ids: Vec<&str> = down.iter().map(|m| m.id.as_str()).collect();
    assert_eq!(up_ids, vec!["0001_a", "0002_b", "0003_c"]);
    assert_eq!(down_ids, vec!["0003_c", "0002_b", "0001_a"]);
}

#[test]
fn list_rejects_a_malformed_directory_name() {
    let entries = vec![dir("0001_a"), dir("nounderscore")];
    match list(&entries, Direction::Up) {
        Err(MigrError::MalformedName { name }) => assert_eq!(name, "nounderscore"),
        other => panic!("expected a malformed-name error, got {other:?}"),
    }
}

#[test]
fn list_rejects_a_directory_missing_a_script() {
    let entries = vec![MigrationDir {
        name: "0001_a".to_string(),
        files: vec!["up.sql".to_string()],
    }];
    match list(&entries, Direction::Up) {
        Err(MigrError::MissingScript { dir, script }) => {
            assert_eq!(dir, "0001_a");
            assert_eq!(script, "down.sql");
        }
        other => panic!("expected a missing-script error, got {other:?}"),
    }
}

#[test]
fn sort_ids_orders_lexicographically() {
    let v = vec!["b".to_string(), "a".to_string(), "c".to_string()];
    let sorted = sort_ids(&v);
    assert_eq!(sorted, vec!["a".to_string(), "b".to_string(), "c".to_string()]);
}

#[test]
fn setup_seeds_the_initial_row_once() {
    let t = setup(None).unwrap();
    let rows = ids_of(&t);
    assert_eq!(rows, vec![("0000000000_pg_migrator".to_string(), true)]);
    match setup(Some(&t)) {
        Err(MigrError::AlreadyInitialized) => {}
        other => panic!("expected already-initialized, got {other:?}"),
    }
}

#[test]
fn check_table_demands_a_table() {
    assert!(check_table(None).is_err());
    let t = MetaTable::new_empty();
    assert!(check_table(Some(&t)).is_ok());
}

#[test]
fn sync_inserts_missing_ids_as_pending() {
    let names = vec!["0002_b".to_string(), "0001_a".to_string()];
    let t0 = table_of(&[("0001_a", false)]);
    let (t1, plan) = sync(false, &names, Some(t0));
    assert!(!plan.created);
    assert_eq!(plan.inserts, vec!["0002_b".to_string()]);
    assert!(plan.deletes.is_empty());
    assert_eq!(
        ids_of(&t1),
        vec![("0001_a".to_string(), false), ("0002_b".to_string(), true)]
    );
}

#[test]
fn sync_creates_the_table_when_absent() {
    let names = vec!["0001_a".to_string()];
    let (t1, plan) = sync(false, &names, None);
    assert!(plan.created);
    assert_eq!(plan.inserts, vec!["0001_a".to_string()]);
    assert_eq!(ids_of(&t1), vec![("0001_a".to_string(), true)]);
}

#[test]
fn sync_twice_changes_nothing_the_second_time() {
    let names = vec!["0002_b".to_string(), "0001_a".to_string()];
    let t0 = table_of(&[("0001_a", false)]);
    let (t1, _) = sync(false, &names, Some(t0));
    let before = ids_of(&t1);
    let (t2, plan2) = sync(false, &names, Some(t1));
    assert!(plan2.inserts.is_empty());
    assert!(plan2.deletes.is_empty());
    assert_eq!(ids_of(&t2), before);
}

#[test]
fn sync_trim_deletes_the_orphan_and_plain_sync_keeps_it() {
    let names = vec!["0001_a".to_string()];
    let t0 = table_of(&[("0001_a", false), ("0002_gone", false)]);
    let (kept, plan_kept) = sync(false, &names, Some(t0));
    assert!(plan_kept.deletes.is_empty());
    assert!(kept.has("0002_gone"));
    let t0 = table_of(&[("0001_a", false), ("0002_gone", false)]);
    let (trimmed, plan_trim) = sync(true, &names, Some(t0));
    assert_eq!(plan_trim.deletes, vec!["0002_gone".to_string()]);
    assert!(!trimmed.has("0002_gone"));
    assert!(trimmed.has("0001_a"));
}

#[test]
fn load_states_reports_missing_metadata() {
    let t = table_of(&[("0001_a", true)]);
    let ids = vec!["0001_a".to_string(), "0002_b".to_string()];
    match load_states(&t, &ids) {
        Err(MigrError::MetadataMissing) => {}
        other => panic!("expected missing metadata, got {other:?}"),
    }
}

#[test]
fn execution_plan_skips_and_respects_the_count() {
    let states = vec![
        MetaRow { id: "0001_a".to_string(), pending: false },
        MetaRow { id: "0002_b".to_string(), pending: true },
        MetaRow { id: "0003_c".to_string(), pending: true },
        MetaRow { id: "0004_d".to_string(), pending: true },
    ];
    let plan = execution_plan(&states, Direction::Up, Some(2));
    assert_eq!(plan, vec!["0002_b".to_string(), "0003_c".to_string()]);
    let plan_all = execution_plan(&states, Direction::Up, None);
    assert_eq!(plan_all.len(), 3);
    let plan_down = execution_plan(&states, Direction::Down, None);
    assert_eq!(plan_down, vec!["0001_a".to_string()]);
}

#[test]
fn run_up_then_down_restores_the_pending_flags() {
    let entries = vec![dir("0001_a"), dir("0002_b")];
    let mut t = table_of(&[("0001_a", true), ("0002_b", true)]);
    let before = ids_of(&t);
    let ok = vec![true, true];
    let n = migration_run(&args(None, None, false), &entries, &mut t, &ok).unwrap();
    assert_eq!(n, 2);
    assert_eq!(
        ids_of(&t),
        vec![("0001_a".to_string(), false), ("0002_b".to_string(), false)]
    );
    let n = migration_rev(&args(None, None, true), &entries, &mut t, &ok).unwrap();
    assert_eq!(n, 2);
    assert_eq!(ids_of(&t), before);
}

#[test]
fn a_failing_migration_keeps_earlier_commits_and_stops_the_walk() {
    let entries = vec![dir("0001_a"), dir("0002_b"), dir("0003_c")];
    let mut t = table_of(&[("0001_a", true), ("0002_b", true), ("0003_c", true)]);
    let outcomes = vec![true, false, true];
    match migration_run(&args(None, None, false), &entries, &mut t, &outcomes) {
        Err(MigrError::Execution { id }) => assert_eq!(id, "0002_b"),
        other => panic!("expected an execution error naming the second migration, got {other:?}"),
    }
    assert_eq!(
        ids_of(&t),
        vec![
            ("0001_a".to_string(), false),
            ("0002_b".to_string(), true),
            ("0003_c".to_string(), true),
        ]
    );
}

#[test]
fn run_migrations_reports_how_many_ran() {
    let mut t = table_of(&[("0001_a", true), ("0002_b", true)]);
    let plan = vec!["0001_a".to_string(), "0002_b".to_string()];
    let outcomes = vec![true, true];
    let n = run_migrations(&mut t, &plan, &outcomes, Direction::Up).unwrap();
    assert_eq!(n, 2);
    assert_eq!(
        ids_of(&t),
        vec![("0001_a".to_string(), false), ("0002_b".to_string(), false)]
    );
}

#[test]
fn exact_targeting_reruns_an_applied_migration() {
    let entries = vec![dir("0001_a"), dir("0002_b")];
    let mut t = table_of(&[("0001_a", false), ("0002_b", false)]);
    // an ordinary run has nothing to do: everything is applied
    let ok = vec![true, true];
    let n = migration_run(&args(None, None, false), &entries, &mut t, &ok).unwrap();
    assert_eq!(n, 0);
    // exact targeting runs it anyway and the flag reads applied after
    let n = migration_run(&args(Some("a"), None, false), &entries, &mut t, &ok).unwrap();
    assert_eq!(n, 1);
    assert_eq!(
        ids_of(&t),
        vec![("0001_a".to_string(), false), ("0002_b".to_string(), false)]
    );
}

#[test]
fn exact_targeting_requires_a_metadata_row() {
    let entries = vec![dir("0001_a")];
    let t = table_of(&[]);
    match find_exact(&entries, "a", &t) {
        Err(MigrError::TargetNotSynced { id }) => assert_eq!(id, "0001_a"),
        other => panic!("expected a not-synced error, got {other:?}"),
    }
    match find_exact(&entries, "zzz", &t) {
        Err(MigrError::TargetNotFound { name }) => assert_eq!(name, "zzz"),
        other => panic!("expected a not-found error, got {other:?}"),
    }
}

#[test]
fn redo_of_one_applied_migration_restores_the_table() {
    let entries = vec![dir("0001_a"), dir("0002_b")];
    let mut t = table_of(&[("0001_a", false), ("0002_b", false)]);
    let before = ids_of(&t);
    let ok = vec![true, true];
    let (dn, un) = migration_redo(&args(None, None, false), &entries, &mut t, &ok, &ok).unwrap();
    assert_eq!((dn, un), (1, 1));
    assert_eq!(ids_of(&t), before);
}

#[test]
fn revert_defaults_to_one_migration() {
    let entries = vec![dir("0001_a"), dir("0002_b")];
    let mut t = table_of(&[("0001_a", false), ("0002_b", false)]);
    let ok = vec![true, true];
    let n = migration_rev(&args(None, None, false), &entries, &mut t, &ok).unwrap();
    assert_eq!(n, 1);
    // the most recent applied migration was reverted, the other kept
    assert_eq!(
        ids_of(&t),
        vec![("0001_a".to_string(), false), ("0002_b".to_string(), true)]
    );
}

#[test]
fn execute_exact_rolls_back_on_failure() {
    let mut t = table_of(&[("0001_a", true)]);
    match execute_exact(&mut t, "0001_a", Direction::Up, false) {
        Err(MigrError::Execution { id }) => assert_eq!(id, "0001_a"),
        other => panic!("expected an execution error, got {other:?}"),
    }
    assert_eq!(ids_of(&t), vec![("0001_a".to_string(), true)]);
}

#[test]
fn meta_table_mutations_follow_the_primary_key() {
    let mut t = MetaTable::new_empty();
    t.insert("0001_a".to_string()).unwrap();
    match t.insert("0001_a".to_string()) {
        Err(MigrError::DuplicateId { id }) => assert_eq!(id, "0001_a"),
        other => panic!("expected a duplicate-id error, got {other:?}"),
    }
    assert_eq!(t.count("0001_a"), 1);
    assert_eq!(t.count("0002_b"), 0);
    t.set_pending("0001_a", false);
    assert_eq!(t.pending_of("0001_a"), Some(false));
    t.delete("0001_a");
    assert!(!t.has("0001_a"));
}
