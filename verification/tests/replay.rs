use log_replay::actions::Add;
use log_replay::batch::{AddFields, Batch, Cell, RemoveFields, Row};
use log_replay::error::Error;
use log_replay::file_stream::{retain_selected, DataSkippingFilter, KeepAll, LogReplayScanner};

fn add_row(path: &str) -> Row {
    let mut row = Row::empty();
    row.add = AddFields {
        path: Cell::Text(path.to_string()),
        dv_id: Cell::Absent,
        size: Cell::Integer(10),
        modification_time: Cell::Integer(1000),
        data_change: Cell::Flag(true),
        stats: Cell::Absent,
    };
    row
}

fn remove_row(path: &str) -> Row {
    let mut row = Row::empty();
    row.remove = RemoveFields {
        path: Cell::Text(path.to_string()),
        dv_id: Cell::Absent,
        deletion_timestamp: Cell::Integer(2000),
        data_change: Cell::Flag(true),
    };
    row
}

fn paths(adds: &[Add]) -> Vec<String> {
    adds.iter().map(|a| a.path.clone()).collect()
}

fn texts(names: &[&str]) -> Vec<String> {
    names.iter().map(|n| n.to_string()).collect()
}

fn add_row_dv(path: &str, dv: &str) -> Row {
    let mut row = add_row(path);
    row.add.dv_id = Cell::Text(dv.to_string());
    row
}

/// Drops every row whose addition path starts with "skip".
struct SkipPrefix;

impl DataSkippingFilter for SkipPrefix {
    fn select(&self, batch: &Batch) -> Result<Vec<bool>, Error> {
        Ok(batch
            .rows
            .iter()
            .map(|row| match &row.add.path {
                Cell::Text(p) => !p.starts_with("skip"),
                _ => true,
            })
            .collect())
    }
}

/// Fails on every batch.
struct Broken;

impl DataSkippingFilter for Broken {
    fn select(&self, _batch: &Batch) -> Result<Vec<bool>, Error> {
        Err(Error::Filter)
    }
}

#[test]
fn scenario_removal_then_older_commit_then_checkpoint() {
    let mut scanner = LogReplayScanner::<KeepAll>::new(None);
    let batch1 = Batch { rows: vec![remove_row("a"), add_row("d")] };
    let batch2 = Batch { rows: vec![add_row("b")] };
    let batch3 = Batch { rows: vec![add_row("a"), add_row("c")] };
    let out1 = scanner.process_batch(&batch1, true).unwrap();
    assert_eq!(paths(&out1), texts(&["d"]));
    let out2 = scanner.process_batch(&batch2, true).unwrap();
    assert_eq!(paths(&out2), texts(&["b"]));
    let out3 = scanner.process_batch(&batch3, false).unwrap();
    assert_eq!(paths(&out3), texts(&["c"]));
}

#[test]
fn removal_in_the_same_batch_suppresses_the_addition() {
    let mut scanner = LogReplayScanner::<KeepAll>::new(None);
    let batch = Batch { rows: vec![add_row("a"), add_row("b"), remove_row("a")] };
    let out = scanner.process_batch(&batch, true).unwrap();
    assert_eq!(paths(&out), texts(&["b"]));
    assert!(scanner.has_seen(&"a".to_string(), &None));
    assert!(scanner.has_seen(&"b".to_string(), &None));
}

#[test]
fn removal_suppresses_every_later_addition() {
    let mut scanner = LogReplayScanner::<KeepAll>::new(None);
    scanner.process_batch(&Batch { rows: vec![remove_row("a")] }, true).unwrap();
    let mid = scanner.process_batch(&Batch { rows: vec![add_row("x")] }, true).unwrap();
    assert_eq!(paths(&mid), texts(&["x"]));
    let late = scanner.process_batch(&Batch { rows: vec![add_row("a")] }, true).unwrap();
    assert!(late.is_empty());
    let checkpoint = scanner.process_batch(&Batch { rows: vec![add_row("a")] }, false).unwrap();
    assert!(checkpoint.is_empty());
}

#[test]
fn duplicate_addition_in_an_older_commit_is_suppressed() {
    let mut scanner = LogReplayScanner::<KeepAll>::new(None);
    let newer = scanner.process_batch(&Batch { rows: vec![add_row("k")] }, true).unwrap();
    assert_eq!(paths(&newer), texts(&["k"]));
    let older = scanner.process_batch(&Batch { rows: vec![add_row("k"), add_row("m")] }, true).unwrap();
    assert_eq!(paths(&older), texts(&["m"]));
}

#[test]
fn first_of_a_key_wins_within_a_commit() {
    let mut scanner = LogReplayScanner::<KeepAll>::new(None);
    let mut second = add_row("k");
    second.add.size = Cell::Integer(99);
    let out = scanner
        .process_batch(&Batch { rows: vec![add_row("k"), second, add_row("z")] }, true)
        .unwrap();
    assert_eq!(paths(&out), texts(&["k", "z"]));
    assert_eq!(out[0].size, 10);
}

#[test]
fn checkpoint_additions_are_not_remembered() {
    let mut scanner = LogReplayScanner::<KeepAll>::new(None);
    let out = scanner
        .process_batch(&Batch { rows: vec![add_row("k"), add_row("k")] }, false)
        .unwrap();
    assert_eq!(paths(&out), texts(&["k", "k"]));
    assert!(!scanner.has_seen(&"k".to_string(), &None));
}

#[test]
fn checkpoint_removals_have_no_effect() {
    let mut scanner = LogReplayScanner::<KeepAll>::new(None);
    let out = scanner
        .process_batch(&Batch { rows: vec![remove_row("a"), add_row("a")] }, false)
        .unwrap();
    assert_eq!(paths(&out), texts(&["a"]));
    assert!(!scanner.has_seen(&"a".to_string(), &None));
}

#[test]
fn malformed_removal_group_is_not_read_from_a_checkpoint() {
    let mut row = add_row("a");
    row.remove.path = Cell::Integer(7);
    let mut scanner = LogReplayScanner::<KeepAll>::new(None);
    let out = scanner.process_batch(&Batch { rows: vec![row.duplicate()] }, false).unwrap();
    assert_eq!(paths(&out), texts(&["a"]));
    let err = scanner.process_batch(&Batch { rows: vec![row] }, true).unwrap_err();
    assert_eq!(err, Error::Extraction { row: 0 });
}

#[test]
fn extraction_error_names_the_first_bad_row_and_changes_nothing() {
    let mut bad = add_row("b");
    bad.add.size = Cell::Text("big".to_string());
    let mut worse = add_row("c");
    worse.add.data_change = Cell::Absent;
    let batch = Batch { rows: vec![remove_row("r"), add_row("a"), bad, worse] };
    let mut scanner = LogReplayScanner::<KeepAll>::new(None);
    assert_eq!(scanner.process_batch(&batch, true).unwrap_err(), Error::Extraction { row: 2 });
    assert!(!scanner.has_seen(&"r".to_string(), &None));
    assert!(!scanner.has_seen(&"a".to_string(), &None));
    let out = scanner.process_batch(&Batch { rows: vec![add_row("a")] }, true).unwrap();
    assert_eq!(paths(&out), texts(&["a"]));
}

#[test]
fn rows_of_neither_shape_are_ignored() {
    let mut scanner = LogReplayScanner::<KeepAll>::new(None);
    let out = scanner
        .process_batch(&Batch { rows: vec![Row::empty(), add_row("a"), Row::empty()] }, true)
        .unwrap();
    assert_eq!(paths(&out), texts(&["a"]));
    let none = scanner.process_batch(&Batch { rows: vec![] }, true).unwrap();
    assert!(none.is_empty());
}

#[test]
fn filter_drops_only_what_it_rules_out() {
    let mut scanner = LogReplayScanner::new(Some(SkipPrefix));
    let batch = Batch { rows: vec![add_row("skip-1"), add_row("keep-1"), add_row("skip-2")] };
    let out = scanner.process_batch(&batch, true).unwrap();
    assert_eq!(paths(&out), texts(&["keep-1"]));
    assert!(!scanner.has_seen(&"skip-1".to_string(), &None));
    assert!(scanner.has_seen(&"keep-1".to_string(), &None));
}

#[test]
fn filter_that_keeps_all_changes_nothing() {
    let batch = Batch { rows: vec![remove_row("a"), add_row("a"), add_row("b"), add_row("b")] };
    let mut plain = LogReplayScanner::<KeepAll>::new(None);
    let mut filtered = LogReplayScanner::new(Some(KeepAll));
    let a = plain.process_batch(&batch, true).unwrap();
    let b = filtered.process_batch(&batch, true).unwrap();
    assert_eq!(paths(&a), texts(&["b"]));
    assert_eq!(paths(&a), paths(&b));
}

#[test]
fn failing_filter_aborts_the_batch() {
    let mut scanner = LogReplayScanner::new(Some(Broken));
    let batch = Batch { rows: vec![remove_row("a"), add_row("b")] };
    assert_eq!(scanner.process_batch(&batch, true).unwrap_err(), Error::Filter);
    assert!(!scanner.has_seen(&"a".to_string(), &None));
    assert!(!scanner.has_seen(&"b".to_string(), &None));
}

#[test]
fn extraction_error_counts_rows_that_the_filter_kept() {
    let mut bad = add_row("bad");
    bad.add.modification_time = Cell::Flag(false);
    let batch = Batch { rows: vec![add_row("skip-1"), add_row("keep"), bad] };
    let mut scanner = LogReplayScanner::new(Some(SkipPrefix));
    assert_eq!(scanner.process_batch(&batch, true).unwrap_err(), Error::Extraction { row: 1 });
}

#[test]
fn process_selected_takes_the_filter_answer() {
    let batch = Batch { rows: vec![add_row("a"), add_row("b"), add_row("c")] };
    let mut scanner = LogReplayScanner::<KeepAll>::new(None);
    let out = scanner
        .process_selected(&batch, Some(Ok(vec![false, true])), true)
        .unwrap();
    assert_eq!(paths(&out), texts(&["b", "c"]));
    let err = scanner
        .process_selected(&batch, Some(Err(Error::Filter)), true)
        .unwrap_err();
    assert_eq!(err, Error::Filter);
    let rest = scanner.process_selected(&batch, None, true).unwrap();
    assert_eq!(paths(&rest), texts(&["a"]));
}

#[test]
fn retain_selected_keeps_marked_and_unreached_rows() {
    let batch = Batch { rows: vec![add_row("a"), add_row("b"), add_row("c"), add_row("d")] };
    let kept = retain_selected(&batch, &vec![true, false, false]);
    assert_eq!(kept.rows.len(), 2);
    assert!(matches!(&kept.rows[0].add.path, Cell::Text(p) if p == "a"));
    assert!(matches!(&kept.rows[1].add.path, Cell::Text(p) if p == "d"));
}

#[test]
fn deletion_vector_tells_keys_apart() {
    let mut scanner = LogReplayScanner::<KeepAll>::new(None);
    let batch = Batch {
        rows: vec![
            add_row_dv("f", "dv1"),
            add_row_dv("f", "dv2"),
            add_row("f"),
            add_row_dv("f", "dv1"),
        ],
    };
    let out = scanner.process_batch(&batch, true).unwrap();
    assert_eq!(out.len(), 3);
    assert_eq!(out[0].dv_unique_id(), Some("dv1".to_string()));
    assert_eq!(out[1].dv_unique_id(), Some("dv2".to_string()));
    assert_eq!(out[2].dv_unique_id(), None);
    assert!(scanner.has_seen(&"f".to_string(), &Some("dv2".to_string())));
    assert!(!scanner.has_seen(&"f".to_string(), &Some("dv3".to_string())));
}

#[test]
fn removal_with_deletion_vector_leaves_the_bare_file_live() {
    let mut tombstone = remove_row("f");
    tombstone.remove.dv_id = Cell::Text("dv1".to_string());
    let mut scanner = LogReplayScanner::<KeepAll>::new(None);
    let out = scanner
        .process_batch(&Batch { rows: vec![tombstone, add_row("f"), add_row_dv("f", "dv1")] }, true)
        .unwrap();
    assert_eq!(out.len(), 1);
    assert_eq!(out[0].dv_unique_id(), None);
}
