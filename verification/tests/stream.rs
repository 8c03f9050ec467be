use log_replay::actions::Add;
use log_replay::batch::{AddFields, Batch, Cell, RemoveFields, Row};
use log_replay::error::Error;
use log_replay::file_stream::{DataSkippingFilter, KeepAll, LogReplayScanner};
use log_replay::stream::{log_replay_iter, replay_all, replay_step, LogReplay};

fn add_row(path: &str) -> Row {
    let mut row = Row::empty();
    row.add = AddFields {
        path: Cell::Text(path.to_string()),
        dv_id: Cell::Absent,
        size: Cell::Integer(10),
        modification_time: Cell::Integer(1000),
        data_change: Cell::Flag(true),
        stats: Cell::Absent,
    };
    row
}

fn remove_row(path: &str) -> Row {
    let mut row = Row::empty();
    row.remove = RemoveFields {
        path: Cell::Text(path.to_string()),
        dv_id: Cell::Absent,
        deletion_timestamp: Cell::Integer(2000),
        data_change: Cell::Flag(true),
    };
    row
}

fn paths(adds: &[Add]) -> Vec<String> {
    adds.iter().map(|a| a.path.clone()).collect()
}

fn texts(names: &[&str]) -> Vec<String> {
    names.iter().map(|n| n.to_string()).collect()
}

fn scenario() -> Vec<Result<(Batch, bool), Error>> {
    vec![
        Ok((Batch { rows: vec![remove_row("a"), add_row("d")] }, true)),
        Ok((Batch { rows: vec![add_row("b")] }, true)),
        Ok((Batch { rows: vec![add_row("a"), add_row("c")] }, false)),
    ]
}

fn drain<F: DataSkippingFilter>(replay: &mut LogReplay<F>) -> Vec<Result<Add, Error>> {
    let mut out = Vec::new();
    while let Some(item) = replay.next() {
        out.push(item);
    }
    out
}

#[test]
fn replay_emits_d_b_c() {
    let mut replay = log_replay_iter::<KeepAll>(scenario(), None);
    let out: Vec<Add> = drain(&mut replay).into_iter().map(|r| r.unwrap()).collect();
    assert_eq!(paths(&out), texts(&["d", "b", "c"]));
    assert_eq!(replay.obtained(), 3);
    assert!(replay.next().is_none());
}

#[test]
fn first_pull_obtains_only_the_first_batch() {
    let mut replay = log_replay_iter::<KeepAll>(scenario(), None);
    assert_eq!(replay.obtained(), 0);
    let first = replay.next().unwrap().unwrap();
    assert_eq!(first.path, "d");
    assert_eq!(replay.obtained(), 1);
}

#[test]
fn pending_records_are_handed_out_before_the_next_batch() {
    let inputs = vec![
        Ok((Batch { rows: vec![add_row("a"), add_row("b")] }, true)),
        Ok((Batch { rows: vec![add_row("c")] }, true)),
    ];
    let mut replay = LogReplay::<KeepAll>::new(inputs, None);
    assert_eq!(replay.next().unwrap().unwrap().path, "a");
    assert_eq!(replay.obtained(), 1);
    assert_eq!(replay.next().unwrap().unwrap().path, "b");
    assert_eq!(replay.obtained(), 1);
    assert_eq!(replay.next().unwrap().unwrap().path, "c");
    assert_eq!(replay.obtained(), 2);
    assert!(replay.next().is_none());
}

#[test]
fn batches_that_emit_nothing_are_passed_over() {
    let inputs = vec![
        Ok((Batch { rows: vec![remove_row("a")] }, true)),
        Ok((Batch { rows: vec![add_row("a")] }, true)),
        Ok((Batch { rows: vec![] }, true)),
        Ok((Batch { rows: vec![add_row("z")] }, false)),
    ];
    let mut replay = LogReplay::<KeepAll>::new(inputs, None);
    assert_eq!(replay.next().unwrap().unwrap().path, "z");
    assert_eq!(replay.obtained(), 4);
    assert!(replay.next().is_none());
}

#[test]
fn upstream_error_is_passed_on_once_and_replay_goes_on() {
    let inputs = vec![
        Ok((Batch { rows: vec![add_row("a")] }, true)),
        Err(Error::UpstreamBatch),
        Ok((Batch { rows: vec![add_row("a"), add_row("b")] }, true)),
    ];
    let mut replay = LogReplay::<KeepAll>::new(inputs, None);
    assert_eq!(replay.next().unwrap().unwrap().path, "a");
    assert_eq!(replay.next().unwrap().unwrap_err(), Error::UpstreamBatch);
    assert_eq!(replay.obtained(), 2);
    assert_eq!(replay.next().unwrap().unwrap().path, "b");
    assert!(replay.next().is_none());
    assert!(replay.next().is_none());
}

#[test]
fn failed_batch_yields_one_error_and_no_records() {
    let mut bad = add_row("x");
    bad.add.size = Cell::Absent;
    let inputs = vec![
        Ok((Batch { rows: vec![remove_row("r"), add_row("a"), bad] }, true)),
        Ok((Batch { rows: vec![add_row("r"), add_row("a")] }, false)),
    ];
    let mut replay = LogReplay::<KeepAll>::new(inputs, None);
    assert_eq!(replay.next().unwrap().unwrap_err(), Error::Extraction { row: 2 });
    let rest: Vec<Add> = drain(&mut replay).into_iter().map(|r| r.unwrap()).collect();
    assert_eq!(paths(&rest), texts(&["r", "a"]));
}

#[test]
fn empty_input_ends_at_once() {
    let mut replay = LogReplay::<KeepAll>::new(vec![], Some(KeepAll));
    assert!(replay.next().is_none());
    assert_eq!(replay.obtained(), 0);
}

/// Drops the rows whose addition path is "x"; fails on an empty batch.
struct DropX;

impl DataSkippingFilter for DropX {
    fn select(&self, batch: &Batch) -> Result<Vec<bool>, Error> {
        if batch.rows.is_empty() {
            return Err(Error::Filter);
        }
        Ok(batch
            .rows
            .iter()
            .map(|row| !matches!(&row.add.path, Cell::Text(p) if p == "x"))
            .collect())
    }
}

#[test]
fn step_yields_the_records_of_one_batch() {
    let mut scanner = LogReplayScanner::<KeepAll>::new(None);
    let first = replay_step(
        &mut scanner,
        &Ok((Batch { rows: vec![remove_row("a"), add_row("d"), add_row("e")] }, true)),
    );
    let first: Vec<Add> = first.into_iter().map(|r| r.unwrap()).collect();
    assert_eq!(paths(&first), texts(&["d", "e"]));
    let upstream = replay_step(&mut scanner, &Err(Error::UpstreamBatch));
    assert_eq!(upstream.len(), 1);
    assert_eq!(*upstream[0].as_ref().unwrap_err(), Error::UpstreamBatch);
    let mut bad = add_row("z");
    bad.add.size = Cell::Flag(true);
    let failed = replay_step(&mut scanner, &Ok((Batch { rows: vec![add_row("y"), bad] }, true)));
    assert_eq!(failed.len(), 1);
    assert_eq!(*failed[0].as_ref().unwrap_err(), Error::Extraction { row: 1 });
    let last = replay_step(&mut scanner, &Ok((Batch { rows: vec![add_row("a"), add_row("y")] }, false)));
    let last: Vec<Add> = last.into_iter().map(|r| r.unwrap()).collect();
    assert_eq!(paths(&last), texts(&["y"]));
}

#[test]
fn step_asks_the_configured_filter() {
    let mut scanner = LogReplayScanner::new(Some(DropX));
    let kept = replay_step(&mut scanner, &Ok((Batch { rows: vec![add_row("x"), add_row("y")] }, true)));
    let kept: Vec<Add> = kept.into_iter().map(|r| r.unwrap()).collect();
    assert_eq!(paths(&kept), texts(&["y"]));
    let failed = replay_step(&mut scanner, &Ok((Batch { rows: vec![] }, true)));
    assert_eq!(failed.len(), 1);
    assert_eq!(*failed[0].as_ref().unwrap_err(), Error::Filter);
}

#[test]
fn replay_all_equals_the_drained_sequence() {
    let all: Vec<Add> = replay_all::<KeepAll>(&scenario(), None)
        .into_iter()
        .map(|r| r.unwrap())
        .collect();
    assert_eq!(paths(&all), texts(&["d", "b", "c"]));
    let mut lazy = log_replay_iter::<KeepAll>(scenario(), None);
    let drained: Vec<Add> = drain(&mut lazy).into_iter().map(|r| r.unwrap()).collect();
    assert_eq!(paths(&drained), paths(&all));
}

#[test]
fn replay_all_with_keep_all_equals_replay_without_filter() {
    let with: Vec<Add> = replay_all(&scenario(), Some(KeepAll))
        .into_iter()
        .map(|r| r.unwrap())
        .collect();
    assert_eq!(paths(&with), texts(&["d", "b", "c"]));
}

#[test]
fn failed_input_leaves_one_error_and_the_rest_as_without_it() {
    let mut bad = add_row("q");
    bad.add.data_change = Cell::Absent;
    let mut with_failure = scenario();
    with_failure.insert(1, Ok((Batch { rows: vec![remove_row("b"), bad] }, true)));
    with_failure.insert(3, Err(Error::UpstreamBatch));
    let out = replay_all::<KeepAll>(&with_failure, None);
    assert_eq!(out.len(), 5);
    assert_eq!(out[0].as_ref().unwrap().path, "d");
    assert_eq!(*out[1].as_ref().unwrap_err(), Error::Extraction { row: 1 });
    assert_eq!(out[2].as_ref().unwrap().path, "b");
    assert_eq!(*out[3].as_ref().unwrap_err(), Error::UpstreamBatch);
    assert_eq!(out[4].as_ref().unwrap().path, "c");
}
