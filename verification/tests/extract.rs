use log_replay::batch::{AddFields, Batch, Cell, FieldGroup, RemoveFields, Row, Schema};
use log_replay::error::Error;
use log_replay::extract::{read_add, read_optional_integer, read_optional_text, read_remove,
    AddRemoveVisitor};
use log_replay::seen::{same_opt_text, SeenSet};

fn full_add() -> AddFields {
    AddFields {
        path: Cell::Text("part-0.parquet".to_string()),
        dv_id: Cell::Text("uabc@3".to_string()),
        size: Cell::Integer(635),
        modification_time: Cell::Integer(1677811178336),
        data_change: Cell::Flag(false),
        stats: Cell::Text("{\"numRecords\":10}".to_string()),
    }
}

fn full_remove() -> RemoveFields {
    RemoveFields {
        path: Cell::Text("part-1.parquet".to_string()),
        dv_id: Cell::Absent,
        deletion_timestamp: Cell::Integer(1670892998135),
        data_change: Cell::Flag(true),
    }
}

#[test]
fn read_add_copies_every_field() {
    let add = read_add(&full_add()).unwrap().unwrap();
    assert_eq!(add.path, "part-0.parquet");
    assert_eq!(add.dv_id, Some("uabc@3".to_string()));
    assert_eq!(add.size, 635);
    assert_eq!(add.modification_time, 1677811178336);
    assert!(!add.data_change);
    assert_eq!(add.stats, Some("{\"numRecords\":10}".to_string()));
    let copy = add.duplicate();
    assert_eq!(copy.path, add.path);
    assert_eq!(copy.dv_unique_id(), add.dv_unique_id());
    assert_eq!(copy.size, 635);
}

#[test]
fn read_add_without_path_is_no_addition() {
    let mut fields = full_add();
    fields.path = Cell::Absent;
    fields.size = Cell::Flag(true);
    assert!(read_add(&fields).unwrap().is_none());
}

#[test]
fn read_add_rejects_malformed_groups() {
    let mut f = full_add();
    f.path = Cell::Integer(1);
    assert!(read_add(&f).is_err());
    let mut f = full_add();
    f.size = Cell::Absent;
    assert!(read_add(&f).is_err());
    let mut f = full_add();
    f.modification_time = Cell::Text("now".to_string());
    assert!(read_add(&f).is_err());
    let mut f = full_add();
    f.data_change = Cell::Integer(1);
    assert!(read_add(&f).is_err());
    let mut f = full_add();
    f.stats = Cell::Flag(true);
    assert!(read_add(&f).is_err());
    let mut f = full_add();
    f.dv_id = Cell::Integer(3);
    assert!(read_add(&f).is_err());
}

#[test]
fn read_add_accepts_absent_optional_fields() {
    let mut f = full_add();
    f.stats = Cell::Absent;
    f.dv_id = Cell::Absent;
    let add = read_add(&f).unwrap().unwrap();
    assert_eq!(add.stats, None);
    assert_eq!(add.dv_unique_id(), None);
}

#[test]
fn read_remove_copies_every_field() {
    let remove = read_remove(&full_remove()).unwrap().unwrap();
    assert_eq!(remove.path, "part-1.parquet");
    assert_eq!(remove.dv_unique_id(), None);
    assert_eq!(remove.deletion_timestamp, Some(1670892998135));
    assert!(remove.data_change);
    let mut f = full_remove();
    f.deletion_timestamp = Cell::Absent;
    assert_eq!(read_remove(&f).unwrap().unwrap().deletion_timestamp, None);
}

#[test]
fn read_remove_rejects_malformed_groups() {
    let mut f = full_remove();
    f.path = Cell::Flag(true);
    assert!(read_remove(&f).is_err());
    let mut f = full_remove();
    f.data_change = Cell::Absent;
    assert!(read_remove(&f).is_err());
    let mut f = full_remove();
    f.deletion_timestamp = Cell::Text("t".to_string());
    assert!(read_remove(&f).is_err());
    let mut f = full_remove();
    f.path = Cell::Absent;
    f.data_change = Cell::Absent;
    assert!(read_remove(&f).unwrap().is_none());
}

#[test]
fn optional_fields_read_as_their_type_or_fail() {
    assert_eq!(read_optional_text(&Cell::Absent), Ok(None));
    assert_eq!(read_optional_text(&Cell::Text("x".to_string())), Ok(Some("x".to_string())));
    assert_eq!(read_optional_text(&Cell::Integer(1)), Err(()));
    assert_eq!(read_optional_integer(&Cell::Absent), Ok(None));
    assert_eq!(read_optional_integer(&Cell::Integer(-4)), Ok(Some(-4)));
    assert_eq!(read_optional_integer(&Cell::Flag(true)), Err(()));
}

#[test]
fn schema_follows_provenance() {
    let log = Schema::for_batch(true);
    assert_eq!(log.groups, vec![FieldGroup::Addition, FieldGroup::Removal]);
    assert!(log.requests(FieldGroup::Removal));
    let checkpoint = Schema::for_batch(false);
    assert_eq!(checkpoint.groups, vec![FieldGroup::Addition]);
    assert!(checkpoint.requests(FieldGroup::Addition));
    assert!(!checkpoint.requests(FieldGroup::Removal));
}

#[test]
fn visitor_collects_in_row_order_and_appends() {
    let both = Row { add: full_add(), remove: full_remove() };
    let mut only_remove = Row::empty();
    only_remove.remove = full_remove();
    only_remove.remove.path = Cell::Text("part-2.parquet".to_string());
    let batch = Batch { rows: vec![only_remove, Row::empty(), both] };
    let mut visitor = AddRemoveVisitor::new();
    visitor.visit(&batch, &Schema::for_batch(true)).unwrap();
    assert_eq!(visitor.adds.len(), 1);
    assert_eq!(visitor.removes.len(), 2);
    assert_eq!(visitor.removes[0].path, "part-2.parquet");
    assert_eq!(visitor.removes[1].path, "part-1.parquet");
    visitor.visit(&batch, &Schema::for_batch(false)).unwrap();
    assert_eq!(visitor.adds.len(), 2);
    assert_eq!(visitor.removes.len(), 2);
}

#[test]
fn visitor_stops_at_the_first_bad_row() {
    let mut bad = Row::empty();
    bad.remove = full_remove();
    bad.remove.data_change = Cell::Integer(0);
    let good = Row { add: full_add(), remove: full_remove() };
    let batch = Batch { rows: vec![good.duplicate(), bad, good] };
    let mut visitor = AddRemoveVisitor::new();
    let err = visitor.visit(&batch, &Schema::for_batch(true)).unwrap_err();
    assert_eq!(err, Error::Extraction { row: 1 });
    assert_eq!(visitor.adds.len(), 1);
    assert_eq!(visitor.removes.len(), 1);
}

#[test]
fn empty_schema_extracts_nothing() {
    let mut bad = Row::empty();
    bad.add.path = Cell::Integer(1);
    let mut visitor = AddRemoveVisitor::new();
    visitor.visit(&Batch { rows: vec![bad] }, &Schema { groups: vec![] }).unwrap();
    assert!(visitor.adds.is_empty());
    assert!(visitor.removes.is_empty());
}

#[test]
fn seen_set_holds_each_key_once() {
    let mut seen = SeenSet::new();
    assert_eq!(seen.len(), 0);
    assert!(seen.insert("a".to_string(), None));
    assert!(seen.insert("a".to_string(), Some("dv".to_string())));
    assert!(!seen.insert("a".to_string(), None));
    assert_eq!(seen.len(), 2);
    assert!(seen.contains(&"a".to_string(), &Some("dv".to_string())));
    assert!(!seen.contains(&"a".to_string(), &Some("other".to_string())));
    assert!(!seen.contains(&"b".to_string(), &None));
}

#[test]
fn optional_texts_compare_by_content() {
    assert!(same_opt_text(&None, &None));
    assert!(same_opt_text(&Some("x".to_string()), &Some("x".to_string())));
    assert!(!same_opt_text(&Some("x".to_string()), &Some("y".to_string())));
    assert!(!same_opt_text(&Some("x".to_string()), &None));
    assert!(!same_opt_text(&None, &Some(String::new())));
}
