use std::path::PathBuf;

use log_replay::error::{Error, LocationFault};
use log_replay::table::{classify_scheme, resolve_uri_type, PathProbe, Table, UriKind, UriType};
use url::Url;

#[test]
fn scheme_decides_the_kind() {
    assert_eq!(classify_scheme(None), UriKind::LocalPath);
    assert_eq!(classify_scheme(Some(&"file".to_string())), UriKind::FileUrl);
    assert_eq!(classify_scheme(Some(&"c".to_string())), UriKind::LocalPath);
    assert_eq!(classify_scheme(Some(&"s3".to_string())), UriKind::RemoteUrl);
    assert_eq!(classify_scheme(Some(&"files".to_string())), UriKind::RemoteUrl);
    assert_eq!(classify_scheme(Some(&String::new())), UriKind::RemoteUrl);
}

#[test]
fn remote_url_is_kept() {
    match resolve_uri_type("s3://bucket/my/table").unwrap() {
        UriType::Url(url) => assert_eq!(url.as_str(), "s3://bucket/my/table"),
        other => panic!("{:?}", other),
    }
}

#[test]
fn plain_paths_are_local() {
    for text in ["/abs/path", "../relative/path", "table", ""] {
        match resolve_uri_type(text).unwrap() {
            UriType::LocalPath(path) => assert_eq!(path, PathBuf::from(text)),
            other => panic!("{:?}", other),
        }
    }
}

#[test]
fn drive_letter_is_a_path() {
    match resolve_uri_type("c:/data/table").unwrap() {
        UriType::LocalPath(path) => assert_eq!(path, PathBuf::from("c:/data/table")),
        other => panic!("{:?}", other),
    }
}

#[test]
fn file_url_becomes_its_path() {
    match resolve_uri_type("file:///tmp/some%20table").unwrap() {
        UriType::LocalPath(path) => assert_eq!(path, PathBuf::from("/tmp/some table")),
        other => panic!("{:?}", other),
    }
}

#[test]
fn file_url_of_another_host_is_rejected() {
    let err = resolve_uri_type("file://elsewhere/tmp/table").unwrap_err();
    assert_eq!(err, Error::InvalidTableLocation(LocationFault::NotAFilePath));
}

#[test]
fn table_keeps_its_location() {
    let url = Url::parse("memory:///warehouse/t1/").unwrap();
    let table = Table::new(url.clone());
    assert_eq!(table.location(), &url);
    assert_eq!(table.clone().location().as_str(), "memory:///warehouse/t1/");
}

fn probe(exists: bool, is_dir: bool, canonical: Option<&str>) -> PathProbe {
    PathProbe { exists, is_dir, canonical: canonical.map(PathBuf::from) }
}

#[test]
fn local_table_needs_an_existing_canonical_directory() {
    let fault = |found: PathProbe| Table::from_local_path(found).unwrap_err();
    assert_eq!(
        fault(probe(false, false, None)),
        Error::InvalidTableLocation(LocationFault::Missing)
    );
    assert_eq!(
        fault(probe(false, true, Some("/data/tables/t1"))),
        Error::InvalidTableLocation(LocationFault::Missing)
    );
    assert_eq!(
        fault(probe(true, false, Some("/data/tables/t1"))),
        Error::InvalidTableLocation(LocationFault::NotADirectory)
    );
    assert_eq!(
        fault(probe(true, true, None)),
        Error::InvalidTableLocation(LocationFault::NotCanonical)
    );
    assert_eq!(
        fault(probe(true, true, Some("relative/dir"))),
        Error::InvalidTableLocation(LocationFault::NoUrlForPath)
    );
    let table = Table::from_local_path(probe(true, true, Some("/data/tables/t1"))).unwrap();
    assert_eq!(table.location().as_str(), "file:///data/tables/t1/");
}

#[test]
fn remote_table_opens_without_a_look_at_the_file_system() {
    let mut asked = 0;
    let table = Table::try_from_uri("s3://bucket/t1", |_| {
        asked += 1;
        probe(false, false, None)
    })
    .unwrap();
    assert_eq!(table.location().as_str(), "s3://bucket/t1");
    assert_eq!(asked, 0);
}

#[test]
fn local_table_opens_at_the_canonical_path() {
    let mut seen_path = PathBuf::new();
    let table = Table::try_from_uri("../t1", |path| {
        seen_path = path;
        probe(true, true, Some("/warehouse/t1"))
    })
    .unwrap();
    assert_eq!(seen_path, PathBuf::from("../t1"));
    assert_eq!(table.location().as_str(), "file:///warehouse/t1/");
    let from_file_url = Table::try_from_uri("file:///warehouse/t2", |path| {
        assert_eq!(path, PathBuf::from("/warehouse/t2"));
        probe(true, true, Some("/warehouse/t2"))
    })
    .unwrap();
    assert_eq!(from_file_url.location().as_str(), "file:///warehouse/t2/");
}

#[test]
fn local_table_fails_by_what_the_probe_finds() {
    let missing = Table::try_from_uri("/nowhere", |_| probe(false, false, None)).unwrap_err();
    assert_eq!(missing, Error::InvalidTableLocation(LocationFault::Missing));
    let file = Table::try_from_uri("/a/file", |_| probe(true, false, None)).unwrap_err();
    assert_eq!(file, Error::InvalidTableLocation(LocationFault::NotADirectory));
    let foreign = Table::try_from_uri("file://elsewhere/t", |_| probe(true, true, Some("/t")))
        .unwrap_err();
    assert_eq!(foreign, Error::InvalidTableLocation(LocationFault::NotAFilePath));
}
