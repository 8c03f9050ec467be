//! A table, known by the URL of its root, and how a text given by a user is
//! taken for a URL or for a path on this machine.

use vstd::prelude::*;
use vstd::string::StrSliceExecFns;
use std::path::PathBuf;
use url::Url;
use crate::error::{Error, LocationFault};

verus! {

/// A parsed URL of the `url` crate. Nothing inside it is visible here.
#[verifier::external_type_specification]
#[verifier::external_body]
pub struct ExUrl(url::Url);

/// An owned path of the standard library. Nothing inside it is visible here.
#[verifier::external_type_specification]
#[verifier::external_body]
pub struct ExPathBuf(std::path::PathBuf);

/// `Url::clone`, which copies the URL field by field: the copy is the URL.
pub assume_specification[ <url::Url as Clone>::clone ](source: &url::Url) -> (r: url::Url)
    ensures
        r == *source,
;

/// The scheme of the URL that `Url::parse` makes of a text; `None` where it
/// makes none, the text being no absolute URL.
pub uninterp spec fn parsed_scheme(text: Seq<char>) -> Option<Seq<char>>;

/// Calls `Url::parse`, and `Url::scheme` on the URL that it returns: the URL
/// with its scheme, without the colon, or `None` where the text is no
/// absolute URL. The scheme is the one that [`parsed_scheme`] names; nothing
/// else is claimed of the URL.
#[verifier::external_body]
fn parse_url(text: &str) -> (r: Option<(Url, String)>)
    ensures
        match r {
            Some((_, scheme)) => parsed_scheme(text@) == Some(scheme@),
            None => parsed_scheme(text@) is None,
        },
{
    match Url::parse(text) {
        Ok(url) => {
            let scheme = url.scheme().to_string();
            Some((url, scheme))
        },
        Err(_) => None,
    }
}

/// Calls `Url::to_file_path`: the path that the URL stands for on this
/// machine, or `None` where it stands for none. Nothing is claimed of the
/// path.
#[verifier::external_body]
fn url_to_file_path(url: &Url) -> Option<PathBuf> {
    url.to_file_path().ok()
}

/// Calls `Url::from_directory_path`: the `file` URL of the directory, or
/// `None` where the path is not absolute. Nothing is claimed of the URL.
#[verifier::external_body]
fn url_from_directory_path(path: &PathBuf) -> Option<Url> {
    Url::from_directory_path(path).ok()
}

/// Calls `PathBuf::from` on a text. Nothing is claimed of the path.
#[verifier::external_body]
fn path_from_text(text: &str) -> PathBuf {
    PathBuf::from(text)
}

/// What a text given for a table is taken for.
#[derive(Debug, Clone, Copy, PartialEq, Eq, Structural)]
pub enum UriKind {
    /// A `file` URL: it stands for a path on this machine.
    FileUrl,
    /// A path on this machine.
    LocalPath,
    /// A URL of a store elsewhere.
    RemoteUrl,
}

/// What a text is taken for, given the scheme of the URL that it parses to;
/// `None` where it parses to none. A scheme of one character is the drive
/// letter of a path, not a scheme.
pub open spec fn kind_of_scheme(scheme: Option<Seq<char>>) -> UriKind {
    match scheme {
        None => UriKind::LocalPath,
        Some(s) => if s == "file"@ {
            UriKind::FileUrl
        } else if s.len() == 1 {
            UriKind::LocalPath
        } else {
            UriKind::RemoteUrl
        },
    }
}

/// The mathematical value of an optional scheme.
pub open spec fn scheme_view(scheme: Option<&String>) -> Option<Seq<char>> {
    match scheme {
        Some(s) => Some(s@),
        None => None,
    }
}

/// Decides what a text is taken for by the scheme of the URL that it parses
/// to.
pub fn classify_scheme(scheme: Option<&String>) -> (r: UriKind)
    ensures
        r == kind_of_scheme(scheme_view(scheme)),
{
    match scheme {
        None => UriKind::LocalPath,
        Some(s) => {
            let file = "file".to_owned();
            if *s == file {
                UriKind::FileUrl
            } else if s.as_str().unicode_len() == 1 {
                UriKind::LocalPath
            } else {
                UriKind::RemoteUrl
            }
        },
    }
}

/// A text resolved to a path on this machine or to a URL.
#[derive(Debug)]
pub enum UriType {
    LocalPath(PathBuf),
    Url(Url),
}

/// Takes a text for a path on this machine or for a URL.
///
/// The text is parsed as a URL, and [`classify_scheme`] decides by the
/// scheme: a URL of a store elsewhere is kept as it is, a `file` URL is
/// turned into the path that it stands for, and any other text is a path.
/// The one failure is a `file` URL that stands for no path here.
pub fn resolve_uri_type(table_uri: &str) -> (r: Result<UriType, Error>)
    ensures
        match kind_of_scheme(parsed_scheme(table_uri@)) {
            UriKind::RemoteUrl => r matches Ok(UriType::Url(_)),
            UriKind::LocalPath => r matches Ok(UriType::LocalPath(_)),
            UriKind::FileUrl => match r {
                Ok(resolved) => resolved is LocalPath,
                Err(e) => e == Error::InvalidTableLocation(LocationFault::NotAFilePath),
            },
        },
{
    match parse_url(table_uri) {
        Some((url, scheme)) => {
            match classify_scheme(Some(&scheme)) {
                UriKind::FileUrl => match url_to_file_path(&url) {
                    Some(path) => Ok(UriType::LocalPath(path)),
                    None => Err(Error::InvalidTableLocation(LocationFault::NotAFilePath)),
                },
                UriKind::LocalPath => Ok(UriType::LocalPath(path_from_text(table_uri))),
                UriKind::RemoteUrl => Ok(UriType::Url(url)),
            }
        },
        None => Ok(UriType::LocalPath(path_from_text(table_uri))),
    }
}

/// What was found at a path on this machine.
#[derive(Debug)]
pub struct PathProbe {
    /// Whether anything exists at the path.
    pub exists: bool,
    /// Whether what exists there is a directory.
    pub is_dir: bool,
    /// The canonical form of the path, where it has one.
    pub canonical: Option<PathBuf>,
}

/// What is wrong with a path on this machine as a table's location, given
/// what was found there; `None` where nothing is.
pub open spec fn local_path_fault(found: PathProbe) -> Option<LocationFault> {
    if !found.exists {
        Some(LocationFault::Missing)
    } else if !found.is_dir {
        Some(LocationFault::NotADirectory)
    } else if found.canonical is None {
        Some(LocationFault::NotCanonical)
    } else {
        None
    }
}

/// Whether `r` is what opening a table at a path yields, given what was
/// found there: the fault that [`local_path_fault`] names; where there is
/// none, the table, unless no URL can be made of the canonical path.
pub open spec fn opens_local_path(found: PathProbe, r: Result<Table, Error>) -> bool {
    match local_path_fault(found) {
        Some(fault) => r matches Err(e) && e == Error::InvalidTableLocation(fault),
        None => r matches Err(e) ==> e == Error::InvalidTableLocation(LocationFault::NoUrlForPath),
    }
}

/// A table, the root entity for reading its versions.
#[derive(Debug, Clone)]
pub struct Table {
    location: Url,
}

impl Table {
    /// The URL of the table's root.
    pub closed spec fn root(&self) -> Url {
        self.location
    }

    /// The table at the given location.
    pub fn new(location: Url) -> (r: Self)
        ensures
            r.root() == location,
    {
        Table { location }
    }

    /// The fully qualified location of the table.
    pub fn location(&self) -> (r: &Url)
        ensures
            *r == self.root(),
    {
        &self.location
    }

    /// The table at a path on this machine, given what was found there.
    pub fn from_local_path(found: PathProbe) -> (r: Result<Self, Error>)
        ensures
            opens_local_path(found, r),
    {
        if !found.exists {
            return Err(Error::InvalidTableLocation(LocationFault::Missing));
        }
        if !found.is_dir {
            return Err(Error::InvalidTableLocation(LocationFault::NotADirectory));
        }
        match found.canonical {
            None => Err(Error::InvalidTableLocation(LocationFault::NotCanonical)),
            Some(path) => match url_from_directory_path(&path) {
                Some(url) => Ok(Table::new(url)),
                None => Err(Error::InvalidTableLocation(LocationFault::NoUrlForPath)),
            },
        }
    }

    /// The table that a text names: a URL, an absolute path or a relative
    /// one. `probe` looks at the file system: it is asked once, and only
    /// where the text names a path on this machine.
    ///
    /// A URL of a store elsewhere always opens. A path opens where `probe`
    /// finds an existing directory with a canonical form of which a URL can
    /// be made.
    pub fn try_from_uri<P: FnOnce(PathBuf) -> PathProbe>(uri: &str, probe: P) -> (r: Result<
        Self,
        Error,
    >)
        requires
            forall|path: PathBuf| probe.requires((path,)),
        ensures
            match kind_of_scheme(parsed_scheme(uri@)) {
                UriKind::RemoteUrl => r is Ok,
                UriKind::LocalPath => exists|path: PathBuf, found: PathProbe|
                    #[trigger] probe.ensures((path,), found) && opens_local_path(found, r),
                UriKind::FileUrl => {
                    ||| r matches Err(e) && e == Error::InvalidTableLocation(
                        LocationFault::NotAFilePath,
                    )
                    ||| exists|path: PathBuf, found: PathProbe|
                        #[trigger] probe.ensures((path,), found) && opens_local_path(found, r)
                },
            },
    {
        match resolve_uri_type(uri) {
            Err(e) => Err(e),
            Ok(UriType::Url(url)) => Ok(Table::new(url)),
            Ok(UriType::LocalPath(path)) => {
                let found = probe(path);
                let r = Table::from_local_path(found);
                assert(probe.ensures((path,), found) && opens_local_path(found, r));
                r
            },
        }
    }
}

} // verus!
