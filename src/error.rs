use vstd::prelude::*;

verus! {

/// Whether an I/O failure was a missing file, which the cache treats as a
/// first run rather than as an error.
#[derive(Debug, Clone, Copy, PartialEq, Eq, Structural)]
pub enum IoErrorKind {
    NotFound,
    Other,
}

/// An I/O failure as the library sees it: its kind and a message.
#[derive(Debug)]
pub struct IoError {
    pub kind: IoErrorKind,
    pub message: String,
}

#[derive(Debug)]
pub enum ErrorKind {
    /// The trimmed contents of a configuration file are not an absolute URL;
    /// `url` holds the contents as they were read.
    InvalidUrl { reason: url::ParseError, url: String },
    DuplicateFeed(String),
    IoErr(IoError),
    /// A configuration file name is not valid text; holds a lossy rendering.
    InvalidFilename(String),
    /// The HTTP transport failed; holds its message.
    ReqwestErr(String),
    /// The fetched body is neither RSS nor Atom.
    FeedIsNeitherAtomOrRss(String),
    /// The fetched or cached body reads both as RSS and as Atom.
    AmbiguousFeed(String),
    /// The cache file of the named feed is neither RSS nor Atom.
    InvalidCache(String),
}

#[derive(Debug)]
pub struct Error {
    pub kind: ErrorKind,
    pub data: Option<String>,
}

/// Whether the error is a missing file.
pub open spec fn not_found(e: Error) -> bool {
    e.kind matches ErrorKind::IoErr(io) && io.kind == IoErrorKind::NotFound
}

impl Error {
    pub fn new(kind: ErrorKind) -> (r: Self)
        ensures
            r.kind == kind,
            r.data is None,
    {
        Self { kind, data: None }
    }

    /// Enriches the error with a string carrying additional information.
    pub fn with_data_mut(&mut self, data: &str)
        ensures
            final(self).kind == old(self).kind,
            final(self).data matches Some(d) && d@ == data@,
    {
        let data = data.to_string();
        self.data = Some(data);
    }

    /// Enriches the error with a string carrying additional information.
    pub fn with_data(self, data: &str) -> (r: Self)
        ensures
            r.kind == self.kind,
            r.data matches Some(d) && d@ == data@,
    {
        let mut e = self;
        e.with_data_mut(data);
        e
    }

    /// Whether the error is a missing file.
    pub fn is_not_found(&self) -> (r: bool)
        ensures
            r == not_found(*self),
    {
        match &self.kind {
            ErrorKind::IoErr(e) => e.kind == IoErrorKind::NotFound,
            _ => false,
        }
    }
}

} // verus!
