//! Serving static files from a directory tree: which requests are served,
//! and what each attempt to open the requested file, or a directory's
//! `index.html`, turns into. The opening itself is left to the caller, who
//! hands each outcome to `FilesystemResolveFuture::poll_step`.

use vstd::prelude::*;

use crate::boot::str_equals;
use crate::static_vfs::{Error, ErrorKind, ModifiedTime};
use crate::text::chars_of;

verus! {

/// The length of a served file and, where known, when it was last changed.
#[derive(Debug, Clone, Copy, PartialEq, Eq, Structural)]
pub struct ThinMetadata {
    pub length: u64,
    pub modified: Option<ModifiedTime>,
}

/// What the file system tells of an opened file.
#[derive(Debug, Clone, Copy, PartialEq, Eq, Structural)]
pub struct FileFacts {
    pub is_dir: bool,
    pub length: u64,
    pub modified: Option<ModifiedTime>,
}

impl ThinMetadata {
    /// The metadata of a file of `length` bytes, with no time of change.
    pub fn new(length: u64) -> (r: ThinMetadata)
        ensures
            r == (ThinMetadata { length, modified: None }),
    {
        ThinMetadata { length, modified: None }
    }

    /// The metadata of an opened file: its length and time of change.
    pub fn from_facts(facts: FileFacts) -> (r: ThinMetadata)
        ensures
            r == (ThinMetadata { length: facts.length, modified: facts.modified }),
    {
        ThinMetadata { length: facts.length, modified: facts.modified }
    }

    /// Sets the time of change.
    pub fn set_modified(&mut self, m: Option<ModifiedTime>)
        ensures
            *final(self) == (ThinMetadata { length: old(self).length, modified: m }),
    {
        self.modified = m;
    }

    /// The length in bytes.
    pub fn len(&self) -> (r: u64)
        ensures
            r == self.length,
    {
        self.length
    }

    /// The time of change; an error of kind `Other` saying `unsupported`
    /// where there is none.
    pub fn modified(&self) -> (r: Result<ModifiedTime, Error>)
        ensures
            match self.modified {
                Some(m) => r == Ok::<ModifiedTime, Error>(m),
                None => r matches Err(e) && e.kind == ErrorKind::Other && e.message@
                    == "unsupported"@,
            },
    {
        match self.modified {
            Some(m) => Ok(m),
            None => Err(Error::new(ErrorKind::Other, "unsupported")),
        }
    }
}

/// How a request for a static file is answered; `F` is the opened file.
pub enum ResolveResult<F> {
    /// The request was neither `GET` nor `HEAD`.
    MethodNotMatched,
    /// The request URI was more than a path.
    UriNotMatched,
    /// The requested file does not exist.
    NotFound,
    /// The requested file could not be accessed.
    PermissionDenied,
    /// A directory was requested as a file.
    IsDirectory,
    /// The requested file was found.
    Found(F, ThinMetadata),
}

/// The kinds of failure to open a file that are told apart.
#[derive(Debug, Clone, Copy, PartialEq, Eq, Structural)]
pub enum OpenErrorKind {
    NotFound,
    PermissionDenied,
    Other,
}

/// How a failure to open a file is answered: a missing file is not found,
/// a forbidden one is answered as such, any other failure is an error with
/// the failure's text.
pub open spec fn open_failure_answer<F>(kind: OpenErrorKind, text: String) -> Result<
    ResolveResult<F>,
    String,
> {
    match kind {
        OpenErrorKind::NotFound => Ok(ResolveResult::NotFound),
        OpenErrorKind::PermissionDenied => Ok(ResolveResult::PermissionDenied),
        OpenErrorKind::Other => Err(text),
    }
}

/// Answers a failure of kind `kind`, whose text is `text`, to open a file.
pub fn map_open_err<F>(kind: OpenErrorKind, text: String) -> (r: Result<ResolveResult<F>, String>)
    ensures
        r == open_failure_answer::<F>(kind, text),
{
    match kind {
        OpenErrorKind::NotFound => Ok(ResolveResult::NotFound),
        OpenErrorKind::PermissionDenied => Ok(ResolveResult::PermissionDenied),
        OpenErrorKind::Other => Err(text),
    }
}

/// Where a resolution stands.
#[derive(Debug, Clone, Copy, PartialEq, Eq, Structural)]
pub enum ResolveState {
    /// Answered at once: the method is not served.
    MethodNotMatched,
    /// Answered at once: the URI is not a bare path.
    UriNotMatched,
    /// Waiting for the requested file to open.
    WaitOpen,
    /// Waiting for the directory's index file to open.
    WaitOpenIndex,
}

/// What the caller's attempt to open a file has come to.
pub enum OpenEvent<F> {
    /// Not yet known.
    Pending,
    /// The file could not be opened.
    Failed(OpenErrorKind, String),
    /// The file is open.
    Opened(F, FileFacts),
}

/// What the caller does after a step.
pub enum PollStep<F> {
    /// Waits, and steps again with the next outcome.
    NotReady,
    /// Stops with this answer.
    Ready(Result<ResolveResult<F>, String>),
    /// Opens `index.html` inside the requested directory, and steps again.
    OpenIndex,
}

/// A resolution in progress: whether the request named a directory (its
/// path ends with `/`), and where it stands.
#[derive(Debug, Clone, Copy, PartialEq, Eq, Structural)]
pub struct FilesystemResolveFuture {
    pub is_dir_request: bool,
    pub state: ResolveState,
}

/// Whether `path` names a directory: it ends with `/`.
pub open spec fn names_directory(path: Seq<char>) -> bool {
    path.len() > 0 && path.last() == '/'
}

/// Where the resolution of a request starts: only `GET` and `HEAD` of a
/// bare path wait for a file to open.
pub open spec fn resolve_start(
    method: Seq<char>,
    has_scheme: bool,
    has_host: bool,
    path: Seq<char>,
) -> FilesystemResolveFuture {
    if !(method == "GET"@ || method == "HEAD"@) {
        FilesystemResolveFuture { is_dir_request: false, state: ResolveState::MethodNotMatched }
    } else if has_scheme || has_host {
        FilesystemResolveFuture { is_dir_request: false, state: ResolveState::UriNotMatched }
    } else {
        FilesystemResolveFuture { is_dir_request: names_directory(path), state: ResolveState::WaitOpen }
    }
}

/// One step of a resolution: the state it moves to and what the caller does.
/// A directory request that opened a directory goes on to its index file; a
/// directory request that opened a file, and an index that is a directory,
/// are not found; a file request that opened a directory is answered as a
/// directory.
pub open spec fn resolve_step<F>(
    state: ResolveState,
    is_dir_request: bool,
    event: OpenEvent<F>,
) -> (ResolveState, PollStep<F>) {
    match state {
        ResolveState::MethodNotMatched => (
            state,
            PollStep::Ready(Ok(ResolveResult::MethodNotMatched)),
        ),
        ResolveState::UriNotMatched => (state, PollStep::Ready(Ok(ResolveResult::UriNotMatched))),
        ResolveState::WaitOpen => match event {
            OpenEvent::Pending => (state, PollStep::NotReady),
            OpenEvent::Failed(kind, text) => (
                state,
                PollStep::Ready(open_failure_answer(kind, text)),
            ),
            OpenEvent::Opened(file, facts) => {
                if is_dir_request && !facts.is_dir {
                    (state, PollStep::Ready(Ok(ResolveResult::NotFound)))
                } else if !is_dir_request && facts.is_dir {
                    (state, PollStep::Ready(Ok(ResolveResult::IsDirectory)))
                } else if !is_dir_request {
                    (
                        state,
                        PollStep::Ready(
                            Ok(
                                ResolveResult::Found(
                                    file,
                                    ThinMetadata { length: facts.length, modified: facts.modified },
                                ),
                            ),
                        ),
                    )
                } else {
                    (ResolveState::WaitOpenIndex, PollStep::OpenIndex)
                }
            },
        },
        ResolveState::WaitOpenIndex => match event {
            OpenEvent::Pending => (state, PollStep::NotReady),
            OpenEvent::Failed(kind, text) => (
                state,
                PollStep::Ready(open_failure_answer(kind, text)),
            ),
            OpenEvent::Opened(file, facts) => {
                if facts.is_dir {
                    (state, PollStep::Ready(Ok(ResolveResult::NotFound)))
                } else {
                    (
                        state,
                        PollStep::Ready(
                            Ok(
                                ResolveResult::Found(
                                    file,
                                    ThinMetadata { length: facts.length, modified: facts.modified },
                                ),
                            ),
                        ),
                    )
                }
            },
        },
    }
}

/// Whether `path` ends with `/`.
pub fn is_dir_request(path: &str) -> (r: bool)
    ensures
        r == names_directory(path@),
{
    let v = chars_of(path);
    let n = v.len();
    n > 0 && v[n - 1] == '/'
}

/// Starts resolving a request with `method`, whose URI has a scheme or a
/// host as the flags say, for `path`.
pub fn resolve_request(method: &str, has_scheme: bool, has_host: bool, path: &str) -> (r:
    FilesystemResolveFuture)
    ensures
        r == resolve_start(method@, has_scheme, has_host, path@),
{
    if !(str_equals(method, "GET") || str_equals(method, "HEAD")) {
        return FilesystemResolveFuture {
            is_dir_request: false,
            state: ResolveState::MethodNotMatched,
        };
    }
    if has_scheme || has_host {
        return FilesystemResolveFuture { is_dir_request: false, state: ResolveState::UriNotMatched };
    }
    FilesystemResolveFuture { is_dir_request: is_dir_request(path), state: ResolveState::WaitOpen }
}

impl FilesystemResolveFuture {
    /// Takes the outcome of the open in progress (`Pending` where none is)
    /// and says what to do next.
    pub fn poll_step<F>(&mut self, event: OpenEvent<F>) -> (r: PollStep<F>)
        ensures
            final(self).is_dir_request == old(self).is_dir_request,
            (final(self).state, r) == resolve_step(old(self).state, old(self).is_dir_request, event),
    {
        match self.state {
            ResolveState::MethodNotMatched => PollStep::Ready(Ok(ResolveResult::MethodNotMatched)),
            ResolveState::UriNotMatched => PollStep::Ready(Ok(ResolveResult::UriNotMatched)),
            ResolveState::WaitOpen => match event {
                OpenEvent::Pending => PollStep::NotReady,
                OpenEvent::Failed(kind, text) => PollStep::Ready(map_open_err(kind, text)),
                OpenEvent::Opened(file, facts) => {
                    if self.is_dir_request && !facts.is_dir {
                        return PollStep::Ready(Ok(ResolveResult::NotFound));
                    }
                    if !self.is_dir_request && facts.is_dir {
                        return PollStep::Ready(Ok(ResolveResult::IsDirectory));
                    }
                    if !self.is_dir_request {
                        let meta = ThinMetadata::from_facts(facts);
                        return PollStep::Ready(Ok(ResolveResult::Found(file, meta)));
                    }
                    self.state = ResolveState::WaitOpenIndex;
                    PollStep::OpenIndex
                },
            },
            ResolveState::WaitOpenIndex => match event {
                OpenEvent::Pending => PollStep::NotReady,
                OpenEvent::Failed(kind, text) => PollStep::Ready(map_open_err(kind, text)),
                OpenEvent::Opened(file, facts) => {
                    if facts.is_dir {
                        return PollStep::Ready(Ok(ResolveResult::NotFound));
                    }
                    let meta = ThinMetadata::from_facts(facts);
                    PollStep::Ready(Ok(ResolveResult::Found(file, meta)))
                },
            },
        }
    }
}

} // verus!
