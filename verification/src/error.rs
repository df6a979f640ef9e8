use vstd::prelude::*;

verus! {

/// Errors of the patcher. Payloads are plain values: messages, paths and hashes.
#[derive(Debug, PartialEq, Eq)]
pub enum Error {
    /// A generic failure described by its message.
    Message(String),
    /// A file's hash differed from the expected one: (what, got, expected).
    HashMismatch(String, String, String),
    /// No (enabled) mirror is available.
    NoMirrors(),
    /// Retries were exhausted for the named task.
    OutOfRetries(String),
    /// A document was not valid JSON: (document name, contents).
    InvalidJson(String, String),
    /// A mirror answered with unexpected content.
    InvalidServer(),
    /// A download answered with an unexpected status (its reason phrase).
    InvalidStatus(String),
    /// A path did not start with the expected prefix.
    StripPrefix(),
    /// A download did not finish in time.
    DownloadTimeout(),
    /// A file was locked by another process.
    FileLocked(),
    /// The task was paused.
    FutureWasPaused(),
    /// The task was cancelled.
    FutureCancelled(),
    /// A download failed, with the downloader's message.
    DownloadError(String),
    /// An HTTP-level failure, with its message.
    HttpError(String),
    /// An I/O failure, with its message.
    IoError(String),
    /// Bytes that were expected to be UTF-8 were not.
    NotUtf8(),
    /// JSON could not be parsed, with the parser's message.
    JsonError(String),
    /// A lock was poisoned, with its message.
    MutexPoisoned(String),
    /// A URL could not be parsed, with its message.
    InvalidUri(String),
}

} // verus!
