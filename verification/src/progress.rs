use vstd::prelude::*;
use std::sync::{Arc, Mutex};

verus! {

#[verifier::external_type_specification]
#[verifier::external_body]
#[verifier::reject_recursive_types(T)]
pub struct ExMutex<T: ?Sized>(std::sync::Mutex<T>);

/// What the installation needs.
#[derive(Debug, Clone, Copy, PartialEq, Eq)]
pub enum Update {
    /// Not determined yet
    Unknown,
    /// Nothing to do
    UpToDate,
    /// An interrupted patch can be resumed
    Resume,
    /// Everything has to be downloaded
    Full,
    /// A delta patch applies
    Delta,
}

/// Overall progress of hashing, downloading and patching.
#[derive(Debug, Clone, Copy)]
pub struct Progress {
    pub update: Update,
    /// (checked, total) hashes
    pub hashes_checked: (u64, u64),
    /// (downloaded, total) bytes
    pub download_size: (u64, u64),
    /// (patched, total) files
    pub patch_files: (u64, u64),
    pub finished_hash: bool,
    pub finished_patching: bool,
}

impl Progress {
    /// The progress before anything is known or done.
    pub open spec fn new_spec() -> Progress {
        Progress {
            update: Update::Unknown,
            hashes_checked: (0u64, 0u64),
            download_size: (0u64, 0u64),
            patch_files: (0u64, 0u64),
            finished_hash: false,
            finished_patching: false,
        }
    }

    /// Nothing known and nothing done.
    pub fn new() -> (r: Progress)
        ensures
            r == (Progress {
                update: Update::Unknown,
                hashes_checked: (0u64, 0u64),
                download_size: (0u64, 0u64),
                patch_files: (0u64, 0u64),
                finished_hash: false,
                finished_patching: false,
            }),
    {
        Progress {
            update: Update::Unknown,
            hashes_checked: (0, 0),
            download_size: (0, 0),
            patch_files: (0, 0),
            finished_hash: false,
            finished_patching: false,
        }
    }

    /// `amount` more bytes downloaded.
    pub fn add_to_progress(&mut self, amount: u64)
        requires
            old(self).download_size.0 + amount <= u64::MAX,
        ensures
            *final(self) == (Progress { download_size: ((old(self).download_size.0 + amount) as u64, old(self).download_size.1), ..*old(self) }),
    {
        self.download_size.0 = self.download_size.0 + amount;
    }

    /// `amount` downloaded bytes taken back.
    pub fn remove_from_progress(&mut self, amount: u64)
        requires
            old(self).download_size.0 >= amount,
        ensures
            *final(self) == (Progress { download_size: ((old(self).download_size.0 - amount) as u64, old(self).download_size.1), ..*old(self) }),
    {
        self.download_size.0 = self.download_size.0 - amount;
    }
}

/// Reports the progress of one download into the overall progress.
pub struct DownloadProgress {
    pub global_progress: Option<Arc<Mutex<Progress>>>,
}

impl DownloadProgress {
    /// Reports into `global_progress`.
    pub fn new(global_progress: Arc<Mutex<Progress>>) -> (r: DownloadProgress)
        ensures
            r.global_progress == Some(global_progress),
    {
        DownloadProgress { global_progress: Some(global_progress) }
    }
}

} // verus!
