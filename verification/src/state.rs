use vstd::prelude::*;
use vstd::wrapping::u64_specs::{wrapping_add, wrapping_sub};
use crate::error::Error;

verus! {

/// The progress of a patch run, as reported to the progress callback.
/// Counters wrap around on overflow.
#[derive(Debug)]
pub struct Progress {
    /// What the patcher is doing right now
    pub current_action: String,
    /// (processed, total) instructions
    pub processed_instructions: (u64, u64),
    /// (completed, total) downloads
    pub downloaded_files: (u64, u64),
    /// (downloaded, total) bytes
    pub downloaded_bytes: (u64, u64),
    /// (patched, ready to patch, to be patched) files
    pub patched_files: (u64, u64, u64),
    /// (patched, total) bytes
    pub patched_bytes: (u64, u64),
}

impl Progress {
    /// Nothing done yet and no current action.
    pub fn new() -> (r: Progress)
        ensures
            r.current_action@ == Seq::<char>::empty(),
            r.processed_instructions == (0u64, 0u64),
            r.downloaded_files == (0u64, 0u64),
            r.downloaded_bytes == (0u64, 0u64),
            r.patched_files == (0u64, 0u64, 0u64),
            r.patched_bytes == (0u64, 0u64),
    {
        Progress {
            current_action: String::new(),
            processed_instructions: (0, 0),
            downloaded_files: (0, 0),
            downloaded_bytes: (0, 0),
            patched_files: (0, 0, 0),
            patched_bytes: (0, 0),
        }
    }

    /// The current action.
    pub fn get_current_action(&self) -> (r: Result<String, Error>)
        ensures
            r matches Ok(s) && s@ == self.current_action@,
    {
        Ok(self.current_action.clone())
    }

    /// Sets the current action.
    pub fn set_current_action(&mut self, value: String) -> (r: Result<(), Error>)
        ensures
            r is Ok,
            *final(self) == (Progress { current_action: value, ..*old(self) }),
    {
        self.current_action = value;
        Ok(())
    }

    /// Sets the number of instructions to process.
    pub fn set_instructions_amount(&mut self, value: u64)
        ensures
            *final(self) == (Progress { processed_instructions: (old(self).processed_instructions.0, value), ..*old(self) }),
    {
        self.processed_instructions.1 = value;
    }

    /// One more instruction processed.
    pub fn increment_processed_instructions(&mut self)
        ensures
            *final(self) == (Progress {
                processed_instructions: (wrapping_add(old(self).processed_instructions.0, 1), old(self).processed_instructions.1),
                ..*old(self)
            }),
    {
        self.processed_instructions.0 = self.processed_instructions.0.wrapping_add(1);
    }

    /// One more file to download, of `value` bytes.
    pub fn add_download(&mut self, value: u64)
        ensures
            *final(self) == (Progress {
                downloaded_files: (old(self).downloaded_files.0, wrapping_add(old(self).downloaded_files.1, 1)),
                downloaded_bytes: (old(self).downloaded_bytes.0, wrapping_add(old(self).downloaded_bytes.1, value)),
                ..*old(self)
            }),
    {
        self.downloaded_files.1 = self.downloaded_files.1.wrapping_add(1);
        self.downloaded_bytes.1 = self.downloaded_bytes.1.wrapping_add(value);
    }

    /// One more download completed.
    pub fn increment_completed_downloads(&mut self)
        ensures
            *final(self) == (Progress {
                downloaded_files: (wrapping_add(old(self).downloaded_files.0, 1), old(self).downloaded_files.1),
                ..*old(self)
            }),
    {
        self.downloaded_files.0 = self.downloaded_files.0.wrapping_add(1);
    }

    /// One more file to be patched.
    pub fn add_to_be_patched(&mut self)
        ensures
            *final(self) == (Progress {
                patched_files: (old(self).patched_files.0, old(self).patched_files.1, wrapping_add(old(self).patched_files.2, 1)),
                ..*old(self)
            }),
    {
        self.patched_files.2 = self.patched_files.2.wrapping_add(1);
    }

    /// One more file ready to be patched.
    pub fn add_ready_to_patch(&mut self)
        ensures
            *final(self) == (Progress {
                patched_files: (old(self).patched_files.0, wrapping_add(old(self).patched_files.1, 1), old(self).patched_files.2),
                ..*old(self)
            }),
    {
        self.patched_files.1 = self.patched_files.1.wrapping_add(1);
    }

    /// One more file patched.
    pub fn increment_completed_patches(&mut self)
        ensures
            *final(self) == (Progress {
                patched_files: (wrapping_add(old(self).patched_files.0, 1), old(self).patched_files.1, old(self).patched_files.2),
                ..*old(self)
            }),
    {
        self.patched_files.0 = self.patched_files.0.wrapping_add(1);
    }

    /// `amount` more bytes downloaded.
    pub fn add_to_progress(&mut self, amount: u64)
        ensures
            *final(self) == (Progress {
                downloaded_bytes: (wrapping_add(old(self).downloaded_bytes.0, amount), old(self).downloaded_bytes.1),
                ..*old(self)
            }),
    {
        self.downloaded_bytes.0 = self.downloaded_bytes.0.wrapping_add(amount);
    }

    /// `amount` downloaded bytes taken back (a download restarted).
    pub fn remove_from_progress(&mut self, amount: u64)
        ensures
            *final(self) == (Progress {
                downloaded_bytes: (wrapping_sub(old(self).downloaded_bytes.0, amount), old(self).downloaded_bytes.1),
                ..*old(self)
            }),
    {
        self.downloaded_bytes.0 = self.downloaded_bytes.0.wrapping_sub(amount);
    }
}

} // verus!
