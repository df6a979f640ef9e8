use vstd::prelude::*;
use crate::mirrors::NamedUrl;

verus! {

/// Collects what a patcher needs before it is built.
///
/// The callbacks are kept as given: `S` is called on success, `F` with the
/// error on failure and `P` with each progress report (in the application
/// these are boxed closures).
pub struct PatcherBuilder<S, F, P> {
    pub software_location: Option<String>,
    pub mirrors: Option<Vec<NamedUrl>>,
    pub version: Option<String>,
    pub instructions_hash: Option<String>,
    pub success_callback: Option<S>,
    pub failure_callback: Option<F>,
    pub progress_callback: Option<P>,
}

impl<S, F, P> PatcherBuilder<S, F, P> {
    /// Nothing set yet.
    pub fn new() -> (r: PatcherBuilder<S, F, P>)
        ensures
            r.software_location is None,
            r.mirrors is None,
            r.version is None,
            r.instructions_hash is None,
            r.success_callback is None,
            r.failure_callback is None,
            r.progress_callback is None,
    {
        PatcherBuilder {
            software_location: None,
            mirrors: None,
            version: None,
            instructions_hash: None,
            success_callback: None,
            failure_callback: None,
            progress_callback: None,
        }
    }

    /// Sets where the software is installed.
    pub fn set_software_location(&mut self, software_location: String) -> (r: &mut PatcherBuilder<S, F, P>)
        ensures
            *r == (PatcherBuilder { software_location: Some(software_location), ..*old(self) }),
            *final(self) == *final(r),
    {
        self.software_location = Some(software_location);
        self
    }

    /// Sets the mirrors, the version and the hash of its instructions.
    pub fn set_software_information(
        &mut self,
        mirrors: Vec<NamedUrl>,
        version: String,
        instructions_hash: String,
    ) -> (r: &mut PatcherBuilder<S, F, P>)
        ensures
            *r == (PatcherBuilder {
                mirrors: Some(mirrors),
                version: Some(version),
                instructions_hash: Some(instructions_hash),
                ..*old(self)
            }),
            *final(self) == *final(r),
    {
        self.mirrors = Some(mirrors);
        self.version = Some(version);
        self.instructions_hash = Some(instructions_hash);
        self
    }

    /// Sets what is called when patching succeeds.
    pub fn set_success_callback(&mut self, func: S) -> (r: &mut PatcherBuilder<S, F, P>)
        ensures
            *r == (PatcherBuilder { success_callback: Some(func), ..*old(self) }),
            *final(self) == *final(r),
    {
        self.success_callback = Some(func);
        self
    }

    /// Sets what is called with the error when patching fails.
    pub fn set_failure_callback(&mut self, func: F) -> (r: &mut PatcherBuilder<S, F, P>)
        ensures
            *r == (PatcherBuilder { failure_callback: Some(func), ..*old(self) }),
            *final(self) == *final(r),
    {
        self.failure_callback = Some(func);
        self
    }

    /// Sets what is called with each progress report.
    pub fn set_progress_callback(&mut self, func: P) -> (r: &mut PatcherBuilder<S, F, P>)
        ensures
            *r == (PatcherBuilder { progress_callback: Some(func), ..*old(self) }),
            *final(self) == *final(r),
    {
        self.progress_callback = Some(func);
        self
    }
}

} // verus!
