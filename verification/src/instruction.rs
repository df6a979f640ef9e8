use vstd::prelude::*;

verus! {

/// One entry of `instructions.json`: what a file of the installation should become.
#[derive(Debug)]
pub struct Instruction {
    /// Path to which the instruction applies, with `/` as separator
    pub path: String,
    /// SHA256 hash of this file during the previous patch, None if this is a new file
    pub previous_hash: Option<String>,
    /// SHA256 hash of this file during current patch, None if the file is to be deleted/moved
    pub newest_hash: Option<String>,
    /// SHA256 hash of Full vcdiff patch file
    pub full_vcdiff_hash: Option<String>,
    /// SHA256 hash of Delta vcdiff patch file
    pub delta_vcdiff_hash: Option<String>,
    /// Size of `Full` vcdiff patch file
    pub full_vcdiff_size: usize,
    /// Size of `Delta` vcdiff patch file
    pub delta_vcdiff_size: usize,
    /// Does file have a Delta vcdiff patch file
    pub has_delta: bool,
}

/// The mathematical value of an [`Instruction`].
pub struct InstructionView {
    pub path: Seq<char>,
    pub previous_hash: Option<Seq<char>>,
    pub newest_hash: Option<Seq<char>>,
    pub full_vcdiff_hash: Option<Seq<char>>,
    pub delta_vcdiff_hash: Option<Seq<char>>,
    pub full_vcdiff_size: nat,
    pub delta_vcdiff_size: nat,
    pub has_delta: bool,
}

impl View for Instruction {
    type V = InstructionView;

    open spec fn view(&self) -> InstructionView {
        InstructionView {
            path: self.path@,
            previous_hash: self.previous_hash.deep_view(),
            newest_hash: self.newest_hash.deep_view(),
            full_vcdiff_hash: self.full_vcdiff_hash.deep_view(),
            delta_vcdiff_hash: self.delta_vcdiff_hash.deep_view(),
            full_vcdiff_size: self.full_vcdiff_size as nat,
            delta_vcdiff_size: self.delta_vcdiff_size as nat,
            has_delta: self.has_delta,
        }
    }
}

impl Instruction {
    /// A field-by-field copy.
    pub fn copy(&self) -> (r: Instruction)
        ensures
            r@ == self@,
    {
        Instruction {
            path: self.path.clone(),
            previous_hash: crate::text::copy_opt(&self.previous_hash),
            newest_hash: crate::text::copy_opt(&self.newest_hash),
            full_vcdiff_hash: crate::text::copy_opt(&self.full_vcdiff_hash),
            delta_vcdiff_hash: crate::text::copy_opt(&self.delta_vcdiff_hash),
            full_vcdiff_size: self.full_vcdiff_size,
            delta_vcdiff_size: self.delta_vcdiff_size,
            has_delta: self.has_delta,
        }
    }
}

/// A file whose hash is to be checked, with the hash it had during the previous patch.
pub struct HashMember {
    pub path: String,
    pub previous_hash: Option<String>,
}

} // verus!

verus! {

/// A patch recorded against an instruction: the target file, the delta that
/// produces it, and the hash the target has afterwards.
#[derive(Debug)]
pub struct PatchEntry {
    /// Path to the target
    target_path: String,
    /// Path to the vcdiff file
    delta_path: String,
    /// Whether the delta applies on top of an existing target
    has_source: bool,
    target_hash: String,
}

/// The instructions that share one newest hash.
pub struct InstructionGroup {
    /// SHA256 hash of this file during current patch, None if the file is to be deleted
    pub hash: Option<String>,
    pub instructions: Vec<Instruction>,
}

impl InstructionGroup {
    /// An empty group without a hash.
    pub fn new() -> (r: InstructionGroup)
        ensures
            r.hash is None,
            r.instructions@.len() == 0,
    {
        InstructionGroup { hash: None, instructions: Vec::new() }
    }
}

} // verus!
