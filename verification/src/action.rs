use vstd::prelude::*;
use crate::error::Error;
use crate::instruction::{Instruction, InstructionView};
use crate::text::concat;

verus! {

/// A file to download from a mirror and the file it patches afterwards.
#[derive(Debug)]
pub struct DownloadEntry {
    /// Path of the patch file below the mirror's version folder
    pub mirror_path: String,
    /// Local path where the patch file is stored
    pub download_path: String,
    /// Size of the patch file in bytes
    pub download_size: u64,
    /// Expected SHA256 hash of the patch file
    pub download_hash: String,
    /// The installed file the patch produces
    pub target_path: String,
    /// Expected SHA256 hash of the patched file
    pub target_hash: String,
}

pub struct DownloadEntryView {
    pub mirror_path: Seq<char>,
    pub download_path: Seq<char>,
    pub download_size: nat,
    pub download_hash: Seq<char>,
    pub target_path: Seq<char>,
    pub target_hash: Seq<char>,
}

impl View for DownloadEntry {
    type V = DownloadEntryView;

    open spec fn view(&self) -> DownloadEntryView {
        DownloadEntryView {
            mirror_path: self.mirror_path@,
            download_path: self.download_path@,
            download_size: self.download_size as nat,
            download_hash: self.download_hash@,
            target_path: self.target_path@,
            target_hash: self.target_hash@,
        }
    }
}

impl DownloadEntry {
    /// A field-by-field copy.
    pub fn copy(&self) -> (r: DownloadEntry)
        ensures
            r@ == self@,
    {
        DownloadEntry {
            mirror_path: self.mirror_path.clone(),
            download_path: self.download_path.clone(),
            download_size: self.download_size,
            download_hash: self.download_hash.clone(),
            target_path: self.target_path.clone(),
            target_hash: self.target_hash.clone(),
        }
    }
}

/// What has to happen to one file of the installation.
#[derive(Debug)]
pub enum Action {
    /// Download a patch file and apply it
    Download(DownloadEntry),
    /// Delete the file at this path
    Delete(String),
    /// The file is up to date
    Nothing,
}

pub enum ActionView {
    Download(DownloadEntryView),
    Delete(Seq<char>),
    Nothing,
}

impl View for Action {
    type V = ActionView;

    open spec fn view(&self) -> ActionView {
        match self {
            Action::Download(e) => ActionView::Download(e@),
            Action::Delete(p) => ActionView::Delete(p@),
            Action::Nothing => ActionView::Nothing,
        }
    }
}

/// A change to the file system that deciding on an action makes on the way.
#[derive(Debug)]
pub enum Effect {
    /// Delete this file; a failure aborts the decision with that error.
    DeleteFile(String),
    /// Restore `<path>.bck` over `<path>`; a failure is ignored.
    RestoreBackup(String),
}

pub enum EffectView {
    DeleteFile(Seq<char>),
    RestoreBackup(Seq<char>),
}

impl View for Effect {
    type V = EffectView;

    open spec fn view(&self) -> EffectView {
        match self {
            Effect::DeleteFile(p) => EffectView::DeleteFile(p@),
            Effect::RestoreBackup(p) => EffectView::RestoreBackup(p@),
        }
    }
}

/// The effects to perform, in order, and then the outcome of the decision.
pub struct ActionPlan {
    pub effects: Vec<Effect>,
    pub result: Result<Action, Error>,
}

/// The view of a plan: effects, and the action or `None` for an error.
pub struct ActionPlanView {
    pub effects: Seq<EffectView>,
    pub action: Option<ActionView>,
}

impl View for ActionPlan {
    type V = ActionPlanView;

    open spec fn view(&self) -> ActionPlanView {
        ActionPlanView {
            effects: self.effects@.map_values(|e: Effect| e@),
            action: match self.result {
                Ok(a) => Some(a@),
                Err(_) => None,
            },
        }
    }
}

/// `<game_location><path>`: where the instruction's file lives.
pub open spec fn spec_target_path(game_location: Seq<char>, i: InstructionView) -> Seq<char> {
    game_location + i.path
}

/// The backup copy of a file: `<path>.bck`.
pub open spec fn spec_backup_path(path: Seq<char>) -> Seq<char> {
    path + ".bck"@
}

/// Where a patch file with this hash is stored: `<game_location>patcher/<hash>`.
pub open spec fn spec_patch_file_path(game_location: Seq<char>, hash: Seq<char>) -> Seq<char> {
    game_location + "patcher/"@ + hash
}

/// The download of the delta patch from `previous` to `newest`.
pub open spec fn spec_delta_entry(
    game_location: Seq<char>,
    i: InstructionView,
    newest: Seq<char>,
    previous: Seq<char>,
    delta: Seq<char>,
) -> DownloadEntryView {
    DownloadEntryView {
        mirror_path: "delta/"@ + newest + "_from_"@ + previous,
        download_path: spec_patch_file_path(game_location, delta),
        download_size: i.delta_vcdiff_size,
        download_hash: delta,
        target_path: spec_target_path(game_location, i),
        target_hash: newest,
    }
}

/// The download of the full file with hash `newest`.
pub open spec fn spec_full_entry(
    game_location: Seq<char>,
    i: InstructionView,
    newest: Seq<char>,
    full: Seq<char>,
) -> DownloadEntryView {
    DownloadEntryView {
        mirror_path: "full/"@ + newest,
        download_path: spec_patch_file_path(game_location, full),
        download_size: i.full_vcdiff_size,
        download_hash: full,
        target_path: spec_target_path(game_location, i),
        target_hash: newest,
    }
}

/// Whether the installed file must be hashed: it exists and should be kept.
pub open spec fn spec_needs_path_hash(i: InstructionView, path_exists: bool) -> bool {
    i.newest_hash is Some && path_exists
}

/// Whether the backup file must be hashed: it exists, the file should be kept,
/// and the installed file is not already the newest one.
pub open spec fn spec_needs_backup_hash(
    i: InstructionView,
    path_exists: bool,
    path_hash: Option<Seq<char>>,
    backup_exists: bool,
) -> bool {
    &&& i.newest_hash is Some
    &&& backup_exists
    &&& !(path_exists && path_hash == i.newest_hash)
}

} // verus!

verus! {

/// The plan for one instruction, given what was observed of the installation:
/// whether the file and its `.bck` backup exist, and their hashes where they
/// were needed (see [`Instruction::needs_path_hash`] and [`Instruction::needs_backup_hash`]).
pub open spec fn spec_action_plan(
    game_location: Seq<char>,
    i: InstructionView,
    path_exists: bool,
    path_hash: Option<Seq<char>>,
    backup_exists: bool,
    backup_hash: Option<Seq<char>>,
) -> ActionPlanView {
    let t = spec_target_path(game_location, i);
    let b = spec_backup_path(t);
    match i.newest_hash {
        None => ActionPlanView {
            effects: if backup_exists { seq![EffectView::DeleteFile(b)] } else { seq![] },
            action: Some(if path_exists { ActionView::Delete(t) } else { ActionView::Nothing }),
        },
        Some(nh) => {
            let delta_applies = i.previous_hash is Some && i.has_delta;
            if path_exists && path_hash == Some(nh) {
                ActionPlanView {
                    effects: seq![],
                    action: Some(if backup_exists { ActionView::Delete(b) } else { ActionView::Nothing }),
                }
            } else if backup_exists && backup_hash == Some(nh) {
                ActionPlanView { effects: seq![EffectView::RestoreBackup(t)], action: Some(ActionView::Nothing) }
            } else if delta_applies && i.delta_vcdiff_hash is None {
                ActionPlanView { effects: seq![], action: None }
            } else if delta_applies && path_exists && path_hash == i.previous_hash {
                ActionPlanView {
                    effects: seq![],
                    action: Some(ActionView::Download(spec_delta_entry(game_location, i, nh,
                        i.previous_hash->0, i.delta_vcdiff_hash->0))),
                }
            } else if delta_applies && backup_exists && backup_hash == i.previous_hash {
                ActionPlanView {
                    effects: seq![EffectView::RestoreBackup(t)],
                    action: Some(ActionView::Download(spec_delta_entry(game_location, i, nh,
                        i.previous_hash->0, i.delta_vcdiff_hash->0))),
                }
            } else {
                ActionPlanView {
                    effects: (if path_exists { seq![EffectView::DeleteFile(t)] } else { seq![] })
                        + (if backup_exists { seq![EffectView::DeleteFile(b)] } else { seq![] }),
                    action: match i.full_vcdiff_hash {
                        Some(fh) => Some(ActionView::Download(spec_full_entry(game_location, i, nh, fh))),
                        None => None,
                    },
                }
            }
        },
    }
}

impl Instruction {
    /// Whether deciding on this instruction needs the hash of the installed file.
    pub fn needs_path_hash(&self, path_exists: bool) -> (r: bool)
        ensures
            r == spec_needs_path_hash(self@, path_exists),
    {
        self.newest_hash.is_some() && path_exists
    }

    /// Whether deciding on this instruction needs the hash of the `.bck` backup.
    pub fn needs_backup_hash(&self, path_exists: bool, path_hash: &Option<String>, backup_exists: bool) -> (r: bool)
        ensures
            r == spec_needs_backup_hash(self@, path_exists, path_hash.deep_view(), backup_exists),
    {
        self.newest_hash.is_some() && backup_exists
            && !(path_exists && crate::text::opt_eq(path_hash, &self.newest_hash))
    }

    /// Decides what to do with this instruction's file: keep it, delete it,
    /// restore its backup, or download a delta or full patch for it.
    /// `path_hash` and `backup_hash` are the hashes of the installed file and its
    /// backup, present exactly where `needs_path_hash` and `needs_backup_hash` ask for them.
    pub fn determine_action(
        &self,
        game_location: &String,
        path_exists: bool,
        path_hash: &Option<String>,
        backup_exists: bool,
        backup_hash: &Option<String>,
    ) -> (plan: ActionPlan)
        requires
            (path_hash is Some) == spec_needs_path_hash(self@, path_exists),
            (backup_hash is Some) == spec_needs_backup_hash(self@, path_exists, path_hash.deep_view(), backup_exists),
        ensures
            plan@ == spec_action_plan(game_location@, self@, path_exists, path_hash.deep_view(),
                backup_exists, backup_hash.deep_view()),
            plan.result is Err ==> (plan.result matches Err(Error::Message(m)) && m@ == (
                if self@.previous_hash is Some && self@.has_delta && self@.delta_vcdiff_hash is None {
                    "Expected instruction to have delta_vcdiff_hash, however there was None: "@
                } else {
                    "Expected instruction to have full_vcdiff_hash, however there was None: "@
                }) + self@.path),
    {
        let path = concat(game_location, self.path.as_str());
        let backup_path = concat(&path, ".bck");
        let mut effects: Vec<Effect> = Vec::new();
        match &self.newest_hash {
            None => {
                if backup_exists {
                    effects.push(Effect::DeleteFile(backup_path));
                }
                let action = if path_exists { Action::Delete(path) } else { Action::Nothing };
                proof { assert(effects@.map_values(|e: Effect| e@) =~= spec_action_plan(game_location@, self@,
                    path_exists, path_hash.deep_view(), backup_exists, backup_hash.deep_view()).effects); }
                ActionPlan { effects, result: Ok(action) }
            },
            Some(newest) => {
                if path_exists && crate::text::opt_eq(path_hash, &self.newest_hash) {
                    let action = if backup_exists { Action::Delete(backup_path) } else { Action::Nothing };
                    proof { assert(effects@.map_values(|e: Effect| e@) =~= seq![]); }
                    return ActionPlan { effects, result: Ok(action) };
                }
                if backup_exists && crate::text::opt_eq(backup_hash, &self.newest_hash) {
                    effects.push(Effect::RestoreBackup(path));
                    proof { assert(effects@.map_values(|e: Effect| e@) =~= seq![EffectView::RestoreBackup(
                        spec_target_path(game_location@, self@))]); }
                    return ActionPlan { effects, result: Ok(Action::Nothing) };
                }
                if let Some(previous) = &self.previous_hash {
                    if self.has_delta {
                        let delta = match &self.delta_vcdiff_hash {
                            Some(d) => d,
                            None => {
                                let msg = concat(&crate::text::owned(
                                    "Expected instruction to have delta_vcdiff_hash, however there was None: "),
                                    self.path.as_str());
                                proof { assert(effects@.map_values(|e: Effect| e@) =~= seq![]); }
                                return ActionPlan { effects, result: Err(Error::Message(msg)) };
                            },
                        };
                        let from_path = path_exists && crate::text::opt_eq(path_hash, &self.previous_hash);
                        let from_backup = backup_exists && crate::text::opt_eq(backup_hash, &self.previous_hash);
                        if from_path || from_backup {
                            let mut mirror_path = concat(&crate::text::owned("delta/"), newest.as_str());
                            mirror_path.append("_from_");
                            mirror_path.append(previous.as_str());
                            let mut download_path = concat(game_location, "patcher/");
                            download_path.append(delta.as_str());
                            let entry = DownloadEntry {
                                mirror_path,
                                download_path,
                                download_size: self.delta_vcdiff_size as u64,
                                download_hash: delta.clone(),
                                target_path: path.clone(),
                                target_hash: newest.clone(),
                            };
                            if !from_path {
                                effects.push(Effect::RestoreBackup(path));
                                proof { assert(effects@.map_values(|e: Effect| e@) =~= seq![EffectView::RestoreBackup(
                                    spec_target_path(game_location@, self@))]); }
                            } else {
                                proof { assert(effects@.map_values(|e: Effect| e@) =~= seq![]); }
                            }
                            return ActionPlan { effects, result: Ok(Action::Download(entry)) };
                        }
                    }
                }
                if path_exists {
                    effects.push(Effect::DeleteFile(path.clone()));
                }
                if backup_exists {
                    effects.push(Effect::DeleteFile(backup_path));
                }
                let ghost t = spec_target_path(game_location@, self@);
                proof {
                    assert(effects@.map_values(|e: Effect| e@) =~=
                        (if path_exists { seq![EffectView::DeleteFile(t)] } else { seq![] })
                        + (if backup_exists { seq![EffectView::DeleteFile(spec_backup_path(t))] } else { seq![] }));
                }
                match &self.full_vcdiff_hash {
                    Some(full) => {
                        let mirror_path = concat(&crate::text::owned("full/"), newest.as_str());
                        let mut download_path = concat(game_location, "patcher/");
                        download_path.append(full.as_str());
                        let entry = DownloadEntry {
                            mirror_path,
                            download_path,
                            download_size: self.full_vcdiff_size as u64,
                            download_hash: full.clone(),
                            target_path: path,
                            target_hash: newest.clone(),
                        };
                        ActionPlan { effects, result: Ok(Action::Download(entry)) }
                    },
                    None => {
                        let msg = concat(&crate::text::owned(
                            "Expected instruction to have full_vcdiff_hash, however there was None: "),
                            self.path.as_str());
                        ActionPlan { effects, result: Err(Error::Message(msg)) }
                    },
                }
            },
        }
    }
}

} // verus!
