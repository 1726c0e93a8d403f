//! The backup run's state machine. It decides; the caller performs.
//!
//! A run walks Idle → HoldRequested → Polling → Completed → Exported →
//! Resumed. The coordinator hands out the console commands to send and
//! accumulates every drained log fragment across the whole hold period, so
//! a completion marker split across two polls is never missed. The caller
//! owns the pipe writes, the sleeps, the log reads and the archive I/O, and
//! reports an I/O failure by `note_failed`, which abandons the run in the
//! absorbing Failed state — possibly with the server still holding its
//! save files, since the resume command may never have gone out.

use vstd::prelude::*;
use vstd::string::StringExecFns;
use crate::manifest::manifest_of;
use crate::manifest::parse_manifest;
use crate::manifest::view_entries;
use crate::manifest::SaveManifestEntry;
use crate::modes::EngineMode;
use crate::paths::base_name;
use crate::paths::spec_base_name;
use crate::text::contains_sub;
use crate::text::seq_contains;

verus! {

/// Why a backup run cannot proceed.
#[derive(Clone, Copy, PartialEq, Eq, Structural, Debug)]
pub enum BackupError {
    /// The lock file is present: another run may still be active.
    LockfilePresent,
    /// A world directory has no base name to root its snapshot under.
    UnnamableWorldDir,
}

/// The stages of one backup run. `Failed` is absorbing and reachable from
/// every non-terminal stage.
#[derive(Clone, Copy, PartialEq, Eq, Structural, Debug)]
pub enum BackupState {
    Idle,
    HoldRequested,
    Polling,
    Completed,
    Exported,
    Resumed,
    Failed,
}

/// One directory snapshot of the export: the subtree at `path`, archived
/// under `name`.
pub struct ArchiveDir {
    pub name: String,
    pub path: String,
}

/// What the export step has to archive.
pub enum ExportPlan {
    /// Copy each entry's file out of the world directory, archiving it
    /// under its manifest-relative path; a missing file must fail the run.
    Files { world_dir: String, entries: Vec<SaveManifestEntry> },
    /// Archive each directory's whole subtree under its own base name.
    Dirs { dirs: Vec<ArchiveDir> },
}

/// The manifest-driven plan: every surviving entry of the manifest in the
/// accumulated text, to be resolved against the single world directory.
pub fn bedrock_export_plan(text: &str, world_dir: &String) -> (p: ExportPlan)
    ensures
        p matches ExportPlan::Files { world_dir: wd, entries } && wd@ == world_dir@
            && view_entries(entries@) == manifest_of(
            text@,
            EngineMode::Bedrock.spec_save_complete_text(),
        ),
{
    let entries = parse_manifest(text, EngineMode::Bedrock.save_complete_text());
    ExportPlan::Files { world_dir: world_dir.clone(), entries }
}

/// The directory-snapshot plan: one entry per world directory, each rooted
/// under the directory's own base name, in the given order; a directory
/// without a base name fails the whole export.
pub fn java_export_plan(world_dirs: &Vec<String>) -> (r: Result<Vec<ArchiveDir>, BackupError>)
    ensures
        r is Ok <==> (forall|i: int|
            0 <= i < world_dirs@.len() ==> spec_base_name(#[trigger] world_dirs@[i]@) is Some),
        r is Ok ==> r->Ok_0@.len() == world_dirs@.len(),
        r is Ok ==> (forall|i: int|
            0 <= i < world_dirs@.len() ==> (#[trigger] r->Ok_0@[i]).name@ == spec_base_name(
                world_dirs@[i]@,
            )->0 && r->Ok_0@[i].path@ == world_dirs@[i]@),
        r is Err ==> r->Err_0 is UnnamableWorldDir,
{
    let n = world_dirs.len();
    let mut dirs: Vec<ArchiveDir> = Vec::new();
    let mut i: usize = 0;
    while i < n
        invariant
            i <= n,
            n == world_dirs@.len(),
            dirs@.len() == i,
            forall|t: int|
                0 <= t < i ==> spec_base_name(#[trigger] world_dirs@[t]@) is Some,
            forall|t: int|
                0 <= t < i ==> (#[trigger] dirs@[t]).name@ == spec_base_name(world_dirs@[t]@)->0
                    && dirs@[t].path@ == world_dirs@[t]@,
        decreases n - i,
    {
        match base_name(world_dirs[i].as_str()) {
            Some(name) => {
                dirs.push(ArchiveDir { name, path: world_dirs[i].clone() });
            },
            None => {
                return Err(BackupError::UnnamableWorldDir);
            },
        }
        i = i + 1;
    }
    Ok(dirs)
}

/// Drives one save run against an external server, one decision at a time.
pub struct BackupCoordinator {
    mode: EngineMode,
    state: BackupState,
    text: String,
}

impl BackupCoordinator {
    /// The dialect this run speaks.
    pub closed spec fn mode(&self) -> EngineMode {
        self.mode
    }

    /// The stage the run has reached.
    pub closed spec fn state(&self) -> BackupState {
        self.state
    }

    /// Every character drained from the log since the hold began.
    pub closed spec fn accumulated(&self) -> Seq<char> {
        self.text@
    }

    /// A coordinator for one save run, not yet started.
    pub fn new(mode: EngineMode) -> (c: BackupCoordinator)
        ensures
            c.mode() == mode,
            c.state() is Idle,
            c.accumulated() == Seq::<char>::empty(),
    {
        BackupCoordinator { mode, state: BackupState::Idle, text: String::new() }
    }

    /// Idle → HoldRequested: hands the caller the dialect's hold command,
    /// to be written to the server's pipe once the log baseline stands.
    /// No later stage comes back to Idle, so a run issues it only once.
    pub fn start_hold(&mut self) -> (cmd: &'static str)
        requires
            old(self).state() is Idle,
        ensures
            final(self).state() is HoldRequested,
            final(self).mode() == old(self).mode(),
            final(self).accumulated() == old(self).accumulated(),
            cmd@ == old(self).mode().spec_hold_command(),
    {
        self.state = BackupState::HoldRequested;
        self.mode.hold_command()
    }

    /// The command to send once per poll iteration, for the dialect that
    /// must ask for progress; the self-reporting dialect sends none.
    pub fn poll_query(&self) -> (q: Option<&'static str>)
        ensures
            q is Some <==> self.mode().spec_query_command() is Some,
            q is Some ==> q->0@ == self.mode().spec_query_command()->0,
    {
        self.mode.query_command()
    }

    /// HoldRequested/Polling → Polling or Completed: takes one drained
    /// fragment into the accumulated text and reports whether that text now
    /// shows the dialect's completion marker. The report is the polling
    /// loop's sole exit condition: the loop ends on the first accumulated
    /// drain that contains the marker, and no fragment is ever discarded.
    pub fn note_drained(&mut self, fragment: &str) -> (done: bool)
        requires
            old(self).state() is HoldRequested || old(self).state() is Polling,
        ensures
            final(self).mode() == old(self).mode(),
            final(self).accumulated() == old(self).accumulated() + fragment@,
            done == seq_contains(
                final(self).accumulated(),
                old(self).mode().spec_save_complete_text(),
            ),
            final(self).state() == if done {
                BackupState::Completed
            } else {
                BackupState::Polling
            },
    {
        self.text.append(fragment);
        let done = contains_sub(self.text.as_str(), self.mode.save_complete_text());
        if done {
            self.state = BackupState::Completed;
        } else {
            self.state = BackupState::Polling;
        }
        done
    }

    /// Completed → the export step's plan: manifest-driven out of the
    /// accumulated text for the dialect that prints one, whole-directory
    /// snapshots for the other. The manifest-driven dialect resolves
    /// against the single (first) world directory.
    pub fn export_plan(&self, world_dirs: &Vec<String>) -> (r: Result<ExportPlan, BackupError>)
        requires
            self.state() is Completed,
            self.mode() is Bedrock ==> world_dirs@.len() >= 1,
        ensures
            self.mode() is Bedrock ==> r is Ok && (r->Ok_0 matches ExportPlan::Files {
                world_dir,
                entries,
            } && world_dir@ == world_dirs@[0]@ && view_entries(entries@) == manifest_of(
                self.accumulated(),
                EngineMode::Bedrock.spec_save_complete_text(),
            )),
            self.mode() is Java ==> (r is Ok <==> (forall|i: int|
                0 <= i < world_dirs@.len() ==> spec_base_name(
                    #[trigger] world_dirs@[i]@,
                ) is Some)),
            self.mode() is Java && r is Ok ==> (r->Ok_0 matches ExportPlan::Dirs { dirs }
                && dirs@.len() == world_dirs@.len() && (forall|i: int|
                0 <= i < world_dirs@.len() ==> (#[trigger] dirs@[i]).name@ == spec_base_name(
                    world_dirs@[i]@,
                )->0 && dirs@[i].path@ == world_dirs@[i]@)),
            self.mode() is Java && r is Err ==> r->Err_0 is UnnamableWorldDir,
    {
        match self.mode {
            EngineMode::Bedrock => Ok(bedrock_export_plan(self.text.as_str(), &world_dirs[0])),
            EngineMode::Java => {
                match java_export_plan(world_dirs) {
                    Ok(dirs) => Ok(ExportPlan::Dirs { dirs }),
                    Err(e) => Err(e),
                }
            },
        }
    }

    /// Completed → Exported: the archive has been written and finalized.
    pub fn note_exported(&mut self)
        requires
            old(self).state() is Completed,
        ensures
            final(self).state() is Exported,
            final(self).mode() == old(self).mode(),
            final(self).accumulated() == old(self).accumulated(),
    {
        self.state = BackupState::Exported;
    }

    /// Exported → Resumed: hands the caller the dialect's resume command;
    /// once it is written, the run has ended successfully.
    pub fn finish_resume(&mut self) -> (cmd: &'static str)
        requires
            old(self).state() is Exported,
        ensures
            final(self).state() is Resumed,
            final(self).mode() == old(self).mode(),
            final(self).accumulated() == old(self).accumulated(),
            cmd@ == old(self).mode().spec_resume_command(),
    {
        self.state = BackupState::Resumed;
        self.mode.resume_command()
    }

    /// Any stage → Failed: an I/O step went wrong and the run is abandoned.
    /// The resume command may never have been sent; the caller must treat
    /// the server as possibly still holding its save files.
    pub fn note_failed(&mut self)
        ensures
            final(self).state() is Failed,
            final(self).mode() == old(self).mode(),
            final(self).accumulated() == old(self).accumulated(),
    {
        self.state = BackupState::Failed;
    }
}

} // verus!
