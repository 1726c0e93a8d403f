//! The two save-protocol dialects a server can speak, with the console
//! commands and the log marker that belong to each.

use vstd::prelude::*;

verus! {

/// Which save-protocol dialect and export strategy the server speaks.
///
/// The choice fixes the hold, query and resume commands, the completion
/// marker looked for in the log, and whether the export is driven by the
/// printed manifest or by whole-directory snapshots.
#[derive(Clone, Copy, PartialEq, Eq, Structural, Debug)]
pub enum EngineMode {
    Bedrock,
    Java,
}

impl EngineMode {
    /// The console text that asks the server to hold its save files.
    pub open spec fn spec_hold_command(self) -> Seq<char> {
        match self {
            EngineMode::Bedrock => "save hold\n"@,
            EngineMode::Java => "save-off\nsave-all\n"@,
        }
    }

    /// The console text that asks the server to hold its save files: a
    /// single line for the dialect with a dedicated hold command, a
    /// two-line sequence for the one that pauses and forces a save.
    pub fn hold_command(self) -> (r: &'static str)
        ensures
            r@ == self.spec_hold_command(),
    {
        match self {
            EngineMode::Bedrock => "save hold\n",
            EngineMode::Java => "save-off\nsave-all\n",
        }
    }

    /// The per-poll progress query, for the dialect that needs one.
    pub open spec fn spec_query_command(self) -> Option<Seq<char>> {
        match self {
            EngineMode::Bedrock => Some("save query\n"@),
            EngineMode::Java => None,
        }
    }

    /// The console text to send once per poll iteration to ask for save
    /// progress; the self-reporting dialect sends none.
    pub fn query_command(self) -> (r: Option<&'static str>)
        ensures
            r is Some <==> self.spec_query_command() is Some,
            r is Some ==> r->0@ == self.spec_query_command()->0,
    {
        match self {
            EngineMode::Bedrock => Some("save query\n"),
            EngineMode::Java => None,
        }
    }

    /// The console text that lets the server resume normal saving.
    pub open spec fn spec_resume_command(self) -> Seq<char> {
        match self {
            EngineMode::Bedrock => "save resume\n"@,
            EngineMode::Java => "save-on\n"@,
        }
    }

    /// The console text that lets the server resume normal saving.
    pub fn resume_command(self) -> (r: &'static str)
        ensures
            r@ == self.spec_resume_command(),
    {
        match self {
            EngineMode::Bedrock => "save resume\n",
            EngineMode::Java => "save-on\n",
        }
    }

    /// The log text whose appearance means the hold has completed.
    pub open spec fn spec_save_complete_text(self) -> Seq<char> {
        match self {
            EngineMode::Bedrock => "Data saved. Files are now ready to be copied."@,
            EngineMode::Java => "Saved the game"@,
        }
    }

    /// The log text whose appearance means the hold has completed.
    pub fn save_complete_text(self) -> (r: &'static str)
        ensures
            r@ == self.spec_save_complete_text(),
    {
        match self {
            EngineMode::Bedrock => "Data saved. Files are now ready to be copied.",
            EngineMode::Java => "Saved the game",
        }
    }
}

} // verus!
