//! Tools for coordinating a game server's save protocol from outside the
//! server process: a tail cursor over its append-only log, a parser for the
//! save manifest the server prints there, an extractor for player
//! connect/disconnect lines, and the state machine that drives a backup run.

pub mod coordinator;
pub mod events;
pub mod lockfile;
pub mod manifest;
pub mod modes;
pub mod paths;
pub mod tail;
pub mod text;

pub use coordinator::BackupCoordinator;
pub use coordinator::BackupError;
pub use coordinator::BackupState;
pub use coordinator::ExportPlan;
pub use events::find_user_state_change;
pub use events::StateChange;
pub use events::UserStateChange;
pub use lockfile::check_lockfile;
pub use manifest::parse_manifest;
pub use manifest::SaveManifestEntry;
pub use modes::EngineMode;
pub use tail::TailCursor;
