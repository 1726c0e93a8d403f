//! The pre-run guard against concurrent backup runs: a lock file whose mere
//! existence means another run may be active.

use vstd::prelude::*;
use crate::coordinator::BackupError;

verus! {

/// Relies on std::path::Path::exists: whether the path refers to an entity
/// that exists on disk at the moment of the call.
#[verifier::external_body]
fn path_exists(path: &str) -> bool {
    std::path::Path::new(path).exists()
}

/// The go/no-go decision the lock file's presence dictates.
pub fn lockfile_decision(exists: bool) -> (r: Result<(), BackupError>)
    ensures
        r is Ok <==> !exists,
        r is Err ==> r->Err_0 is LockfilePresent,
{
    if exists {
        Err(BackupError::LockfilePresent)
    } else {
        Ok(())
    }
}

/// Refuses to proceed while the lock file exists. Whether it exists is the
/// disk's to answer; the refusal, when it comes, is always the lock error.
pub fn check_lockfile() -> (r: Result<(), BackupError>)
    ensures
        r is Err ==> r->Err_0 is LockfilePresent,
{
    let exists = path_exists("/tmp/mc-backup.lock");
    lockfile_decision(exists)
}

} // verus!
