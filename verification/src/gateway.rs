use vstd::prelude::*;

use crate::errs::BitcacheError;
use crate::strutil;

verus! {

/// What one invocation of the external version-control tool reported:
/// whether it exited successfully, and its captured standard-error text.
/// The surrounding process runs the tool and hands the outcome in.
pub struct CmdResult {
    pub success: bool,
    pub stderr: String,
}

/// A commit attempt that counts as success.
pub enum CommitOutcome {
    /// A commit was recorded.
    Committed,
    /// There was nothing to record. Re-publishing identical content must
    /// not abort the workflow, so this is success, not failure.
    NothingToCommit,
}

/// The stderr text by which the tool reports an empty commit.
pub open spec fn nothing_to_commit_marker() -> Seq<char> {
    "nothing to commit"@
}

/// When a commit attempt is accepted: it succeeded, or it failed only
/// because there was nothing to commit.
pub open spec fn commit_accepted(success: bool, stderr: Seq<char>) -> bool {
    success || strutil::contains_seq(stderr, nothing_to_commit_marker())
}

/// Law (idempotent commit): a second commit with no intervening file
/// changes makes the tool exit nonzero reporting "nothing to commit", and
/// such an outcome is accepted, never an error.
pub proof fn lemma_commit_idempotent(stderr: Seq<char>)
    requires
        strutil::contains_seq(stderr, nothing_to_commit_marker()),
    ensures
        commit_accepted(false, stderr),
{
}

/// Classify a commit invocation: success stands, a nonzero exit whose
/// stderr reports "nothing to commit" is accepted, and any other nonzero
/// exit is a `GatewayError` carrying the diagnostic text.
pub fn classify_commit(result: CmdResult) -> (r: Result<CommitOutcome, BitcacheError>)
    ensures
        r is Ok <==> commit_accepted(result.success, result.stderr@),
        result.success ==> r == Ok::<CommitOutcome, BitcacheError>(CommitOutcome::Committed),
        !result.success && strutil::contains_seq(result.stderr@, nothing_to_commit_marker())
            ==> r == Ok::<CommitOutcome, BitcacheError>(CommitOutcome::NothingToCommit),
        !commit_accepted(result.success, result.stderr@) ==> (r matches Err(e) && e
            is GatewayError && e.spec_message() == "Failed to commit: "@ + result.stderr@),
{
    if result.success {
        return Ok(CommitOutcome::Committed);
    }
    if strutil::str_contains(result.stderr.as_str(), "nothing to commit") {
        Ok(CommitOutcome::NothingToCommit)
    } else {
        let mut msg = String::from_str("Failed to commit: ");
        msg.append(result.stderr.as_str());
        Err(BitcacheError::GatewayError(msg))
    }
}

/// Classify a clone, stage or push invocation: success is success, and a
/// nonzero exit is a `GatewayError` whose message is `context` followed by
/// the tool's stderr text.
pub fn classify_command(result: CmdResult, context: &str) -> (r: Result<(), BitcacheError>)
    ensures
        result.success <==> r is Ok,
        !result.success ==> (r matches Err(e) && e is GatewayError && e.spec_message() == context@
            + result.stderr@),
{
    if result.success {
        Ok(())
    } else {
        let mut msg = context.to_owned();
        msg.append(result.stderr.as_str());
        Err(BitcacheError::GatewayError(msg))
    }
}

} // verus!
