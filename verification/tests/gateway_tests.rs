use bitcache::gateway::{classify_command, classify_commit, CmdResult, CommitOutcome};
use bitcache::BitcacheError;

#[test]
fn successful_commit_is_committed() {
    let r = classify_commit(CmdResult { success: true, stderr: String::new() });
    assert!(matches!(r, Ok(CommitOutcome::Committed)));
}

#[test]
fn commit_with_nothing_to_commit_is_accepted() {
    // The second of two commits with no intervening changes: the tool
    // exits nonzero but only because there was nothing to record.
    let stderr = "On branch main\nnothing to commit, working tree clean\n".to_string();
    let r = classify_commit(CmdResult { success: false, stderr });
    assert!(matches!(r, Ok(CommitOutcome::NothingToCommit)));
}

#[test]
fn failed_commit_is_a_gateway_error() {
    let r = classify_commit(CmdResult {
        success: false,
        stderr: "fatal: unable to write commit".to_string(),
    });
    match r {
        Err(BitcacheError::GatewayError(msg)) => {
            assert_eq!(msg, "Failed to commit: fatal: unable to write commit");
        }
        _ => panic!("expected GatewayError"),
    }
}

#[test]
fn successful_command_is_ok() {
    let r = classify_command(
        CmdResult { success: true, stderr: String::new() },
        "Failed to clone repository: ",
    );
    assert!(r.is_ok());
}

#[test]
fn failed_command_carries_context_and_stderr() {
    let r = classify_command(
        CmdResult { success: false, stderr: "fatal: repository not found".to_string() },
        "Failed to clone repository: ",
    );
    match r {
        Err(BitcacheError::GatewayError(msg)) => {
            assert_eq!(msg, "Failed to clone repository: fatal: repository not found");
        }
        _ => panic!("expected GatewayError"),
    }
}
