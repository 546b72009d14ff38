use svr_net::connection::NetError;
use svr_net::protocol::{combine_backup, combine_restore, ReplicaReply, Svr3Error};
use svr_net::svr::{AttestationError, Error};

const S: [u8; 32] = [5u8; 32];

#[test]
fn all_matched_returns_recovered_secret() {
    let replies = vec![Ok(ReplicaReply::Matched), Ok(ReplicaReply::Matched)];
    assert_eq!(combine_restore(&replies, S), Ok(S));
}

#[test]
fn missing_anywhere_is_data_missing() {
    let replies = vec![Ok(ReplicaReply::Mismatched), Ok(ReplicaReply::Missing)];
    assert_eq!(combine_restore(&replies, S), Err(Svr3Error::DataMissing));
    let replies = vec![Ok(ReplicaReply::Exhausted), Ok(ReplicaReply::Matched)];
    assert_eq!(combine_restore(&replies, S), Err(Svr3Error::DataMissing));
}

#[test]
fn mismatch_is_restore_failed() {
    let replies = vec![Ok(ReplicaReply::Matched), Ok(ReplicaReply::Mismatched)];
    assert_eq!(combine_restore(&replies, S), Err(Svr3Error::RestoreFailed));
}

#[test]
fn failed_replica_fails_restore_with_first_error() {
    let replies = vec![
        Ok(ReplicaReply::Missing),
        Err(Error::Net(NetError::Timeout)),
        Err(Error::Protocol),
    ];
    assert_eq!(combine_restore(&replies, S), Err(Svr3Error::Net(NetError::Timeout)));
    let replies = vec![Err(Error::AttestationError(AttestationError::IdentityMismatch))];
    assert_eq!(
        combine_restore(&replies, S),
        Err(Svr3Error::AttestationError(AttestationError::IdentityMismatch))
    );
    assert_eq!(combine_restore(&vec![], S), Err(Svr3Error::Protocol));
}

#[test]
fn backup_succeeds_only_when_all_replicas_store() {
    let ok = combine_backup(vec![1, 2], &vec![Ok(()), Ok(())]).unwrap();
    assert_eq!(ok.server_ids, vec![1, 2]);
    let partial = combine_backup(vec![1, 2], &vec![Ok(()), Err(Error::Net(NetError::Transport))]);
    assert_eq!(partial.unwrap_err(), Svr3Error::Net(NetError::Transport));
    let mismatched = combine_backup(vec![1, 2], &vec![Ok(())]);
    assert_eq!(mismatched.unwrap_err(), Svr3Error::Protocol);
    assert_eq!(combine_backup(vec![], &vec![]).unwrap_err(), Svr3Error::Protocol);
}
