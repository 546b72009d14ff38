use svr_net::protocol::{expected_result, Svr3Error};
use svr_net::storage::{same_uid, InMemoryStorage, Transition, TransitionOutcome};

const U: [u8; 16] = [1u8; 16];
const V: [u8; 16] = [2u8; 16];
const S: [u8; 32] = [7u8; 32];
const S2: [u8; 32] = [9u8; 32];

fn storage_for(uid: [u8; 16]) -> InMemoryStorage {
    let mut st = InMemoryStorage::new();
    st.apply(&Transition::SetUid(uid));
    st
}

#[test]
fn restore_after_backup_returns_secret_and_uses_a_try() {
    let mut st = storage_for(U);
    st.apply(&Transition::Backup(S, 3));
    st.apply(&Transition::Restore);
    assert_eq!(st.last_transition_outcome(), TransitionOutcome::Restored(S));
    assert_eq!(st.tries_left(&U), 2);
    assert_eq!(expected_result(st.last_transition_outcome()), Some(Ok(S)));
}

#[test]
fn restore_without_backup_is_data_missing() {
    let mut st = storage_for(V);
    st.apply(&Transition::Restore);
    assert_eq!(st.last_transition_outcome(), TransitionOutcome::NotFound);
    assert_eq!(expected_result(st.last_transition_outcome()), Some(Err(Svr3Error::DataMissing)));
}

#[test]
fn last_try_with_wrong_password_is_data_missing() {
    let mut st = storage_for(U);
    st.apply(&Transition::Backup(S, 1));
    st.apply(&Transition::RestoreWithBadPassword);
    assert_eq!(st.last_transition_outcome(), TransitionOutcome::MaxTriesReached);
    assert_eq!(expected_result(st.last_transition_outcome()), Some(Err(Svr3Error::DataMissing)));
    assert_eq!(st.tries_left(&U), 0);
    assert!(st.get(&U).is_none());
}

#[test]
fn wrong_then_right_password_with_two_tries() {
    let mut st = storage_for(U);
    st.apply(&Transition::Backup(S, 2));
    st.apply(&Transition::RestoreWithBadPassword);
    assert_eq!(st.last_transition_outcome(), TransitionOutcome::BadCommitment);
    assert_eq!(expected_result(st.last_transition_outcome()), Some(Err(Svr3Error::RestoreFailed)));
    assert_eq!(st.tries_left(&U), 1);
    st.apply(&Transition::Restore);
    assert_eq!(st.last_transition_outcome(), TransitionOutcome::Restored(S));
    assert_eq!(st.tries_left(&U), 0);
    st.apply(&Transition::Restore);
    assert_eq!(st.last_transition_outcome(), TransitionOutcome::NotFound);
}

#[test]
fn new_backup_replaces_old_secret() {
    let mut st = storage_for(U);
    st.apply(&Transition::Backup(S, 1));
    st.apply(&Transition::Backup(S2, 4));
    assert_eq!(st.tries_left(&U), 4);
    st.apply(&Transition::Restore);
    assert_eq!(st.last_transition_outcome(), TransitionOutcome::Restored(S2));
    assert_eq!(st.tries_left(&U), 3);
}

#[test]
fn tries_run_out_after_max_tries_attempts() {
    let mut st = storage_for(U);
    st.apply(&Transition::Backup(S, 3));
    let mut seen = vec![st.tries_left(&U)];
    st.apply(&Transition::RestoreWithBadPassword);
    seen.push(st.tries_left(&U));
    st.apply(&Transition::Restore);
    seen.push(st.tries_left(&U));
    st.apply(&Transition::RestoreWithBadPassword);
    seen.push(st.tries_left(&U));
    assert_eq!(seen, vec![3, 2, 1, 0]);
    assert_eq!(st.last_transition_outcome(), TransitionOutcome::MaxTriesReached);
}

#[test]
fn users_are_kept_apart() {
    let mut st = storage_for(U);
    st.apply(&Transition::Backup(S, 2));
    st.apply(&Transition::SetUid(V));
    assert_eq!(st.last_transition_outcome(), TransitionOutcome::Nothing);
    st.apply(&Transition::Restore);
    assert_eq!(st.last_transition_outcome(), TransitionOutcome::NotFound);
    st.apply(&Transition::Backup(S2, 5));
    st.apply(&Transition::SetUid(U));
    st.apply(&Transition::Restore);
    assert_eq!(st.last_transition_outcome(), TransitionOutcome::Restored(S));
    assert_eq!(st.tries_left(&V), 5);
    assert_eq!(st.uid(), Some(U));
}

#[test]
fn backup_with_no_tries_restores_nothing() {
    let mut st = storage_for(U);
    st.apply(&Transition::Backup(S, 0));
    st.apply(&Transition::Restore);
    assert_eq!(st.last_transition_outcome(), TransitionOutcome::MaxTriesReached);
    assert_eq!(expected_result(TransitionOutcome::Nothing), None);
}

#[test]
fn uid_comparison() {
    assert!(same_uid(&U, &U));
    assert!(!same_uid(&U, &V));
    let mut w = U;
    w[15] = 0;
    assert!(!same_uid(&U, &w));
}
