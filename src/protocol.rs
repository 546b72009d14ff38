//! The backup/restore protocol's fan-in: how the answers of all replicas
//! reduce to one outcome, and how each replica treats its record.
//!
//! Secret sharing and the password commitment are done by outside
//! primitives; this module receives their results as plain values.
use vstd::prelude::*;

use crate::connection::NetError;
use crate::storage::{
    is_restore, lemma_run_push, record_of, restore_step, run, step, Secret, StorageModel, Svr3Cell, Transition,
    TransitionOutcome,
};
use crate::svr::{AttestationError, Error};

verus! {

/// Outcome of a backup or restore call.
#[derive(Clone, Copy, Debug, PartialEq, Eq, Structural)]
pub enum Svr3Error {
    /// A replica could not be reached.
    Net(NetError),
    /// A replica's enclave failed attestation.
    AttestationError(AttestationError),
    /// A replica answered with something malformed or unexpected.
    Protocol,
    /// The password does not match the backup; tries may remain.
    RestoreFailed,
    /// The record is gone: never stored, or out of tries.
    DataMissing,
}

/// The protocol error that a connection error is reported as.
pub open spec fn svr3_error_of(e: Error) -> Svr3Error {
    match e {
        Error::Net(n) => Svr3Error::Net(n),
        Error::Protocol => Svr3Error::Protocol,
        Error::AttestationError(a) => Svr3Error::AttestationError(a),
    }
}

impl From<Error> for Svr3Error {
    fn from(value: Error) -> (r: Self) {
        match value {
            Error::Net(n) => Svr3Error::Net(n),
            Error::Protocol => Svr3Error::Protocol,
            Error::AttestationError(a) => Svr3Error::AttestationError(a),
        }
    }
}

impl vstd::std_specs::convert::FromSpecImpl<Error> for Svr3Error {
    open spec fn obeys_from_spec() -> bool {
        true
    }

    open spec fn from_spec(v: Error) -> Svr3Error {
        svr3_error_of(v)
    }
}

/// What one replica answers to a restore attempt.
#[derive(Clone, Copy, Debug, PartialEq, Eq, Structural)]
pub enum ReplicaReply {
    /// The replica holds no record for the user.
    Missing,
    /// The record ran out of tries and was deleted.
    Exhausted,
    /// The share came back and the password commitment verified.
    Matched,
    /// The share came back and the password commitment did not verify.
    Mismatched,
}

/// The replies that reached the caller, one per replica, or the first
/// connection failure.
pub type ReplyOrError = Result<ReplicaReply, Error>;

/// Whether some reply in `replies` is `r`.
pub open spec fn any_reply(replies: Seq<ReplyOrError>, r: ReplicaReply) -> bool {
    exists|i: int| 0 <= i < replies.len() && replies[i] == Ok::<ReplicaReply, Error>(r)
}

/// The index of the first failed reply, if any.
pub open spec fn first_error(replies: Seq<ReplyOrError>) -> Option<int> {
    if exists|i: int| 0 <= i < replies.len() && replies[i] is Err {
        Some(choose|i: int| 0 <= i < replies.len() && replies[i] is Err && forall|j: int| 0 <= j < i ==> replies[j] is Ok)
    } else {
        None
    }
}

/// The outcome of a restore from all replicas' replies.
///
/// A failed replica fails the call with its error (the first one). Else a
/// missing or exhausted record anywhere makes the data missing; else a
/// commitment mismatch anywhere means a wrong password; else the secret
/// that the shares reconstruct, `recovered`, is returned. With no replica
/// at all nothing can be restored.
pub open spec fn restore_outcome(replies: Seq<ReplyOrError>, recovered: Secret) -> Result<Secret, Svr3Error> {
    if replies.len() == 0 {
        Err(Svr3Error::Protocol)
    } else if first_error(replies) is Some {
        Err(svr3_error_of(replies[first_error(replies).unwrap()]->Err_0))
    } else if any_reply(replies, ReplicaReply::Missing) || any_reply(replies, ReplicaReply::Exhausted) {
        Err(Svr3Error::DataMissing)
    } else if any_reply(replies, ReplicaReply::Mismatched) {
        Err(Svr3Error::RestoreFailed)
    } else {
        Ok(recovered)
    }
}

/// Reduces the replies of all replicas to the outcome of a restore.
pub fn combine_restore(replies: &Vec<ReplyOrError>, recovered: Secret) -> (r: Result<Secret, Svr3Error>)
    ensures
        r == restore_outcome(replies@, recovered),
{
    if replies.len() == 0 {
        return Err(Svr3Error::Protocol);
    }
    let mut missing = false;
    let mut mismatched = false;
    let mut i: usize = 0;
    while i < replies.len()
        invariant
            0 <= i <= replies@.len(),
            forall|j: int| 0 <= j < i ==> replies@[j] is Ok,
            missing <==> exists|j: int| 0 <= j < i && (replies@[j] == Ok::<ReplicaReply, Error>(ReplicaReply::Missing)
                || replies@[j] == Ok::<ReplicaReply, Error>(ReplicaReply::Exhausted)),
            mismatched <==> exists|j: int| 0 <= j < i && replies@[j] == Ok::<ReplicaReply, Error>(ReplicaReply::Mismatched),
        decreases replies@.len() - i,
    {
        match replies[i] {
            Err(e) => {
                proof {
                    assert(first_error(replies@) == Some(i as int)) by {
                        let k = choose|k: int| 0 <= k < replies@.len() && replies@[k] is Err && forall|j: int| 0 <= j < k ==> replies@[j] is Ok;
                        assert(replies@[i as int] is Err);
                        if k < i {
                        } else if k > i {
                        }
                    }
                }
                return Err(Svr3Error::from(e));
            },
            Ok(ReplicaReply::Missing) | Ok(ReplicaReply::Exhausted) => {
                missing = true;
            },
            Ok(ReplicaReply::Mismatched) => {
                mismatched = true;
            },
            Ok(ReplicaReply::Matched) => {},
        }
        i = i + 1;
    }
    proof {
        assert(first_error(replies@) is None);
        if missing {
            let j = choose|j: int| 0 <= j < i && (replies@[j] == Ok::<ReplicaReply, Error>(ReplicaReply::Missing)
                || replies@[j] == Ok::<ReplicaReply, Error>(ReplicaReply::Exhausted));
            if replies@[j] == Ok::<ReplicaReply, Error>(ReplicaReply::Missing) {
                assert(any_reply(replies@, ReplicaReply::Missing));
            } else {
                assert(any_reply(replies@, ReplicaReply::Exhausted));
            }
        }
    }
    if missing {
        Err(Svr3Error::DataMissing)
    } else if mismatched {
        Err(Svr3Error::RestoreFailed)
    } else {
        Ok(recovered)
    }
}

/// What the caller of a backup holds afterwards: which replicas took part.
#[derive(Clone, Debug)]
pub struct ShareSet {
    pub server_ids: Vec<u64>,
}

/// Whether every replica accepted its share.
pub open spec fn all_stored(replies: Seq<Result<(), Error>>) -> bool {
    forall|i: int| 0 <= i < replies.len() ==> replies[i] is Ok
}

/// Reduces the answers of all replicas to a backup: a share set naming
/// every replica if all of them stored their share, else the first failure.
pub fn combine_backup(server_ids: Vec<u64>, replies: &Vec<Result<(), Error>>) -> (r: Result<ShareSet, Svr3Error>)
    ensures
        (server_ids@.len() == 0 || server_ids@.len() != replies@.len()) ==> r == Err::<ShareSet, Svr3Error>(
            Svr3Error::Protocol,
        ),
        server_ids@.len() > 0 && server_ids@.len() == replies@.len() ==> match r {
            Ok(s) => all_stored(replies@) && s.server_ids@ == server_ids@,
            Err(e) => !all_stored(replies@) && exists|i: int|
                0 <= i < replies@.len() && replies@[i] is Err && e == svr3_error_of(replies@[i]->Err_0) && forall|j: int|
                    0 <= j < i ==> replies@[j] is Ok,
        },
{
    if server_ids.len() == 0 || server_ids.len() != replies.len() {
        return Err(Svr3Error::Protocol);
    }
    let mut i: usize = 0;
    while i < replies.len()
        invariant
            0 <= i <= replies@.len(),
            0 < server_ids@.len() == replies@.len(),
            forall|j: int| 0 <= j < i ==> replies@[j] is Ok,
        decreases replies@.len() - i,
    {
        if let Err(e) = replies[i] {
            return Err(Svr3Error::from(e));
        }
        i = i + 1;
    }
    Ok(ShareSet { server_ids })
}

/// A replica's answer to a restore attempt on its copy of the record, and
/// the copy it keeps.
///
/// Every attempt on a present record uses a try; a record whose last try
/// is spent is deleted; spending it with a wrong password reports
/// exhaustion.
pub open spec fn replica_restore(cell: Option<Svr3Cell>, good_password: bool) -> (Option<Svr3Cell>, ReplicaReply) {
    match cell {
        None => (None, ReplicaReply::Missing),
        Some(c) => {
            if c.tries_left == 0 {
                (None, ReplicaReply::Exhausted)
            } else {
                let rest = if c.tries_left == 1 {
                    None
                } else {
                    Some(Svr3Cell { secret: c.secret, tries_left: (c.tries_left - 1) as u32 })
                };
                if good_password {
                    (rest, ReplicaReply::Matched)
                } else if c.tries_left == 1 {
                    (None, ReplicaReply::Exhausted)
                } else {
                    (rest, ReplicaReply::Mismatched)
                }
            }
        },
    }
}

/// The caller-visible result that a reference outcome stands for: both a
/// missing and an exhausted record surface as missing data, a bad
/// commitment as a failed restore. Other outcomes report no restore.
pub open spec fn result_of_outcome(o: TransitionOutcome) -> Option<Result<Secret, Svr3Error>> {
    match o {
        TransitionOutcome::NotFound => Some(Err(Svr3Error::DataMissing)),
        TransitionOutcome::MaxTriesReached => Some(Err(Svr3Error::DataMissing)),
        TransitionOutcome::BadCommitment => Some(Err(Svr3Error::RestoreFailed)),
        TransitionOutcome::Restored(s) => Some(Ok(s)),
        TransitionOutcome::Nothing => None,
    }
}

/// Computes `result_of_outcome(o)`.
pub fn expected_result(o: TransitionOutcome) -> (r: Option<Result<Secret, Svr3Error>>)
    ensures
        r == result_of_outcome(o),
{
    match o {
        TransitionOutcome::NotFound => Some(Err(Svr3Error::DataMissing)),
        TransitionOutcome::MaxTriesReached => Some(Err(Svr3Error::DataMissing)),
        TransitionOutcome::BadCommitment => Some(Err(Svr3Error::RestoreFailed)),
        TransitionOutcome::Restored(s) => Some(Ok(s)),
        TransitionOutcome::Nothing => None,
    }
}

/// Conformance of the protocol with the reference model: where every one
/// of `n` replicas holds the same copy `cell` of the user's record (a
/// backup reaches all of them or fails), a restore attempt leaves each
/// replica with the record that the model keeps, and the combined result
/// is the one that the model's outcome stands for. `recovered` is what the
/// shares reconstruct, which is the stored secret.
pub proof fn lemma_protocol_conforms(cell: Option<Svr3Cell>, good_password: bool, n: nat, recovered: Secret)
    requires
        n > 0,
        cell matches Some(c) ==> recovered == c.secret,
    ensures
        replica_restore(cell, good_password).0 == restore_step(cell, good_password).0,
        ({
            let replies = Seq::new(n, |i: int| Ok::<ReplicaReply, Error>(replica_restore(cell, good_password).1));
            result_of_outcome(restore_step(cell, good_password).1) == Some(restore_outcome(replies, recovered))
        }),
{
    let reply = replica_restore(cell, good_password).1;
    let replies = Seq::new(n, |i: int| Ok::<ReplicaReply, Error>(reply));
    assert(replies[0] == Ok::<ReplicaReply, Error>(reply));
    assert(first_error(replies) is None);
    if any_reply(replies, ReplicaReply::Missing) {
        assert(reply == ReplicaReply::Missing);
    }
    if any_reply(replies, ReplicaReply::Exhausted) {
        assert(reply == ReplicaReply::Exhausted);
    }
    if any_reply(replies, ReplicaReply::Mismatched) {
        assert(reply == ReplicaReply::Mismatched);
    }
}

/// A backup that did not reach every replica yields no share set, and a
/// record that some replica lacks restores nothing: a restore in which any
/// replica reports its record missing fails with missing data, whatever the
/// others hold.
pub proof fn lemma_no_partial_backup(
    server_ids: Seq<u64>,
    replies: Seq<Result<(), Error>>,
    restore_replies: Seq<ReplyOrError>,
    recovered: Secret,
)
    requires
        exists|i: int| 0 <= i < replies.len() && replies[i] is Err,
        first_error(restore_replies) is None,
        any_reply(restore_replies, ReplicaReply::Missing),
    ensures
        !all_stored(replies),
        restore_outcome(restore_replies, recovered) == Err::<Secret, Svr3Error>(Svr3Error::DataMissing),
{
}

/// A replica's copy of one user's record after the operations `ts`: a
/// backup stores its share, a restore attempt goes through
/// `replica_restore`.
pub open spec fn replica_run(cell: Option<Svr3Cell>, ts: Seq<Transition>) -> Option<Svr3Cell>
    decreases ts.len(),
{
    if ts.len() == 0 {
        cell
    } else {
        let next = match ts[0] {
            Transition::Backup(secret, tries) => Some(Svr3Cell { secret, tries_left: tries }),
            Transition::Restore => replica_restore(cell, true).0,
            Transition::RestoreWithBadPassword => replica_restore(cell, false).0,
            Transition::SetUid(_) => cell,
        };
        replica_run(next, ts.drop_first())
    }
}

/// Over any sequence of operations against one user, a replica that starts
/// with the model's record keeps holding exactly the model's record; with
/// `lemma_protocol_conforms`, every restore in the sequence then has the
/// result that the model's outcome stands for.
pub proof fn lemma_replicas_track_model(m: StorageModel, ts: Seq<Transition>)
    requires
        m.uid is Some,
        forall|i: int| 0 <= i < ts.len() ==> !(#[trigger] ts[i] is SetUid),
    ensures
        run(m, ts).uid == m.uid,
        replica_run(record_of(m.records, m.uid.unwrap()), ts) == record_of(run(m, ts).records, m.uid.unwrap()),
    decreases ts.len(),
{
    if ts.len() > 0 {
        let t = ts[0];
        assert(!(t is SetUid));
        let rest = ts.drop_first();
        assert forall|i: int| 0 <= i < rest.len() implies !(#[trigger] rest[i] is SetUid) by {
            assert(rest[i] == ts[i + 1]);
        }
        lemma_replicas_track_model(step(m, t), rest);
    }
}

/// The replies of `n` replicas that all hold `cell`, to one restore attempt.
pub open spec fn replies_of(cell: Option<Svr3Cell>, good_password: bool, n: nat) -> Seq<ReplyOrError> {
    Seq::new(n, |i: int| Ok::<ReplicaReply, Error>(replica_restore(cell, good_password).1))
}

/// Conformance over a whole sequence of operations against one user: the
/// restore at position `k` of `ts`, answered by `n` replicas that saw the
/// same operations, has exactly the result that the model's outcome for
/// that restore stands for. Where a record is present, the shares
/// reconstruct its secret; where none is, the result does not depend on
/// what was reconstructed.
pub proof fn lemma_restores_conform(m: StorageModel, ts: Seq<Transition>, n: nat, k: int)
    requires
        m.uid is Some,
        forall|i: int| 0 <= i < ts.len() ==> !(#[trigger] ts[i] is SetUid),
        n > 0,
        0 <= k < ts.len(),
        is_restore(ts[k]),
    ensures
        ({
            let cell = replica_run(record_of(m.records, m.uid.unwrap()), ts.take(k));
            let outcome = run(m, ts.take(k + 1)).last;
            let replies = replies_of(cell, ts[k] is Restore, n);
            &&& cell matches Some(c) ==> result_of_outcome(outcome) == Some(restore_outcome(replies, c.secret))
            &&& cell is None ==> forall|recovered: Secret|
                result_of_outcome(outcome) == Some(#[trigger] restore_outcome(replies, recovered))
        }),
{
    let u = m.uid.unwrap();
    let pre = ts.take(k);
    assert forall|i: int| 0 <= i < pre.len() implies !(#[trigger] pre[i] is SetUid) by {
        assert(pre[i] == ts[i]);
    }
    lemma_replicas_track_model(m, pre);
    assert(ts.take(k + 1) =~= pre.push(ts[k]));
    lemma_run_push(m, pre, ts[k]);
    let cell = replica_run(record_of(m.records, u), pre);
    let good = ts[k] is Restore;
    match cell {
        Some(c) => {
            lemma_protocol_conforms(cell, good, n, c.secret);
        },
        None => {
            assert forall|recovered: Secret|
                result_of_outcome(run(m, ts.take(k + 1)).last) == Some(
                    #[trigger] restore_outcome(replies_of(cell, good, n), recovered),
                ) by {
                lemma_protocol_conforms(cell, good, n, recovered);
            }
        },
    }
}

} // verus!
