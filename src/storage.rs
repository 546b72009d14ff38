//! Reference model of the server-side record lifecycle.
//!
//! Each user id owns at most one record: a secret and the number of restore
//! attempts left. A backup overwrites the record; every restore attempt uses
//! up one try, whatever the password; a record whose last try is spent is
//! deleted. The model has no networking and no cryptography: it is a pure
//! function of the operation sequence, against which protocol outcomes are
//! checked.
use vstd::prelude::*;

verus! {

/// Identifies one user of the service.
pub type Uid = [u8; 16];

/// The payload that a backup deposits.
pub type Secret = [u8; 32];

/// One stored record.
#[derive(Clone, Copy, Debug, PartialEq, Eq)]
pub struct Svr3Cell {
    pub secret: Secret,
    pub tries_left: u32,
}

impl Svr3Cell {
    pub fn new(secret: Secret, tries_left: u32) -> (r: Self)
        ensures
            r.secret == secret,
            r.tries_left == tries_left,
    {
        Svr3Cell { secret, tries_left }
    }
}

/// One operation of a session against the service.
#[derive(Clone, Copy, Debug)]
pub enum Transition {
    /// Choose the user that the following operations act on.
    SetUid(Uid),
    /// Deposit a secret with the given number of tries.
    Backup(Secret, u32),
    /// Restore with the password that the backup used.
    Restore,
    /// Restore with some other password.
    RestoreWithBadPassword,
}

/// What the last operation observed.
#[derive(Clone, Copy, Debug, PartialEq, Eq)]
pub enum TransitionOutcome {
    /// The operation does not report anything (user switch, backup).
    Nothing,
    /// No record exists for the user.
    NotFound,
    /// The stored secret was returned.
    Restored(Secret),
    /// The record ran out of tries and is gone.
    MaxTriesReached,
    /// The password did not match; a try was used up.
    BadCommitment,
}

/// Result of one restore attempt against an optional record: the record
/// that remains, and what the attempt observes.
///
/// A present record loses one try on every attempt. When the attempt spends
/// the last try, the record is deleted: a correct password still receives
/// the secret, a wrong one observes exhaustion.
pub open spec fn restore_step(cell: Option<Svr3Cell>, good_password: bool) -> (Option<Svr3Cell>, TransitionOutcome) {
    match cell {
        None => (None, TransitionOutcome::NotFound),
        Some(c) => {
            if c.tries_left == 0 {
                (None, TransitionOutcome::MaxTriesReached)
            } else {
                let rest = if c.tries_left == 1 {
                    None
                } else {
                    Some(Svr3Cell { secret: c.secret, tries_left: (c.tries_left - 1) as u32 })
                };
                if good_password {
                    (rest, TransitionOutcome::Restored(c.secret))
                } else if c.tries_left == 1 {
                    (None, TransitionOutcome::MaxTriesReached)
                } else {
                    (rest, TransitionOutcome::BadCommitment)
                }
            }
        },
    }
}

/// Abstract state of the model: the current user, the records by user id,
/// and the outcome of the last operation.
pub struct StorageModel {
    pub uid: Option<Uid>,
    pub records: Map<Uid, Svr3Cell>,
    pub last: TransitionOutcome,
}

/// The record stored for `uid`, if any.
pub open spec fn record_of(records: Map<Uid, Svr3Cell>, uid: Uid) -> Option<Svr3Cell> {
    if records.contains_key(uid) {
        Some(records[uid])
    } else {
        None
    }
}

/// Records after `cell` is stored for `uid`, or the record of `uid` dropped.
pub open spec fn put_record(records: Map<Uid, Svr3Cell>, uid: Uid, cell: Option<Svr3Cell>) -> Map<Uid, Svr3Cell> {
    match cell {
        Some(c) => records.insert(uid, c),
        None => records.remove(uid),
    }
}

/// Whether `t` can be applied: every operation but a user switch needs a
/// current user.
pub open spec fn can_apply(m: StorageModel, t: Transition) -> bool {
    t is SetUid || m.uid is Some
}

/// The model's state after operation `t`.
pub open spec fn step(m: StorageModel, t: Transition) -> StorageModel
    recommends
        can_apply(m, t),
{
    match t {
        Transition::SetUid(u) => StorageModel { uid: Some(u), records: m.records, last: TransitionOutcome::Nothing },
        Transition::Backup(secret, tries) => StorageModel {
            uid: m.uid,
            records: m.records.insert(m.uid.unwrap(), Svr3Cell { secret, tries_left: tries }),
            last: TransitionOutcome::Nothing,
        },
        Transition::Restore | Transition::RestoreWithBadPassword => {
            let u = m.uid.unwrap();
            let (rest, outcome) = restore_step(record_of(m.records, u), t is Restore);
            StorageModel { uid: m.uid, records: put_record(m.records, u, rest), last: outcome }
        },
    }
}

/// Tries left for `uid`; an absent record has none.
pub open spec fn tries_of(m: StorageModel, uid: Uid) -> nat {
    match record_of(m.records, uid) {
        Some(c) => c.tries_left as nat,
        None => 0,
    }
}

/// Whether some entry of `data` is stored under `k`.
pub open spec fn holds_key(data: Seq<(Uid, Svr3Cell)>, k: Uid) -> bool {
    exists|i: int| 0 <= i < data.len() && data[i].0 == k
}

/// Whether `t` is a restore attempt, with either password.
pub open spec fn is_restore(t: Transition) -> bool {
    t is Restore || t is RestoreWithBadPassword
}

/// The model's state after the operations `ts`, in order.
pub open spec fn run(m: StorageModel, ts: Seq<Transition>) -> StorageModel
    decreases ts.len(),
{
    if ts.len() == 0 {
        m
    } else {
        run(step(m, ts[0]), ts.drop_first())
    }
}

/// A restore attempt on the current user uses up exactly one try of a
/// record that has any, and never adds tries.
pub proof fn lemma_restore_uses_one_try(m: StorageModel, t: Transition)
    requires
        m.uid is Some,
        is_restore(t),
    ensures
        tries_of(step(m, t), m.uid.unwrap()) == if tries_of(m, m.uid.unwrap()) > 0 {
            (tries_of(m, m.uid.unwrap()) - 1) as nat
        } else {
            0nat
        },
        tries_of(step(m, t), m.uid.unwrap()) <= tries_of(m, m.uid.unwrap()),
{
}

/// Restore attempts never raise the tries left, and once as many attempts
/// as there were tries have been made, with any passwords, none are left.
pub proof fn lemma_tries_run_out(m: StorageModel, ts: Seq<Transition>)
    requires
        m.uid is Some,
        forall|i: int| 0 <= i < ts.len() ==> is_restore(#[trigger] ts[i]),
    ensures
        tries_of(run(m, ts), m.uid.unwrap()) <= tries_of(m, m.uid.unwrap()),
        ts.len() >= tries_of(m, m.uid.unwrap()) ==> tries_of(run(m, ts), m.uid.unwrap()) == 0,
        tries_of(m, m.uid.unwrap()) >= ts.len() ==> tries_of(run(m, ts), m.uid.unwrap()) == tries_of(m, m.uid.unwrap()) - ts.len(),
    decreases ts.len(),
{
    if ts.len() > 0 {
        let m1 = step(m, ts[0]);
        assert(is_restore(ts[0]));
        lemma_restore_uses_one_try(m, ts[0]);
        let rest = ts.drop_first();
        assert forall|i: int| 0 <= i < rest.len() implies is_restore(#[trigger] rest[i]) by {
            assert(rest[i] == ts[i + 1]);
        }
        lemma_tries_run_out(m1, rest);
    }
}

/// Running `ts` and then `t` is running `ts` followed by `t`.
pub proof fn lemma_run_push(m: StorageModel, ts: Seq<Transition>, t: Transition)
    ensures
        run(m, ts.push(t)) == step(run(m, ts), t),
    decreases ts.len(),
{
    assert(ts.push(t)[0] == if ts.len() > 0 { ts[0] } else { t });
    if ts.len() > 0 {
        assert(ts.push(t).drop_first() =~= ts.drop_first().push(t));
        lemma_run_push(step(m, ts[0]), ts.drop_first(), t);
    } else {
        assert(ts.push(t).drop_first() =~= Seq::<Transition>::empty());
        assert(run(step(m, t), Seq::<Transition>::empty()) == step(m, t));
    }
}

/// For a fixed backup, the tries left never grow from one restore attempt
/// to the next, and after `max_tries` attempts, with any passwords, none
/// are left.
pub proof fn lemma_attempts_after_backup(m: StorageModel, secret: Secret, max_tries: u32, ts: Seq<Transition>)
    requires
        m.uid is Some,
        forall|i: int| 0 <= i < ts.len() ==> is_restore(#[trigger] ts[i]),
    ensures
        forall|k: int|
            0 <= k < ts.len() ==> tries_of(run(step(m, Transition::Backup(secret, max_tries)), #[trigger] ts.take(k + 1)), m.uid.unwrap())
                <= tries_of(run(step(m, Transition::Backup(secret, max_tries)), ts.take(k)), m.uid.unwrap()),
        ts.len() >= max_tries ==> tries_of(run(step(m, Transition::Backup(secret, max_tries)), ts), m.uid.unwrap()) == 0,
{
    let b = step(m, Transition::Backup(secret, max_tries));
    lemma_backup_overwrites(m, secret, max_tries);
    lemma_tries_run_out(b, ts);
    assert forall|k: int| 0 <= k < ts.len() implies tries_of(run(b, #[trigger] ts.take(k + 1)), m.uid.unwrap())
        <= tries_of(run(b, ts.take(k)), m.uid.unwrap()) by {
        assert(ts.take(k + 1) =~= ts.take(k).push(ts[k]));
        lemma_run_push(b, ts.take(k), ts[k]);
        lemma_restores_keep_uid(b, ts.take(k));
        lemma_restore_uses_one_try(run(b, ts.take(k)), ts[k]);
    }
}

proof fn lemma_restores_keep_uid(m: StorageModel, ts: Seq<Transition>)
    requires
        forall|i: int| 0 <= i < ts.len() ==> is_restore(#[trigger] ts[i]),
    ensures
        run(m, ts).uid == m.uid,
    decreases ts.len(),
{
    if ts.len() > 0 {
        assert(is_restore(ts[0]));
        let rest = ts.drop_first();
        assert forall|i: int| 0 <= i < rest.len() implies is_restore(#[trigger] rest[i]) by {
            assert(rest[i] == ts[i + 1]);
        }
        lemma_restores_keep_uid(step(m, ts[0]), rest);
    }
}

/// A backup leaves the current user with exactly the new secret and tries,
/// whatever was stored before.
pub proof fn lemma_backup_overwrites(m: StorageModel, secret: Secret, max_tries: u32)
    requires
        m.uid is Some,
    ensures
        record_of(step(m, Transition::Backup(secret, max_tries)).records, m.uid.unwrap())
            == Some(Svr3Cell { secret, tries_left: max_tries }),
        tries_of(step(m, Transition::Backup(secret, max_tries)), m.uid.unwrap()) == max_tries as nat,
{
}

/// After a backup, restore attempts on that user only ever return the
/// secret of that backup, and a correct password returns it as long as
/// tries are left.
pub proof fn lemma_restore_after_backup(m: StorageModel, secret: Secret, max_tries: u32, ts: Seq<Transition>)
    requires
        m.uid is Some,
        forall|i: int| 0 <= i < ts.len() ==> is_restore(#[trigger] ts[i]),
    ensures
        forall|x: Secret|
            run(step(m, Transition::Backup(secret, max_tries)), ts).last == TransitionOutcome::Restored(x) ==> x == secret,
        max_tries > 0 ==> step(step(m, Transition::Backup(secret, max_tries)), Transition::Restore).last
            == TransitionOutcome::Restored(secret),
{
    lemma_restores_keep_secret(step(m, Transition::Backup(secret, max_tries)), secret, ts);
}

proof fn lemma_restores_keep_secret(m: StorageModel, secret: Secret, ts: Seq<Transition>)
    requires
        m.uid is Some,
        forall|i: int| 0 <= i < ts.len() ==> is_restore(#[trigger] ts[i]),
        record_of(m.records, m.uid.unwrap()) matches Some(c) ==> c.secret == secret,
        forall|x: Secret| m.last == TransitionOutcome::Restored(x) ==> x == secret,
    ensures
        record_of(run(m, ts).records, m.uid.unwrap()) matches Some(c) ==> c.secret == secret,
        forall|x: Secret| run(m, ts).last == TransitionOutcome::Restored(x) ==> x == secret,
    decreases ts.len(),
{
    if ts.len() > 0 {
        assert(is_restore(ts[0]));
        let rest = ts.drop_first();
        assert forall|i: int| 0 <= i < rest.len() implies is_restore(#[trigger] rest[i]) by {
            assert(rest[i] == ts[i + 1]);
        }
        lemma_restores_keep_secret(step(m, ts[0]), secret, rest);
    }
}

/// The in-memory reference storage.
pub struct InMemoryStorage {
    uid: Option<Uid>,
    data: Vec<(Uid, Svr3Cell)>,
    last_transition_outcome: TransitionOutcome,
    records: Ghost<Map<Uid, Svr3Cell>>,
}

/// Whether two user ids are the same.
pub fn same_uid(a: &Uid, b: &Uid) -> (r: bool)
    ensures
        r == (*a == *b),
{
    let mut i: usize = 0;
    while i < 16
        invariant
            0 <= i <= 16,
            forall|j: int| 0 <= j < i ==> a[j] == b[j],
        decreases 16 - i,
    {
        if a[i] != b[i] {
            return false;
        }
        i = i + 1;
    }
    proof {
        assert(*a =~= *b);
    }
    true
}

impl View for InMemoryStorage {
    type V = StorageModel;

    closed spec fn view(&self) -> StorageModel {
        StorageModel { uid: self.uid, records: self.records@, last: self.last_transition_outcome }
    }
}

impl InMemoryStorage {
    /// The stored entries hold each user id once, and agree with the model.
    pub closed spec fn wf(&self) -> bool {
        &&& forall|i: int, j: int|
            0 <= i < self.data@.len() && 0 <= j < self.data@.len() && self.data@[i].0 == self.data@[j].0 ==> i == j
        &&& forall|i: int|
            0 <= i < self.data@.len() ==> #[trigger] self.records@.contains_key(self.data@[i].0)
                && self.records@[self.data@[i].0] == self.data@[i].1
        &&& forall|k: Uid| #[trigger] self.records@.contains_key(k) ==> holds_key(self.data@, k)
    }

    /// An empty storage with no current user.
    pub fn new() -> (r: Self)
        ensures
            r.wf(),
            r@.uid is None,
            r@.records == Map::<Uid, Svr3Cell>::empty(),
            r@.last == TransitionOutcome::Nothing,
    {
        InMemoryStorage {
            uid: None,
            data: Vec::new(),
            last_transition_outcome: TransitionOutcome::Nothing,
            records: Ghost(Map::empty()),
        }
    }

    /// The current user, if one was chosen.
    pub fn uid(&self) -> (r: Option<Uid>)
        ensures
            r == self@.uid,
    {
        self.uid
    }

    /// What the last operation observed.
    pub fn last_transition_outcome(&self) -> (r: TransitionOutcome)
        ensures
            r == self@.last,
    {
        self.last_transition_outcome
    }

    fn find(&self, uid: &Uid) -> (r: Option<usize>)
        requires
            self.wf(),
        ensures
            match r {
                Some(i) => i < self.data@.len() && self.data@[i as int].0 == *uid,
                None => !self@.records.contains_key(*uid),
            },
    {
        let mut i: usize = 0;
        while i < self.data.len()
            invariant
                self.wf(),
                0 <= i <= self.data@.len(),
                forall|j: int| 0 <= j < i ==> self.data@[j].0 != *uid,
            decreases self.data@.len() - i,
        {
            if same_uid(&self.data[i].0, uid) {
                return Some(i);
            }
            i = i + 1;
        }
        None
    }

    /// The record stored for `uid`, if any.
    pub fn get(&self, uid: &Uid) -> (r: Option<Svr3Cell>)
        requires
            self.wf(),
        ensures
            r == record_of(self@.records, *uid),
    {
        match self.find(uid) {
            Some(i) => Some(self.data[i].1),
            None => None,
        }
    }

    /// Tries left for `uid`; zero where no record exists.
    pub fn tries_left(&self, uid: &Uid) -> (r: u32)
        requires
            self.wf(),
        ensures
            r as nat == tries_of(self@, *uid),
    {
        match self.get(uid) {
            Some(c) => c.tries_left,
            None => 0,
        }
    }

    fn store(&mut self, uid: &Uid, cell: Option<Svr3Cell>)
        requires
            old(self).wf(),
        ensures
            final(self).wf(),
            final(self)@.records == put_record(old(self)@.records, *uid, cell),
            final(self)@.uid == old(self)@.uid,
            final(self)@.last == old(self)@.last,
    {
        let found = self.find(uid);
        let ghost old_data = self.data@;
        match (found, cell) {
            (Some(i), Some(c)) => {
                self.data.set(i, (*uid, c));
                self.records = Ghost(self.records@.insert(*uid, c));
                proof {
                    assert forall|k: Uid| #[trigger] self.records@.contains_key(k) implies holds_key(self.data@, k) by {
                        if k == *uid {
                            assert(self.data@[i as int].0 == k);
                        } else {
                            assert(old(self).records@.contains_key(k));
                            let j = choose|j: int| 0 <= j < old_data.len() && old_data[j].0 == k;
                            assert(self.data@[j].0 == k);
                        }
                    }
                }
            },
            (None, Some(c)) => {
                self.data.push((*uid, c));
                self.records = Ghost(self.records@.insert(*uid, c));
                proof {
                    assert forall|k: Uid| #[trigger] self.records@.contains_key(k) implies holds_key(self.data@, k) by {
                        if k == *uid {
                            assert(self.data@[old_data.len() as int].0 == k);
                        } else {
                            assert(old(self).records@.contains_key(k));
                            let j = choose|j: int| 0 <= j < old_data.len() && old_data[j].0 == k;
                            assert(self.data@[j].0 == k);
                        }
                    }
                }
            },
            (Some(i), None) => {
                self.data.remove(i);
                self.records = Ghost(self.records@.remove(*uid));
                proof {
                    assert forall|j: int| 0 <= j < self.data@.len() implies #[trigger] self.records@.contains_key(self.data@[j].0)
                        && self.records@[self.data@[j].0] == self.data@[j].1 by {
                        if j < i {
                            assert(old_data[j] == self.data@[j]);
                        } else {
                            assert(old_data[j + 1] == self.data@[j]);
                        }
                    }
                    assert forall|k: Uid| #[trigger] self.records@.contains_key(k) implies holds_key(self.data@, k) by {
                        assert(old(self).records@.contains_key(k));
                        let j = choose|j: int| 0 <= j < old_data.len() && old_data[j].0 == k;
                        assert(j != i);
                        if j < i {
                            assert(self.data@[j].0 == k);
                        } else {
                            assert(self.data@[j - 1].0 == k);
                        }
                    }
                }
            },
            (None, None) => {
                proof {
                    assert(self.records@.remove(*uid) =~= self.records@);
                }
            },
        }
    }

    /// Applies one operation: a user switch, a backup that overwrites the
    /// current user's record, or a restore attempt that uses up one try.
    pub fn apply(&mut self, transition: &Transition)
        requires
            old(self).wf(),
            can_apply(old(self)@, *transition),
        ensures
            final(self).wf(),
            final(self)@ == step(old(self)@, *transition),
    {
        match transition {
            Transition::SetUid(u) => {
                self.uid = Some(*u);
                self.last_transition_outcome = TransitionOutcome::Nothing;
            },
            Transition::Backup(secret, tries) => {
                let u = self.uid.unwrap();
                self.store(&u, Some(Svr3Cell::new(*secret, *tries)));
                self.last_transition_outcome = TransitionOutcome::Nothing;
            },
            Transition::Restore | Transition::RestoreWithBadPassword => {
                let good = matches!(transition, Transition::Restore);
                let u = self.uid.unwrap();
                let (rest, outcome) = match self.get(&u) {
                    None => (None, TransitionOutcome::NotFound),
                    Some(c) => {
                        if c.tries_left == 0 {
                            (None, TransitionOutcome::MaxTriesReached)
                        } else {
                            let rest = if c.tries_left == 1 {
                                None
                            } else {
                                Some(Svr3Cell::new(c.secret, c.tries_left - 1))
                            };
                            if good {
                                (rest, TransitionOutcome::Restored(c.secret))
                            } else if c.tries_left == 1 {
                                (None, TransitionOutcome::MaxTriesReached)
                            } else {
                                (rest, TransitionOutcome::BadCommitment)
                            }
                        }
                    },
                };
                self.store(&u, rest);
                self.last_transition_outcome = outcome;
            },
        }
    }
}

} // verus!
