//! An in-memory storage for the queue: a pending list, a claimed list and an
//! acked list of tasks, with the transitions between them.
//!
//! Every transition that reads the clock or draws an identifier comes in two
//! forms: one (`*_at`) that takes the time and the identifier as arguments and
//! whose contract pins its effect down exactly, and one that reads the clock
//! and draws the identifier itself and then does the same.

use vstd::prelude::*;

use crate::claim::ClaimResult;
use crate::lifecycle::{
    lemma_add_keeps_inputs_distinct, lemma_add_keeps_sorted, lemma_claim_keeps_inputs_distinct,
    lemma_claim_keeps_sorted, lemma_cleanup_keeps_pending, lemma_revoke_keeps_inputs_distinct,
    lemma_revoke_keeps_sorted,
};
use crate::runtime::{new_id, now};
use crate::task::{
    AckedTask, ClaimId, ClaimedTask, ImmatureTask, MatureTask, Nanos, PendingTask, Task,
    TaskConfig, TaskId, Timestamp,
};

verus! {

/// A task in the pending list.
pub struct StoredPendingTask {
    pub task_id: TaskId,
    pub input: String,
    pub mature_at: Timestamp,
}

/// A task in the claimed list.
pub struct StoredClaimedTask {
    pub task_id: TaskId,
    pub claim_id: ClaimId,
    pub input: String,
    pub claimed_at: Timestamp,
}

/// A task in the acked list.
pub struct StoredAckedTask {
    pub task_id: TaskId,
    pub output: String,
    pub acked_at: Timestamp,
}

/// Errors of the storage.
pub enum MockStorageError {
    /// A task was reported by a claim that the claimed list does not hold.
    InvalidClaimer(ClaimId),
}

/// An in-memory storage of tasks. Intended for tests and single-process use.
pub struct MockStorageAdaptor {
    pending_list: Vec<StoredPendingTask>,
    claimed_list: Vec<StoredClaimedTask>,
    acked_list: Vec<StoredAckedTask>,
}

/// The abstract state of a storage: its three lists, in order.
pub struct StorageState {
    pub pending: Seq<StoredPendingTask>,
    pub claimed: Seq<StoredClaimedTask>,
    pub acked: Seq<StoredAckedTask>,
}

impl View for MockStorageAdaptor {
    type V = StorageState;

    closed spec fn view(&self) -> StorageState {
        StorageState {
            pending: self.pending_list@,
            claimed: self.claimed_list@,
            acked: self.acked_list@,
        }
    }
}

// ---------------------------------------------------------------------------
// Searching a list

/// The index of the first element of `s` that satisfies `p`, if any.
pub open spec fn first_index<A>(s: Seq<A>, p: spec_fn(A) -> bool) -> Option<int>
    decreases s.len(),
{
    if s.len() == 0 {
        None
    } else if p(s[0]) {
        Some(0)
    } else {
        match first_index(s.drop_first(), p) {
            Some(i) => Some(i + 1),
            None => None,
        }
    }
}

/// `first_index` is the least index that satisfies the predicate.
pub proof fn lemma_first_index<A>(s: Seq<A>, p: spec_fn(A) -> bool)
    ensures
        match first_index(s, p) {
            Some(i) => 0 <= i < s.len() && p(s[i]) && forall|j: int| 0 <= j < i ==> !p(#[trigger] s[j]),
            None => forall|j: int| 0 <= j < s.len() ==> !p(#[trigger] s[j]),
        },
    decreases s.len(),
{
    if s.len() > 0 && !p(s[0]) {
        lemma_first_index(s.drop_first(), p);
        assert forall|j: int| 1 <= j < s.len() implies s[j] == s.drop_first()[j - 1] by {}
    }
}

/// If `i` is the least index of `s` that satisfies `p`, `first_index` is `i`;
/// if no index below `i == s.len()` does, it is `None`.
proof fn lemma_first_index_at<A>(s: Seq<A>, p: spec_fn(A) -> bool, i: int)
    requires
        0 <= i <= s.len(),
        forall|j: int| 0 <= j < i ==> !p(#[trigger] s[j]),
    ensures
        i < s.len() && p(s[i]) ==> first_index(s, p) == Some(i),
        i == s.len() ==> first_index(s, p) is None,
{
    lemma_first_index(s, p);
}

/// The index at which a new pending task goes: the first index chosen by the
/// search, or the end of the list (of length `len`) where the search finds
/// nothing.
pub open spec fn index_or_end(found: Option<int>, len: int) -> int {
    match found {
        Some(i) => i,
        None => len,
    }
}

pub open spec fn input_is(input: Seq<char>) -> spec_fn(StoredPendingTask) -> bool {
    |t: StoredPendingTask| t.input@ == input
}

pub open spec fn matures_after(at: int) -> spec_fn(StoredPendingTask) -> bool {
    |t: StoredPendingTask| t.mature_at > at
}

pub open spec fn matures_not_before(at: int) -> spec_fn(StoredPendingTask) -> bool {
    |t: StoredPendingTask| t.mature_at >= at
}

pub open spec fn pending_id_is(id: Seq<char>) -> spec_fn(StoredPendingTask) -> bool {
    |t: StoredPendingTask| t.task_id@ == id
}

pub open spec fn claimed_id_is(id: Seq<char>) -> spec_fn(StoredClaimedTask) -> bool {
    |t: StoredClaimedTask| t.task_id@ == id
}

pub open spec fn claim_id_is(claim_id: Seq<char>) -> spec_fn(StoredClaimedTask) -> bool {
    |t: StoredClaimedTask| t.claim_id@ == claim_id
}

pub open spec fn acked_id_is(id: Seq<char>) -> spec_fn(StoredAckedTask) -> bool {
    |t: StoredAckedTask| t.task_id@ == id
}

/// Whether some pending task has this input.
pub open spec fn has_pending_input(pending: Seq<StoredPendingTask>, input: Seq<char>) -> bool {
    exists|i: int| 0 <= i < pending.len() && #[trigger] pending[i].input@ == input
}

/// No two tasks of the list have the same input.
pub open spec fn inputs_distinct(p: Seq<StoredPendingTask>) -> bool {
    forall|i: int, j: int|
        0 <= i < p.len() && 0 <= j < p.len() && i != j ==> #[trigger] p[i].input@ != #[trigger] p[j].input@
}

/// No two pending tasks have the same input.
pub open spec fn pending_inputs_distinct(s: StorageState) -> bool {
    inputs_distinct(s.pending)
}

/// The list is ordered by maturity time, earliest first.
pub open spec fn sorted_by_maturity(p: Seq<StoredPendingTask>) -> bool {
    forall|i: int, j: int| 0 <= i <= j < p.len() ==> #[trigger] p[i].mature_at <= #[trigger] p[j].mature_at
}

/// The storage's invariant: no two pending tasks have the same input, and the
/// pending list is ordered by maturity time, so that the head of the list is
/// the pending task that matures first.
pub open spec fn well_formed(s: StorageState) -> bool {
    pending_inputs_distinct(s) && sorted_by_maturity(s.pending)
}

// ---------------------------------------------------------------------------
// The transitions, as functions of the abstract state

/// The maturity time that a configuration gives a task added at `now`.
pub open spec fn effective_mature_at(config: TaskConfig, now: Timestamp) -> Timestamp {
    match config.mature_at {
        Some(at) => at,
        None => now,
    }
}

/// Adding a task with `input` at time `now` under the fresh id `task_id`.
///
/// Nothing changes where a pending task has the same input. Otherwise the task
/// goes in front of the first pending task that matures strictly later (at the
/// end of the list where none does), and is reported as immature exactly
/// when it matures after `now`.
pub open spec fn add_result(
    s: StorageState,
    input: String,
    config: TaskConfig,
    now: Timestamp,
    task_id: TaskId,
) -> (StorageState, Option<PendingTask>) {
    if has_pending_input(s.pending, input@) {
        (s, None)
    } else {
        let mature_at = effective_mature_at(config, now);
        let at = index_or_end(first_index(s.pending, matures_after(mature_at as int)), s.pending.len() as int);
        let stored = StoredPendingTask { task_id, input, mature_at };
        (
            StorageState { pending: s.pending.insert(at, stored), ..s },
            Some(
                if mature_at > now {
                    PendingTask::Immature(ImmatureTask { task_id, mature_at })
                } else {
                    PendingTask::Mature(MatureTask { task_id })
                },
            ),
        )
    }
}

/// Claiming at time `now` with the fresh claim id `claim_id`.
///
/// Only the head of the pending list is looked at: where it is mature it moves
/// to the end of the claimed list and is returned as claimed; where it is not,
/// nothing changes and it is returned as immature.
pub open spec fn claim_result(s: StorageState, now: Timestamp, claim_id: ClaimId) -> (
    StorageState,
    Option<ClaimResult<String>>,
) {
    if s.pending.len() == 0 {
        (s, None)
    } else {
        let head = s.pending[0];
        if head.mature_at <= now {
            let claimed = StoredClaimedTask {
                task_id: head.task_id,
                claim_id,
                input: head.input,
                claimed_at: now,
            };
            (
                StorageState {
                    pending: s.pending.remove(0),
                    claimed: s.claimed.push(claimed),
                    ..s
                },
                Some(
                    ClaimResult::Claimed(
                        ClaimedTask { task_id: head.task_id, claim_id, input: head.input },
                    ),
                ),
            )
        } else {
            (
                s,
                Some(
                    ClaimResult::Immature(
                        ImmatureTask { task_id: head.task_id, mature_at: head.mature_at },
                    ),
                ),
            )
        }
    }
}

/// Whether a claim made at `claimed_at` has been idle for longer than `ttl`
/// at `now`.
pub open spec fn claim_timed_out(claimed_at: Timestamp, ttl: Nanos, now: Timestamp) -> bool {
    claimed_at + ttl < now
}

/// One step of revoking: the head claim leaves the claimed list and, unless a
/// pending task has the same input, goes back to the pending list, mature at
/// `now`, in front of the first pending task that matures at `now` or later
/// (at the end where none does).
pub open spec fn revoke_head(s: StorageState, now: Timestamp) -> StorageState
    recommends
        s.claimed.len() > 0,
{
    let head = s.claimed[0];
    let rest = StorageState { claimed: s.claimed.remove(0), ..s };
    if has_pending_input(s.pending, head.input@) {
        rest
    } else {
        let at = index_or_end(first_index(s.pending, matures_not_before(now as int)), s.pending.len() as int);
        let back = StoredPendingTask { task_id: head.task_id, input: head.input, mature_at: now };
        StorageState { pending: s.pending.insert(at, back), ..rest }
    }
}

/// Revoking timed-out claims at `now`: claims are revoked from the head of the
/// claimed list for as long as the head has timed out.
pub open spec fn revoke_result(s: StorageState, ttl: Nanos, now: Timestamp) -> StorageState
    decreases s.claimed.len(),
{
    if s.claimed.len() > 0 && claim_timed_out(s.claimed[0].claimed_at, ttl, now) {
        revoke_result(revoke_head(s, now), ttl, now)
    } else {
        s
    }
}

/// Acknowledging `claim` with `output` at `now`: the first claimed task with the
/// claim's id moves to the end of the acked list; with no such task the claim
/// is refused.
pub open spec fn ack_result(
    s: StorageState,
    claim: ClaimedTask<String>,
    output: String,
    now: Timestamp,
) -> (StorageState, Result<AckedTask<String>, MockStorageError>) {
    match first_index(s.claimed, claim_id_is(claim.claim_id@)) {
        Some(i) => {
            let task = s.claimed[i];
            (
                StorageState {
                    claimed: s.claimed.remove(i),
                    acked: s.acked.push(
                        StoredAckedTask { task_id: task.task_id, output, acked_at: now },
                    ),
                    ..s
                },
                Ok(AckedTask { task_id: task.task_id, output }),
            )
        },
        None => (s, Err(MockStorageError::InvalidClaimer(claim.claim_id))),
    }
}

/// What a lookup of `id` at `now` finds: the pending list is searched first,
/// then the claimed list, then the acked list; a pending task is mature when
/// its maturity time is not after `now`.
pub open spec fn find_result(s: StorageState, id: Seq<char>, now: Timestamp) -> Option<
    Task<String, String>,
> {
    match first_index(s.pending, pending_id_is(id)) {
        Some(i) => {
            let t = s.pending[i];
            Some(
                Task::Pending(
                    if t.mature_at <= now {
                        PendingTask::Mature(MatureTask { task_id: t.task_id })
                    } else {
                        PendingTask::Immature(
                            ImmatureTask { task_id: t.task_id, mature_at: t.mature_at },
                        )
                    },
                ),
            )
        },
        None => match first_index(s.claimed, claimed_id_is(id)) {
            Some(i) => {
                let t = s.claimed[i];
                Some(
                    Task::Claimed(
                        ClaimedTask { task_id: t.task_id, claim_id: t.claim_id, input: t.input },
                    ),
                )
            },
            None => match first_index(s.acked, acked_id_is(id)) {
                Some(i) => {
                    let t = s.acked[i];
                    Some(Task::Acked(AckedTask { task_id: t.task_id, output: t.output }))
                },
                None => None,
            },
        },
    }
}

/// Whether an acked task acknowledged at `acked_at` has outlived `ttl` at `now`.
pub open spec fn ack_expired(acked_at: Timestamp, ttl: Nanos, now: Timestamp) -> bool {
    acked_at + ttl < now
}

/// Deleting expired acked tasks at `now`: they are deleted from the head of the
/// acked list for as long as the head has expired.
pub open spec fn cleanup_result(s: StorageState, ttl: Nanos, now: Timestamp) -> StorageState
    decreases s.acked.len(),
{
    if s.acked.len() > 0 && ack_expired(s.acked[0].acked_at, ttl, now) {
        cleanup_result(StorageState { acked: s.acked.remove(0), ..s }, ttl, now)
    } else {
        s
    }
}

// ---------------------------------------------------------------------------
// Searches over the lists

/// Whether `a + b < c`, decided without overflow.
fn sum_below(a: i128, b: i128, c: i128) -> (below: bool)
    ensures
        below == (a + b < c),
{
    if b >= 0 {
        if a > i128::MAX - b {
            false
        } else {
            a + b < c
        }
    } else if a < i128::MIN - b {
        true
    } else {
        a + b < c
    }
}

fn position_of_input(list: &Vec<StoredPendingTask>, input: &String) -> (r: Option<usize>)
    ensures
        match r {
            Some(i) => i < list.len() && first_index(list@, input_is(input@)) == Some(i as int),
            None => first_index(list@, input_is(input@)) is None,
        },
{
    let mut i: usize = 0;
    while i < list.len()
        invariant
            i <= list.len(),
            forall|j: int| 0 <= j < i ==> !(input_is(input@))(#[trigger] list@[j]),
        decreases list.len() - i,
    {
        if list[i].input == *input {
            proof {
                lemma_first_index_at(list@, input_is(input@), i as int);
            }
            return Some(i);
        }
        i = i + 1;
    }
    proof {
        lemma_first_index_at(list@, input_is(input@), i as int);
    }
    None
}

fn position_maturing_after(list: &Vec<StoredPendingTask>, at: Timestamp) -> (r: Option<usize>)
    ensures
        match r {
            Some(i) => i < list.len() && first_index(list@, matures_after(at as int)) == Some(i as int),
            None => first_index(list@, matures_after(at as int)) is None,
        },
{
    let mut i: usize = 0;
    while i < list.len()
        invariant
            i <= list.len(),
            forall|j: int| 0 <= j < i ==> !(matures_after(at as int))(#[trigger] list@[j]),
        decreases list.len() - i,
    {
        if list[i].mature_at > at {
            proof {
                lemma_first_index_at(list@, matures_after(at as int), i as int);
            }
            return Some(i);
        }
        i = i + 1;
    }
    proof {
        lemma_first_index_at(list@, matures_after(at as int), i as int);
    }
    None
}

fn position_maturing_not_before(list: &Vec<StoredPendingTask>, at: Timestamp) -> (r: Option<
    usize,
>)
    ensures
        match r {
            Some(i) => i < list.len() && first_index(list@, matures_not_before(at as int)) == Some(i as int),
            None => first_index(list@, matures_not_before(at as int)) is None,
        },
{
    let mut i: usize = 0;
    while i < list.len()
        invariant
            i <= list.len(),
            forall|j: int| 0 <= j < i ==> !(matures_not_before(at as int))(#[trigger] list@[j]),
        decreases list.len() - i,
    {
        if list[i].mature_at >= at {
            proof {
                lemma_first_index_at(list@, matures_not_before(at as int), i as int);
            }
            return Some(i);
        }
        i = i + 1;
    }
    proof {
        lemma_first_index_at(list@, matures_not_before(at as int), i as int);
    }
    None
}

fn position_of_pending_id(list: &Vec<StoredPendingTask>, id: &String) -> (r: Option<usize>)
    ensures
        match r {
            Some(i) => i < list.len() && first_index(list@, pending_id_is(id@)) == Some(i as int),
            None => first_index(list@, pending_id_is(id@)) is None,
        },
{
    let mut i: usize = 0;
    while i < list.len()
        invariant
            i <= list.len(),
            forall|j: int| 0 <= j < i ==> !(pending_id_is(id@))(#[trigger] list@[j]),
        decreases list.len() - i,
    {
        if list[i].task_id == *id {
            proof {
                lemma_first_index_at(list@, pending_id_is(id@), i as int);
            }
            return Some(i);
        }
        i = i + 1;
    }
    proof {
        lemma_first_index_at(list@, pending_id_is(id@), i as int);
    }
    None
}

fn position_of_claimed_id(list: &Vec<StoredClaimedTask>, id: &String) -> (r: Option<usize>)
    ensures
        match r {
            Some(i) => i < list.len() && first_index(list@, claimed_id_is(id@)) == Some(i as int),
            None => first_index(list@, claimed_id_is(id@)) is None,
        },
{
    let mut i: usize = 0;
    while i < list.len()
        invariant
            i <= list.len(),
            forall|j: int| 0 <= j < i ==> !(claimed_id_is(id@))(#[trigger] list@[j]),
        decreases list.len() - i,
    {
        if list[i].task_id == *id {
            proof {
                lemma_first_index_at(list@, claimed_id_is(id@), i as int);
            }
            return Some(i);
        }
        i = i + 1;
    }
    proof {
        lemma_first_index_at(list@, claimed_id_is(id@), i as int);
    }
    None
}

fn position_of_claim(list: &Vec<StoredClaimedTask>, claim_id: &String) -> (r: Option<usize>)
    ensures
        match r {
            Some(i) => i < list.len() && first_index(list@, claim_id_is(claim_id@)) == Some(i as int),
            None => first_index(list@, claim_id_is(claim_id@)) is None,
        },
{
    let mut i: usize = 0;
    while i < list.len()
        invariant
            i <= list.len(),
            forall|j: int| 0 <= j < i ==> !(claim_id_is(claim_id@))(#[trigger] list@[j]),
        decreases list.len() - i,
    {
        if list[i].claim_id == *claim_id {
            proof {
                lemma_first_index_at(list@, claim_id_is(claim_id@), i as int);
            }
            return Some(i);
        }
        i = i + 1;
    }
    proof {
        lemma_first_index_at(list@, claim_id_is(claim_id@), i as int);
    }
    None
}

fn position_of_acked_id(list: &Vec<StoredAckedTask>, id: &String) -> (r: Option<usize>)
    ensures
        match r {
            Some(i) => i < list.len() && first_index(list@, acked_id_is(id@)) == Some(i as int),
            None => first_index(list@, acked_id_is(id@)) is None,
        },
{
    let mut i: usize = 0;
    while i < list.len()
        invariant
            i <= list.len(),
            forall|j: int| 0 <= j < i ==> !(acked_id_is(id@))(#[trigger] list@[j]),
        decreases list.len() - i,
    {
        if list[i].task_id == *id {
            proof {
                lemma_first_index_at(list@, acked_id_is(id@), i as int);
            }
            return Some(i);
        }
        i = i + 1;
    }
    proof {
        lemma_first_index_at(list@, acked_id_is(id@), i as int);
    }
    None
}

/// `has_pending_input` is what the search for an input finds.
proof fn lemma_has_pending_input(pending: Seq<StoredPendingTask>, input: Seq<char>)
    ensures
        has_pending_input(pending, input) <==> first_index(pending, input_is(input)) is Some,
{
    lemma_first_index(pending, input_is(input));
    if has_pending_input(pending, input) {
        let i = choose|i: int| 0 <= i < pending.len() && #[trigger] pending[i].input@ == input;
        assert((input_is(input))(pending[i]));
    }
    if let Some(i) = first_index(pending, input_is(input)) {
        assert(pending[i].input@ == input);
    }
}

// ---------------------------------------------------------------------------
// The storage

impl MockStorageAdaptor {
    /// An empty storage.
    pub fn new() -> (storage: Self)
        ensures
            storage@.pending.len() == 0,
            storage@.claimed.len() == 0,
            storage@.acked.len() == 0,
            well_formed(storage@),
    {
        MockStorageAdaptor { pending_list: Vec::new(), claimed_list: Vec::new(), acked_list: Vec::new() }
    }

    /// Appends a task with `input` to the queue at time `now`, under the id
    /// `task_id`. No-op if a task with the same input is already pending.
    ///
    /// Returns the new pending task, or `None` if the task already exists.
    pub fn add_task_at(&mut self, input: String, config: TaskConfig, now: Timestamp, task_id: TaskId) -> (
        added: Option<PendingTask>)
        ensures
            (final(self)@, added) == add_result(old(self)@, input, config, now, task_id),
            well_formed(old(self)@) ==> well_formed(final(self)@),
    {
        proof {
            if well_formed(self@) {
                lemma_add_keeps_inputs_distinct(self@, input, config, now, task_id);
                lemma_add_keeps_sorted(self@, input, config, now, task_id);
            }
        }
        proof {
            lemma_has_pending_input(self.pending_list@, input@);
        }
        if position_of_input(&self.pending_list, &input).is_some() {
            return None;
        }
        let mature_at = match config.mature_at {
            Some(at) => at,
            None => now,
        };
        let at = match position_maturing_after(&self.pending_list, mature_at) {
            Some(i) => i,
            None => self.pending_list.len(),
        };
        let stored = StoredPendingTask { task_id: task_id.clone(), input, mature_at };
        self.pending_list.insert(at, stored);
        if mature_at > now {
            Some(PendingTask::Immature(ImmatureTask { task_id, mature_at }))
        } else {
            Some(PendingTask::Mature(MatureTask { task_id }))
        }
    }

    /// Appends a task to the queue, reading the clock and drawing a fresh id.
    /// No-op if a task with the same input is already pending.
    ///
    /// Returns the new pending task, or `None` if the task already exists.
    pub fn add_task(&mut self, input: String, config: TaskConfig) -> (added: Option<PendingTask>)
        ensures
            exists|now: Timestamp, task_id: TaskId|
                now >= 0 && task_id@.len() == 36 && (final(self)@, added) == #[trigger] add_result(
                    old(self)@,
                    input,
                    config,
                    now,
                    task_id,
                ),
            well_formed(old(self)@) ==> well_formed(final(self)@),
    {
        let now = now();
        let task_id = new_id();
        let added = self.add_task_at(input, config, now, task_id);
        assert(now >= 0 && task_id@.len() == 36 && (self@, added) == add_result(old(self)@, input, config, now, task_id));
        added
    }

    /// Tries to claim the head of the pending list at time `now`, under the
    /// claim id `claim_id`.
    pub fn claim_task_at(&mut self, now: Timestamp, claim_id: ClaimId) -> (claimed: Option<
        ClaimResult<String>,
    >)
        ensures
            (final(self)@, claimed) == claim_result(old(self)@, now, claim_id),
            well_formed(old(self)@) ==> well_formed(final(self)@),
    {
        proof {
            if well_formed(self@) {
                lemma_claim_keeps_inputs_distinct(self@, now, claim_id);
                lemma_claim_keeps_sorted(self@, now, claim_id);
            }
        }
        if self.pending_list.len() == 0 {
            return None;
        }
        let head_mature_at = self.pending_list[0].mature_at;
        if head_mature_at <= now {
            let head = self.pending_list.remove(0);
            let task_id = head.task_id;
            let input = head.input;
            self.claimed_list.push(
                StoredClaimedTask {
                    task_id: task_id.clone(),
                    claim_id: claim_id.clone(),
                    input: input.clone(),
                    claimed_at: now,
                },
            );
            Some(ClaimResult::Claimed(ClaimedTask { task_id, claim_id, input }))
        } else {
            let task_id = self.pending_list[0].task_id.clone();
            Some(ClaimResult::Immature(ImmatureTask { task_id, mature_at: head_mature_at }))
        }
    }

    /// Tries to claim a pending task for consumption, reading the clock and
    /// drawing a fresh claim id.
    pub fn claim_task(&mut self) -> (claimed: Option<ClaimResult<String>>)
        ensures
            exists|now: Timestamp, claim_id: ClaimId|
                now >= 0 && claim_id@.len() == 36 && (final(self)@, claimed) == #[trigger] claim_result(
                    old(self)@,
                    now,
                    claim_id,
                ),
            well_formed(old(self)@) ==> well_formed(final(self)@),
    {
        let now = now();
        let claim_id = new_id();
        let claimed = self.claim_task_at(now, claim_id);
        assert(now >= 0 && claim_id@.len() == 36 && (self@, claimed) == claim_result(old(self)@, now, claim_id));
        claimed
    }

    /// Revokes, at time `now`, the claims at the head of the claimed list that
    /// have timed out for `ttl`; their tasks go back to the pending list.
    pub fn revoke_at(&mut self, ttl: Nanos, now: Timestamp)
        ensures
            final(self)@ == revoke_result(old(self)@, ttl, now),
            well_formed(old(self)@) ==> well_formed(final(self)@),
    {
        proof {
            if well_formed(self@) {
                lemma_revoke_keeps_inputs_distinct(self@, ttl, now);
                lemma_revoke_keeps_sorted(self@, ttl, now);
            }
        }
        loop
            invariant
                revoke_result(self@, ttl, now) == revoke_result(old(self)@, ttl, now),
            ensures
                self@ == revoke_result(old(self)@, ttl, now),
            decreases self.claimed_list.len(),
        {
            if self.claimed_list.len() == 0 {
                break;
            }
            let claimed_at = self.claimed_list[0].claimed_at;
            if !sum_below(claimed_at, ttl, now) {
                break;
            }
            let ghost before = self@;
            proof {
                lemma_has_pending_input(self.pending_list@, self.claimed_list@[0].input@);
            }
            let task = self.claimed_list.remove(0);
            if position_of_input(&self.pending_list, &task.input).is_none() {
                let at = match position_maturing_not_before(&self.pending_list, now) {
                    Some(i) => i,
                    None => self.pending_list.len(),
                };
                self.pending_list.insert(
                    at,
                    StoredPendingTask { task_id: task.task_id, input: task.input, mature_at: now },
                );
            }
            assert(self@ == revoke_head(before, now));
        }
    }

    /// Revokes timed-out claims, reading the clock.
    pub fn revoke(&mut self, ttl: Nanos)
        ensures
            exists|now: Timestamp| now >= 0 && final(self)@ == #[trigger] revoke_result(old(self)@, ttl, now),
            well_formed(old(self)@) ==> well_formed(final(self)@),
    {
        let now = now();
        self.revoke_at(ttl, now);
    }

    /// Reports, at time `now`, the output of the task held by `claim`.
    /// Returns an error if no claimed task holds that claim (the task is not
    /// found, or it has already been acknowledged).
    pub fn ack_task_at(&mut self, claim: ClaimedTask<String>, output: String, now: Timestamp) -> (
        acked: Result<AckedTask<String>, MockStorageError>)
        ensures
            (final(self)@, acked) == ack_result(old(self)@, claim, output, now),
            well_formed(old(self)@) ==> well_formed(final(self)@),
    {
        match position_of_claim(&self.claimed_list, &claim.claim_id) {
            Some(i) => {
                let task = self.claimed_list.remove(i);
                self.acked_list.push(
                    StoredAckedTask { task_id: task.task_id.clone(), output: output.clone(), acked_at: now },
                );
                Ok(AckedTask { task_id: task.task_id, output })
            },
            None => Err(MockStorageError::InvalidClaimer(claim.claim_id)),
        }
    }

    /// Reports the output of the task held by `claim`, reading the clock.
    pub fn ack_task(&mut self, claim: ClaimedTask<String>, output: String) -> (acked: Result<
        AckedTask<String>,
        MockStorageError,
    >)
        ensures
            exists|now: Timestamp|
                now >= 0 && (final(self)@, acked) == #[trigger] ack_result(old(self)@, claim, output, now),
            well_formed(old(self)@) ==> well_formed(final(self)@),
    {
        let now = now();
        let acked = self.ack_task_at(claim, output, now);
        assert(now >= 0 && (self@, acked) == ack_result(old(self)@, claim, output, now));
        acked
    }

    /// The current state of the task `id`, judged at time `now`.
    pub fn find_task_at(&self, id: TaskId, now: Timestamp) -> (found: Option<Task<String, String>>)
        ensures
            found == find_result(self@, id@, now),
    {
        if let Some(i) = position_of_pending_id(&self.pending_list, &id) {
            let t = &self.pending_list[i];
            let pending = if t.mature_at <= now {
                PendingTask::Mature(MatureTask { task_id: t.task_id.clone() })
            } else {
                PendingTask::Immature(ImmatureTask { task_id: t.task_id.clone(), mature_at: t.mature_at })
            };
            Some(Task::Pending(pending))
        } else if let Some(i) = position_of_claimed_id(&self.claimed_list, &id) {
            let t = &self.claimed_list[i];
            Some(
                Task::Claimed(
                    ClaimedTask {
                        task_id: t.task_id.clone(),
                        claim_id: t.claim_id.clone(),
                        input: t.input.clone(),
                    },
                ),
            )
        } else if let Some(i) = position_of_acked_id(&self.acked_list, &id) {
            let t = &self.acked_list[i];
            Some(Task::Acked(AckedTask { task_id: t.task_id.clone(), output: t.output.clone() }))
        } else {
            None
        }
    }

    /// The current state of the task `id`, reading the clock.
    pub fn find_task(&self, id: TaskId) -> (found: Option<Task<String, String>>)
        ensures
            exists|now: Timestamp| now >= 0 && found == #[trigger] find_result(self@, id@, now),
    {
        let now = now();
        let found = self.find_task_at(id, now);
        assert(now >= 0 && found == find_result(self@, id@, now));
        found
    }

    /// Deletes, at time `now`, the acked tasks at the head of the acked list
    /// that have outlived `ttl`.
    pub fn cleanup_at(&mut self, ttl: Nanos, now: Timestamp)
        ensures
            final(self)@ == cleanup_result(old(self)@, ttl, now),
            well_formed(old(self)@) ==> well_formed(final(self)@),
    {
        proof {
            lemma_cleanup_keeps_pending(self@, ttl, now);
        }
        loop
            invariant
                cleanup_result(self@, ttl, now) == cleanup_result(old(self)@, ttl, now),
            ensures
                self@ == cleanup_result(old(self)@, ttl, now),
            decreases self.acked_list.len(),
        {
            if self.acked_list.len() == 0 {
                break;
            }
            let acked_at = self.acked_list[0].acked_at;
            if !sum_below(acked_at, ttl, now) {
                break;
            }
            self.acked_list.remove(0);
        }
    }

    /// Deletes timed-out acked tasks, reading the clock.
    pub fn cleanup(&mut self, ttl: Nanos)
        ensures
            exists|now: Timestamp| now >= 0 && final(self)@ == #[trigger] cleanup_result(old(self)@, ttl, now),
            well_formed(old(self)@) ==> well_formed(final(self)@),
    {
        let now = now();
        self.cleanup_at(ttl, now);
    }
}

} // verus!
