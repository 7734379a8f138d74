//! Properties of the storage's task life cycle that span several transitions:
//! what the transitions keep, and what a lookup gives back after each of them.

use vstd::prelude::*;
use vstd::multiset::Multiset;

use crate::claim::ClaimResult;
use crate::storage::{
    ack_expired, ack_result, acked_id_is, add_result, claim_id_is, claim_result, claim_timed_out,
    claimed_id_is, cleanup_result, effective_mature_at, find_result, first_index,
    has_pending_input, index_or_end, inputs_distinct, sorted_by_maturity, pending_inputs_distinct, lemma_first_index, matures_after, matures_not_before,
    pending_id_is, revoke_head, revoke_result, MockStorageError, StorageState, StoredAckedTask,
    StoredClaimedTask, StoredPendingTask,
};
use crate::task::{
    AckedTask, ClaimId, ClaimedTask, ImmatureTask, MatureTask, Nanos, PendingTask, Task,
    TaskConfig, TaskId, Timestamp,
};

verus! {

broadcast use vstd::multiset::group_multiset_axioms, vstd::seq_lib::group_to_multiset_ensures;

// ---------------------------------------------------------------------------
// The ids held by a storage

pub open spec fn pending_ids(p: Seq<StoredPendingTask>) -> Seq<Seq<char>> {
    p.map_values(|t: StoredPendingTask| t.task_id@)
}

pub open spec fn claimed_ids(c: Seq<StoredClaimedTask>) -> Seq<Seq<char>> {
    c.map_values(|t: StoredClaimedTask| t.task_id@)
}

pub open spec fn acked_ids(a: Seq<StoredAckedTask>) -> Seq<Seq<char>> {
    a.map_values(|t: StoredAckedTask| t.task_id@)
}

/// The claim ids of the claimed list, in order.
pub open spec fn claim_ids(c: Seq<StoredClaimedTask>) -> Seq<Seq<char>> {
    c.map_values(|t: StoredClaimedTask| t.claim_id@)
}

/// The task ids held by the three lists together, with their multiplicity.
pub open spec fn task_ids(s: StorageState) -> Multiset<Seq<char>> {
    pending_ids(s.pending).to_multiset().add(claimed_ids(s.claimed).to_multiset()).add(
        acked_ids(s.acked).to_multiset(),
    )
}

/// No task id occurs twice in the storage, in one list or across lists.
pub open spec fn task_ids_unique(s: StorageState) -> bool {
    forall|id: Seq<char>| #[trigger] task_ids(s).count(id) <= 1
}

/// Whether some task of the storage has the id `id`.
pub open spec fn holds_task(s: StorageState, id: Seq<char>) -> bool {
    task_ids(s).count(id) > 0
}

/// No two claimed tasks hold the same claim id.
pub open spec fn claim_ids_distinct(s: StorageState) -> bool {
    claim_ids(s.claimed).no_duplicates()
}

// ---------------------------------------------------------------------------
// Sequences and multisets

proof fn lemma_absent<A>(q: Seq<A>, x: A)
    requires
        q.to_multiset().count(x) == 0,
    ensures
        forall|j: int| 0 <= j < q.len() ==> #[trigger] q[j] != x,
{
    assert forall|j: int| 0 <= j < q.len() implies #[trigger] q[j] != x by {
        if q[j] == x {
            assert(q.contains(x));
        }
    }
}

proof fn lemma_single_occurrence<A>(q: Seq<A>, k: int)
    requires
        0 <= k < q.len(),
        q.to_multiset().count(q[k]) <= 1,
    ensures
        forall|j: int| 0 <= j < q.len() && j != k ==> #[trigger] q[j] != q[k],
{
    let r = q.remove(k);
    assert(r.to_multiset().count(q[k]) == 0);
    lemma_absent(r, q[k]);
    assert forall|j: int| 0 <= j < q.len() && j != k implies #[trigger] q[j] != q[k] by {
        if j < k {
            assert(r[j] == q[j]);
        } else {
            assert(r[j - 1] == q[j]);
        }
    }
}

proof fn lemma_pending_ids_insert(p: Seq<StoredPendingTask>, i: int, t: StoredPendingTask)
    requires
        0 <= i <= p.len(),
    ensures
        pending_ids(p.insert(i, t)).to_multiset() == pending_ids(p).to_multiset().insert(t.task_id@),
{
    assert(pending_ids(p.insert(i, t)) =~= pending_ids(p).insert(i, t.task_id@));
}

proof fn lemma_pending_ids_remove(p: Seq<StoredPendingTask>, i: int)
    requires
        0 <= i < p.len(),
    ensures
        pending_ids(p.remove(i)).to_multiset() == pending_ids(p).to_multiset().remove(p[i].task_id@),
{
    assert(pending_ids(p.remove(i)) =~= pending_ids(p).remove(i));
}

proof fn lemma_claimed_ids_remove(c: Seq<StoredClaimedTask>, i: int)
    requires
        0 <= i < c.len(),
    ensures
        claimed_ids(c.remove(i)).to_multiset() == claimed_ids(c).to_multiset().remove(c[i].task_id@),
        claim_ids(c.remove(i)) == claim_ids(c).remove(i),
{
    assert(claimed_ids(c.remove(i)) =~= claimed_ids(c).remove(i));
    assert(claim_ids(c.remove(i)) =~= claim_ids(c).remove(i));
}

proof fn lemma_claimed_ids_push(c: Seq<StoredClaimedTask>, t: StoredClaimedTask)
    ensures
        claimed_ids(c.push(t)).to_multiset() == claimed_ids(c).to_multiset().insert(t.task_id@),
        claim_ids(c.push(t)) == claim_ids(c).push(t.claim_id@),
{
    assert(claimed_ids(c.push(t)) =~= claimed_ids(c).push(t.task_id@));
    assert(claim_ids(c.push(t)) =~= claim_ids(c).push(t.claim_id@));
}

proof fn lemma_acked_ids_remove(a: Seq<StoredAckedTask>, i: int)
    requires
        0 <= i < a.len(),
    ensures
        acked_ids(a.remove(i)).to_multiset() == acked_ids(a).to_multiset().remove(a[i].task_id@),
{
    assert(acked_ids(a.remove(i)) =~= acked_ids(a).remove(i));
}

proof fn lemma_acked_ids_push(a: Seq<StoredAckedTask>, t: StoredAckedTask)
    ensures
        acked_ids(a.push(t)).to_multiset() == acked_ids(a).to_multiset().insert(t.task_id@),
{
    assert(acked_ids(a.push(t)) =~= acked_ids(a).push(t.task_id@));
}

/// The position at which `add_result` and `revoke_head` insert is in range.
proof fn lemma_index_or_end_in_range(
    p: Seq<StoredPendingTask>,
    pred: spec_fn(StoredPendingTask) -> bool,
)
    ensures
        0 <= index_or_end(first_index(p, pred), p.len() as int) <= p.len(),
{
    lemma_first_index(p, pred);
}

// ---------------------------------------------------------------------------
// What each transition does to the ids

proof fn lemma_add_ids(s: StorageState, input: String, config: TaskConfig, now: Timestamp, task_id: TaskId)
    ensures
        ({
            let (s2, added) = add_result(s, input, config, now, task_id);
            &&& added is None ==> task_ids(s2) == task_ids(s)
            &&& added is Some ==> task_ids(s2) == task_ids(s).insert(task_id@)
        }),
{
    let (s2, added) = add_result(s, input, config, now, task_id);
    assert(has_pending_input(s.pending, input@) == (exists|i: int|
        0 <= i < s.pending.len() && #[trigger] s.pending[i].input@ == input@));
    if added is Some {
        let mature_at = effective_mature_at(config, now);
        let pred = matures_after(mature_at as int);
        lemma_index_or_end_in_range(s.pending, pred);
        let at = index_or_end(first_index(s.pending, pred), s.pending.len() as int);
        lemma_pending_ids_insert(s.pending, at, StoredPendingTask { task_id, input, mature_at });
        assert(task_ids(s2) =~= task_ids(s).insert(task_id@));
    }
}

proof fn lemma_claim_ids(s: StorageState, now: Timestamp, claim_id: ClaimId)
    ensures
        task_ids(claim_result(s, now, claim_id).0) == task_ids(s),
{
    let s2 = claim_result(s, now, claim_id).0;
    if s.pending.len() > 0 && s.pending[0].mature_at <= now {
        let head = s.pending[0];
        lemma_pending_ids_remove(s.pending, 0);
        lemma_claimed_ids_push(
            s.claimed,
            StoredClaimedTask { task_id: head.task_id, claim_id, input: head.input, claimed_at: now },
        );
        assert(pending_ids(s.pending)[0] == head.task_id@);
        assert(pending_ids(s.pending).to_multiset().count(head.task_id@) > 0);
        assert(task_ids(s2) =~= task_ids(s));
    }
}

proof fn lemma_ack_ids(s: StorageState, claim: ClaimedTask<String>, output: String, now: Timestamp)
    ensures
        task_ids(ack_result(s, claim, output, now).0) == task_ids(s),
{
    let s2 = ack_result(s, claim, output, now).0;
    lemma_first_index(s.claimed, claim_id_is(claim.claim_id@));
    if let Some(i) = first_index(s.claimed, claim_id_is(claim.claim_id@)) {
        let task = s.claimed[i];
        lemma_claimed_ids_remove(s.claimed, i);
        lemma_acked_ids_push(s.acked, StoredAckedTask { task_id: task.task_id, output, acked_at: now });
        assert(claimed_ids(s.claimed)[i] == task.task_id@);
        assert(claimed_ids(s.claimed).to_multiset().count(task.task_id@) > 0);
        assert(task_ids(s2) =~= task_ids(s));
    }
}

proof fn lemma_revoke_head_ids(s: StorageState, now: Timestamp)
    requires
        s.claimed.len() > 0,
    ensures
        task_ids(revoke_head(s, now)).subset_of(task_ids(s)),
{
    let head = s.claimed[0];
    lemma_claimed_ids_remove(s.claimed, 0);
    assert(claimed_ids(s.claimed)[0] == head.task_id@);
    assert(claimed_ids(s.claimed).to_multiset().count(head.task_id@) > 0);
    if !has_pending_input(s.pending, head.input@) {
        let pred = matures_not_before(now as int);
        lemma_index_or_end_in_range(s.pending, pred);
        let at = index_or_end(first_index(s.pending, pred), s.pending.len() as int);
        lemma_pending_ids_insert(
            s.pending,
            at,
            StoredPendingTask { task_id: head.task_id, input: head.input, mature_at: now },
        );
        assert(task_ids(revoke_head(s, now)) =~= task_ids(s));
    }
}

proof fn lemma_revoke_ids(s: StorageState, ttl: Nanos, now: Timestamp)
    ensures
        task_ids(revoke_result(s, ttl, now)).subset_of(task_ids(s)),
    decreases s.claimed.len(),
{
    if s.claimed.len() > 0 && claim_timed_out(s.claimed[0].claimed_at, ttl, now) {
        lemma_revoke_head_ids(s, now);
        lemma_revoke_ids(revoke_head(s, now), ttl, now);
    }
}

proof fn lemma_cleanup_ids(s: StorageState, ttl: Nanos, now: Timestamp)
    ensures
        task_ids(cleanup_result(s, ttl, now)).subset_of(task_ids(s)),
    decreases s.acked.len(),
{
    if s.acked.len() > 0 && ack_expired(s.acked[0].acked_at, ttl, now) {
        let s1 = StorageState { acked: s.acked.remove(0), ..s };
        lemma_acked_ids_remove(s.acked, 0);
        lemma_cleanup_ids(s1, ttl, now);
    }
}

/// Task ids are conserved: claiming and acknowledging move a task between
/// lists without creating or losing one; revoking and cleaning up can only
/// drop tasks; adding brings in exactly the new task's id, or nothing.
pub proof fn lemma_task_ids_conserved(
    s: StorageState,
    input: String,
    config: TaskConfig,
    now: Timestamp,
    task_id: TaskId,
    claim_id: ClaimId,
    claim: ClaimedTask<String>,
    output: String,
    ttl: Nanos,
)
    ensures
        add_result(s, input, config, now, task_id).1 is Some ==> task_ids(
            add_result(s, input, config, now, task_id).0,
        ) == task_ids(s).insert(task_id@),
        add_result(s, input, config, now, task_id).1 is None ==> task_ids(
            add_result(s, input, config, now, task_id).0,
        ) == task_ids(s),
        task_ids(claim_result(s, now, claim_id).0) == task_ids(s),
        task_ids(ack_result(s, claim, output, now).0) == task_ids(s),
        task_ids(revoke_result(s, ttl, now)).subset_of(task_ids(s)),
        task_ids(cleanup_result(s, ttl, now)).subset_of(task_ids(s)),
{
    lemma_add_ids(s, input, config, now, task_id);
    lemma_claim_ids(s, now, claim_id);
    lemma_ack_ids(s, claim, output, now);
    lemma_revoke_ids(s, ttl, now);
    lemma_cleanup_ids(s, ttl, now);
}

/// Task ids stay unique through every transition, as long as each added task
/// gets an id that the storage does not hold yet.
pub proof fn lemma_task_ids_stay_unique(
    s: StorageState,
    input: String,
    config: TaskConfig,
    now: Timestamp,
    task_id: TaskId,
    claim_id: ClaimId,
    claim: ClaimedTask<String>,
    output: String,
    ttl: Nanos,
)
    requires
        task_ids_unique(s),
        !holds_task(s, task_id@),
    ensures
        task_ids_unique(add_result(s, input, config, now, task_id).0),
        task_ids_unique(claim_result(s, now, claim_id).0),
        task_ids_unique(ack_result(s, claim, output, now).0),
        task_ids_unique(revoke_result(s, ttl, now)),
        task_ids_unique(cleanup_result(s, ttl, now)),
{
    lemma_task_ids_conserved(s, input, config, now, task_id, claim_id, claim, output, ttl);
    let s_add = add_result(s, input, config, now, task_id).0;
    assert forall|id: Seq<char>| #[trigger] task_ids(s_add).count(id) <= 1 by {
        assert(task_ids(s).count(id) <= 1);
    }
    let s_rev = revoke_result(s, ttl, now);
    assert forall|id: Seq<char>| #[trigger] task_ids(s_rev).count(id) <= 1 by {
        assert(task_ids(s).count(id) <= 1);
    }
    let s_clean = cleanup_result(s, ttl, now);
    assert forall|id: Seq<char>| #[trigger] task_ids(s_clean).count(id) <= 1 by {
        assert(task_ids(s).count(id) <= 1);
    }
}

// ---------------------------------------------------------------------------
// Pending inputs

proof fn lemma_insert_keeps_inputs_distinct(p: Seq<StoredPendingTask>, at: int, t: StoredPendingTask)
    requires
        inputs_distinct(p),
        !has_pending_input(p, t.input@),
        0 <= at <= p.len(),
    ensures
        inputs_distinct(p.insert(at, t)),
{
    let q = p.insert(at, t);
    assert forall|i: int, j: int|
        0 <= i < q.len() && 0 <= j < q.len() && i != j implies #[trigger] q[i].input@ != #[trigger] q[j].input@ by {
        if i == at {
            let k = if j < at { j } else { j - 1 };
            assert(q[j] == p[k]);
        } else if j == at {
            let k = if i < at { i } else { i - 1 };
            assert(q[i] == p[k]);
        } else {
            let ki = if i < at { i } else { i - 1 };
            let kj = if j < at { j } else { j - 1 };
            assert(q[i] == p[ki]);
            assert(q[j] == p[kj]);
        }
    }
}

proof fn lemma_remove_keeps_inputs_distinct(p: Seq<StoredPendingTask>, at: int)
    requires
        inputs_distinct(p),
        0 <= at < p.len(),
    ensures
        inputs_distinct(p.remove(at)),
{
    let q = p.remove(at);
    assert forall|i: int, j: int|
        0 <= i < q.len() && 0 <= j < q.len() && i != j implies #[trigger] q[i].input@ != #[trigger] q[j].input@ by {
        let ki = if i < at { i } else { i + 1 };
        let kj = if j < at { j } else { j + 1 };
        assert(q[i] == p[ki]);
        assert(q[j] == p[kj]);
    }
}

pub(crate) proof fn lemma_revoke_keeps_inputs_distinct(s: StorageState, ttl: Nanos, now: Timestamp)
    requires
        pending_inputs_distinct(s),
    ensures
        pending_inputs_distinct(revoke_result(s, ttl, now)),
    decreases s.claimed.len(),
{
    if s.claimed.len() > 0 && claim_timed_out(s.claimed[0].claimed_at, ttl, now) {
        let head = s.claimed[0];
        if !has_pending_input(s.pending, head.input@) {
            let pred = matures_not_before(now as int);
            lemma_index_or_end_in_range(s.pending, pred);
            let at = index_or_end(first_index(s.pending, pred), s.pending.len() as int);
            lemma_insert_keeps_inputs_distinct(
                s.pending,
                at,
                StoredPendingTask { task_id: head.task_id, input: head.input, mature_at: now },
            );
        }
        lemma_revoke_keeps_inputs_distinct(revoke_head(s, now), ttl, now);
    }
}

pub(crate) proof fn lemma_cleanup_keeps_pending(s: StorageState, ttl: Nanos, now: Timestamp)
    ensures
        cleanup_result(s, ttl, now).pending == s.pending,
        cleanup_result(s, ttl, now).claimed == s.claimed,
    decreases s.acked.len(),
{
    if s.acked.len() > 0 && ack_expired(s.acked[0].acked_at, ttl, now) {
        lemma_cleanup_keeps_pending(StorageState { acked: s.acked.remove(0), ..s }, ttl, now);
    }
}

pub(crate) proof fn lemma_add_keeps_inputs_distinct(
    s: StorageState,
    input: String,
    config: TaskConfig,
    now: Timestamp,
    task_id: TaskId,
)
    requires
        pending_inputs_distinct(s),
    ensures
        pending_inputs_distinct(add_result(s, input, config, now, task_id).0),
{
    if !has_pending_input(s.pending, input@) {
        let mature_at = effective_mature_at(config, now);
        let pred = matures_after(mature_at as int);
        lemma_index_or_end_in_range(s.pending, pred);
        let at = index_or_end(first_index(s.pending, pred), s.pending.len() as int);
        lemma_insert_keeps_inputs_distinct(s.pending, at, StoredPendingTask { task_id, input, mature_at });
    }
}

pub(crate) proof fn lemma_claim_keeps_inputs_distinct(s: StorageState, now: Timestamp, claim_id: ClaimId)
    requires
        pending_inputs_distinct(s),
    ensures
        pending_inputs_distinct(claim_result(s, now, claim_id).0),
{
    if s.pending.len() > 0 {
        lemma_remove_keeps_inputs_distinct(s.pending, 0);
    }
}

/// No two pending tasks ever have the same input: adding is a no-op for an
/// input that is already pending, and revoking puts a task back only when its
/// input is not pending; every transition keeps the property.
pub proof fn lemma_pending_inputs_stay_distinct(
    s: StorageState,
    input: String,
    config: TaskConfig,
    now: Timestamp,
    task_id: TaskId,
    claim_id: ClaimId,
    claim: ClaimedTask<String>,
    output: String,
    ttl: Nanos,
)
    requires
        pending_inputs_distinct(s),
    ensures
        pending_inputs_distinct(add_result(s, input, config, now, task_id).0),
        pending_inputs_distinct(claim_result(s, now, claim_id).0),
        pending_inputs_distinct(ack_result(s, claim, output, now).0),
        pending_inputs_distinct(revoke_result(s, ttl, now)),
        pending_inputs_distinct(cleanup_result(s, ttl, now)),
{
    lemma_add_keeps_inputs_distinct(s, input, config, now, task_id);
    lemma_claim_keeps_inputs_distinct(s, now, claim_id);
    lemma_revoke_keeps_inputs_distinct(s, ttl, now);
    lemma_cleanup_keeps_pending(s, ttl, now);
}

// ---------------------------------------------------------------------------
// What adding reports

/// Adding is a no-op exactly when a task with the same input is pending.
/// Otherwise the new task, with the given id and input and the configured
/// maturity time (the time of adding by default), joins the pending list
/// right in front of the first pending task that matures later than it (at
/// the end where none does): every task before it matures no later, so tasks
/// with equal maturity keep the order in which they were added. The other
/// lists are untouched, and the task is reported immature, with its maturity
/// time, exactly when it matures after the time of adding.
pub proof fn lemma_add_outcome(
    s: StorageState,
    input: String,
    config: TaskConfig,
    now: Timestamp,
    task_id: TaskId,
)
    ensures
        ({
            let (s2, added) = add_result(s, input, config, now, task_id);
            let m = config.mature_at.unwrap_or(now);
            &&& added is None <==> (exists|i: int|
                0 <= i < s.pending.len() && #[trigger] s.pending[i].input@ == input@)
            &&& added is None ==> s2 == s
            &&& added matches Some(task) ==> {
                &&& (m > now ==> task == PendingTask::Immature(ImmatureTask { task_id, mature_at: m }))
                &&& (m <= now ==> task == PendingTask::Mature(MatureTask { task_id }))
                &&& s2.claimed == s.claimed
                &&& s2.acked == s.acked
            }
        }),
        add_result(s, input, config, now, task_id).1 is Some ==> exists|at: int|
            0 <= at <= s.pending.len() && (forall|j: int|
                0 <= j < at ==> #[trigger] s.pending[j].mature_at <= config.mature_at.unwrap_or(now))
                && (at < s.pending.len() ==> s.pending[at].mature_at > config.mature_at.unwrap_or(now))
                && add_result(s, input, config, now, task_id).0.pending == s.pending.insert(
                at,
                StoredPendingTask { task_id, input, mature_at: config.mature_at.unwrap_or(now) },
            ),
{
    let (s2, added) = add_result(s, input, config, now, task_id);
    assert(has_pending_input(s.pending, input@) == (exists|i: int|
        0 <= i < s.pending.len() && #[trigger] s.pending[i].input@ == input@));
    if added is Some {
        let mature_at = effective_mature_at(config, now);
        let pred = matures_after(mature_at as int);
        lemma_first_index(s.pending, pred);
        lemma_index_or_end_in_range(s.pending, pred);
        let at = index_or_end(first_index(s.pending, pred), s.pending.len() as int);
        assert forall|j: int| 0 <= j < at implies #[trigger] s.pending[j].mature_at <= mature_at by {
            assert(!pred(s.pending[j]));
        }
        if let Some(k) = first_index(s.pending, pred) {
            assert(pred(s.pending[k]));
        }
        let m = config.mature_at.unwrap_or(now);
        assert(m == mature_at);
        assert(s2.pending == s.pending.insert(at, StoredPendingTask { task_id, input, mature_at: m }));
        assert(forall|j: int| 0 <= j < at ==> #[trigger] s.pending[j].mature_at <= m);
        assert(at < s.pending.len() ==> s.pending[at].mature_at > m);
        assert(0 <= at <= s.pending.len());
    }
}

/// A claim looks at the head of the pending list only. With no pending task
/// there is nothing to claim and nothing changes. A head that matures after
/// the time of claiming is reported immature with its own id and maturity
/// time, and nothing changes. Otherwise the head leaves the pending list and
/// is appended to the claimed list with the given claim id and the time of
/// claiming, and is returned with its id, that claim id and its input.
pub proof fn lemma_claim_outcome(s: StorageState, now: Timestamp, claim_id: ClaimId)
    ensures
        ({
            let (s2, claimed) = claim_result(s, now, claim_id);
            &&& s.pending.len() == 0 ==> s2 == s && claimed is None
            &&& s.pending.len() > 0 && s.pending[0].mature_at > now ==> s2 == s && claimed == Some(
                ClaimResult::<String>::Immature(
                    ImmatureTask { task_id: s.pending[0].task_id, mature_at: s.pending[0].mature_at },
                ),
            )
            &&& s.pending.len() > 0 && s.pending[0].mature_at <= now ==> {
                &&& claimed == Some(
                    ClaimResult::Claimed(
                        ClaimedTask {
                            task_id: s.pending[0].task_id,
                            claim_id,
                            input: s.pending[0].input,
                        },
                    ),
                )
                &&& s2.pending == s.pending.subrange(1, s.pending.len() as int)
                &&& s2.claimed == s.claimed.push(
                    StoredClaimedTask {
                        task_id: s.pending[0].task_id,
                        claim_id,
                        input: s.pending[0].input,
                        claimed_at: now,
                    },
                )
                &&& s2.acked == s.acked
            }
        }),
{
    if s.pending.len() > 0 {
        assert(s.pending.remove(0) =~= s.pending.subrange(1, s.pending.len() as int));
    }
}

/// Acknowledging succeeds exactly when some claimed task holds the claim's
/// id, wherever it stands in the claimed list: that task (the first one with
/// the claim id) leaves the claimed list and is appended to the acked list
/// with the output and the time of acknowledging, and the result carries its
/// id and the output. Otherwise the claim is refused and nothing changes.
pub proof fn lemma_ack_outcome(s: StorageState, claim: ClaimedTask<String>, output: String, now: Timestamp)
    ensures
        ({
            let (s2, acked) = ack_result(s, claim, output, now);
            &&& (exists|i: int| 0 <= i < s.claimed.len() && #[trigger] s.claimed[i].claim_id@ == claim.claim_id@)
                ==> exists|i: int|
                0 <= i < s.claimed.len() && #[trigger] s.claimed[i].claim_id@ == claim.claim_id@
                    && (forall|j: int| 0 <= j < i ==> #[trigger] s.claimed[j].claim_id@ != claim.claim_id@)
                    && acked == Ok::<AckedTask<String>, MockStorageError>(
                    AckedTask { task_id: s.claimed[i].task_id, output },
                ) && s2.claimed == s.claimed.remove(i) && s2.acked == s.acked.push(
                    StoredAckedTask { task_id: s.claimed[i].task_id, output, acked_at: now },
                ) && s2.pending == s.pending
            &&& (forall|i: int| 0 <= i < s.claimed.len() ==> #[trigger] s.claimed[i].claim_id@ != claim.claim_id@)
                ==> s2 == s && acked == Err::<AckedTask<String>, MockStorageError>(
                MockStorageError::InvalidClaimer(claim.claim_id),
            )
        }),
{
    let c = claim.claim_id@;
    lemma_first_index(s.claimed, claim_id_is(c));
    if let Some(i) = first_index(s.claimed, claim_id_is(c)) {
        assert(s.claimed[i].claim_id@ == c);
        assert forall|j: int| 0 <= j < i implies #[trigger] s.claimed[j].claim_id@ != c by {
            assert(!(claim_id_is(c))(s.claimed[j]));
        }
    } else {
        assert forall|i: int| 0 <= i < s.claimed.len() implies #[trigger] s.claimed[i].claim_id@ != c by {
            assert(!(claim_id_is(c))(s.claimed[i]));
        }
    }
}

// ---------------------------------------------------------------------------
// Order of the pending list


proof fn lemma_insert_keeps_sorted(p: Seq<StoredPendingTask>, at: int, t: StoredPendingTask)
    requires
        sorted_by_maturity(p),
        0 <= at <= p.len(),
        forall|j: int| 0 <= j < at ==> #[trigger] p[j].mature_at <= t.mature_at,
        forall|j: int| at <= j < p.len() ==> #[trigger] p[j].mature_at >= t.mature_at,
    ensures
        sorted_by_maturity(p.insert(at, t)),
{
    let q = p.insert(at, t);
    assert forall|i: int, j: int| 0 <= i <= j < q.len() implies #[trigger] q[i].mature_at <= #[trigger] q[j].mature_at by {
        if i < at {
            assert(q[i] == p[i]);
        } else if i > at {
            assert(q[i] == p[i - 1]);
        }
        if j < at {
            assert(q[j] == p[j]);
        } else if j > at {
            assert(q[j] == p[j - 1]);
        }
    }
}

/// Inserting at the first index whose task matures after the new one
/// (strictly, or not earlier), or at the end where there is none, keeps a
/// list ordered.
proof fn lemma_insert_at_first_keeps_sorted(
    p: Seq<StoredPendingTask>,
    pred: spec_fn(StoredPendingTask) -> bool,
    t: StoredPendingTask,
)
    requires
        sorted_by_maturity(p),
        pred == matures_after(t.mature_at as int) || pred == matures_not_before(t.mature_at as int),
    ensures
        sorted_by_maturity(p.insert(index_or_end(first_index(p, pred), p.len() as int), t)),
{
    lemma_first_index(p, pred);
    let at = index_or_end(first_index(p, pred), p.len() as int);
    assert forall|j: int| at <= j < p.len() implies #[trigger] p[j].mature_at >= t.mature_at by {
        assert(p[at].mature_at <= p[j].mature_at);
    }
    assert forall|j: int| 0 <= j < at implies #[trigger] p[j].mature_at <= t.mature_at by {
        assert(!pred(p[j]));
    }
    lemma_insert_keeps_sorted(p, at, t);
}

pub(crate) proof fn lemma_revoke_keeps_sorted(s: StorageState, ttl: Nanos, now: Timestamp)
    requires
        sorted_by_maturity(s.pending),
    ensures
        sorted_by_maturity(revoke_result(s, ttl, now).pending),
    decreases s.claimed.len(),
{
    if s.claimed.len() > 0 && claim_timed_out(s.claimed[0].claimed_at, ttl, now) {
        let head = s.claimed[0];
        if !has_pending_input(s.pending, head.input@) {
            let pred = matures_not_before(now as int);
            let back = StoredPendingTask { task_id: head.task_id, input: head.input, mature_at: now };
            lemma_insert_at_first_keeps_sorted(s.pending, pred, back);
        }
        lemma_revoke_keeps_sorted(revoke_head(s, now), ttl, now);
    }
}

pub(crate) proof fn lemma_add_keeps_sorted(
    s: StorageState,
    input: String,
    config: TaskConfig,
    now: Timestamp,
    task_id: TaskId,
)
    requires
        sorted_by_maturity(s.pending),
    ensures
        sorted_by_maturity(add_result(s, input, config, now, task_id).0.pending),
{
    let mature_at = effective_mature_at(config, now);
    if !has_pending_input(s.pending, input@) {
        let pred = matures_after(mature_at as int);
        lemma_insert_at_first_keeps_sorted(s.pending, pred, StoredPendingTask { task_id, input, mature_at });
    }
}

pub(crate) proof fn lemma_claim_keeps_sorted(s: StorageState, now: Timestamp, claim_id: ClaimId)
    requires
        sorted_by_maturity(s.pending),
    ensures
        sorted_by_maturity(claim_result(s, now, claim_id).0.pending),
{
    if s.pending.len() > 0 {
        let q = s.pending.remove(0);
        assert forall|i: int, j: int| 0 <= i <= j < q.len() implies #[trigger] q[i].mature_at <= #[trigger] q[j].mature_at by {
            assert(q[i] == s.pending[i + 1]);
            assert(q[j] == s.pending[j + 1]);
        }
    }
}

/// The pending list stays ordered by maturity time, earliest first, through
/// every transition: adding and revoking put a task in front of the first
/// pending task that matures after it, or at the end of the list.
pub proof fn lemma_maturity_order_kept(
    s: StorageState,
    input: String,
    config: TaskConfig,
    now: Timestamp,
    task_id: TaskId,
    claim_id: ClaimId,
    claim: ClaimedTask<String>,
    output: String,
    ttl: Nanos,
)
    requires
        sorted_by_maturity(s.pending),
    ensures
        sorted_by_maturity(add_result(s, input, config, now, task_id).0.pending),
        sorted_by_maturity(claim_result(s, now, claim_id).0.pending),
        sorted_by_maturity(ack_result(s, claim, output, now).0.pending),
        sorted_by_maturity(revoke_result(s, ttl, now).pending),
        sorted_by_maturity(cleanup_result(s, ttl, now).pending),
{
    lemma_add_keeps_sorted(s, input, config, now, task_id);
    lemma_claim_keeps_sorted(s, now, claim_id);
    lemma_revoke_keeps_sorted(s, ttl, now);
    lemma_cleanup_keeps_pending(s, ttl, now);
}

/// Over an ordered pending list, a claim finds a task whenever some pending
/// task is mature, and it takes one that matures first.
pub proof fn lemma_claim_takes_earliest(s: StorageState, now: Timestamp, claim_id: ClaimId, k: int)
    requires
        sorted_by_maturity(s.pending),
        0 <= k < s.pending.len(),
        s.pending[k].mature_at <= now,
    ensures
        claim_result(s, now, claim_id).1 matches Some(ClaimResult::Claimed(task)) && task.task_id
            == s.pending[0].task_id,
        forall|j: int| 0 <= j < s.pending.len() ==> s.pending[0].mature_at <= #[trigger] s.pending[j].mature_at,
{
    assert(s.pending[0].mature_at <= s.pending[k].mature_at);
}

// ---------------------------------------------------------------------------
// Reading back what a transition wrote

/// Where the storage's ids are unique and `id` sits at index `k` of the
/// pending list, a lookup of `id` finds that pending task.
proof fn lemma_unique_pending_first(s: StorageState, k: int)
    requires
        task_ids_unique(s),
        0 <= k < s.pending.len(),
    ensures
        first_index(s.pending, pending_id_is(s.pending[k].task_id@)) == Some(k),
{
    let id = s.pending[k].task_id@;
    let q = pending_ids(s.pending);
    assert(q[k] == id);
    assert(task_ids(s).count(id) <= 1);
    lemma_single_occurrence(q, k);
    assert forall|j: int| 0 <= j < k implies !(pending_id_is(id))(#[trigger] s.pending[j]) by {
        assert(q[j] == s.pending[j].task_id@);
    }
    lemma_first_index(s.pending, pending_id_is(id));
}

/// Where the storage's ids are unique and `id` sits at index `k` of the
/// claimed list, no pending task has `id` and the claimed search finds `k`.
proof fn lemma_unique_claimed_first(s: StorageState, k: int)
    requires
        task_ids_unique(s),
        0 <= k < s.claimed.len(),
    ensures
        first_index(s.pending, pending_id_is(s.claimed[k].task_id@)) is None,
        first_index(s.claimed, claimed_id_is(s.claimed[k].task_id@)) == Some(k),
{
    let id = s.claimed[k].task_id@;
    let q = claimed_ids(s.claimed);
    assert(q[k] == id);
    assert(q.contains(id));
    assert(task_ids(s).count(id) <= 1);
    assert(pending_ids(s.pending).to_multiset().count(id) == 0);
    lemma_absent(pending_ids(s.pending), id);
    lemma_first_index(s.pending, pending_id_is(id));
    if let Some(i) = first_index(s.pending, pending_id_is(id)) {
        assert(pending_ids(s.pending)[i] == s.pending[i].task_id@);
    }
    lemma_single_occurrence(q, k);
    assert forall|j: int| 0 <= j < k implies !(claimed_id_is(id))(#[trigger] s.claimed[j]) by {
        assert(q[j] == s.claimed[j].task_id@);
    }
    lemma_first_index(s.claimed, claimed_id_is(id));
}

/// Where the storage's ids are unique and `id` sits at index `k` of the acked
/// list, neither the pending nor the claimed list has `id`, and the acked
/// search finds `k`.
proof fn lemma_unique_acked_first(s: StorageState, k: int)
    requires
        task_ids_unique(s),
        0 <= k < s.acked.len(),
    ensures
        first_index(s.pending, pending_id_is(s.acked[k].task_id@)) is None,
        first_index(s.claimed, claimed_id_is(s.acked[k].task_id@)) is None,
        first_index(s.acked, acked_id_is(s.acked[k].task_id@)) == Some(k),
{
    let id = s.acked[k].task_id@;
    let q = acked_ids(s.acked);
    assert(q[k] == id);
    assert(q.contains(id));
    assert(task_ids(s).count(id) <= 1);
    assert(pending_ids(s.pending).to_multiset().count(id) == 0);
    assert(claimed_ids(s.claimed).to_multiset().count(id) == 0);
    lemma_absent(pending_ids(s.pending), id);
    lemma_absent(claimed_ids(s.claimed), id);
    lemma_first_index(s.pending, pending_id_is(id));
    if let Some(i) = first_index(s.pending, pending_id_is(id)) {
        assert(pending_ids(s.pending)[i] == s.pending[i].task_id@);
    }
    lemma_first_index(s.claimed, claimed_id_is(id));
    if let Some(i) = first_index(s.claimed, claimed_id_is(id)) {
        assert(claimed_ids(s.claimed)[i] == s.claimed[i].task_id@);
    }
    lemma_single_occurrence(q, k);
    assert forall|j: int| 0 <= j < k implies !(acked_id_is(id))(#[trigger] s.acked[j]) by {
        assert(q[j] == s.acked[j].task_id@);
    }
    lemma_first_index(s.acked, acked_id_is(id));
}

/// A task added under a fresh id is found as pending, mature exactly when its
/// maturity time is not after the time of the lookup.
pub proof fn lemma_find_after_add(
    s: StorageState,
    input: String,
    config: TaskConfig,
    now: Timestamp,
    task_id: TaskId,
    later: Timestamp,
)
    requires
        task_ids_unique(s),
        !holds_task(s, task_id@),
        add_result(s, input, config, now, task_id).1 is Some,
    ensures
        ({
            let mature_at = effective_mature_at(config, now);
            find_result(add_result(s, input, config, now, task_id).0, task_id@, later) == Some(
                Task::<String, String>::Pending(
                    if mature_at <= later {
                        PendingTask::Mature(MatureTask { task_id })
                    } else {
                        PendingTask::Immature(ImmatureTask { task_id, mature_at })
                    },
                ),
            )
        }),
{
    let s2 = add_result(s, input, config, now, task_id).0;
    lemma_add_ids(s, input, config, now, task_id);
    assert forall|id: Seq<char>| #[trigger] task_ids(s2).count(id) <= 1 by {
        assert(task_ids(s).count(id) <= 1);
    }
    let mature_at = effective_mature_at(config, now);
    let pred = matures_after(mature_at as int);
    lemma_index_or_end_in_range(s.pending, pred);
    let at = index_or_end(first_index(s.pending, pred), s.pending.len() as int);
    assert(s2.pending[at].task_id == task_id);
    lemma_unique_pending_first(s2, at);
}

/// A claimed task is found as claimed, with the claim and input that the
/// claim returned: it has left the pending list.
pub proof fn lemma_find_after_claim(
    s: StorageState,
    now: Timestamp,
    claim_id: ClaimId,
    later: Timestamp,
)
    requires
        task_ids_unique(s),
        claim_result(s, now, claim_id).1 matches Some(ClaimResult::Claimed(_)),
    ensures
        ({
            let (s2, claimed) = claim_result(s, now, claim_id);
            let task = claimed->0->Claimed_0;
            find_result(s2, task.task_id@, later) == Some(Task::<String, String>::Claimed(task))
        }),
{
    let s2 = claim_result(s, now, claim_id).0;
    lemma_claim_ids(s, now, claim_id);
    assert forall|id: Seq<char>| #[trigger] task_ids(s2).count(id) <= 1 by {
        assert(task_ids(s).count(id) <= 1);
    }
    lemma_unique_claimed_first(s2, s.claimed.len() as int);
}

/// An acknowledged task is found as acked, with the output that the
/// acknowledgement recorded.
pub proof fn lemma_find_after_ack(
    s: StorageState,
    claim: ClaimedTask<String>,
    output: String,
    now: Timestamp,
    later: Timestamp,
)
    requires
        task_ids_unique(s),
        ack_result(s, claim, output, now).1 is Ok,
    ensures
        ({
            let (s2, acked) = ack_result(s, claim, output, now);
            let task = acked->Ok_0;
            find_result(s2, task.task_id@, later) == Some(Task::<String, String>::Acked(task))
        }),
{
    let s2 = ack_result(s, claim, output, now).0;
    lemma_ack_ids(s, claim, output, now);
    assert forall|id: Seq<char>| #[trigger] task_ids(s2).count(id) <= 1 by {
        assert(task_ids(s).count(id) <= 1);
    }
    lemma_unique_acked_first(s2, s.acked.len() as int);
}

/// A claim that revoking takes back is found as pending and mature from the
/// time of revoking on, unless a pending task already had its input, in
/// which case the task is dropped.
pub proof fn lemma_find_after_revoke_head(s: StorageState, now: Timestamp, later: Timestamp)
    requires
        task_ids_unique(s),
        s.claimed.len() > 0,
        now <= later,
    ensures
        ({
            let head = s.claimed[0];
            let s2 = revoke_head(s, now);
            &&& !has_pending_input(s.pending, head.input@) ==> find_result(s2, head.task_id@, later)
                == Some(Task::<String, String>::Pending(PendingTask::Mature(MatureTask { task_id: head.task_id })))
            &&& has_pending_input(s.pending, head.input@) ==> s2.pending == s.pending
                && s2.claimed == s.claimed.remove(0) && s2.acked == s.acked
        }),
{
    let head = s.claimed[0];
    let s2 = revoke_head(s, now);
    lemma_revoke_head_ids(s, now);
    assert forall|id: Seq<char>| #[trigger] task_ids(s2).count(id) <= 1 by {
        assert(task_ids(s).count(id) <= 1);
    }
    if !has_pending_input(s.pending, head.input@) {
        let pred = matures_not_before(now as int);
        lemma_index_or_end_in_range(s.pending, pred);
        let at = index_or_end(first_index(s.pending, pred), s.pending.len() as int);
        assert(s2.pending[at].task_id == head.task_id);
        lemma_unique_pending_first(s2, at);
    }
}

/// With unique task ids, a lookup finds every task where it is, at any
/// position of its list: a pending task as pending, mature exactly when its
/// maturity time is not after the lookup; a claimed task with its claim id
/// and input; an acked task with its output. An id that the storage does not
/// hold finds nothing.
pub proof fn lemma_find_finds_every_task(s: StorageState, now: Timestamp)
    requires
        task_ids_unique(s),
    ensures
        forall|k: int|
            0 <= k < s.pending.len() ==> find_result(s, #[trigger] s.pending[k].task_id@, now) == Some(
                Task::<String, String>::Pending(
                    if s.pending[k].mature_at <= now {
                        PendingTask::Mature(MatureTask { task_id: s.pending[k].task_id })
                    } else {
                        PendingTask::Immature(
                            ImmatureTask { task_id: s.pending[k].task_id, mature_at: s.pending[k].mature_at },
                        )
                    },
                ),
            ),
        forall|k: int|
            0 <= k < s.claimed.len() ==> find_result(s, #[trigger] s.claimed[k].task_id@, now) == Some(
                Task::<String, String>::Claimed(
                    ClaimedTask {
                        task_id: s.claimed[k].task_id,
                        claim_id: s.claimed[k].claim_id,
                        input: s.claimed[k].input,
                    },
                ),
            ),
        forall|k: int|
            0 <= k < s.acked.len() ==> find_result(s, #[trigger] s.acked[k].task_id@, now) == Some(
                Task::<String, String>::Acked(
                    AckedTask { task_id: s.acked[k].task_id, output: s.acked[k].output },
                ),
            ),
        forall|id: Seq<char>| !holds_task(s, id) ==> (#[trigger] find_result(s, id, now)) is None,
{
    assert forall|k: int| 0 <= k < s.pending.len() implies find_result(s, #[trigger] s.pending[k].task_id@, now)
        == Some(
        Task::<String, String>::Pending(
            if s.pending[k].mature_at <= now {
                PendingTask::Mature(MatureTask { task_id: s.pending[k].task_id })
            } else {
                PendingTask::Immature(
                    ImmatureTask { task_id: s.pending[k].task_id, mature_at: s.pending[k].mature_at },
                )
            },
        ),
    ) by {
        lemma_unique_pending_first(s, k);
    }
    assert forall|k: int| 0 <= k < s.claimed.len() implies find_result(s, #[trigger] s.claimed[k].task_id@, now)
        == Some(
        Task::<String, String>::Claimed(
            ClaimedTask {
                task_id: s.claimed[k].task_id,
                claim_id: s.claimed[k].claim_id,
                input: s.claimed[k].input,
            },
        ),
    ) by {
        lemma_unique_claimed_first(s, k);
    }
    assert forall|k: int| 0 <= k < s.acked.len() implies find_result(s, #[trigger] s.acked[k].task_id@, now)
        == Some(
        Task::<String, String>::Acked(AckedTask { task_id: s.acked[k].task_id, output: s.acked[k].output }),
    ) by {
        lemma_unique_acked_first(s, k);
    }
    assert forall|id: Seq<char>| !holds_task(s, id) implies (#[trigger] find_result(s, id, now)) is None by {
        assert(pending_ids(s.pending).to_multiset().count(id) == 0);
        assert(claimed_ids(s.claimed).to_multiset().count(id) == 0);
        assert(acked_ids(s.acked).to_multiset().count(id) == 0);
        lemma_absent(pending_ids(s.pending), id);
        lemma_absent(claimed_ids(s.claimed), id);
        lemma_absent(acked_ids(s.acked), id);
        lemma_first_index(s.pending, pending_id_is(id));
        lemma_first_index(s.claimed, claimed_id_is(id));
        lemma_first_index(s.acked, acked_id_is(id));
        if let Some(i) = first_index(s.pending, pending_id_is(id)) {
            assert(pending_ids(s.pending)[i] == s.pending[i].task_id@);
        }
        if let Some(i) = first_index(s.claimed, claimed_id_is(id)) {
            assert(claimed_ids(s.claimed)[i] == s.claimed[i].task_id@);
        }
        if let Some(i) = first_index(s.acked, acked_id_is(id)) {
            assert(acked_ids(s.acked)[i] == s.acked[i].task_id@);
        }
    }
}

/// Revoking never drops a pending task: each task pending before is pending
/// after.
pub proof fn lemma_revoke_keeps_pending_tasks(s: StorageState, ttl: Nanos, now: Timestamp)
    ensures
        forall|p: int|
            0 <= p < s.pending.len() ==> revoke_result(s, ttl, now).pending.contains(#[trigger] s.pending[p]),
    decreases s.claimed.len(),
{
    let r = revoke_result(s, ttl, now);
    if s.claimed.len() > 0 && claim_timed_out(s.claimed[0].claimed_at, ttl, now) {
        let s1 = revoke_head(s, now);
        lemma_revoke_keeps_pending_tasks(s1, ttl, now);
        assert(r == revoke_result(s1, ttl, now));
        let head = s.claimed[0];
        assert forall|p: int| 0 <= p < s.pending.len() implies r.pending.contains(#[trigger] s.pending[p]) by {
            if has_pending_input(s.pending, head.input@) {
                assert(s1.pending[p] == s.pending[p]);
            } else {
                let pred = matures_not_before(now as int);
                lemma_index_or_end_in_range(s.pending, pred);
                let at = index_or_end(first_index(s.pending, pred), s.pending.len() as int);
                if p < at {
                    assert(s1.pending[p] == s.pending[p]);
                } else {
                    assert(s1.pending[p + 1] == s.pending[p]);
                }
            }
        }
    } else {
        assert forall|p: int| 0 <= p < s.pending.len() implies r.pending.contains(#[trigger] s.pending[p]) by {
            assert(r.pending[p] == s.pending[p]);
        }
    }
}

/// Revoking puts every claim that it takes from the claimed list back in the
/// pending list, under its own id, with its input and mature at the time of
/// revoking, unless a pending task already had its input or an earlier claim
/// taken in the same revoke had it; that claim is dropped. The claims taken
/// are the timed-out ones at the head of the claimed list
/// (`lemma_revoke_takes_timed_out_prefix`).
pub proof fn lemma_revoke_requeues(s: StorageState, ttl: Nanos, now: Timestamp)
    ensures
        ({
            let r = revoke_result(s, ttl, now);
            let k = s.claimed.len() - r.claimed.len();
            forall|j: int|
                0 <= j < k && (forall|i: int| 0 <= i < s.pending.len() ==> (#[trigger] s.pending[i]).input@
                    != s.claimed[j].input@) && (forall|i: int|
                    0 <= i < j ==> (#[trigger] s.claimed[i]).input@ != s.claimed[j].input@)
                    ==> r.pending.contains(
                    StoredPendingTask {
                        task_id: (#[trigger] s.claimed[j]).task_id,
                        input: s.claimed[j].input,
                        mature_at: now,
                    },
                )
        }),
    decreases s.claimed.len(),
{
    let r = revoke_result(s, ttl, now);
    let k = s.claimed.len() - r.claimed.len();
    if s.claimed.len() > 0 && claim_timed_out(s.claimed[0].claimed_at, ttl, now) {
        let s1 = revoke_head(s, now);
        let head = s.claimed[0];
        assert(r == revoke_result(s1, ttl, now));
        lemma_revoke_requeues(s1, ttl, now);
        lemma_revoke_keeps_pending_tasks(s1, ttl, now);
        let pred = matures_not_before(now as int);
        lemma_index_or_end_in_range(s.pending, pred);
        let at = index_or_end(first_index(s.pending, pred), s.pending.len() as int);
        let back = StoredPendingTask { task_id: head.task_id, input: head.input, mature_at: now };
        assert forall|j: int|
            0 <= j < k && (forall|i: int| 0 <= i < s.pending.len() ==> (#[trigger] s.pending[i]).input@
                != s.claimed[j].input@) && (forall|i: int|
                0 <= i < j ==> (#[trigger] s.claimed[i]).input@ != s.claimed[j].input@) implies r.pending.contains(
                StoredPendingTask {
                    task_id: (#[trigger] s.claimed[j]).task_id,
                    input: s.claimed[j].input,
                    mature_at: now,
                },
            ) by {
            if j == 0 {
                if has_pending_input(s.pending, head.input@) {
                    let i = choose|i: int| 0 <= i < s.pending.len() && #[trigger] s.pending[i].input@ == head.input@;
                    assert(s.pending[i].input@ != s.claimed[0].input@);
                }
                assert(s1.pending[at] == back);
                assert(r.pending.contains(s1.pending[at]));
            } else {
                let c = s.claimed[j];
                assert(s1.claimed[j - 1] == c);
                assert forall|i: int| 0 <= i < s1.pending.len() implies (#[trigger] s1.pending[i]).input@
                    != s1.claimed[j - 1].input@ by {
                    if has_pending_input(s.pending, head.input@) {
                        assert(s1.pending[i] == s.pending[i]);
                    } else if i < at {
                        assert(s1.pending[i] == s.pending[i]);
                    } else if i == at {
                        assert(s.claimed[0].input@ != c.input@);
                    } else {
                        assert(s1.pending[i] == s.pending[i - 1]);
                    }
                }
                assert forall|i: int| 0 <= i < j - 1 implies (#[trigger] s1.claimed[i]).input@
                    != s1.claimed[j - 1].input@ by {
                    assert(s1.claimed[i] == s.claimed[i + 1]);
                }
            }
        }
    }
}

/// A storage with no task finds nothing and has nothing to claim.
pub proof fn lemma_empty_storage(s: StorageState, id: Seq<char>, now: Timestamp, claim_id: ClaimId)
    requires
        s.pending.len() == 0,
        s.claimed.len() == 0,
        s.acked.len() == 0,
    ensures
        find_result(s, id, now) is None,
        claim_result(s, now, claim_id) == (s, None::<ClaimResult<String>>),
{
}

// ---------------------------------------------------------------------------
// Acknowledging twice

/// Where no two claimed tasks hold the same claim, a claim that has been
/// acknowledged is refused the second time: the task is already acknowledged.
pub proof fn lemma_second_ack_refused(
    s: StorageState,
    claim: ClaimedTask<String>,
    output: String,
    now: Timestamp,
    second_output: String,
    later: Timestamp,
)
    requires
        claim_ids_distinct(s),
        ack_result(s, claim, output, now).1 is Ok,
    ensures
        ({
            let s2 = ack_result(s, claim, output, now).0;
            ack_result(s2, claim, second_output, later) == (
                s2,
                Err::<AckedTask<String>, MockStorageError>(MockStorageError::InvalidClaimer(claim.claim_id)),
            )
        }),
{
    let s2 = ack_result(s, claim, output, now).0;
    let c = claim.claim_id@;
    lemma_first_index(s.claimed, claim_id_is(c));
    let i = first_index(s.claimed, claim_id_is(c))->0;
    lemma_claimed_ids_remove(s.claimed, i);
    let q = claim_ids(s.claimed);
    assert(q[i] == c);
    assert forall|j: int| 0 <= j < s2.claimed.len() implies !(claim_id_is(c))(#[trigger] s2.claimed[j]) by {
        let k = if j < i { j } else { j + 1 };
        assert(s2.claimed[j] == s.claimed[k]);
        assert(q[k] == s.claimed[k].claim_id@);
    }
    lemma_first_index(s2.claimed, claim_id_is(c));
}

/// Claim ids stay distinct through every transition, as long as each claim
/// gets a claim id that the claimed list does not hold yet.
pub proof fn lemma_claim_ids_stay_distinct(
    s: StorageState,
    input: String,
    config: TaskConfig,
    now: Timestamp,
    task_id: TaskId,
    claim_id: ClaimId,
    claim: ClaimedTask<String>,
    output: String,
    ttl: Nanos,
)
    requires
        claim_ids_distinct(s),
        !claim_ids(s.claimed).contains(claim_id@),
    ensures
        claim_ids_distinct(add_result(s, input, config, now, task_id).0),
        claim_ids_distinct(claim_result(s, now, claim_id).0),
        claim_ids_distinct(ack_result(s, claim, output, now).0),
        claim_ids_distinct(revoke_result(s, ttl, now)),
        claim_ids_distinct(cleanup_result(s, ttl, now)),
{
    if s.pending.len() > 0 && s.pending[0].mature_at <= now {
        let head = s.pending[0];
        lemma_claimed_ids_push(
            s.claimed,
            StoredClaimedTask { task_id: head.task_id, claim_id, input: head.input, claimed_at: now },
        );
    }
    lemma_first_index(s.claimed, claim_id_is(claim.claim_id@));
    if let Some(i) = first_index(s.claimed, claim_id_is(claim.claim_id@)) {
        lemma_claimed_ids_remove(s.claimed, i);
        lemma_remove_keeps_no_duplicates(claim_ids(s.claimed), i);
    }
    lemma_revoke_keeps_claim_ids_distinct(s, ttl, now);
    lemma_cleanup_keeps_pending(s, ttl, now);
}

proof fn lemma_remove_keeps_no_duplicates<A>(q: Seq<A>, i: int)
    requires
        q.no_duplicates(),
        0 <= i < q.len(),
    ensures
        q.remove(i).no_duplicates(),
{
    let r = q.remove(i);
    assert forall|a: int, b: int| 0 <= a < r.len() && 0 <= b < r.len() && a != b implies r[a] != r[b] by {
        let ka = if a < i { a } else { a + 1 };
        let kb = if b < i { b } else { b + 1 };
        assert(r[a] == q[ka]);
        assert(r[b] == q[kb]);
    }
}

proof fn lemma_revoke_keeps_claim_ids_distinct(s: StorageState, ttl: Nanos, now: Timestamp)
    requires
        claim_ids_distinct(s),
    ensures
        claim_ids_distinct(revoke_result(s, ttl, now)),
    decreases s.claimed.len(),
{
    if s.claimed.len() > 0 && claim_timed_out(s.claimed[0].claimed_at, ttl, now) {
        lemma_claimed_ids_remove(s.claimed, 0);
        lemma_remove_keeps_no_duplicates(claim_ids(s.claimed), 0);
        lemma_revoke_keeps_claim_ids_distinct(revoke_head(s, now), ttl, now);
    }
}

// ---------------------------------------------------------------------------
// Revoking and cleaning up act on a prefix

/// Revoking takes from the claimed list exactly its longest prefix of
/// timed-out claims; the acked list is untouched.
pub proof fn lemma_revoke_takes_timed_out_prefix(s: StorageState, ttl: Nanos, now: Timestamp)
    ensures
        ({
            let s2 = revoke_result(s, ttl, now);
            let k = s.claimed.len() - s2.claimed.len();
            &&& 0 <= k <= s.claimed.len()
            &&& s2.claimed == s.claimed.skip(k)
            &&& forall|j: int| 0 <= j < k ==> claim_timed_out(#[trigger] s.claimed[j].claimed_at, ttl, now)
            &&& k < s.claimed.len() ==> !claim_timed_out(s.claimed[k].claimed_at, ttl, now)
            &&& s2.acked == s.acked
        }),
    decreases s.claimed.len(),
{
    if s.claimed.len() > 0 && claim_timed_out(s.claimed[0].claimed_at, ttl, now) {
        let s1 = revoke_head(s, now);
        lemma_revoke_takes_timed_out_prefix(s1, ttl, now);
        let s2 = revoke_result(s, ttl, now);
        let k1 = s1.claimed.len() - s2.claimed.len();
        assert(s1.claimed == s.claimed.skip(1));
        assert(s2.claimed =~= s.claimed.skip(k1 + 1));
        assert forall|j: int| 0 <= j < k1 + 1 implies claim_timed_out(#[trigger] s.claimed[j].claimed_at, ttl, now) by {
            if j > 0 {
                assert(s.claimed[j] == s1.claimed[j - 1]);
            }
        }
        if k1 + 1 < s.claimed.len() {
            assert(s.claimed[k1 + 1] == s1.claimed[k1]);
        }
    } else {
        assert(s.claimed =~= s.claimed.skip(0));
    }
}

/// Cleaning up deletes from the acked list exactly its longest prefix of
/// expired tasks; the pending and claimed lists are untouched.
pub proof fn lemma_cleanup_takes_expired_prefix(s: StorageState, ttl: Nanos, now: Timestamp)
    ensures
        ({
            let s2 = cleanup_result(s, ttl, now);
            let k = s.acked.len() - s2.acked.len();
            &&& 0 <= k <= s.acked.len()
            &&& s2.acked == s.acked.skip(k)
            &&& forall|j: int| 0 <= j < k ==> ack_expired(#[trigger] s.acked[j].acked_at, ttl, now)
            &&& k < s.acked.len() ==> !ack_expired(s.acked[k].acked_at, ttl, now)
            &&& s2.pending == s.pending
            &&& s2.claimed == s.claimed
        }),
    decreases s.acked.len(),
{
    lemma_cleanup_keeps_pending(s, ttl, now);
    if s.acked.len() > 0 && ack_expired(s.acked[0].acked_at, ttl, now) {
        let s1 = StorageState { acked: s.acked.remove(0), ..s };
        lemma_cleanup_takes_expired_prefix(s1, ttl, now);
        let s2 = cleanup_result(s, ttl, now);
        let k1 = s1.acked.len() - s2.acked.len();
        assert(s1.acked == s.acked.skip(1));
        assert(s2.acked =~= s.acked.skip(k1 + 1));
        assert forall|j: int| 0 <= j < k1 + 1 implies ack_expired(#[trigger] s.acked[j].acked_at, ttl, now) by {
            if j > 0 {
                assert(s.acked[j] == s1.acked[j - 1]);
            }
        }
        if k1 + 1 < s.acked.len() {
            assert(s.acked[k1 + 1] == s1.acked[k1]);
        }
    } else {
        assert(s.acked =~= s.acked.skip(0));
    }
}

// ---------------------------------------------------------------------------
// Lists in time order

/// The acked list is in the order of the acknowledgement times.
pub open spec fn acked_in_time_order(a: Seq<StoredAckedTask>) -> bool {
    forall|i: int, j: int| 0 <= i <= j < a.len() ==> #[trigger] a[i].acked_at <= #[trigger] a[j].acked_at
}

/// The claimed list is in the order of the claim times.
pub open spec fn claimed_in_time_order(c: Seq<StoredClaimedTask>) -> bool {
    forall|i: int, j: int| 0 <= i <= j < c.len() ==> #[trigger] c[i].claimed_at <= #[trigger] c[j].claimed_at
}

/// Where the clock does not go back, the claimed and acked lists stay in time
/// order: claims and acknowledgements are appended at the current time, and
/// every other transition only removes from them.
pub proof fn lemma_time_order_kept(
    s: StorageState,
    input: String,
    config: TaskConfig,
    now: Timestamp,
    task_id: TaskId,
    claim_id: ClaimId,
    claim: ClaimedTask<String>,
    output: String,
    ttl: Nanos,
)
    requires
        claimed_in_time_order(s.claimed),
        acked_in_time_order(s.acked),
        s.claimed.len() == 0 || s.claimed.last().claimed_at <= now,
        s.acked.len() == 0 || s.acked.last().acked_at <= now,
    ensures
        claimed_in_time_order(add_result(s, input, config, now, task_id).0.claimed),
        acked_in_time_order(add_result(s, input, config, now, task_id).0.acked),
        claimed_in_time_order(claim_result(s, now, claim_id).0.claimed),
        acked_in_time_order(claim_result(s, now, claim_id).0.acked),
        claimed_in_time_order(ack_result(s, claim, output, now).0.claimed),
        acked_in_time_order(ack_result(s, claim, output, now).0.acked),
        claimed_in_time_order(revoke_result(s, ttl, now).claimed),
        acked_in_time_order(revoke_result(s, ttl, now).acked),
        claimed_in_time_order(cleanup_result(s, ttl, now).claimed),
        acked_in_time_order(cleanup_result(s, ttl, now).acked),
{
    let c = claim_result(s, now, claim_id).0.claimed;
    assert forall|i: int, j: int| 0 <= i <= j < c.len() implies #[trigger] c[i].claimed_at <= #[trigger] c[j].claimed_at by {
        if j == s.claimed.len() && c.len() > s.claimed.len() && i < j {
            assert(s.claimed.last() == s.claimed[s.claimed.len() - 1]);
            assert(s.claimed[i].claimed_at <= s.claimed[s.claimed.len() - 1].claimed_at);
        }
    }
    lemma_first_index(s.claimed, claim_id_is(claim.claim_id@));
    if let Some(k) = first_index(s.claimed, claim_id_is(claim.claim_id@)) {
        let c2 = s.claimed.remove(k);
        assert forall|i: int, j: int| 0 <= i <= j < c2.len() implies #[trigger] c2[i].claimed_at <= #[trigger] c2[j].claimed_at by {
            let ki = if i < k { i } else { i + 1 };
            let kj = if j < k { j } else { j + 1 };
            assert(c2[i] == s.claimed[ki]);
            assert(c2[j] == s.claimed[kj]);
        }
        let a2 = ack_result(s, claim, output, now).0.acked;
        assert forall|i: int, j: int| 0 <= i <= j < a2.len() implies #[trigger] a2[i].acked_at <= #[trigger] a2[j].acked_at by {
            if j == s.acked.len() && i < j {
                assert(s.acked.last() == s.acked[s.acked.len() - 1]);
                assert(s.acked[i].acked_at <= s.acked[s.acked.len() - 1].acked_at);
            }
        }
    }
    lemma_revoke_takes_timed_out_prefix(s, ttl, now);
    let r = revoke_result(s, ttl, now);
    let kr = s.claimed.len() - r.claimed.len();
    assert forall|i: int, j: int| 0 <= i <= j < r.claimed.len() implies #[trigger] r.claimed[i].claimed_at <= #[trigger] r.claimed[j].claimed_at by {
        assert(r.claimed[i] == s.claimed[i + kr]);
        assert(r.claimed[j] == s.claimed[j + kr]);
    }
    lemma_cleanup_takes_expired_prefix(s, ttl, now);
    let e = cleanup_result(s, ttl, now);
    let ke = s.acked.len() - e.acked.len();
    assert forall|i: int, j: int| 0 <= i <= j < e.acked.len() implies #[trigger] e.acked[i].acked_at <= #[trigger] e.acked[j].acked_at by {
        assert(e.acked[i] == s.acked[i + ke]);
        assert(e.acked[j] == s.acked[j + ke]);
    }
}

/// Where acknowledgements are in time order, cleaning up deletes exactly the
/// acked tasks that have outlived `ttl` and keeps every other task.
pub proof fn lemma_cleanup_deletes_all_expired(s: StorageState, ttl: Nanos, now: Timestamp)
    requires
        acked_in_time_order(s.acked),
    ensures
        ({
            let s2 = cleanup_result(s, ttl, now);
            let k = s.acked.len() - s2.acked.len();
            &&& s2.acked == s.acked.skip(k)
            &&& forall|j: int| 0 <= j < s.acked.len() ==> (ack_expired(#[trigger] s.acked[j].acked_at, ttl, now) <==> j < k)
            &&& s2.pending == s.pending
            &&& s2.claimed == s.claimed
        }),
{
    lemma_cleanup_takes_expired_prefix(s, ttl, now);
    let s2 = cleanup_result(s, ttl, now);
    let k = s.acked.len() - s2.acked.len();
    assert forall|j: int| 0 <= j < s.acked.len() implies (ack_expired(#[trigger] s.acked[j].acked_at, ttl, now) <==> j < k) by {
        if j >= k {
            assert(s.acked[k].acked_at <= s.acked[j].acked_at);
        }
    }
}

/// Where claims are in time order, revoking takes back exactly the claims that
/// have been idle for longer than `ttl` and keeps every other claim.
pub proof fn lemma_revoke_takes_all_timed_out(s: StorageState, ttl: Nanos, now: Timestamp)
    requires
        claimed_in_time_order(s.claimed),
    ensures
        ({
            let s2 = revoke_result(s, ttl, now);
            let k = s.claimed.len() - s2.claimed.len();
            &&& s2.claimed == s.claimed.skip(k)
            &&& forall|j: int| 0 <= j < s.claimed.len() ==> (claim_timed_out(#[trigger] s.claimed[j].claimed_at, ttl, now) <==> j < k)
        }),
{
    lemma_revoke_takes_timed_out_prefix(s, ttl, now);
    let s2 = revoke_result(s, ttl, now);
    let k = s.claimed.len() - s2.claimed.len();
    assert forall|j: int| 0 <= j < s.claimed.len() implies (claim_timed_out(#[trigger] s.claimed[j].claimed_at, ttl, now) <==> j < k) by {
        if j >= k {
            assert(s.claimed[k].claimed_at <= s.claimed[j].claimed_at);
        }
    }
}

} // verus!
