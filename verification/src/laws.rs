//! The laws the library states of itself, proved over the model
//! transitions that the operations' contracts pin down.

use vstd::prelude::*;
use crate::digest::report_digest;
use crate::storage::{
    details_of, new_report_view, profile_oversized, ProfileView, StorageView, SubmissionView,
};
use crate::types::{Error, NewSAReportView, ReportView, COOLDOWN_MS, MAX_REPORTS};

verus! {

/// A submitter whose report was accepted at `t1` and who tries again
/// less than a full cooldown later is turned away, and the second call
/// leaves the ledger, the cooldown table and every other part of the
/// state untouched.
pub proof fn lemma_cooldown_blocks_second_report(
    m: StorageView,
    caller: Seq<u8>,
    t1: u64,
    t2: u64,
    s1: SubmissionView,
    s2: SubmissionView,
)
    requires
        m.submit(caller, t1, s1).1 is Ok,
        (t2 as int) < t1 + COOLDOWN_MS,
    ensures
        m.submit(caller, t1, s1).0.submit(caller, t2, s2) == (
            m.submit(caller, t1, s1).0,
            Err::<NewSAReportView, Error>(Error::CannotReportAgainWithin24Hours),
        ),
{
    let m1 = m.submit(caller, t1, s1).0;
    assert(m1.timers[caller] == t1);
    assert(m1.too_soon(caller, t2));
}

/// The identifier of an accepted report is the digest of submitter,
/// accused, activity list and timestamp, both in the returned payload
/// and on the stored report.
pub proof fn lemma_report_id_formula(m: StorageView, caller: Seq<u8>, now: u64, s: SubmissionView)
    requires
        m.submit(caller, now, s).1 is Ok,
    ensures
        m.submit(caller, now, s).1 matches Ok(e) ==> e.report_id == report_digest(
            caller,
            s.accused,
            s.activity_ids,
            now,
        ),
        m.submit(caller, now, s).0.reports.last().report_id == report_digest(
            caller,
            s.accused,
            s.activity_ids,
            now,
        ),
{
}

/// The identifier depends on those four inputs alone: two accepted
/// submissions that agree on them receive the same identifier, whatever
/// states they run in and whatever the other payload fields hold.
pub proof fn lemma_report_id_deterministic(
    ma: StorageView,
    mb: StorageView,
    caller: Seq<u8>,
    now: u64,
    sa: SubmissionView,
    sb: SubmissionView,
)
    requires
        sa.accused == sb.accused,
        sa.activity_ids == sb.activity_ids,
        ma.submit(caller, now, sa).1 is Ok,
        mb.submit(caller, now, sb).1 is Ok,
    ensures
        ma.submit(caller, now, sa).1 matches Ok(ea) && mb.submit(caller, now, sb).1 matches Ok(eb)
            ==> ea.report_id == eb.report_id,
{
    lemma_report_id_formula(ma, caller, now, sa);
    lemma_report_id_formula(mb, caller, now, sb);
}

/// The ledger never outgrows its capacity; a submission accepted below
/// capacity only appends, and one accepted at capacity evicts exactly
/// the oldest retained report. The state invariant survives every
/// submission, accepted or refused.
pub proof fn lemma_capacity_and_eviction(
    m: StorageView,
    caller: Seq<u8>,
    now: u64,
    s: SubmissionView,
)
    requires
        m.inv(),
    ensures
        m.submit(caller, now, s).0.inv(),
        m.submit(caller, now, s).0.reports.len() <= MAX_REPORTS as int,
        m.submit(caller, now, s).1 is Ok && m.reports.len() < MAX_REPORTS as int ==> m.submit(
            caller,
            now,
            s,
        ).0.reports == m.reports.push(new_report_view(caller, now, s)),
        m.submit(caller, now, s).1 is Ok && m.reports.len() == MAX_REPORTS as int ==> m.submit(
            caller,
            now,
            s,
        ).0.reports == m.reports.skip(1).push(new_report_view(caller, now, s)),
{
}

/// Read access to the ledger is gated, not erroring: a delegate or an
/// entity sees exactly the retained reports in insertion order, anyone
/// else sees an empty sequence.
pub proof fn lemma_report_read_gating(m: StorageView, caller: Seq<u8>)
    ensures
        m.may_view_reports(caller) ==> m.reports_visible(caller) == m.reports,
        !m.may_view_reports(caller) ==> m.reports_visible(caller) == Seq::<ReportView>::empty(),
{
}

/// Before bootstrap any account may claim the root; afterwards only the
/// current root may rotate it (to itself or to another account), and a
/// refused attempt changes nothing.
pub proof fn lemma_root_rotation(
    m: StorageView,
    caller: Seq<u8>,
    new_root: Seq<u8>,
    p: ProfileView,
)
    requires
        !profile_oversized(p),
    ensures
        m.root is None ==> m.bootstrap_root(caller, new_root, p).1 == Ok::<(), Error>(())
            && m.bootstrap_root(caller, new_root, p).0.root == Some(new_root),
        m.root matches Some(r) && caller != r ==> m.bootstrap_root(caller, new_root, p) == (
            m,
            Err::<(), Error>(Error::GenericError),
        ),
        m.root == Some(caller) ==> m.bootstrap_root(caller, new_root, p).1 == Ok::<(), Error>(())
            && m.bootstrap_root(caller, new_root, p).0.root == Some(new_root),
{
}

/// Re-adding an existing delegate refreshes its directory entry and
/// nothing else: membership, order and count stay as they were.
pub proof fn lemma_add_delegate_idempotent(
    m: StorageView,
    caller: Seq<u8>,
    a: Seq<u8>,
    p: ProfileView,
)
    requires
        m.is_root(caller),
        m.is_delegate(a),
        !profile_oversized(p),
    ensures
        m.add_delegate(caller, a, p).1 == Ok::<(), Error>(()),
        m.add_delegate(caller, a, p).0.delegates == m.delegates,
        m.add_delegate(caller, a, p).0.directory == m.directory.insert(a, details_of(a, p)),
        m.add_delegate(caller, a, p).0.entities == m.entities,
        m.add_delegate(caller, a, p).0.root == m.root,
        m.add_delegate(caller, a, p).0.reports == m.reports,
        m.add_delegate(caller, a, p).0.timers == m.timers,
{
}

/// Re-adding an existing entity refreshes its directory entry and
/// nothing else: membership, order and count stay as they were.
pub proof fn lemma_add_entity_idempotent(
    m: StorageView,
    caller: Seq<u8>,
    a: Seq<u8>,
    p: ProfileView,
)
    requires
        m.is_delegate(caller),
        m.is_entity(a),
        !profile_oversized(p),
    ensures
        m.add_entity(caller, a, p).1 == Ok::<(), Error>(()),
        m.add_entity(caller, a, p).0.entities == m.entities,
        m.add_entity(caller, a, p).0.directory == m.directory.insert(a, details_of(a, p)),
        m.add_entity(caller, a, p).0.delegates == m.delegates,
        m.add_entity(caller, a, p).0.root == m.root,
        m.add_entity(caller, a, p).0.reports == m.reports,
        m.add_entity(caller, a, p).0.timers == m.timers,
{
}

} // verus!
