//! Shared state of one tenant: the quorum commit position that replica
//! senders wait on, the persisted safekeeper state, and the aggregated
//! replica feedback. The caller holds it under one lock and pairs
//! `notify_wal_senders` with a wake-up of every registered waiter.

use vstd::prelude::*;
use crate::records::{HotStandbyFeedback, SafeKeeperInfo};

verus! {

/// Commit position that tells every replica sender to finish.
pub const END_REPLICATION_MARKER: u64 = u64::MAX;

#[derive(Clone, Copy, Debug, PartialEq, Eq, Structural)]
pub struct TenantState {
    /// Identifier of the database system.
    pub id: u64,
    /// Log prefix committed by a quorum, as far as senders may stream it.
    pub commit_lsn: u64,
    /// The state last handed over for persisting.
    pub info: SafeKeeperInfo,
    /// Feedback of all replicas, aggregated.
    pub hs_feedback: HotStandbyFeedback,
}

/// The state after announcing `lsn`, and whether waiters must be woken:
/// the commit position only moves forward, and only a move wakes.
pub open spec fn spec_notify(s: TenantState, lsn: u64) -> (TenantState, bool) {
    if s.commit_lsn < lsn {
        (TenantState { commit_lsn: lsn, ..s }, true)
    } else {
        (s, false)
    }
}

/// Whether any of the announcements `ls`, made in order from state `s`,
/// wakes the waiters.
pub open spec fn spec_any_wakeup(s: TenantState, ls: Seq<u64>) -> bool
    decreases ls.len(),
{
    if ls.len() == 0 {
        false
    } else {
        let (next, woke) = spec_notify(s, ls[0]);
        woke || spec_any_wakeup(next, ls.drop_first())
    }
}

/// What a sender at `start_pos` may stream: up to the commit position once
/// it lies beyond `start_pos`; else nothing yet, and it must wait.
pub open spec fn spec_available(s: TenantState, start_pos: u64) -> Option<u64> {
    if start_pos < s.commit_lsn {
        Some(s.commit_lsn)
    } else {
        None
    }
}

impl TenantState {
    pub open spec fn spec_new(id: u64) -> TenantState {
        TenantState {
            id,
            commit_lsn: 0,
            info: SafeKeeperInfo::spec_new(),
            hs_feedback: HotStandbyFeedback::spec_initial(),
        }
    }

    pub fn new(id: u64) -> (r: TenantState)
        ensures
            r == TenantState::spec_new(id),
    {
        TenantState {
            id,
            commit_lsn: 0,
            info: SafeKeeperInfo::new(),
            hs_feedback: HotStandbyFeedback::initial(),
        }
    }

    /// Announces newly committed log; returns whether the waiting senders
    /// must be woken.
    pub fn notify_wal_senders(&mut self, commit_lsn: u64) -> (wake: bool)
        ensures
            (*final(self), wake) == spec_notify(*old(self), commit_lsn),
    {
        if self.commit_lsn < commit_lsn {
            self.commit_lsn = commit_lsn;
            true
        } else {
            false
        }
    }

    /// Tells every sender to finish.
    pub fn stop_wal_senders(&mut self) -> (wake: bool)
        ensures
            (*final(self), wake) == spec_notify(*old(self), END_REPLICATION_MARKER),
    {
        self.notify_wal_senders(END_REPLICATION_MARKER)
    }

    /// The check a sender makes, after registering its wait, under the lock.
    pub fn available(&self, start_pos: u64) -> (r: Option<u64>)
        ensures
            r == spec_available(*self, start_pos),
    {
        if start_pos < self.commit_lsn {
            Some(self.commit_lsn)
        } else {
            None
        }
    }

    pub fn get_info(&self) -> (r: SafeKeeperInfo)
        ensures
            r == self.info,
    {
        self.info
    }

    pub fn set_info(&mut self, info: &SafeKeeperInfo)
        ensures
            *final(self) == (TenantState { info: *info, ..*old(self) }),
    {
        self.info = *info;
    }

    /// Folds one replica's feedback into the aggregate.
    pub fn add_hs_feedback(&mut self, feedback: &HotStandbyFeedback)
        ensures
            *final(self) == (TenantState {
                hs_feedback: old(self).hs_feedback.spec_merge(*feedback),
                ..*old(self)
            }),
    {
        self.hs_feedback.merge(feedback);
    }

    pub fn get_hs_feedback(&self) -> (r: HotStandbyFeedback)
        ensures
            r == self.hs_feedback,
    {
        self.hs_feedback
    }
}

/// No lost wake-up: a sender that found nothing to stream at `start_pos`
/// and waits is woken by the announcements that follow as soon as one of
/// them lies beyond `start_pos`, whatever came in between.
pub proof fn lemma_no_lost_wakeup(s: TenantState, start_pos: u64, ls: Seq<u64>, i: int)
    requires
        spec_available(s, start_pos) is None,
        0 <= i < ls.len(),
        ls[i] > start_pos,
    ensures
        spec_any_wakeup(s, ls),
    decreases ls.len(),
{
    let (next, woke) = spec_notify(s, ls[0]);
    if !woke {
        assert(next == s);
        if i > 0 {
            lemma_no_lost_wakeup(s, start_pos, ls.drop_first(), i - 1);
        }
    }
}

/// The commit position seen by senders never goes back.
pub proof fn lemma_commit_monotonic(s: TenantState, lsn: u64)
    ensures
        spec_notify(s, lsn).0.commit_lsn >= s.commit_lsn,
{
}

/// Why no tenant can be resolved.
#[derive(Clone, Copy, Debug, PartialEq, Eq, Structural)]
pub enum RegistryError {
    /// Identifier zero asks for any tenant, and there is none yet.
    NoTenants,
}

/// The tenant that an identifier resolves to.
#[derive(Clone, Copy, Debug, PartialEq, Eq, Structural)]
pub enum Resolution {
    /// A tenant that already existed.
    Existing(u64),
    /// A tenant created by this call; its directory must be made.
    Created(u64),
}

/// Identifiers of the tenants of this process, in order of creation.
pub struct TenantRegistry {
    ids: Vec<u64>,
}

impl TenantRegistry {
    pub closed spec fn view(&self) -> Seq<u64> {
        self.ids@
    }

    /// Each tenant exists once, and none has identifier zero.
    pub open spec fn wf(&self) -> bool {
        &&& forall|i: int, j: int|
            0 <= i < j < self@.len() ==> #[trigger] self@[i] != #[trigger] self@[j]
        &&& forall|i: int| 0 <= i < self@.len() ==> #[trigger] self@[i] != 0
    }

    pub fn new() -> (r: TenantRegistry)
        ensures
            r@ == Seq::<u64>::empty(),
            r.wf(),
    {
        TenantRegistry { ids: Vec::new() }
    }

    /// Resolves a tenant identifier, creating the tenant on first use.
    /// Identifier zero names the first tenant created, if there is one.
    pub fn resolve(&mut self, id: u64) -> (r: Result<Resolution, RegistryError>)
        requires
            old(self).wf(),
        ensures
            final(self).wf(),
            id == 0 ==> final(self)@ == old(self)@ && r == (if old(self)@.len() == 0 {
                Err::<Resolution, RegistryError>(RegistryError::NoTenants)
            } else {
                Ok(Resolution::Existing(old(self)@[0]))
            }),
            id != 0 && old(self)@.contains(id) ==> final(self)@ == old(self)@ && r == Ok::<
                Resolution,
                RegistryError,
            >(Resolution::Existing(id)),
            id != 0 && !old(self)@.contains(id) ==> final(self)@ == old(self)@.push(id) && r
                == Ok::<Resolution, RegistryError>(Resolution::Created(id)),
    {
        if id == 0 {
            if self.ids.len() == 0 {
                return Err(RegistryError::NoTenants);
            }
            return Ok(Resolution::Existing(self.ids[0]));
        }
        let mut i: usize = 0;
        while i < self.ids.len()
            invariant
                i <= self.ids@.len(),
                id != 0,
                self.wf(),
                *self == *old(self),
                forall|j: int| 0 <= j < i ==> self.ids@[j] != id,
            decreases self.ids@.len() - i,
        {
            if self.ids[i] == id {
                assert(self@.contains(id)) by {
                    assert(self@[i as int] == id);
                }
                return Ok(Resolution::Existing(id));
            }
            i = i + 1;
        }
        assert(!self@.contains(id));
        self.ids.push(id);
        Ok(Resolution::Created(id))
    }
}

} // verus!
