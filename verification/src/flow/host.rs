//! Drip host assignment: which piece hosts a flow, resolved by epochs (the highest epoch
//! wins), and what happens when the host drops out.
//!
//! Pieces are named by the 128-bit value of their UUID. Times are nanoseconds on a
//! monotonic clock, supplied by the caller.

use vstd::prelude::*;
use crate::flow::error::FlowError;

verus! {

/// What to do when the current host drops.
#[derive(Clone, Debug, PartialEq, Eq, Structural)]
pub enum HostFailoverPolicy {
    /// Next eligible piece takes over immediately.
    ImmediateFailover,
    /// Wait for a grace period, queuing edits, then failover.
    GracefulFailover { grace_period_ms: u64 },
    /// All pieces maintain local copies; CRDT converges on reconnect.
    OfflineMerge,
    /// Flow pauses until host returns.
    WaitForHost,
}

/// Tracks the current host and uses a monotonically increasing epoch to resolve
/// conflicting announcements (highest epoch wins).
#[derive(Clone, Debug, PartialEq, Eq, Structural)]
pub struct HostAssignment {
    pub current_host: Option<u128>,
    pub epoch: u64,
    /// When the host was last seen, in nanoseconds.
    pub last_host_seen: Option<u64>,
}

impl HostAssignment {
    /// No host, epoch 0.
    pub fn new() -> (r: Self)
        ensures
            r.current_host is None,
            r.epoch == 0,
            r.last_host_seen is None,
    {
        HostAssignment { current_host: None, epoch: 0, last_host_seen: None }
    }

    /// Accepts a host announcement if its epoch is higher than the current one; the host is
    /// then seen at `now`. Returns whether it was accepted.
    pub fn accept_announcement(&mut self, host_id: u128, epoch: u64, now: u64) -> (accepted: bool)
        ensures
            accepted == (epoch > old(self).epoch),
            accepted ==> *final(self) == (HostAssignment { current_host: Some(host_id), epoch, last_host_seen: Some(now) }),
            !accepted ==> *final(self) == *old(self),
    {
        if epoch > self.epoch {
            self.current_host = Some(host_id);
            self.epoch = epoch;
            self.last_host_seen = Some(now);
            true
        } else {
            false
        }
    }

    /// Records that the host was seen at `now` (heartbeat).
    pub fn touch(&mut self, now: u64)
        ensures
            final(self).current_host == old(self).current_host,
            final(self).epoch == old(self).epoch,
            final(self).last_host_seen == Some(now),
    {
        self.last_host_seen = Some(now);
    }

    /// Whether more than `timeout` nanoseconds passed between the host's last sighting
    /// and `now`; a host that was never seen counts as timed out, no host as not.
    pub fn is_host_timed_out(&self, timeout: u64, now: u64) -> (r: bool)
        ensures
            r == match self.last_host_seen {
                Some(t) => now > t && now - t > timeout,
                None => self.current_host is Some,
            },
    {
        match self.last_host_seen {
            Some(t) => {
                let elapsed = if now > t { now - t } else { 0 };
                elapsed > timeout
            },
            None => self.current_host.is_some(),
        }
    }

    /// Whether `device` is the current host.
    pub fn is_current_host(&self, device: u128) -> (r: bool)
        ensures
            r == (self.current_host == Some(device)),
    {
        match self.current_host {
            Some(h) => h == device,
            None => false,
        }
    }

    /// `device` claims the host role under the next epoch, seen at `now`; returns the
    /// new epoch.
    pub fn become_host(&mut self, device: u128, now: u64) -> (new_epoch: u64)
        requires
            old(self).epoch < u64::MAX,
        ensures
            new_epoch == old(self).epoch + 1,
            *final(self) == (HostAssignment { current_host: Some(device), epoch: new_epoch, last_host_seen: Some(now) }),
    {
        self.epoch = self.epoch + 1;
        self.current_host = Some(device);
        self.last_host_seen = Some(now);
        self.epoch
    }

    /// The current host `device` hands the role to `new_host` under the next epoch;
    /// returns the new epoch. Fails, changing nothing, when `device` is not the host.
    pub fn handoff_host(&mut self, device: u128, new_host: u128, now: u64) -> (r: Result<u64, FlowError>)
        requires
            old(self).epoch < u64::MAX,
        ensures
            r is Err <==> old(self).current_host != Some(device),
            r matches Err(e) ==> e == FlowError::NotHost(device) && *final(self) == *old(self),
            r matches Ok(new_epoch) ==> new_epoch == old(self).epoch + 1 && *final(self) == (HostAssignment {
                current_host: Some(new_host),
                epoch: new_epoch,
                last_host_seen: Some(now),
            }),
    {
        if !self.is_current_host(device) {
            return Err(FlowError::NotHost(device));
        }
        self.epoch = self.epoch + 1;
        self.current_host = Some(new_host);
        self.last_host_seen = Some(now);
        Ok(self.epoch)
    }

    /// Reacts to the host dropping out: immediate failover clears the host so that it is
    /// chosen again; the other policies leave the assignment as it is (graceful failover
    /// goes by the timeout, offline merge and waiting keep edits flowing or queued).
    pub fn handle_host_dropout(&mut self, policy: &HostFailoverPolicy)
        ensures
            *policy == HostFailoverPolicy::ImmediateFailover ==> *final(self) == (HostAssignment {
                current_host: None,
                ..*old(self)
            }),
            *policy != HostFailoverPolicy::ImmediateFailover ==> *final(self) == *old(self),
    {
        match policy {
            HostFailoverPolicy::ImmediateFailover => {
                self.current_host = None;
            },
            HostFailoverPolicy::GracefulFailover { .. } => {},
            HostFailoverPolicy::OfflineMerge => {},
            HostFailoverPolicy::WaitForHost => {},
        }
    }
}

impl Default for HostAssignment {
    fn default() -> (r: Self)
        ensures
            r.current_host is None,
            r.epoch == 0,
            r.last_host_seen is None,
    {
        Self::new()
    }
}

/// The assignment after the announcements `(host, epoch, time)` arrive in order, each
/// taken as `accept_announcement` takes it.
pub open spec fn after_announcements(ha: HostAssignment, anns: Seq<(u128, u64, u64)>) -> HostAssignment
    decreases anns.len(),
{
    if anns.len() == 0 {
        ha
    } else {
        let prev = after_announcements(ha, anns.drop_last());
        let last = anns.last();
        if last.1 > prev.epoch {
            HostAssignment { current_host: Some(last.0), epoch: last.1, last_host_seen: Some(last.2) }
        } else {
            prev
        }
    }
}

proof fn lemma_epoch_origin(ha: HostAssignment, anns: Seq<(u128, u64, u64)>)
    ensures
        after_announcements(ha, anns).epoch >= ha.epoch,
        forall|i: int| 0 <= i < anns.len() ==> after_announcements(ha, anns).epoch >= (#[trigger] anns[i]).1,
        after_announcements(ha, anns) == ha || exists|i: int|
            0 <= i < anns.len() && after_announcements(ha, anns).epoch == (#[trigger] anns[i]).1
                && after_announcements(ha, anns).current_host == Some(anns[i].0),
    decreases anns.len(),
{
    if anns.len() > 0 {
        let pre = anns.drop_last();
        lemma_epoch_origin(ha, pre);
        assert forall|i: int| 0 <= i < anns.len() - 1 implies #[trigger] anns[i] == pre[i] by {}
        let prev = after_announcements(ha, pre);
        if !(anns.last().1 > prev.epoch) && prev != ha {
            let i = choose|i: int| 0 <= i < pre.len() && prev.epoch == (#[trigger] pre[i]).1 && prev.current_host == Some(pre[i].0);
            assert(anns[i] == pre[i]);
        }
        if anns.last().1 > prev.epoch {
            assert(anns[anns.len() - 1] == anns.last());
        }
    }
}

/// Highest epoch wins: whatever the order in which announcements with pairwise different
/// epochs arrive, the announcement with the highest epoch, if that epoch is above the
/// current one, ends as the assignment's host and epoch.
pub proof fn lemma_highest_epoch_wins(ha: HostAssignment, anns: Seq<(u128, u64, u64)>, m: int)
    requires
        0 <= m < anns.len(),
        anns[m].1 > ha.epoch,
        forall|i: int| 0 <= i < anns.len() ==> (#[trigger] anns[i]).1 <= anns[m].1,
        forall|i: int, j: int| 0 <= i < anns.len() && 0 <= j < anns.len() && i != j ==> (#[trigger] anns[i]).1 != (#[trigger] anns[j]).1,
    ensures
        after_announcements(ha, anns).epoch == anns[m].1,
        after_announcements(ha, anns).current_host == Some(anns[m].0),
    decreases anns.len(),
{
    let pre = anns.drop_last();
    let prev = after_announcements(ha, pre);
    lemma_epoch_origin(ha, pre);
    if m == anns.len() - 1 {
        if prev != ha {
            let i = choose|i: int| 0 <= i < pre.len() && prev.epoch == (#[trigger] pre[i]).1 && prev.current_host == Some(pre[i].0);
            assert(anns[i] == pre[i]);
            assert(anns[i].1 != anns[m].1);
        }
    } else {
        assert forall|i: int| 0 <= i < pre.len() implies (#[trigger] pre[i]).1 <= pre[m].1 by {
            assert(pre[i] == anns[i]);
        }
        assert forall|i: int, j: int| 0 <= i < pre.len() && 0 <= j < pre.len() && i != j implies (#[trigger] pre[i]).1 != (
        #[trigger] pre[j]).1 by {
            assert(pre[i] == anns[i] && pre[j] == anns[j]);
        }
        lemma_highest_epoch_wins(ha, pre, m);
        assert(anns.last() == anns[anns.len() - 1]);
        assert(anns[anns.len() - 1].1 != anns[m].1);
    }
}

/// A candidate host: its id, whether it can host the drip, and its number of topology
/// edges (in and out).
pub struct HostCandidate {
    pub id: u128,
    pub can_host_drip: bool,
    pub edge_count: usize,
}

/// The first candidate that can host the drip.
pub fn select_first_eligible(pieces: &[HostCandidate]) -> (r: Option<u128>)
    ensures
        r is None <==> forall|i: int| 0 <= i < pieces@.len() ==> !(#[trigger] pieces@[i]).can_host_drip,
        r matches Some(id) ==> exists|i: int|
            0 <= i < pieces@.len() && (#[trigger] pieces@[i]).id == id && pieces@[i].can_host_drip && forall|k: int|
                0 <= k < i ==> !pieces@[k].can_host_drip,
{
    let mut i: usize = 0;
    while i < pieces.len()
        invariant
            0 <= i <= pieces@.len(),
            forall|k: int| 0 <= k < i ==> !(#[trigger] pieces@[k]).can_host_drip,
        decreases pieces@.len() - i,
    {
        if pieces[i].can_host_drip {
            assert(pieces@[i as int].id == pieces[i as int].id);
            return Some(pieces[i].id);
        }
        i = i + 1;
    }
    None
}

/// The preferred piece if it is a candidate that can host; otherwise the first candidate
/// that can host.
pub fn select_preferred(preferred: u128, pieces: &[HostCandidate]) -> (r: Option<u128>)
    ensures
        (exists|i: int| 0 <= i < pieces@.len() && (#[trigger] pieces@[i]).id == preferred && pieces@[i].can_host_drip) ==> r
            == Some(preferred),
        !(exists|i: int| 0 <= i < pieces@.len() && (#[trigger] pieces@[i]).id == preferred && pieces@[i].can_host_drip) ==> {
            &&& (r is None <==> forall|i: int| 0 <= i < pieces@.len() ==> !(#[trigger] pieces@[i]).can_host_drip)
            &&& (r matches Some(id) ==> exists|i: int|
                0 <= i < pieces@.len() && (#[trigger] pieces@[i]).id == id && pieces@[i].can_host_drip && forall|k: int|
                    0 <= k < i ==> !pieces@[k].can_host_drip)
        },
{
    let mut i: usize = 0;
    while i < pieces.len()
        invariant
            0 <= i <= pieces@.len(),
            forall|k: int| 0 <= k < i ==> !((#[trigger] pieces@[k]).id == preferred && pieces@[k].can_host_drip),
        decreases pieces@.len() - i,
    {
        if pieces[i].id == preferred && pieces[i].can_host_drip {
            return Some(preferred);
        }
        i = i + 1;
    }
    select_first_eligible(pieces)
}

/// The candidate that can host with the most topology edges; among equals, the first.
pub fn select_best_connected(pieces: &[HostCandidate]) -> (r: Option<u128>)
    ensures
        r is None <==> forall|i: int| 0 <= i < pieces@.len() ==> !(#[trigger] pieces@[i]).can_host_drip,
        r matches Some(id) ==> exists|i: int|
            0 <= i < pieces@.len() && (#[trigger] pieces@[i]).id == id && pieces@[i].can_host_drip && (forall|k: int|
                0 <= k < pieces@.len() && pieces@[k].can_host_drip ==> pieces@[k].edge_count <= pieces@[i].edge_count) && (
            forall|k: int| 0 <= k < i && pieces@[k].can_host_drip ==> pieces@[k].edge_count < pieces@[i].edge_count),
{
    let mut best: Option<(u128, usize)> = None;
    let ghost mut best_idx: int = -1;
    let mut i: usize = 0;
    while i < pieces.len()
        invariant
            0 <= i <= pieces@.len(),
            best is None <==> forall|k: int| 0 <= k < i ==> !(#[trigger] pieces@[k]).can_host_drip,
            best matches Some(b) ==> {
                &&& 0 <= best_idx < i
                &&& pieces@[best_idx].id == b.0
                &&& pieces@[best_idx].edge_count == b.1
                &&& pieces@[best_idx].can_host_drip
                &&& forall|k: int| 0 <= k < i && (#[trigger] pieces@[k]).can_host_drip ==> pieces@[k].edge_count <= b.1
                &&& forall|k: int| 0 <= k < best_idx && (#[trigger] pieces@[k]).can_host_drip ==> pieces@[k].edge_count < b.1
            },
        decreases pieces@.len() - i,
    {
        if pieces[i].can_host_drip {
            let better = match best {
                None => true,
                Some(b) => pieces[i].edge_count > b.1,
            };
            if better {
                best = Some((pieces[i].id, pieces[i].edge_count));
                proof {
                    best_idx = i as int;
                }
            }
        }
        i = i + 1;
    }
    match best {
        Some(b) => Some(b.0),
        None => None,
    }
}

} // verus!
