//! The bookkeeping of a fully replicated flow around its document: the host role
//! with the edits held back while the flow waits for its host, the parties the flow
//! knows, and the per-party queues of operations still to deliver. Operations are held
//! encoded, as bytes; applying them to the document, journaling, sending and waiting
//! are the caller's.

use vstd::prelude::*;
use crate::flow::error::FlowError;
use crate::flow::host::{HostAssignment, HostFailoverPolicy};
use crate::flow::sync::admit_edit;

verus! {

/// The contents of each encoded operation.
pub open spec fn op_bytes(ops: Seq<Vec<u8>>) -> Seq<Seq<u8>> {
    ops.map_values(|o: Vec<u8>| o@)
}

/// The host that a waiting edit is told of: the current host, or 0 when there is none.
pub open spec fn awaited_host(a: HostAssignment) -> u128 {
    match a.current_host {
        Some(h) => h,
        None => 0,
    }
}

/// A piece's view of who hosts a flow, and the local edits it holds back until it
/// may apply them.
pub struct ReplicaHost {
    device: u128,
    policy: HostFailoverPolicy,
    assignment: HostAssignment,
    pending: Vec<Vec<u8>>,
}

impl ReplicaHost {
    /// This piece.
    pub closed spec fn device_spec(&self) -> u128 {
        self.device
    }

    /// What happens when the host drops.
    pub closed spec fn policy_spec(&self) -> HostFailoverPolicy {
        self.policy
    }

    /// Who hosts the flow, under which epoch.
    pub closed spec fn assignment_spec(&self) -> HostAssignment {
        self.assignment
    }

    /// The edits held back, oldest first.
    pub closed spec fn pending_spec(&self) -> Seq<Seq<u8>> {
        op_bytes(self.pending@)
    }

    /// Whether the edit is held back: the flow waits for its host and this piece is not it.
    pub open spec fn holds_edits(&self) -> bool {
        self.policy_spec() == HostFailoverPolicy::WaitForHost && self.assignment_spec().current_host != Some(
            self.device_spec(),
        )
    }

    /// No host yet, nothing held back.
    pub fn new(device: u128, policy: HostFailoverPolicy) -> (r: Self)
        ensures
            r.device_spec() == device,
            r.policy_spec() == policy,
            r.assignment_spec().current_host is None,
            r.assignment_spec().epoch == 0,
            r.assignment_spec().last_host_seen is None,
            r.pending_spec() == Seq::<Seq<u8>>::empty(),
    {
        let r = ReplicaHost { device, policy, assignment: HostAssignment::new(), pending: Vec::new() };
        assert(r.pending_spec() =~= Seq::<Seq<u8>>::empty());
        r
    }

    /// Who hosts the flow.
    pub fn assignment(&self) -> (r: &HostAssignment)
        ensures
            *r == self.assignment_spec(),
    {
        &self.assignment
    }

    /// How many edits are held back.
    pub fn pending_count(&self) -> (n: usize)
        ensures
            n == self.pending_spec().len(),
    {
        self.pending.len()
    }

    /// Whether this piece hosts the flow.
    pub fn is_current_host(&self) -> (r: bool)
        ensures
            r == (self.assignment_spec().current_host == Some(self.device_spec())),
    {
        self.assignment.is_current_host(self.device)
    }

    /// A local edit. While the flow waits for its host and this piece is not the host,
    /// the edit is held back and the caller learns which host it waits for; otherwise
    /// it comes back to be applied now.
    pub fn apply_edit(&mut self, op: Vec<u8>) -> (r: Result<Vec<u8>, FlowError>)
        ensures
            final(self).device_spec() == old(self).device_spec(),
            final(self).policy_spec() == old(self).policy_spec(),
            final(self).assignment_spec() == old(self).assignment_spec(),
            old(self).holds_edits() ==> r == Err::<Vec<u8>, FlowError>(
                FlowError::HostUnavailable(awaited_host(old(self).assignment_spec())),
            ) && final(self).pending_spec() == old(self).pending_spec().push(op@),
            !old(self).holds_edits() ==> (r matches Ok(v) && v@ == op@) && final(self).pending_spec()
                == old(self).pending_spec(),
    {
        let is_host = self.assignment.is_current_host(self.device);
        match admit_edit(&self.policy, is_host, self.assignment.current_host) {
            Ok(()) => Ok(op),
            Err(e) => {
                let ghost before = self.pending@;
                self.pending.push(op);
                proof {
                    assert(op_bytes(self.pending@) =~= op_bytes(before).push(op@));
                }
                Err(e)
            },
        }
    }

    /// This piece claims the host role under the next epoch, seen at `now`. The edits
    /// held back come out, oldest first, to be applied and sent; none remain held.
    /// Returns the new epoch and those edits.
    pub fn become_host(&mut self, now: u64) -> (r: (u64, Vec<Vec<u8>>))
        requires
            old(self).assignment_spec().epoch < u64::MAX,
        ensures
            final(self).device_spec() == old(self).device_spec(),
            final(self).policy_spec() == old(self).policy_spec(),
            r.0 == old(self).assignment_spec().epoch + 1,
            final(self).assignment_spec() == (HostAssignment {
                current_host: Some(old(self).device_spec()),
                epoch: r.0,
                last_host_seen: Some(now),
            }),
            op_bytes(r.1@) == old(self).pending_spec(),
            final(self).pending_spec() == Seq::<Seq<u8>>::empty(),
    {
        let epoch = self.assignment.become_host(self.device, now);
        let mut drained: Vec<Vec<u8>> = Vec::new();
        std::mem::swap(&mut drained, &mut self.pending);
        assert(op_bytes(self.pending@) =~= Seq::<Seq<u8>>::empty());
        (epoch, drained)
    }
}

/// The parties a flow knows, by device id, with the UUID of each.
pub struct KnownParties {
    parties: Vec<(String, u128)>,
}

/// Whether `name` is among the parties.
pub open spec fn names_party(parties: Seq<(String, u128)>, name: Seq<char>) -> bool {
    exists|i: int| 0 <= i < parties.len() && (#[trigger] parties[i]).0@ == name
}

impl KnownParties {
    #[verifier::type_invariant]
    spec fn names_distinct(&self) -> bool {
        forall|i: int, j: int|
            0 <= i < self.parties@.len() && 0 <= j < self.parties@.len() && i != j ==> (#[trigger] self.parties@[i]).0@
                != (#[trigger] self.parties@[j]).0@
    }

    /// The parties, as device id to UUID.
    pub closed spec fn view(&self) -> Map<Seq<char>, u128> {
        Map::new(
            |name: Seq<char>| names_party(self.parties@, name),
            |name: Seq<char>|
                self.parties@[choose|i: int| 0 <= i < self.parties@.len() && (#[trigger] self.parties@[i]).0@ == name].1,
        )
    }

    /// No parties.
    pub fn new() -> (r: Self)
        ensures
            r@ == Map::<Seq<char>, u128>::empty(),
    {
        let r = KnownParties { parties: Vec::new() };
        assert(r@ =~= Map::<Seq<char>, u128>::empty());
        r
    }

    /// The UUID of `party`, if it is known.
    pub fn get(&self, party: &str) -> (r: Option<u128>)
        ensures
            r == (if self@.contains_key(party@) {
                Some(self@[party@])
            } else {
                None
            }),
    {
        proof {
            use_type_invariant(self);
        }
        let name = party.to_owned();
        let mut i: usize = 0;
        while i < self.parties.len()
            invariant
                self.names_distinct(),
                name@ == party@,
                0 <= i <= self.parties@.len(),
                forall|k: int| 0 <= k < i ==> (#[trigger] self.parties@[k]).0@ != party@,
            decreases self.parties@.len() - i,
        {
            if self.parties[i].0 == name {
                proof {
                    assert(names_party(self.parties@, party@));
                    let k = choose|k: int| 0 <= k < self.parties@.len() && (#[trigger] self.parties@[k]).0@ == party@;
                    assert(self.parties@[k].0@ == self.parties@[i as int].0@);
                }
                return Some(self.parties[i].1);
            }
            i = i + 1;
        }
        None
    }

    /// Registers `party` with `uuid`, unless it is this device (`own_id`) or already
    /// known. Returns whether it was new: a new party is then persisted and sent the
    /// operations so far.
    pub fn register(&mut self, own_id: &str, party: &str, uuid: u128) -> (is_new: bool)
        ensures
            is_new == (party@ != own_id@ && !old(self)@.contains_key(party@)),
            is_new ==> final(self)@ == old(self)@.insert(party@, uuid),
            !is_new ==> final(self)@ == old(self)@,
    {
        proof {
            use_type_invariant(&*self);
        }
        let name = party.to_owned();
        let own = own_id.to_owned();
        if name == own {
            return false;
        }
        if self.get(party).is_some() {
            return false;
        }
        let ghost before = self.parties@;
        let ghost old_view = self@;
        let mut parties: Vec<(String, u128)> = Vec::new();
        std::mem::swap(&mut parties, &mut self.parties);
        parties.push((name, uuid));
        proof {
            assert forall|i: int, j: int|
                0 <= i < parties@.len() && 0 <= j < parties@.len() && i != j implies (#[trigger] parties@[i]).0@
                    != (#[trigger] parties@[j]).0@ by {
                if i < before.len() && j < before.len() {
                    assert(parties@[i] == before[i] && parties@[j] == before[j]);
                } else if i < before.len() {
                    assert(parties@[i] == before[i]);
                    assert(!names_party(before, party@));
                } else {
                    assert(parties@[j] == before[j]);
                    assert(!names_party(before, party@));
                }
            }
        }
        self.parties = parties;
        proof {
            let new_view = self@;
            assert forall|n: Seq<char>| #[trigger] new_view.contains_key(n) == old_view.insert(party@, uuid).contains_key(n) by {
                if names_party(self.parties@, n) {
                    let k = choose|k: int| 0 <= k < self.parties@.len() && (#[trigger] self.parties@[k]).0@ == n;
                    if k < before.len() {
                        assert(self.parties@[k] == before[k]);
                        assert(names_party(before, n));
                    }
                }
                if names_party(before, n) {
                    let k = choose|k: int| 0 <= k < before.len() && (#[trigger] before[k]).0@ == n;
                    assert(self.parties@[k] == before[k]);
                }
                if n == party@ {
                    assert(self.parties@[before.len() as int].0@ == party@);
                }
            }
            assert forall|n: Seq<char>| new_view.contains_key(n) implies #[trigger] new_view[n] == old_view.insert(
                party@,
                uuid,
            )[n] by {
                let k = choose|k: int| 0 <= k < self.parties@.len() && (#[trigger] self.parties@[k]).0@ == n;
                if k < before.len() {
                    assert(self.parties@[k] == before[k]);
                    let k2 = choose|k2: int| 0 <= k2 < before.len() && (#[trigger] before[k2]).0@ == n;
                    assert(before[k2] == self.parties@[k2]);
                } else {
                    assert(k == before.len());
                }
            }
            assert(new_view =~= old_view.insert(party@, uuid));
        }
        true
    }
}

/// The operations still to deliver to one party, oldest first.
pub struct OutboundQueue {
    ops: Vec<Vec<u8>>,
}

impl OutboundQueue {
    /// The queued operations, oldest first.
    pub closed spec fn queued(&self) -> Seq<Seq<u8>> {
        op_bytes(self.ops@)
    }

    /// An empty queue.
    pub fn new() -> (r: Self)
        ensures
            r.queued() == Seq::<Seq<u8>>::empty(),
    {
        let r = OutboundQueue { ops: Vec::new() };
        assert(r.queued() =~= Seq::<Seq<u8>>::empty());
        r
    }

    /// Queues an operation for the party.
    pub fn enqueue(&mut self, op: Vec<u8>)
        ensures
            final(self).queued() == old(self).queued().push(op@),
    {
        let ghost before = self.ops@;
        self.ops.push(op);
        assert(op_bytes(self.ops@) =~= op_bytes(before).push(op@));
    }

    /// How many operations are queued.
    pub fn len(&self) -> (n: usize)
        ensures
            n == self.queued().len(),
    {
        self.ops.len()
    }

    /// Copies of the queued operations, to send.
    pub fn peek(&self) -> (r: Vec<Vec<u8>>)
        ensures
            op_bytes(r@) == self.queued(),
    {
        let mut r: Vec<Vec<u8>> = Vec::new();
        let mut i: usize = 0;
        while i < self.ops.len()
            invariant
                0 <= i <= self.ops@.len(),
                op_bytes(r@) == op_bytes(self.ops@).take(i as int),
            decreases self.ops@.len() - i,
        {
            let ghost before = r@;
            r.push(self.ops[i].clone());
            proof {
                assert(op_bytes(r@) =~= op_bytes(before).push(self.ops@[i as int]@));
                assert(op_bytes(self.ops@).take(i + 1) =~= op_bytes(self.ops@).take(i as int).push(
                    self.ops@[i as int]@,
                ));
            }
            i = i + 1;
        }
        assert(op_bytes(self.ops@).take(self.ops@.len() as int) =~= op_bytes(self.ops@));
        r
    }

    /// Records the outcome of sending the queue: a confirmed delivery empties it and
    /// returns how many operations went; a failed one keeps every operation for the next
    /// attempt. An empty queue sends nothing and reports nothing.
    pub fn record_delivery(&mut self, sent: bool) -> (r: Option<usize>)
        ensures
            sent && old(self).queued().len() > 0 ==> r == Some(old(self).queued().len() as usize)
                && final(self).queued() == Seq::<Seq<u8>>::empty(),
            !(sent && old(self).queued().len() > 0) ==> r is None && final(self).queued() == old(self).queued(),
    {
        if sent && self.ops.len() > 0 {
            let n = self.ops.len();
            self.ops = Vec::new();
            assert(op_bytes(self.ops@) =~= Seq::<Seq<u8>>::empty());
            Some(n)
        } else {
            None
        }
    }
}

/// A flow can only start syncing with a messenger to sync through.
pub fn require_messenger(has_messenger: bool) -> (r: Result<(), FlowError>)
    ensures
        r is Ok <==> has_messenger,
        r matches Err(e) ==> e is SyncError,
{
    if has_messenger {
        Ok(())
    } else {
        Err(FlowError::SyncError("no messenger configured".to_string()))
    }
}

} // verus!
