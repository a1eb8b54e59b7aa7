//! The decisions of a replicated flow's sync loop: whether a local edit may be
//! applied now, what to do with an inbound sync message, and which newly
//! reachable peers to greet with the flow's horizon. The caller performs the
//! sends, the document updates and the waiting.

use vstd::prelude::*;
use crate::flow::error::FlowError;
use crate::flow::host::HostFailoverPolicy;

verus! {

/// A local edit may be applied now, unless the flow waits for its host and
/// this piece is not the host; then it is queued and the caller learns which
/// host it waits for (0 where there is none).
pub fn admit_edit(policy: &HostFailoverPolicy, is_host: bool, current_host: Option<u128>) -> (r: Result<(), FlowError>)
    ensures
        r is Err <==> (*policy == HostFailoverPolicy::WaitForHost && !is_host),
        r matches Err(e) ==> e == FlowError::HostUnavailable(
            match current_host {
                Some(h) => h,
                None => 0,
            },
        ),
{
    match policy {
        HostFailoverPolicy::WaitForHost => {
            if !is_host {
                let host = match current_host {
                    Some(h) => h,
                    None => 0,
                };
                return Err(FlowError::HostUnavailable(host));
            }
            Ok(())
        },
        _ => Ok(()),
    }
}

/// A flow sync message as routing reads it.
#[derive(Clone, Copy, Debug, PartialEq, Eq, Structural)]
pub enum SyncMessageKind {
    /// The sender's causal horizon: it wants the operations it has not seen.
    HorizonExchange,
    /// A batch of operations to apply.
    OperationBatch,
    /// A piece announces itself host of the flow under an epoch.
    HostAnnouncement { host_id: u128, epoch: u64 },
}

/// What to do with an inbound message.
#[derive(Clone, Copy, Debug, PartialEq, Eq, Structural)]
pub enum InboundAction {
    /// Not a sync message of this flow.
    Ignore,
    /// Send `to` the operations its horizon lacks, then flush the queues.
    SendMissingOps { to: u128 },
    /// Apply the batch; if anything was new, persist it, notify and flush.
    ApplyOps,
    /// Hand the announcement to the host assignment.
    AcceptHost { host_id: u128, epoch: u64 },
}

/// Routes a message from `source` that carries `kind` for flow `message_flow`,
/// as received by flow `flow_id`; `is_flow_sync` tells whether the envelope
/// was of the flow sync type.
pub fn route_inbound(
    flow_id: u128,
    is_flow_sync: bool,
    source: u128,
    message_flow: u128,
    kind: SyncMessageKind,
) -> (a: InboundAction)
    ensures
        !is_flow_sync || message_flow != flow_id ==> a == InboundAction::Ignore,
        is_flow_sync && message_flow == flow_id ==> a == match kind {
            SyncMessageKind::HorizonExchange => InboundAction::SendMissingOps { to: source },
            SyncMessageKind::OperationBatch => InboundAction::ApplyOps,
            SyncMessageKind::HostAnnouncement { host_id, epoch } => InboundAction::AcceptHost {
                host_id,
                epoch,
            },
        },
{
    if !is_flow_sync || message_flow != flow_id {
        return InboundAction::Ignore;
    }
    match kind {
        SyncMessageKind::HorizonExchange => InboundAction::SendMissingOps { to: source },
        SyncMessageKind::OperationBatch => InboundAction::ApplyOps,
        SyncMessageKind::HostAnnouncement { host_id, epoch } => InboundAction::AcceptHost {
            host_id,
            epoch,
        },
    }
}

/// A piece that is online, and whether it is reachable directly.
#[derive(Clone, Copy, Debug, PartialEq, Eq, Structural)]
pub struct OnlinePiece {
    pub id: u128,
    pub direct: bool,
}

/// Whether piece `p` is to be greeted by `device`, which greeted `greeted` already.
pub open spec fn to_greet(device: u128, greeted: Seq<u128>, p: OnlinePiece) -> bool {
    p.id != device && p.direct && !greeted.contains(p.id)
}

/// The ids of the pieces to greet, in the order given.
pub open spec fn greet_list(device: u128, greeted: Seq<u128>, online: Seq<OnlinePiece>) -> Seq<u128> {
    online.filter(|p: OnlinePiece| to_greet(device, greeted, p)).map_values(|p: OnlinePiece| p.id)
}

/// Exactly the pieces worth greeting are greeted: every id in the list is that of an
/// online piece reachable directly, is not this device, and was not greeted before;
/// and every such piece is in the list.
pub proof fn lemma_greet_list(device: u128, greeted: Seq<u128>, online: Seq<OnlinePiece>)
    ensures
        forall|i: int|
            0 <= i < greet_list(device, greeted, online).len() ==> {
                let id = #[trigger] greet_list(device, greeted, online)[i];
                &&& !greeted.contains(id)
                &&& id != device
                &&& exists|j: int| 0 <= j < online.len() && online[j].id == id && online[j].direct
            },
        forall|j: int|
            0 <= j < online.len() && online[j].direct && online[j].id != device && !greeted.contains(
                online[j].id,
            ) ==> greet_list(device, greeted, online).contains(#[trigger] online[j].id),
{
    broadcast use vstd::seq_lib::group_filter_ensures;

    let pred = |p: OnlinePiece| to_greet(device, greeted, p);
    let f = online.filter(pred);
    let ids = |p: OnlinePiece| p.id;
    assert forall|i: int| 0 <= i < greet_list(device, greeted, online).len() implies {
        let id = #[trigger] greet_list(device, greeted, online)[i];
        &&& !greeted.contains(id)
        &&& id != device
        &&& exists|j: int| 0 <= j < online.len() && online[j].id == id && online[j].direct
    } by {
        assert(pred(f[i]));
        assert(f.contains(f[i]));
        online.lemma_filter_contains_rev(pred, f[i]);
        assert(online.contains(f[i]));
        let j = choose|j: int| 0 <= j < online.len() && online[j] == f[i];
        assert(online[j].id == f[i].id);
    }
    assert forall|j: int|
        0 <= j < online.len() && online[j].direct && online[j].id != device && !greeted.contains(
            online[j].id,
        ) implies greet_list(device, greeted, online).contains(#[trigger] online[j].id) by {
        assert(pred(online[j]));
        assert(f.contains(online[j]));
        let k = choose|k: int| 0 <= k < f.len() && f[k] == online[j];
        assert(greet_list(device, greeted, online)[k] == online[j].id);
    }
}

fn contains_id(ids: &Vec<u128>, id: u128) -> (r: bool)
    ensures
        r == ids@.contains(id),
{
    let mut i: usize = 0;
    while i < ids.len()
        invariant
            0 <= i <= ids@.len(),
            forall|k: int| 0 <= k < i ==> ids@[k] != id,
        decreases ids@.len() - i,
    {
        if ids[i] == id {
            return true;
        }
        i = i + 1;
    }
    false
}

/// The online pieces that `device` should send its horizon to: other pieces,
/// reachable directly, not greeted yet.
pub fn peers_to_greet(device: u128, online: &Vec<OnlinePiece>, greeted: &Vec<u128>) -> (r: Vec<u128>)
    ensures
        r@ == greet_list(device, greeted@, online@),
{
    let ghost pred = |p: OnlinePiece| to_greet(device, greeted@, p);
    let mut r: Vec<u128> = Vec::new();
    let mut i: usize = 0;
    while i < online.len()
        invariant
            0 <= i <= online@.len(),
            pred == (|p: OnlinePiece| to_greet(device, greeted@, p)),
            r@ == online@.take(i as int).filter(pred).map_values(|p: OnlinePiece| p.id),
        decreases online@.len() - i,
    {
        let p = online[i];
        let seen = contains_id(greeted, p.id);
        proof {
            assert(online@.take(i + 1) =~= online@.take(i as int).push(p));
            online@.take(i as int).lemma_filter_push(p, pred);
        }
        if p.id != device && p.direct && !seen {
            r.push(p.id);
            proof {
                assert(r@ =~= online@.take(i as int).filter(pred).push(p).map_values(|q: OnlinePiece| q.id));
            }
        } else {
            proof {
                assert(r@ =~= online@.take(i as int).filter(pred).map_values(|q: OnlinePiece| q.id));
            }
        }
        i = i + 1;
    }
    proof {
        assert(online@.take(online@.len() as int) =~= online@);
    }
    r
}

} // verus!
