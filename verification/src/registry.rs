//! Device registry: three maps modelling a device's progress through the
//! trust pipeline, with the lifecycle invariant that a device identifier
//! lives in at most one stage at a time.
//!
//! Every transition that the operator surface must react to appends a
//! notification to the registry's outbox; the surrounding application drains
//! the outbox and forwards each notification to the UI.

use vstd::prelude::*;
use crate::assoc::{assoc_find, assoc_push, assoc_remove, has_key, lookup, unique_keys};
use crate::device::{AccessInfo, ActiveInfo, Agent};

verus! {

/// Notification for the operator surface.
pub enum RemoteServerEvent {
    RefreshPending,
    RefreshActive,
    Connected { uuid: u128, name: String },
}

impl Clone for RemoteServerEvent {
    fn clone(&self) -> (r: Self)
        ensures
            r == *self,
    {
        match self {
            RemoteServerEvent::RefreshPending => RemoteServerEvent::RefreshPending,
            RemoteServerEvent::RefreshActive => RemoteServerEvent::RefreshActive,
            RemoteServerEvent::Connected { uuid, name } => RemoteServerEvent::Connected {
                uuid: *uuid,
                name: name.clone(),
            },
        }
    }
}

/// Operator decision for a pending device.
pub enum AccessApproval {
    Approve(AccessInfo),
    Reject,
}

/// A device whose approval-wait call is in flight. The ticket stands for the
/// entry's single-use resolution channel: the caller that created the entry
/// holds the receiving end under the same number.
pub struct AccessPending {
    pub info: AccessInfo,
    /// Creation time, in the registry's monotonic ticks.
    pub timestamp: u64,
    /// Identity of the entry's resolution channel.
    pub ticket: u64,
}

/// The three lifecycle maps, an outbox of notifications, and the counters
/// that keep timestamps monotonic and tickets unique.
pub struct Registry {
    pub init: Vec<(u128, AccessInfo)>,
    pub pending: Vec<(u128, AccessPending)>,
    pub active: Vec<(u128, ActiveInfo)>,
    pub next_ticket: u64,
    pub last_timestamp: u64,
    pub events: Vec<RemoteServerEvent>,
}

impl Registry {
    /// Lifecycle invariant: duplicate-free maps, a uuid in at most one stage,
    /// pending entries ordered by creation time, and live tickets all below
    /// the next one to be handed out.
    pub open spec fn wf(self) -> bool {
        &&& unique_keys(self.init@)
        &&& unique_keys(self.pending@)
        &&& unique_keys(self.active@)
        &&& (forall|k: u128| has_key(self.init@, k) ==> !has_key(self.pending@, k))
        &&& (forall|k: u128| has_key(self.init@, k) ==> !has_key(self.active@, k))
        &&& (forall|k: u128| has_key(self.pending@, k) ==> !has_key(self.active@, k))
        &&& (forall|i: int|
            0 <= i < self.pending@.len() ==> (#[trigger] self.pending@[i]).1.timestamp
                <= self.last_timestamp)
        &&& (forall|i: int, j: int|
            0 <= i <= j < self.pending@.len() ==> (#[trigger] self.pending@[i]).1.timestamp <= (
            #[trigger] self.pending@[j]).1.timestamp)
        &&& (forall|i: int|
            0 <= i < self.pending@.len() ==> (#[trigger] self.pending@[i]).1.ticket
                < self.next_ticket)
        &&& (forall|i: int|
            0 <= i < self.init@.len() ==> (#[trigger] self.init@[i]).1.uuid == self.init@[i].0)
        &&& (forall|i: int|
            0 <= i < self.pending@.len() ==> (#[trigger] self.pending@[i]).1.info.uuid
                == self.pending@[i].0)
        &&& (forall|i: int|
            0 <= i < self.active@.len() ==> (#[trigger] self.active@[i]).1.uuid
                == self.active@[i].0)
    }

    /// Whether `uuid` is registered in any stage.
    pub open spec fn in_some_stage(self, uuid: u128) -> bool {
        has_key(self.init@, uuid) || has_key(self.pending@, uuid) || has_key(self.active@, uuid)
    }

    /// An empty registry.
    pub fn new() -> (r: Registry)
        ensures
            r.wf(),
            r.init@.len() == 0,
            r.pending@.len() == 0,
            r.active@.len() == 0,
            r.events@.len() == 0,
            r.next_ticket == 0,
    {
        Registry {
            init: Vec::new(),
            pending: Vec::new(),
            active: Vec::new(),
            next_ticket: 0,
            last_timestamp: 0,
            events: Vec::new(),
        }
    }

    /// Record a freshly registered device. On the cryptographically
    /// improbable identifier collision the newest registration wins: the
    /// identifier is cleared from every stage first.
    pub fn add_init(&mut self, uuid: u128, name: String, agent: Agent, code: String)
        requires
            old(self).wf(),
        ensures
            final(self).wf(),
            lookup(final(self).init@, uuid) == Some(
                AccessInfo { uuid, name: name, agent: agent, code: code },
            ),
            forall|k: u128| k != uuid ==> lookup(final(self).init@, k) == lookup(
                old(self).init@,
                k,
            ),
            forall|k: u128| k != uuid ==> lookup(final(self).pending@, k) == lookup(
                old(self).pending@,
                k,
            ),
            forall|k: u128| k != uuid ==> lookup(final(self).active@, k) == lookup(
                old(self).active@,
                k,
            ),
            !has_key(final(self).pending@, uuid),
            !has_key(final(self).active@, uuid),
            !old(self).in_some_stage(uuid) ==> final(self).init@ == old(self).init@.push(
                (uuid, AccessInfo { uuid, name: name, agent: agent, code: code }),
            ) && final(self).pending@ == old(self).pending@ && final(self).active@ == old(
                self,
            ).active@,
            final(self).events@ == old(self).events@,
            final(self).next_ticket == old(self).next_ticket,
    {
        let _ = assoc_remove(&mut self.init, uuid);
        let ghost i1 = self.init@;
        let _ = assoc_remove(&mut self.pending, uuid);
        let _ = assoc_remove(&mut self.active, uuid);
        assoc_push(&mut self.init, uuid, AccessInfo { uuid, name, agent, code });
        proof {
            assert forall|k: u128| has_key(self.init@, k) implies !has_key(self.pending@, k)
                && !has_key(self.active@, k) by {
                if k != uuid {
                    assert(lookup(self.init@, k) == lookup(i1, k));
                    assert(lookup(i1, k) == lookup(old(self).init@, k));
                    assert(has_key(old(self).init@, k));
                    assert(lookup(self.pending@, k) == lookup(old(self).pending@, k));
                    assert(lookup(self.active@, k) == lookup(old(self).active@, k));
                }
            }
            assert forall|k: u128| has_key(self.pending@, k) implies !has_key(self.active@, k) by {
                if k != uuid {
                    assert(lookup(self.pending@, k) == lookup(old(self).pending@, k));
                    assert(has_key(old(self).pending@, k));
                    assert(lookup(self.active@, k) == lookup(old(self).active@, k));
                }
            }
            lemma_remove_keeps_pending_order(old(self).pending@, self.pending@, self.next_ticket, self.last_timestamp);
        }
    }

    /// Promote an initiated device to pending, handing back the ticket of its
    /// fresh resolution channel; refuse identifiers that never registered (or
    /// were already consumed). Notifies the operator surface on success.
    pub fn upgrade_init(&mut self, uuid: u128, now: u64) -> (r: Option<u64>)
        requires
            old(self).wf(),
            old(self).next_ticket < u64::MAX,
        ensures
            final(self).wf(),
            r is Some <==> has_key(old(self).init@, uuid),
            r is None ==> *final(self) == *old(self),
            r is Some ==> {
                &&& r == Some(old(self).next_ticket)
                &&& final(self).next_ticket == old(self).next_ticket + 1
                &&& !has_key(final(self).init@, uuid)
                &&& lookup(final(self).pending@, uuid) == Some(
                    (AccessPending {
                        info: lookup(old(self).init@, uuid)->Some_0,
                        timestamp: if now > old(self).last_timestamp {
                            now
                        } else {
                            old(self).last_timestamp
                        },
                        ticket: old(self).next_ticket,
                    }),
                )
                &&& (forall|k: u128| k != uuid ==> lookup(final(self).init@, k) == lookup(
                    old(self).init@,
                    k,
                ))
                &&& (forall|k: u128| k != uuid ==> lookup(final(self).pending@, k) == lookup(
                    old(self).pending@,
                    k,
                ))
                &&& final(self).active@ == old(self).active@
                &&& final(self).events@ == old(self).events@.push(
                    RemoteServerEvent::RefreshPending,
                )
            },
    {
        let taken = assoc_remove(&mut self.init, uuid);
        match taken {
            Some(info) => {
                proof {
                    assert(has_key(old(self).init@, uuid));
                    assert(!has_key(self.pending@, uuid));
                    assert(!has_key(self.active@, uuid));
                    crate::assoc::lemma_lookup_is_entry(old(self).init@, uuid);
                    assert(info.uuid == uuid);
                }
                let stamp = if now > self.last_timestamp {
                    now
                } else {
                    self.last_timestamp
                };
                self.last_timestamp = stamp;
                let ticket = self.next_ticket;
                self.next_ticket = ticket + 1;
                assoc_push(
                    &mut self.pending,
                    uuid,
                    AccessPending { info, timestamp: stamp, ticket },
                );
                self.events.push(RemoteServerEvent::RefreshPending);
                proof {
                    let p = self.pending@;
                    assert forall|i: int, j: int| 0 <= i <= j < p.len() implies (
                    #[trigger] p[i]).1.timestamp <= (#[trigger] p[j]).1.timestamp by {
                        if j < p.len() - 1 {
                            assert(p[i] == old(self).pending@[i]);
                            assert(p[j] == old(self).pending@[j]);
                        } else if i < j {
                            assert(p[i] == old(self).pending@[i]);
                        }
                    }
                    assert forall|i: int| 0 <= i < p.len() implies (#[trigger] p[i]).1.ticket
                        < self.next_ticket && p[i].1.timestamp <= self.last_timestamp by {
                        if i < p.len() - 1 {
                            assert(p[i] == old(self).pending@[i]);
                        }
                    }
                    assert forall|k: u128| has_key(self.init@, k) implies !has_key(
                        self.pending@,
                        k,
                    ) && !has_key(self.active@, k) by {
                        assert(k != uuid);
                        assert(lookup(self.init@, k) == lookup(old(self).init@, k));
                        assert(has_key(old(self).init@, k));
                        assert(lookup(self.pending@, k) == lookup(old(self).pending@, k));
                    }
                    assert forall|k: u128| has_key(self.pending@, k) implies !has_key(
                        self.active@,
                        k,
                    ) by {
                        if k != uuid {
                            assert(lookup(self.pending@, k) == lookup(old(self).pending@, k));
                            assert(has_key(old(self).pending@, k));
                        } else {
                            assert(has_key(old(self).init@, uuid));
                        }
                    }
                }
                Some(ticket)
            },
            None => None,
        }
    }

    /// Drop a pending entry. Safe to call redundantly; always notifies the
    /// operator surface, as the guaranteed-cleanup path requires.
    pub fn remove_pending(&mut self, uuid: u128)
        requires
            old(self).wf(),
        ensures
            final(self).wf(),
            !has_key(final(self).pending@, uuid),
            forall|k: u128| k != uuid ==> lookup(final(self).pending@, k) == lookup(
                old(self).pending@,
                k,
            ),
            final(self).init@ == old(self).init@,
            final(self).active@ == old(self).active@,
            final(self).next_ticket == old(self).next_ticket,
            final(self).events@ == old(self).events@.push(RemoteServerEvent::RefreshPending),
            !has_key(old(self).pending@, uuid) ==> final(self).pending@ == old(self).pending@,
    {
        let _ = assoc_remove(&mut self.pending, uuid);
        self.events.push(RemoteServerEvent::RefreshPending);
        proof {
            lemma_remove_keeps_pending_order(old(self).pending@, self.pending@, self.next_ticket, self.last_timestamp);
        }
    }

    /// Everything one resolution call does, relating the registry before
    /// the call, the registry after it, and what the call reported.
    pub open spec fn resolves(
        pre: Registry,
        post: Registry,
        uuid: u128,
        approve: bool,
        r: Option<(u64, AccessApproval)>,
    ) -> bool {
        &&& (r is Some <==> has_key(pre.pending@, uuid))
        &&& (r is None ==> post == pre)
        &&& (r is Some ==> {
            &&& r->Some_0.0 == lookup(pre.pending@, uuid)->Some_0.ticket
            &&& r->Some_0.1 == (if approve {
                AccessApproval::Approve(lookup(pre.pending@, uuid)->Some_0.info)
            } else {
                AccessApproval::Reject
            })
            &&& !has_key(post.pending@, uuid)
            &&& (forall|k: u128| k != uuid ==> lookup(post.pending@, k) == lookup(
                pre.pending@,
                k,
            ))
            &&& post.init@ == pre.init@
            &&& post.active@ == pre.active@
            &&& post.events@ == pre.events@
            &&& post.next_ticket == pre.next_ticket
        })
    }

    /// Resolve a pending entry with the operator's decision, handing back the
    /// ticket whose channel must be fired. Reports failure (and changes
    /// nothing) when the identifier is no longer pending, so a second click
    /// on approve or reject is a no-op.
    pub fn update_pending(&mut self, uuid: u128, approve: bool) -> (r: Option<
        (u64, AccessApproval),
    >)
        requires
            old(self).wf(),
        ensures
            final(self).wf(),
            Registry::resolves(*old(self), *final(self), uuid, approve, r),
    {
        let taken = assoc_remove(&mut self.pending, uuid);
        proof {
            lemma_remove_keeps_pending_order(old(self).pending@, self.pending@, self.next_ticket, self.last_timestamp);
        }
        match taken {
            Some(entry) => {
                let decision = if approve {
                    AccessApproval::Approve(entry.info)
                } else {
                    AccessApproval::Reject
                };
                Some((entry.ticket, decision))
            },
            None => None,
        }
    }

    /// Register an authenticated connection. The stricter upgrade rule holds:
    /// a subject that is still registered in any stage — in particular one
    /// with a live connection — is refused, so a credential opens at most one
    /// connection at a time. Notifies the operator surface on success.
    pub fn add_active(&mut self, info: ActiveInfo) -> (r: bool)
        requires
            old(self).wf(),
        ensures
            final(self).wf(),
            r == !old(self).in_some_stage(info.uuid),
            !r ==> *final(self) == *old(self),
            r ==> {
                &&& lookup(final(self).active@, info.uuid) == Some(info)
                &&& final(self).active@ == old(self).active@.push((info.uuid, info))
                &&& final(self).init@ == old(self).init@
                &&& final(self).pending@ == old(self).pending@
                &&& final(self).next_ticket == old(self).next_ticket
                &&& final(self).events@ == old(self).events@.push(
                    RemoteServerEvent::Connected { uuid: info.uuid, name: info.name },
                )
            },
    {
        let occupied = assoc_find(&self.init, info.uuid).is_some() || assoc_find(
            &self.pending,
            info.uuid,
        ).is_some() || assoc_find(&self.active, info.uuid).is_some();
        if occupied {
            return false;
        }
        let uuid = info.uuid;
        let name = info.name.clone();
        assoc_push(&mut self.active, uuid, info);
        self.events.push(RemoteServerEvent::Connected { uuid, name });
        true
    }

    /// Drop an active connection's entry; safe to call redundantly. Always
    /// notifies the operator surface.
    pub fn remove_active(&mut self, uuid: u128)
        requires
            old(self).wf(),
        ensures
            final(self).wf(),
            !has_key(final(self).active@, uuid),
            forall|k: u128| k != uuid ==> lookup(final(self).active@, k) == lookup(
                old(self).active@,
                k,
            ),
            final(self).init@ == old(self).init@,
            final(self).pending@ == old(self).pending@,
            final(self).next_ticket == old(self).next_ticket,
            final(self).events@ == old(self).events@.push(RemoteServerEvent::RefreshActive),
            !has_key(old(self).active@, uuid) ==> final(self).active@ == old(self).active@,
    {
        let _ = assoc_remove(&mut self.active, uuid);
        self.events.push(RemoteServerEvent::RefreshActive);
    }

    /// Snapshot of the pending queue, ordered by creation time ascending.
    pub fn get_pending_info_list(&self) -> (r: Vec<AccessInfo>)
        requires
            self.wf(),
        ensures
            r@ == self.pending@.map_values(|p: (u128, AccessPending)| p.1.info),
            forall|i: int, j: int|
                0 <= i <= j < self.pending@.len() ==> (#[trigger] self.pending@[i]).1.timestamp
                    <= (#[trigger] self.pending@[j]).1.timestamp,
    {
        let ghost target = self.pending@.map_values(|p: (u128, AccessPending)| p.1.info);
        let mut r: Vec<AccessInfo> = Vec::new();
        let mut i: usize = 0;
        while i < self.pending.len()
            invariant
                i <= self.pending@.len(),
                target == self.pending@.map_values(|p: (u128, AccessPending)| p.1.info),
                r@ == target.subrange(0, i as int),
            decreases self.pending@.len() - i,
        {
            r.push(self.pending[i].1.info.clone());
            i += 1;
            proof {
                assert(r@ =~= target.subrange(0, i as int));
            }
        }
        proof {
            assert(r@ =~= target);
        }
        r
    }

    /// Snapshot of the active connections.
    pub fn get_active_info_list(&self) -> (r: Vec<ActiveInfo>)
        ensures
            r@ == self.active@.map_values(|p: (u128, ActiveInfo)| p.1),
    {
        let ghost target = self.active@.map_values(|p: (u128, ActiveInfo)| p.1);
        let mut r: Vec<ActiveInfo> = Vec::new();
        let mut i: usize = 0;
        while i < self.active.len()
            invariant
                i <= self.active@.len(),
                target == self.active@.map_values(|p: (u128, ActiveInfo)| p.1),
                r@ == target.subrange(0, i as int),
            decreases self.active@.len() - i,
        {
            r.push(self.active[i].1.clone());
            i += 1;
            proof {
                assert(r@ =~= target.subrange(0, i as int));
            }
        }
        proof {
            assert(r@ =~= target);
        }
        r
    }

    /// Drain the notification outbox, in emission order.
    pub fn take_events(&mut self) -> (r: Vec<RemoteServerEvent>)
        ensures
            r@ == old(self).events@,
            final(self).events@.len() == 0,
            final(self).init@ == old(self).init@,
            final(self).pending@ == old(self).pending@,
            final(self).active@ == old(self).active@,
            final(self).next_ticket == old(self).next_ticket,
            final(self).last_timestamp == old(self).last_timestamp,
            old(self).wf() ==> final(self).wf(),
    {
        let mut out: Vec<RemoteServerEvent> = Vec::new();
        std::mem::swap(&mut out, &mut self.events);
        out
    }
}

/// Removing a binding disturbs neither the creation-time ordering of what
/// stays nor the bounds that hold of every entry.
proof fn lemma_remove_keeps_pending_order(
    before: Seq<(u128, AccessPending)>,
    after: Seq<(u128, AccessPending)>,
    next_ticket: u64,
    last_timestamp: u64,
)
    requires
        after == before || exists|i: int| 0 <= i < before.len() && after == #[trigger] before.remove(
            i,
        ),
        forall|i: int, j: int|
            0 <= i <= j < before.len() ==> (#[trigger] before[i]).1.timestamp <= (
            #[trigger] before[j]).1.timestamp,
        forall|i: int| 0 <= i < before.len() ==> (#[trigger] before[i]).1.ticket < next_ticket,
        forall|i: int|
            0 <= i < before.len() ==> (#[trigger] before[i]).1.timestamp <= last_timestamp,
    ensures
        forall|i: int, j: int|
            0 <= i <= j < after.len() ==> (#[trigger] after[i]).1.timestamp <= (
            #[trigger] after[j]).1.timestamp,
        forall|i: int| 0 <= i < after.len() ==> (#[trigger] after[i]).1.ticket < next_ticket,
        forall|i: int| 0 <= i < after.len() ==> (#[trigger] after[i]).1.timestamp <= last_timestamp,
{
    if after != before {
        let idx = choose|i: int| 0 <= i < before.len() && after == #[trigger] before.remove(i);
        assert forall|i: int, j: int| 0 <= i <= j < after.len() implies (
        #[trigger] after[i]).1.timestamp <= (#[trigger] after[j]).1.timestamp by {
            let i0 = if i < idx {
                i
            } else {
                i + 1
            };
            let j0 = if j < idx {
                j
            } else {
                j + 1
            };
            assert(after[i] == before[i0]);
            assert(after[j] == before[j0]);
        }
        assert forall|i: int| 0 <= i < after.len() implies (#[trigger] after[i]).1.ticket
            < next_ticket && after[i].1.timestamp <= last_timestamp by {
            let i0 = if i < idx {
                i
            } else {
                i + 1
            };
            assert(after[i] == before[i0]);
        }
    }
}

/// A registered device identifier belongs to at most one lifecycle stage at
/// any observation point; the atomic transitions above move it between
/// stages without ever leaving it in two.
pub proof fn lemma_stage_exclusive(r: Registry, uuid: u128)
    requires
        r.wf(),
    ensures
        !(has_key(r.init@, uuid) && has_key(r.pending@, uuid)),
        !(has_key(r.init@, uuid) && has_key(r.active@, uuid)),
        !(has_key(r.pending@, uuid) && has_key(r.active@, uuid)),
{
}

/// Resolution is consuming, so approving or rejecting an identifier twice
/// is idempotent: whatever the first call consumed, a second resolution of
/// the same identifier reports failure and leaves the registry exactly as
/// the first call left it.
pub proof fn lemma_second_resolution_is_noop(
    r0: Registry,
    r1: Registry,
    r2: Registry,
    uuid: u128,
    approve1: bool,
    approve2: bool,
    out1: Option<(u64, AccessApproval)>,
    out2: Option<(u64, AccessApproval)>,
)
    requires
        Registry::resolves(r0, r1, uuid, approve1, out1),
        out1 is Some,
        Registry::resolves(r1, r2, uuid, approve2, out2),
    ensures
        out2 is None,
        r2 == r1,
{
}

/// A cancelled (or otherwise cleaned-up) approval wait leaves no trace in
/// the pending queue: once its identifier is out of the pending map, no
/// pending record carries that identifier, so the entry cannot reappear in
/// the pending snapshot.
pub proof fn lemma_removed_entry_not_listed(r: Registry, uuid: u128)
    requires
        r.wf(),
        !has_key(r.pending@, uuid),
    ensures
        forall|i: int|
            0 <= i < r.pending@.len() ==> (#[trigger] r.pending@[i]).1.info.uuid != uuid,
{
    crate::assoc::lemma_absent_no_index(r.pending@, uuid);
}

} // verus!
