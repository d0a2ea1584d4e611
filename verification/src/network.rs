use crate::address::AgentKey;
use crate::capability::{GrantView, UnrestrictedGrant};
use crate::dht::{Dht, DhtView, EntryContentView, LinkRecordView};
use crate::invitation::{Signal, SignalView};
use crate::view::views;
use vstd::prelude::*;

verus! {

/// A grant together with the peer who made it.
#[derive(Debug, PartialEq, Eq)]
pub struct GrantRecord {
    pub grantor: AgentKey,
    pub grant: UnrestrictedGrant,
}

/// A [`GrantRecord`] as a mathematical value.
pub struct GrantRecordView {
    pub grantor: Seq<u8>,
    pub grant: GrantView,
}

impl View for GrantRecord {
    type V = GrantRecordView;

    open spec fn view(&self) -> GrantRecordView {
        GrantRecordView { grantor: self.grantor@, grant: self.grant@ }
    }
}

/// A notification on its way to a peer. It may arrive once, late, or
/// never, and nobody is told which.
#[derive(Debug, PartialEq, Eq)]
pub struct Envelope {
    pub to: AgentKey,
    pub payload: Vec<u8>,
}

/// An [`Envelope`] as a mathematical value.
pub struct EnvelopeView {
    pub to: Seq<u8>,
    pub payload: Seq<u8>,
}

impl View for Envelope {
    type V = EnvelopeView;

    open spec fn view(&self) -> EnvelopeView {
        EnvelopeView { to: self.to@, payload: self.payload@ }
    }
}

/// A notification that a peer has passed on to its own listeners.
#[derive(Debug, PartialEq, Eq)]
pub struct Emission {
    pub at: AgentKey,
    pub signal: Signal,
}

/// An [`Emission`] as a mathematical value.
pub struct EmissionView {
    pub at: Seq<u8>,
    pub signal: SignalView,
}

impl View for Emission {
    type V = EmissionView;

    open spec fn view(&self) -> EmissionView {
        EmissionView { at: self.at@, signal: self.signal@ }
    }
}

/// A network of peers as a mathematical value.
pub struct NetworkView {
    pub dht: DhtView,
    pub grants: Seq<GrantRecordView>,
    pub in_flight: Seq<EnvelopeView>,
    pub emitted: Seq<EmissionView>,
}

impl NetworkView {
    /// Whether any peer may call `function` of `zome` at `callee`: whether
    /// `callee` has made a grant that lists it.
    pub open spec fn permits(self, callee: Seq<u8>, zome: Seq<char>, function: Seq<char>) -> bool {
        exists|i: int|
            0 <= i < self.grants.len() && (#[trigger] self.grants[i]).grantor == callee
                && self.grants[i].grant.covers(zome, function)
    }

    /// The network after `grantor` made `grant`.
    pub open spec fn with_grant(self, grantor: Seq<u8>, grant: GrantView) -> NetworkView {
        NetworkView {
            dht: self.dht,
            grants: self.grants.push(GrantRecordView { grantor, grant }),
            in_flight: self.in_flight,
            emitted: self.emitted,
        }
    }

    /// The network after a notification was sent off to `to`.
    pub open spec fn with_envelope(self, to: Seq<u8>, payload: Seq<u8>) -> NetworkView {
        NetworkView {
            dht: self.dht,
            grants: self.grants,
            in_flight: self.in_flight.push(EnvelopeView { to, payload }),
            emitted: self.emitted,
        }
    }

    /// The network after the peer `at` passed `signal` on to its listeners.
    pub open spec fn with_emission(self, at: Seq<u8>, signal: SignalView) -> NetworkView {
        NetworkView {
            dht: self.dht,
            grants: self.grants,
            in_flight: self.in_flight,
            emitted: self.emitted.push(EmissionView { at, signal }),
        }
    }

    /// The network with another state of its store.
    pub open spec fn with_dht(self, dht: DhtView) -> NetworkView {
        NetworkView { dht, grants: self.grants, in_flight: self.in_flight, emitted: self.emitted }
    }
}

/// A model of a network of peers around one shared store: the store, the
/// grants that peers have made, the notifications under way, and those
/// that peers have passed on to their listeners.
#[derive(Debug)]
pub struct Network {
    pub dht: Dht,
    pub grants: Vec<GrantRecord>,
    pub in_flight: Vec<Envelope>,
    pub emitted: Vec<Emission>,
}

impl View for Network {
    type V = NetworkView;

    open spec fn view(&self) -> NetworkView {
        NetworkView {
            dht: self.dht@,
            grants: views(self.grants@),
            in_flight: views(self.in_flight@),
            emitted: views(self.emitted@),
        }
    }
}

impl Network {
    /// The network's store is well formed.
    pub open spec fn wf(&self) -> bool {
        self.dht.wf()
    }

    /// A network with an empty store, no grants and no notifications.
    pub fn new() -> (net: Network)
        ensures
            net.wf(),
            net@.dht.online,
            net@.dht.entries == Map::<Seq<u8>, EntryContentView>::empty(),
            net@.dht.links == Seq::<LinkRecordView>::empty(),
            net@.grants == Seq::<GrantRecordView>::empty(),
            net@.in_flight == Seq::<EnvelopeView>::empty(),
            net@.emitted == Seq::<EmissionView>::empty(),
    {
        let net = Network {
            dht: Dht::new(),
            grants: Vec::new(),
            in_flight: Vec::new(),
            emitted: Vec::new(),
        };
        assert(net@.grants =~= Seq::<GrantRecordView>::empty());
        assert(net@.in_flight =~= Seq::<EnvelopeView>::empty());
        assert(net@.emitted =~= Seq::<EmissionView>::empty());
        net
    }

    /// Whether any peer may call `function` of `zome` at `callee`.
    pub fn permits(&self, callee: &AgentKey, zome: &String, function: &String) -> (permitted: bool)
        ensures
            permitted == self@.permits(callee@, zome@, function@),
    {
        let mut i: usize = 0;
        while i < self.grants.len()
            invariant
                i <= self.grants.len(),
                forall|j: int|
                    0 <= j < i ==> !((#[trigger] self@.grants[j]).grantor == callee@
                        && self@.grants[j].grant.covers(zome@, function@)),
            decreases self.grants.len() - i,
        {
            if self.grants[i].grantor.same_as(callee) && self.grants[i].grant.covers(
                zome,
                function,
            ) {
                assert(self@.grants[i as int].grantor == callee@);
                return true;
            }
            i += 1;
        }
        false
    }

    /// Takes the notification at position `index` out of those under way,
    /// to deliver it or to lose it. The others keep their order.
    pub fn take_envelope(&mut self, index: usize) -> (envelope: Option<Envelope>)
        requires
            old(self).wf(),
        ensures
            final(self).wf(),
            final(self)@.dht == old(self)@.dht,
            final(self)@.grants == old(self)@.grants,
            final(self)@.emitted == old(self)@.emitted,
            match envelope {
                Some(e) => {
                    &&& index < old(self)@.in_flight.len()
                    &&& e@ == old(self)@.in_flight[index as int]
                    &&& final(self)@.in_flight == old(self)@.in_flight.remove(index as int)
                },
                None => {
                    &&& index >= old(self)@.in_flight.len()
                    &&& final(self)@.in_flight == old(self)@.in_flight
                },
            },
    {
        if index < self.in_flight.len() {
            let envelope = self.in_flight.remove(index);
            assert(self@.in_flight =~= old(self)@.in_flight.remove(index as int));
            Some(envelope)
        } else {
            None
        }
    }
}

} // verus!
