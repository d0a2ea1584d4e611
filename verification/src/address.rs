use crate::bytes::same_bytes;
use vstd::prelude::*;

verus! {

/// The public key that identifies a peer. It also names a place in the
/// shared store, so links can start from it.
#[derive(Debug, PartialEq, Eq)]
pub struct AgentKey {
    pub bytes: Vec<u8>,
}

impl View for AgentKey {
    type V = Seq<u8>;

    open spec fn view(&self) -> Seq<u8> {
        self.bytes@
    }
}

impl Clone for AgentKey {
    fn clone(&self) -> (copy: Self)
        ensures
            copy@ == self@,
    {
        AgentKey { bytes: self.bytes.clone() }
    }
}

impl AgentKey {
    pub fn new(bytes: Vec<u8>) -> (key: Self)
        ensures
            key@ == bytes@,
    {
        AgentKey { bytes }
    }

    /// Whether two keys name the same peer.
    pub fn same_as(&self, other: &AgentKey) -> (same: bool)
        ensures
            same == (self@ == other@),
    {
        same_bytes(&self.bytes, &other.bytes)
    }
}

/// The address of stored content: a digest of its serialized bytes. Equal
/// payloads always have equal addresses.
#[derive(Debug, PartialEq, Eq)]
pub struct ContentAddress {
    pub bytes: Vec<u8>,
}

impl View for ContentAddress {
    type V = Seq<u8>;

    open spec fn view(&self) -> Seq<u8> {
        self.bytes@
    }
}

impl Clone for ContentAddress {
    fn clone(&self) -> (copy: Self)
        ensures
            copy@ == self@,
    {
        ContentAddress { bytes: self.bytes.clone() }
    }
}

impl ContentAddress {
    pub fn new(bytes: Vec<u8>) -> (address: Self)
        ensures
            address@ == bytes@,
    {
        ContentAddress { bytes }
    }

    /// Whether two addresses name the same content.
    pub fn same_as(&self, other: &ContentAddress) -> (same: bool)
        ensures
            same == (self@ == other@),
    {
        same_bytes(&self.bytes, &other.bytes)
    }
}

/// The identifier of one recorded action, such as the creation of a link.
/// The identifier of a link's creation is also the invitation's identifier.
#[derive(Debug, PartialEq, Eq)]
pub struct ActionId {
    pub bytes: Vec<u8>,
}

impl View for ActionId {
    type V = Seq<u8>;

    open spec fn view(&self) -> Seq<u8> {
        self.bytes@
    }
}

impl Clone for ActionId {
    fn clone(&self) -> (copy: Self)
        ensures
            copy@ == self@,
    {
        ActionId { bytes: self.bytes.clone() }
    }
}

impl ActionId {
    pub fn new(bytes: Vec<u8>) -> (id: Self)
        ensures
            id@ == bytes@,
    {
        ActionId { bytes }
    }

    /// Whether two identifiers name the same action.
    pub fn same_as(&self, other: &ActionId) -> (same: bool)
        ensures
            same == (self@ == other@),
    {
        same_bytes(&self.bytes, &other.bytes)
    }
}

/// Either end of a link: a peer or a piece of content. The two kinds never
/// compare equal, whatever bytes they hold.
#[derive(Debug, PartialEq, Eq)]
pub enum Address {
    Agent(AgentKey),
    Entry(ContentAddress),
}

/// An [`Address`] as a mathematical value.
pub enum AddressView {
    Agent(Seq<u8>),
    Entry(Seq<u8>),
}

impl View for Address {
    type V = AddressView;

    open spec fn view(&self) -> AddressView {
        match self {
            Address::Agent(key) => AddressView::Agent(key@),
            Address::Entry(address) => AddressView::Entry(address@),
        }
    }
}

impl Clone for Address {
    fn clone(&self) -> (copy: Self)
        ensures
            copy@ == self@,
    {
        match self {
            Address::Agent(key) => Address::Agent(key.clone()),
            Address::Entry(address) => Address::Entry(address.clone()),
        }
    }
}

impl Address {
    /// Whether two addresses are of the same kind and hold the same bytes.
    pub fn same_as(&self, other: &Address) -> (same: bool)
        ensures
            same == (self@ == other@),
    {
        match (self, other) {
            (Address::Agent(a), Address::Agent(b)) => a.same_as(b),
            (Address::Entry(a), Address::Entry(b)) => a.same_as(b),
            _ => false,
        }
    }
}

} // verus!
