//! Addresses of the nodes in the shared graph.
//!
//! Every node the directory touches is named by an `Address`: the well-known
//! root of the shard index, one shard node per 3-character username prefix, a
//! content-addressed record slot, or an externally issued participant
//! identity. Addresses are opaque to their holders; only the component that
//! minted one can say what stands behind it.

use vstd::prelude::*;

verus! {

/// An address in the shared record-and-link graph.
#[derive(Debug, PartialEq, Eq)]
pub enum Address {
    /// The single well-known top of the shard index.
    Root,
    /// The shard node of one 3-character username prefix.
    Shard(String),
    /// A slot of the record store.
    Record(usize),
    /// An externally issued participant identity.
    Agent(String),
}

/// The mathematical value of an [`Address`].
pub enum AddressModel {
    Root,
    Shard(Seq<char>),
    Record(int),
    Agent(Seq<char>),
}

impl View for Address {
    type V = AddressModel;

    open spec fn view(&self) -> AddressModel {
        match self {
            Address::Root => AddressModel::Root,
            Address::Shard(key) => AddressModel::Shard(key@),
            Address::Record(index) => AddressModel::Record(*index as int),
            Address::Agent(key) => AddressModel::Agent(key@),
        }
    }
}

impl Clone for Address {
    fn clone(&self) -> (r: Self)
        ensures
            r@ == self@,
    {
        match self {
            Address::Root => Address::Root,
            Address::Shard(key) => Address::Shard(key.clone()),
            Address::Record(index) => Address::Record(*index),
            Address::Agent(key) => Address::Agent(key.clone()),
        }
    }
}

/// Whether two addresses name the same node.
pub fn address_eq(a: &Address, b: &Address) -> (r: bool)
    ensures
        r == (a@ == b@),
{
    match (a, b) {
        (Address::Root, Address::Root) => true,
        (Address::Shard(x), Address::Shard(y)) => x.eq(y),
        (Address::Record(x), Address::Record(y)) => *x == *y,
        (Address::Agent(x), Address::Agent(y)) => x.eq(y),
        _ => false,
    }
}

} // verus!
