//! The prefix tree: a static forest of shard nodes under one root.
//!
//! A username maps deterministically to the shard of its first
//! [`SHARD_WIDTH`] characters. Shard nodes are well-known addresses, not
//! entities: the first use materializes one idempotently by linking it from
//! the root, so the whole directory can be enumerated from [`root_address`]
//! without knowing any prefix in advance. The fixed width bounds shard
//! fan-out; everything sharing a prefix collides into one shard and is told
//! apart by full-username edge tags.

use vstd::prelude::*;

use crate::address::{Address, AddressModel};
use crate::link_index::{edges_from, EdgeModel, LinkIndex};
use crate::ProfileError;

verus! {

/// The number of characters a shard key takes, and so the least length a
/// username or search prefix may have.
pub const SHARD_WIDTH: usize = 3;

/// The shard key of a username: its first [`SHARD_WIDTH`] characters.
pub open spec fn shard_key_of(username: Seq<char>) -> Seq<char>
    recommends
        username.len() >= SHARD_WIDTH,
{
    username.subrange(0, SHARD_WIDTH as int)
}

/// The single well-known address every shard node is linked from.
pub fn root_address() -> (a: Address)
    ensures
        a@ == AddressModel::Root,
{
    Address::Root
}

/// The shard address of `username` — a pure function of its first
/// [`SHARD_WIDTH`] characters. Fails with `InvalidUsername` exactly when the
/// username is shorter than that.
pub fn shard_address(username: &str) -> (r: Result<Address, ProfileError>)
    ensures
        match r {
            Ok(a) => username@.len() >= SHARD_WIDTH && a@ == AddressModel::Shard(
                shard_key_of(username@),
            ),
            Err(e) => username@.len() < SHARD_WIDTH && e == ProfileError::InvalidUsername,
        },
{
    if username.unicode_len() < SHARD_WIDTH {
        return Err(ProfileError::InvalidUsername);
    }
    let prefix = username.substring_char(0, SHARD_WIDTH);
    Ok(Address::Shard(prefix.to_owned()))
}

/// The index after a shard was idempotently materialized: unchanged when the
/// root already links the shard's key, extended by one root edge otherwise.
pub open spec fn ensure_shard_next(edges: Seq<EdgeModel>, key: Seq<char>) -> Seq<EdgeModel> {
    if edges_from(edges, AddressModel::Root, Some(key)).len() != 0 {
        edges
    } else {
        edges.push(
            EdgeModel {
                source: AddressModel::Root,
                target: AddressModel::Shard(key),
                tag: key,
            },
        )
    }
}

/// Materializes the shard node behind `shard` so that it is the source of
/// profile edges and the target of one root edge. Idempotent: a second call
/// on the same address leaves the index as it stands.
pub fn ensure_shard(index: &mut LinkIndex, shard: &Address)
    requires
        shard@ matches AddressModel::Shard(_),
    ensures
        final(index)@ == ensure_shard_next(old(index)@, shard@->Shard_0),
{
    match shard {
        Address::Shard(key) => {
            if !index.has_edge(&Address::Root, key) {
                index.add_edge(Address::Root, shard.clone(), key.clone());
            }
        },
        _ => {
            proof {
                assert(false);
            }
        },
    }
}

} // verus!
