//! A peer-to-peer profile directory.
//!
//! Participants register a unique human-readable profile (a username plus
//! free-form fields), look up the profile bound to an identity, and search
//! profiles by username prefix — all over a shared, append-only link graph
//! rather than a central index:
//!
//! - [`record_store`] content-addresses and persists profile records;
//! - [`link_index`] keeps directed, tagged, append-only edges between
//!   addresses;
//! - [`prefix_tree`] maps a username to its shard node via a fixed-width
//!   3-character prefix and links every shard from one well-known root;
//! - [`profile`] is the directory service itself: it enforces the
//!   one-profile-per-username rule and orchestrates the two link namespaces
//!   (identity to profile, shard to profile).
//!
//! The laws the design obeys — create-then-get, idempotent shard creation,
//! sequential username uniqueness, shard search exactness — are stated and
//! proved in [`laws`].

use vstd::prelude::*;

pub mod address;
pub mod laws;
pub mod link_index;
pub mod prefix_tree;
pub mod profile;
pub mod record_store;

pub use address::Address;
pub use link_index::{Edge, LinkIndex};
pub use prefix_tree::{ensure_shard, root_address, shard_address, SHARD_WIDTH};
pub use profile::{
    create_profile, get_agent_profile, get_agent_profiles_for_path, get_all_profiles, link_tag,
    search_profiles, username_exists, AgentProfile, Directory, Profile,
};
pub use record_store::{RecordStore, StoredRecord};

verus! {

/// Everything that a directory operation can fail with.
///
/// `NotFound` marks a dangling address during resolution: an edge that points
/// at no stored record, or a read of an address that was never written. The
/// other three reject invalid or conflicting input.
#[derive(Clone, Copy, Debug, PartialEq, Eq, Structural)]
pub enum ProfileError {
    /// The username is shorter than the 3-character shard width.
    InvalidUsername,
    /// The search prefix is shorter than the 3-character shard width.
    PrefixTooShort,
    /// A profile with exactly this username already exists.
    DuplicateUsername,
    /// The address has no stored record behind it.
    NotFound,
}

} // verus!
