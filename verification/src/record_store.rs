//! The record store: content-addressed, durable profile records.
//!
//! `put` computes a deterministic content address — repeated puts of an
//! identical profile are idempotent and yield the same address, and the
//! author reported for a slot stays the identity that performed the first
//! put. `get` hands the record back together with that authoring identity.

use vstd::prelude::*;

use crate::address::{Address, AddressModel};
use crate::profile::{profile_eq, Profile, ProfileModel};
use crate::ProfileError;

verus! {

/// A stored profile together with the identity that first put it.
#[derive(Debug, PartialEq, Eq)]
pub struct StoredRecord {
    pub profile: Profile,
    pub author: String,
}

/// The mathematical value of a [`StoredRecord`].
#[verifier::ext_equal]
pub struct StoredRecordModel {
    pub profile: ProfileModel,
    pub author: Seq<char>,
}

impl View for StoredRecord {
    type V = StoredRecordModel;

    open spec fn view(&self) -> StoredRecordModel {
        StoredRecordModel { profile: self.profile@, author: self.author@ }
    }
}

impl Clone for StoredRecord {
    fn clone(&self) -> (r: Self)
        ensures
            r@ == self@,
    {
        StoredRecord { profile: self.profile.clone(), author: self.author.clone() }
    }
}

/// The values of a sequence of stored records.
pub open spec fn record_models(s: Seq<StoredRecord>) -> Seq<StoredRecordModel> {
    s.map_values(|r: StoredRecord| r@)
}

/// The content address a put of `p` yields over `records`: the slot of the
/// first record holding an equal profile, or the fresh slot one past the end
/// when no record does.
pub open spec fn put_slot(records: Seq<StoredRecordModel>, p: ProfileModel) -> int
    decreases records.len(),
{
    if records.len() == 0 {
        0
    } else if records[0].profile == p {
        0
    } else {
        1 + put_slot(records.drop_first(), p)
    }
}

/// `put_slot` is the first slot holding `p`, or the length when none does.
pub proof fn lemma_put_slot_is_first(records: Seq<StoredRecordModel>, p: ProfileModel, i: int)
    requires
        0 <= i <= records.len(),
        forall|j: int| 0 <= j < i ==> records[j].profile != p,
        i < records.len() ==> records[i].profile == p,
    ensures
        put_slot(records, p) == i,
    decreases records.len(),
{
    if records.len() == 0 {
    } else if i == 0 {
    } else {
        assert(records[0].profile != p);
        assert forall|j: int| 0 <= j < i - 1 implies records.drop_first()[j].profile != p by {
            assert(records.drop_first()[j] == records[j + 1]);
        }
        if i - 1 < records.drop_first().len() {
            assert(records.drop_first()[i - 1] == records[i]);
        }
        lemma_put_slot_is_first(records.drop_first(), p, i - 1);
    }
}

/// `put_slot` never leaves the store: it is an existing slot or the one just
/// past the end.
pub proof fn lemma_put_slot_bounds(records: Seq<StoredRecordModel>, p: ProfileModel)
    ensures
        0 <= put_slot(records, p) <= records.len(),
    decreases records.len(),
{
    if records.len() == 0 {
    } else if records[0].profile == p {
    } else {
        lemma_put_slot_bounds(records.drop_first(), p);
    }
}

/// What `put_slot` points at: an equal profile when it hits an existing slot.
pub proof fn lemma_put_slot_hit(records: Seq<StoredRecordModel>, p: ProfileModel)
    requires
        put_slot(records, p) < records.len(),
    ensures
        0 <= put_slot(records, p),
        records[put_slot(records, p)].profile == p,
    decreases records.len(),
{
    if records.len() == 0 {
    } else if records[0].profile == p {
    } else {
        lemma_put_slot_hit(records.drop_first(), p);
        assert(records.drop_first()[put_slot(records, p) - 1] == records[put_slot(records, p)]);
    }
}

/// When `put_slot` points past the end, no stored profile equals `p`.
pub proof fn lemma_put_slot_miss(records: Seq<StoredRecordModel>, p: ProfileModel)
    requires
        put_slot(records, p) == records.len(),
    ensures
        forall|j: int| 0 <= j < records.len() ==> records[j].profile != p,
    decreases records.len(),
{
    if records.len() == 0 {
    } else {
        lemma_put_slot_bounds(records.drop_first(), p);
        lemma_put_slot_miss(records.drop_first(), p);
        assert forall|j: int| 0 <= j < records.len() implies records[j].profile != p by {
            if j > 0 {
                assert(records.drop_first()[j - 1] == records[j]);
            }
        }
    }
}

/// Puts are idempotent: the store a put of `p` leaves behind already holds
/// `p`, at the very slot the put returned — so an identical second put
/// changes nothing and yields the same address.
pub proof fn lemma_put_idempotent(
    records: Seq<StoredRecordModel>,
    p: ProfileModel,
    author: Seq<char>,
)
    ensures
        ({
            let slot = put_slot(records, p);
            let stored = if slot < records.len() {
                records
            } else {
                records.push(StoredRecordModel { profile: p, author })
            };
            put_slot(stored, p) == slot && slot < stored.len()
        }),
{
    lemma_put_slot_bounds(records, p);
    let slot = put_slot(records, p);
    if slot == records.len() {
        let stored = records.push(StoredRecordModel { profile: p, author });
        lemma_put_slot_miss(records, p);
        assert forall|j: int| 0 <= j < slot implies stored[j].profile != p by {
            assert(stored[j] == records[j]);
        }
        lemma_put_slot_is_first(stored, p, slot);
    }
}

/// The content-addressed store of profile records.
pub struct RecordStore {
    records: Vec<StoredRecord>,
}

impl View for RecordStore {
    type V = Seq<StoredRecordModel>;

    closed spec fn view(&self) -> Seq<StoredRecordModel> {
        record_models(self.records@)
    }
}

impl RecordStore {
    /// A store with no records.
    pub fn new() -> (s: RecordStore)
        ensures
            s@ == Seq::<StoredRecordModel>::empty(),
    {
        let s = RecordStore { records: Vec::new() };
        proof {
            assert(s@ =~= Seq::<StoredRecordModel>::empty());
        }
        s
    }

    /// Persists `profile` under its content address and returns that address.
    ///
    /// A put of content the store already holds changes nothing and returns
    /// the existing address — the first author stays on the slot.
    pub fn put(&mut self, profile: Profile, author: String) -> (addr: Address)
        ensures
            0 <= put_slot(old(self)@, profile@) <= old(self)@.len(),
            addr@ == AddressModel::Record(put_slot(old(self)@, profile@)),
            put_slot(old(self)@, profile@) < old(self)@.len() ==> final(self)@ == old(self)@,
            put_slot(old(self)@, profile@) == old(self)@.len() ==> final(self)@ == old(self)@.push(
                StoredRecordModel { profile: profile@, author: author@ },
            ),
    {
        let mut i: usize = 0;
        while i < self.records.len()
            invariant
                i <= self.records.len(),
                *self == *old(self),
                forall|j: int| 0 <= j < i ==> self@[j].profile != profile@,
            decreases self.records.len() - i,
        {
            if profile_eq(&self.records[i].profile, &profile) {
                proof {
                    lemma_put_slot_is_first(self@, profile@, i as int);
                }
                return Address::Record(i);
            }
            i = i + 1;
        }
        proof {
            lemma_put_slot_is_first(self@, profile@, self@.len() as int);
        }
        let slot = self.records.len();
        let ghost m = StoredRecordModel { profile: profile@, author: author@ };
        self.records.push(StoredRecord { profile, author });
        proof {
            assert(self@ =~= old(self)@.push(m));
        }
        Address::Record(slot)
    }

    /// Reads the record stored at `addr`, with its authoring identity.
    ///
    /// Fails with `NotFound` exactly when `addr` is no record address or its
    /// slot was never written.
    pub fn get(&self, addr: &Address) -> (r: Result<StoredRecord, ProfileError>)
        ensures
            match r {
                Ok(rec) => addr@ matches AddressModel::Record(i) && 0 <= i < self@.len() && rec@
                    == self@[i],
                Err(e) => {
                    &&& e == ProfileError::NotFound
                    &&& !match addr@ {
                        AddressModel::Record(i) => 0 <= i < self@.len(),
                        _ => false,
                    }
                },
            },
    {
        match addr {
            Address::Record(i) => {
                if *i < self.records.len() {
                    Ok(self.records[*i].clone())
                } else {
                    Err(ProfileError::NotFound)
                }
            },
            _ => Err(ProfileError::NotFound),
        }
    }
}

} // verus!
