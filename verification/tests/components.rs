//! Behaviour of the leaf components: record store, link index, prefix tree.

use profiles::{
    ensure_shard, link_tag, root_address, shard_address, Address, LinkIndex, Profile, ProfileError,
    RecordStore,
};

fn profile(username: &str, fields: &[(&str, &str)]) -> Profile {
    Profile {
        username: username.to_string(),
        fields: fields.iter().map(|(k, v)| (k.to_string(), v.to_string())).collect(),
    }
}

#[test]
fn shard_address_takes_the_first_three_characters() {
    let a = shard_address("alice").unwrap();
    let b = shard_address("alibaba").unwrap();
    assert_eq!(a, b);
    assert_eq!(a, Address::Shard("ali".to_string()));
    let c = shard_address("bob1").unwrap();
    assert_ne!(a, c);
}

#[test]
fn shard_address_rejects_short_usernames() {
    assert_eq!(shard_address("ab").unwrap_err(), ProfileError::InvalidUsername);
    assert_eq!(shard_address("").unwrap_err(), ProfileError::InvalidUsername);
}

#[test]
fn ensure_shard_is_idempotent() {
    let mut index = LinkIndex::new();
    let shard = shard_address("abc999").unwrap();

    ensure_shard(&mut index, &shard);
    let once = index.list_edges(&root_address(), None);
    assert_eq!(once.len(), 1);
    assert_eq!(once[0].target, shard);

    ensure_shard(&mut index, &shard);
    let twice = index.list_edges(&root_address(), None);
    assert_eq!(once, twice);

    // A different shard still gets its own root edge.
    let other = shard_address("xyz111").unwrap();
    ensure_shard(&mut index, &other);
    assert_eq!(index.list_edges(&root_address(), None).len(), 2);
}

#[test]
fn link_index_lists_in_insertion_order_and_filters_by_tag() {
    let mut index = LinkIndex::new();
    let source = Address::Shard("abc".to_string());
    index.add_edge(source.clone(), Address::Record(0), link_tag("abcx"));
    index.add_edge(source.clone(), Address::Record(1), link_tag("abcy"));
    index.add_edge(Address::Root, Address::Shard("abc".to_string()), link_tag("abc"));

    let all = index.list_edges(&source, None);
    assert_eq!(all.len(), 2);
    assert_eq!(all[0].target, Address::Record(0));
    assert_eq!(all[1].target, Address::Record(1));

    let tagged = index.list_edges(&source, Some(&"abcy".to_string()));
    assert_eq!(tagged.len(), 1);
    assert_eq!(tagged[0].target, Address::Record(1));

    assert_eq!(index.list_edges(&source, Some(&"other".to_string())).len(), 0);
    assert_eq!(index.list_edges(&Address::Record(0), None).len(), 0);
}

#[test]
fn link_index_keeps_duplicate_edges() {
    let mut index = LinkIndex::new();
    let source = Address::Agent("I1".to_string());
    index.add_edge(source.clone(), Address::Record(0), link_tag("profile"));
    index.add_edge(source.clone(), Address::Record(0), link_tag("profile"));
    assert_eq!(index.list_edges(&source, Some(&"profile".to_string())).len(), 2);
}

#[test]
fn record_store_is_content_addressed() {
    let mut store = RecordStore::new();
    let first = store.put(profile("alice", &[("bio", "hi")]), "I1".to_string());
    // An identical profile put by someone else lands on the same address,
    // and the slot keeps its first author.
    let second = store.put(profile("alice", &[("bio", "hi")]), "I2".to_string());
    assert_eq!(first, second);
    let rec = store.get(&first).unwrap();
    assert_eq!(rec.author, "I1".to_string());
    assert_eq!(rec.profile, profile("alice", &[("bio", "hi")]));

    // Different content gets a different address.
    let third = store.put(profile("alice", &[("bio", "other")]), "I3".to_string());
    assert_ne!(first, third);
}

#[test]
fn record_store_get_of_unknown_address_is_not_found() {
    let mut store = RecordStore::new();
    assert_eq!(store.get(&Address::Record(0)).unwrap_err(), ProfileError::NotFound);
    store.put(profile("alice", &[]), "I1".to_string());
    assert_eq!(store.get(&Address::Record(1)).unwrap_err(), ProfileError::NotFound);
    assert_eq!(store.get(&Address::Root).unwrap_err(), ProfileError::NotFound);
    assert_eq!(
        store.get(&Address::Agent("I1".to_string())).unwrap_err(),
        ProfileError::NotFound,
    );
}

#[test]
fn link_tag_carries_the_tag_string() {
    assert_eq!(link_tag("profile"), "profile".to_string());
    assert_eq!(link_tag("alice123"), "alice123".to_string());
}
