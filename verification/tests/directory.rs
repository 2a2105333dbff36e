//! End-to-end behaviour of the directory service.

use profiles::{
    create_profile, get_agent_profile, get_all_profiles, search_profiles, username_exists,
    Directory, Profile, ProfileError,
};

fn profile(username: &str, fields: &[(&str, &str)]) -> Profile {
    Profile {
        username: username.to_string(),
        fields: fields.iter().map(|(k, v)| (k.to_string(), v.to_string())).collect(),
    }
}

#[test]
fn create_then_get_returns_created_profile() {
    let mut dir = Directory::new();
    let p = profile("alice", &[("bio", "hi")]);
    let created = create_profile(&mut dir, "I1".to_string(), profile("alice", &[("bio", "hi")]))
        .unwrap();
    assert_eq!(created.agent_pub_key, "I1".to_string());
    assert_eq!(created.profile, p);

    let found = get_agent_profile(&dir, "I1".to_string()).unwrap();
    let found = found.expect("the creating identity must resolve to its profile");
    assert_eq!(found.agent_pub_key, "I1".to_string());
    assert_eq!(found.profile, p);

    let hits = search_profiles(&dir, "ali".to_string()).unwrap();
    assert_eq!(hits.len(), 1);
    assert_eq!(hits[0].agent_pub_key, "I1".to_string());
    assert_eq!(hits[0].profile, p);
}

#[test]
fn short_username_is_rejected() {
    let mut dir = Directory::new();
    let r = create_profile(&mut dir, "I1".to_string(), profile("ab", &[]));
    assert_eq!(r.unwrap_err(), ProfileError::InvalidUsername);
    let r = create_profile(&mut dir, "I1".to_string(), profile("", &[]));
    assert_eq!(r.unwrap_err(), ProfileError::InvalidUsername);
    assert_eq!(get_all_profiles(&dir).unwrap().len(), 0);
}

#[test]
fn short_prefix_is_rejected() {
    let dir = Directory::new();
    let r = search_profiles(&dir, "ab".to_string());
    assert_eq!(r.unwrap_err(), ProfileError::PrefixTooShort);
    let r = search_profiles(&dir, "".to_string());
    assert_eq!(r.unwrap_err(), ProfileError::PrefixTooShort);
}

#[test]
fn duplicate_username_is_rejected_sequentially() {
    let mut dir = Directory::new();
    create_profile(&mut dir, "I1".to_string(), profile("alice123", &[("bio", "hi")])).unwrap();
    let second = create_profile(
        &mut dir,
        "I2".to_string(),
        profile("alice123", &[("bio", "someone else")]),
    );
    assert_eq!(second.unwrap_err(), ProfileError::DuplicateUsername);
    // The losing caller got nothing bound to its identity.
    assert_eq!(get_agent_profile(&dir, "I2".to_string()).unwrap(), None);
    // The first profile still stands alone in its shard.
    assert_eq!(search_profiles(&dir, "ali".to_string()).unwrap().len(), 1);
}

#[test]
fn search_returns_exactly_the_shard() {
    let mut dir = Directory::new();
    create_profile(&mut dir, "I1".to_string(), profile("abcx", &[])).unwrap();
    create_profile(&mut dir, "I2".to_string(), profile("abzq", &[])).unwrap();
    create_profile(&mut dir, "I3".to_string(), profile("abcy", &[])).unwrap();

    let abc = search_profiles(&dir, "abc".to_string()).unwrap();
    assert_eq!(abc.len(), 2);
    assert_eq!(abc[0].profile.username, "abcx".to_string());
    assert_eq!(abc[0].agent_pub_key, "I1".to_string());
    assert_eq!(abc[1].profile.username, "abcy".to_string());
    assert_eq!(abc[1].agent_pub_key, "I3".to_string());

    let abz = search_profiles(&dir, "abz".to_string()).unwrap();
    assert_eq!(abz.len(), 1);
    assert_eq!(abz[0].profile.username, "abzq".to_string());

    // A longer prefix still returns the whole 3-character shard.
    let abcd = search_profiles(&dir, "abcd".to_string()).unwrap();
    assert_eq!(abcd.len(), 2);

    // A shard nobody used is empty.
    assert_eq!(search_profiles(&dir, "zzz".to_string()).unwrap().len(), 0);
}

#[test]
fn list_all_profiles_spans_every_shard() {
    let mut dir = Directory::new();
    create_profile(&mut dir, "I1".to_string(), profile("aaa1", &[])).unwrap();
    create_profile(&mut dir, "I2".to_string(), profile("aaa2", &[])).unwrap();
    create_profile(&mut dir, "I3".to_string(), profile("bbb1", &[])).unwrap();

    let all = get_all_profiles(&dir).unwrap();
    assert_eq!(all.len(), 3);
    assert_eq!(all[0].profile.username, "aaa1".to_string());
    assert_eq!(all[1].profile.username, "aaa2".to_string());
    assert_eq!(all[2].profile.username, "bbb1".to_string());

    // The three records stand partitioned across exactly two shards.
    assert_eq!(search_profiles(&dir, "aaa".to_string()).unwrap().len(), 2);
    assert_eq!(search_profiles(&dir, "bbb".to_string()).unwrap().len(), 1);
}

#[test]
fn username_of_exactly_shard_width_is_accepted() {
    let mut dir = Directory::new();
    let created = create_profile(&mut dir, "I1".to_string(), profile("bob", &[])).unwrap();
    assert_eq!(created.profile.username, "bob".to_string());
    let hits = search_profiles(&dir, "bob".to_string()).unwrap();
    assert_eq!(hits.len(), 1);
    assert_eq!(hits[0].profile.username, "bob".to_string());
}

#[test]
fn profile_fields_ride_along_unchanged() {
    let mut dir = Directory::new();
    let fields = [("bio", "hi"), ("city", "wellington"), ("pronouns", "they/them")];
    create_profile(&mut dir, "I1".to_string(), profile("carol77", &fields)).unwrap();
    let found = get_agent_profile(&dir, "I1".to_string()).unwrap().unwrap();
    assert_eq!(found.profile, profile("carol77", &fields));
}

#[test]
fn lookup_of_unknown_identity_is_none() {
    let dir = Directory::new();
    assert_eq!(get_agent_profile(&dir, "I1".to_string()).unwrap(), None);
}

#[test]
fn username_exists_tracks_creation() {
    let mut dir = Directory::new();
    assert!(!username_exists(&dir, &"zzz9".to_string()).unwrap());
    create_profile(&mut dir, "I1".to_string(), profile("zzz9", &[])).unwrap();
    assert!(username_exists(&dir, &"zzz9".to_string()).unwrap());
    // A different name in the same shard is still free.
    assert!(!username_exists(&dir, &"zzz8".to_string()).unwrap());
    let r = username_exists(&dir, &"zz".to_string());
    assert_eq!(r.unwrap_err(), ProfileError::InvalidUsername);
}

#[test]
fn one_identity_may_hold_two_usernames_first_wins_on_read() {
    let mut dir = Directory::new();
    create_profile(&mut dir, "I1".to_string(), profile("first999", &[])).unwrap();
    create_profile(&mut dir, "I1".to_string(), profile("second999", &[])).unwrap();
    // The read path picks the first edge rather than failing.
    let found = get_agent_profile(&dir, "I1".to_string()).unwrap().unwrap();
    assert_eq!(found.profile.username, "first999".to_string());
}
