//! The directory service: create, look up and search profiles.
//!
//! A [`Directory`] holds the two collaborating stores — the content-addressed
//! [`RecordStore`] and the append-only [`LinkIndex`] — and the operations
//! enforce the one-profile-per-username rule over them. Two link namespaces
//! keep each other out of the way: an edge from a shard node carries the full
//! username as its tag, while an edge from an identity carries the reserved
//! tag (see [`reserved_tag`]).

use vstd::prelude::*;

use crate::address::{Address, AddressModel};
use crate::link_index::{edge_models, edges_from, Edge, EdgeModel, LinkIndex};
use crate::prefix_tree::{
    ensure_shard, ensure_shard_next, root_address, shard_address, shard_key_of, SHARD_WIDTH,
};
use crate::record_store::{put_slot, RecordStore, StoredRecordModel};
use crate::ProfileError;

verus! {

/// A participant's profile: a username and free-form fields.
///
/// Immutable once created; the fields mapping is carried as a sequence of
/// key-value pairs in the order the author gave them.
#[derive(Debug, PartialEq, Eq)]
pub struct Profile {
    pub username: String,
    pub fields: Vec<(String, String)>,
}

/// The mathematical value of a [`Profile`].
#[verifier::ext_equal]
pub struct ProfileModel {
    pub username: Seq<char>,
    pub fields: Seq<(Seq<char>, Seq<char>)>,
}

/// The values of a sequence of field pairs.
pub open spec fn fields_model(s: Seq<(String, String)>) -> Seq<(Seq<char>, Seq<char>)> {
    s.map_values(|kv: (String, String)| (kv.0@, kv.1@))
}

impl View for Profile {
    type V = ProfileModel;

    open spec fn view(&self) -> ProfileModel {
        ProfileModel { username: self.username@, fields: fields_model(self.fields@) }
    }
}

impl Clone for Profile {
    fn clone(&self) -> (r: Self)
        ensures
            r@ == self@,
    {
        let mut fields: Vec<(String, String)> = Vec::new();
        let mut i: usize = 0;
        while i < self.fields.len()
            invariant
                i <= self.fields.len(),
                fields@.len() == i,
                forall|j: int| 0 <= j < i ==> fields@[j] == self.fields@[j],
            decreases self.fields.len() - i,
        {
            let kv = &self.fields[i];
            fields.push((kv.0.clone(), kv.1.clone()));
            i = i + 1;
        }
        proof {
            assert(fields@ =~= self.fields@);
        }
        Profile { username: self.username.clone(), fields }
    }
}

/// Whether two profiles hold the same value.
pub fn profile_eq(a: &Profile, b: &Profile) -> (r: bool)
    ensures
        r == (a@ == b@),
{
    if !a.username.eq(&b.username) {
        return false;
    }
    if a.fields.len() != b.fields.len() {
        assert(a@.fields.len() != b@.fields.len());
        return false;
    }
    let mut i: usize = 0;
    while i < a.fields.len()
        invariant
            i <= a.fields.len(),
            a.fields.len() == b.fields.len(),
            a@.username == b@.username,
            forall|j: int| 0 <= j < i ==> a@.fields[j] == b@.fields[j],
        decreases a.fields.len() - i,
    {
        let ka = &a.fields[i];
        let kb = &b.fields[i];
        if !ka.0.eq(&kb.0) || !ka.1.eq(&kb.1) {
            assert(a@.fields[i as int] != b@.fields[i as int]);
            return false;
        }
        i = i + 1;
    }
    proof {
        assert(a@.fields =~= b@.fields);
    }
    true
}

/// A profile paired with the identity that authored it — the on-the-wire
/// result of every read. Constructed on read, never stored.
#[derive(Debug, PartialEq, Eq)]
pub struct AgentProfile {
    pub agent_pub_key: String,
    pub profile: Profile,
}

/// The mathematical value of an [`AgentProfile`].
#[verifier::ext_equal]
pub struct AgentProfileModel {
    pub agent_pub_key: Seq<char>,
    pub profile: ProfileModel,
}

impl View for AgentProfile {
    type V = AgentProfileModel;

    open spec fn view(&self) -> AgentProfileModel {
        AgentProfileModel { agent_pub_key: self.agent_pub_key@, profile: self.profile@ }
    }
}

/// The values of a sequence of agent profiles.
pub open spec fn agent_profiles_model(s: Seq<AgentProfile>) -> Seq<AgentProfileModel> {
    s.map_values(|ap: AgentProfile| ap@)
}

/// Taking the values of a sequence commutes with appending one element.
proof fn lemma_agent_profiles_model_push(s: Seq<AgentProfile>, ap: AgentProfile)
    ensures
        agent_profiles_model(s.push(ap)) == agent_profiles_model(s).push(ap@),
{
    assert(agent_profiles_model(s.push(ap)) =~= agent_profiles_model(s).push(ap@));
}

/// The tag reserved for identity-to-profile edges. Shard-to-profile edges
/// carry a literal username instead; the two namespaces never share a source
/// address, so equal tag bytes cannot collide.
pub open spec fn reserved_tag() -> Seq<char> {
    "profile"@
}

/// The tag value that marks an edge, here simply the tag string itself.
pub fn link_tag(tag: &str) -> (t: String)
    ensures
        t@ == tag@,
{
    tag.to_owned()
}

/// The whole shared state the directory works over: the record store and the
/// link index.
pub struct Directory {
    store: RecordStore,
    index: LinkIndex,
}

/// The mathematical value of a [`Directory`]: its stored records and its
/// edges.
#[verifier::ext_equal]
pub struct DirectoryModel {
    pub records: Seq<StoredRecordModel>,
    pub edges: Seq<EdgeModel>,
}

impl View for Directory {
    type V = DirectoryModel;

    closed spec fn view(&self) -> DirectoryModel {
        DirectoryModel { records: self.store@, edges: self.index@ }
    }
}

impl Directory {
    /// An empty directory: no records, no edges.
    pub fn new() -> (d: Directory)
        ensures
            d@ == (DirectoryModel {
                records: Seq::<StoredRecordModel>::empty(),
                edges: Seq::<EdgeModel>::empty(),
            }),
    {
        Directory { store: RecordStore::new(), index: LinkIndex::new() }
    }
}

/// Whether a profile with exactly this username was already created: its
/// shard carries an edge tagged with the full username.
pub open spec fn username_taken(d: DirectoryModel, username: Seq<char>) -> bool {
    edges_from(d.edges, AddressModel::Shard(shard_key_of(username)), Some(username)).len() != 0
}

/// Whether `create_profile` accepts `p`: the username is long enough for its
/// shard and not yet taken.
pub open spec fn create_profile_allowed(d: DirectoryModel, p: ProfileModel) -> bool {
    &&& p.username.len() >= SHARD_WIDTH
    &&& !username_taken(d, p.username)
}

/// The error `create_profile` rejects `p` with, when it does.
pub open spec fn create_profile_error(d: DirectoryModel, p: ProfileModel) -> ProfileError {
    if p.username.len() < SHARD_WIDTH {
        ProfileError::InvalidUsername
    } else {
        ProfileError::DuplicateUsername
    }
}

/// The directory after `create_profile`: unchanged on rejection; otherwise
/// the record stands at its content address, the shard is materialized, and
/// the two edges — shard to record under the full username, identity to
/// record under the reserved tag — are appended, in that order.
pub open spec fn create_profile_next(
    d: DirectoryModel,
    agent_pub_key: Seq<char>,
    p: ProfileModel,
) -> DirectoryModel {
    if !create_profile_allowed(d, p) {
        d
    } else {
        let slot = put_slot(d.records, p);
        let records = if slot < d.records.len() {
            d.records
        } else {
            d.records.push(StoredRecordModel { profile: p, author: agent_pub_key })
        };
        let key = shard_key_of(p.username);
        let target = AddressModel::Record(slot);
        let edges = ensure_shard_next(d.edges, key).push(
            EdgeModel { source: AddressModel::Shard(key), target, tag: p.username },
        ).push(
            EdgeModel { source: AddressModel::Agent(agent_pub_key), target, tag: reserved_tag() },
        );
        DirectoryModel { records, edges }
    }
}

/// Registers `profile` for the calling identity.
///
/// Fails with `InvalidUsername` when the username is shorter than
/// [`SHARD_WIDTH`] characters, with `DuplicateUsername` when an equal
/// username was already created, and succeeds — returning the new record
/// paired with the caller — otherwise. The uniqueness check and the edge
/// writes are separate steps: under concurrent callers of one shared state
/// this check-then-act window is a documented race, not a guarantee.
pub fn create_profile(dir: &mut Directory, agent_pub_key: String, profile: Profile) -> (r: Result<
    AgentProfile,
    ProfileError,
>)
    ensures
        final(dir)@ == create_profile_next(old(dir)@, agent_pub_key@, profile@),
        match r {
            Ok(ap) => create_profile_allowed(old(dir)@, profile@) && ap@ == (AgentProfileModel {
                agent_pub_key: agent_pub_key@,
                profile: profile@,
            }),
            Err(e) => !create_profile_allowed(old(dir)@, profile@) && e == create_profile_error(
                old(dir)@,
                profile@,
            ),
        },
{
    let shard = match shard_address(profile.username.as_str()) {
        Ok(a) => a,
        Err(e) => {
            return Err(e);
        },
    };
    let username_tag = link_tag(profile.username.as_str());
    if dir.index.has_edge(&shard, &username_tag) {
        return Err(ProfileError::DuplicateUsername);
    }
    let record = profile.clone();
    let addr = dir.store.put(record, agent_pub_key.clone());
    ensure_shard(&mut dir.index, &shard);
    dir.index.add_edge(shard, addr.clone(), username_tag);
    dir.index.add_edge(Address::Agent(agent_pub_key.clone()), addr, link_tag("profile"));
    proof {
        assert(dir@ =~= create_profile_next(old(dir)@, agent_pub_key@, profile@));
    }
    Ok(AgentProfile { agent_pub_key, profile })
}

/// Whether a profile with exactly this username exists. Fails with
/// `InvalidUsername` when the name is too short to have a shard.
pub fn username_exists(dir: &Directory, username: &String) -> (r: Result<bool, ProfileError>)
    ensures
        match r {
            Ok(b) => username@.len() >= SHARD_WIDTH && b == username_taken(dir@, username@),
            Err(e) => username@.len() < SHARD_WIDTH && e == ProfileError::InvalidUsername,
        },
{
    let shard = match shard_address(username.as_str()) {
        Ok(a) => a,
        Err(e) => {
            return Err(e);
        },
    };
    Ok(dir.index.has_edge(&shard, username))
}

/// Whether an edge's target is a stored record.
pub open spec fn edge_resolves(d: DirectoryModel, e: EdgeModel) -> bool {
    match e.target {
        AddressModel::Record(i) => 0 <= i < d.records.len(),
        _ => false,
    }
}

/// The read result behind an edge: the stored profile paired with the
/// identity that authored the record.
pub open spec fn resolved_profile(d: DirectoryModel, e: EdgeModel) -> AgentProfileModel
    recommends
        edge_resolves(d, e),
{
    let i = e.target->Record_0;
    AgentProfileModel { agent_pub_key: d.records[i].author, profile: d.records[i].profile }
}

/// Whether every edge of `es` points at a stored record.
pub open spec fn all_resolve(d: DirectoryModel, es: Seq<EdgeModel>) -> bool {
    forall|j: int| 0 <= j < es.len() ==> edge_resolves(d, #[trigger] es[j])
}

/// The read results behind the edges of `es`, in order.
pub open spec fn resolved_profiles(d: DirectoryModel, es: Seq<EdgeModel>) -> Seq<
    AgentProfileModel,
> {
    es.map_values(|e: EdgeModel| resolved_profile(d, e))
}

/// Resolving a run of edges commutes with appending one edge.
proof fn lemma_resolved_profiles_push(d: DirectoryModel, es: Seq<EdgeModel>, e: EdgeModel)
    ensures
        resolved_profiles(d, es.push(e)) == resolved_profiles(d, es).push(resolved_profile(d, e)),
{
    assert(resolved_profiles(d, es.push(e)) =~= resolved_profiles(d, es).push(
        resolved_profile(d, e),
    ));
}

/// What listing and resolving every edge of `source` yields: all its
/// profiles in insertion order, or `NotFound` when some edge dangles — an
/// edge should never point at a missing record, so that is an integrity
/// fault, not an empty result.
pub open spec fn profiles_for(d: DirectoryModel, source: AddressModel) -> Result<
    Seq<AgentProfileModel>,
    ProfileError,
> {
    let es = edges_from(d.edges, source, None);
    if all_resolve(d, es) {
        Ok(resolved_profiles(d, es))
    } else {
        Err(ProfileError::NotFound)
    }
}

/// The value of a many-profile read result.
pub open spec fn profiles_result_model(r: Result<Vec<AgentProfile>, ProfileError>) -> Result<
    Seq<AgentProfileModel>,
    ProfileError,
> {
    match r {
        Ok(v) => Ok(agent_profiles_model(v@)),
        Err(e) => Err(e),
    }
}

/// Resolves one edge into the profile record it points at, paired with the
/// record's author.
pub fn get_agent_profile_from_link(dir: &Directory, link: &Edge) -> (r: Result<
    AgentProfile,
    ProfileError,
>)
    ensures
        match r {
            Ok(ap) => edge_resolves(dir@, link@) && ap@ == resolved_profile(dir@, link@),
            Err(e) => e == ProfileError::NotFound && !edge_resolves(dir@, link@),
        },
{
    let rec = match dir.store.get(&link.target) {
        Ok(rec) => rec,
        Err(e) => {
            return Err(e);
        },
    };
    Ok(AgentProfile { agent_pub_key: rec.author, profile: rec.profile })
}

/// Lists every edge of `path_hash` and resolves each into a profile record.
pub fn get_agent_profiles_for_path(dir: &Directory, path_hash: &Address) -> (r: Result<
    Vec<AgentProfile>,
    ProfileError,
>)
    ensures
        profiles_result_model(r) == profiles_for(dir@, path_hash@),
{
    let links = dir.index.list_edges(path_hash, None);
    let ghost es = edges_from(dir@.edges, path_hash@, None);
    let mut out: Vec<AgentProfile> = Vec::new();
    proof {
        assert(agent_profiles_model(out@) =~= resolved_profiles(dir@, es.take(0)));
    }
    let mut i: usize = 0;
    while i < links.len()
        invariant
            i <= links.len(),
            edge_models(links@) == es,
            es == edges_from(dir@.edges, path_hash@, None),
            forall|j: int| 0 <= j < i ==> edge_resolves(dir@, #[trigger] es[j]),
            agent_profiles_model(out@) == resolved_profiles(dir@, es.take(i as int)),
        decreases links.len() - i,
    {
        let ap = match get_agent_profile_from_link(dir, &links[i]) {
            Ok(ap) => ap,
            Err(e) => {
                proof {
                    assert(!edge_resolves(dir@, es[i as int]));
                }
                return Err(e);
            },
        };
        let ghost outp = out@;
        out.push(ap);
        proof {
            assert(es.take(i + 1) =~= es.take(i as int).push(es[i as int]));
            lemma_resolved_profiles_push(dir@, es.take(i as int), es[i as int]);
            lemma_agent_profiles_model_push(outp, ap);
        }
        i = i + 1;
    }
    proof {
        assert(es.take(links@.len() as int) =~= es);
        assert(all_resolve(dir@, es));
    }
    Ok(out)
}

/// What `get_agent_profile` returns: nothing when the identity carries no
/// profile edge, else the record behind the first such edge, paired with the
/// queried identity.
pub open spec fn get_agent_profile_spec(d: DirectoryModel, agent_pub_key: Seq<char>) -> Result<
    Option<AgentProfileModel>,
    ProfileError,
> {
    let es = edges_from(d.edges, AddressModel::Agent(agent_pub_key), Some(reserved_tag()));
    if es.len() == 0 {
        Ok(None)
    } else {
        match es[0].target {
            AddressModel::Record(i) => if 0 <= i < d.records.len() {
                Ok(Some(AgentProfileModel { agent_pub_key, profile: d.records[i].profile }))
            } else {
                Err(ProfileError::NotFound)
            },
            _ => Err(ProfileError::NotFound),
        }
    }
}

/// The value of a single-profile read result.
pub open spec fn profile_result_model(r: Result<Option<AgentProfile>, ProfileError>) -> Result<
    Option<AgentProfileModel>,
    ProfileError,
> {
    match r {
        Ok(Some(ap)) => Ok(Some(ap@)),
        Ok(None) => Ok(None),
        Err(e) => Err(e),
    }
}

/// Looks up the profile bound to an identity.
///
/// Zero reserved-tag edges mean no profile. Several should not occur while
/// the creation invariant held, but the read path tolerates them and picks
/// the first rather than failing.
pub fn get_agent_profile(dir: &Directory, agent_pub_key: String) -> (r: Result<
    Option<AgentProfile>,
    ProfileError,
>)
    ensures
        profile_result_model(r) == get_agent_profile_spec(dir@, agent_pub_key@),
{
    let agent_address = Address::Agent(agent_pub_key.clone());
    let tag = link_tag("profile");
    let links = dir.index.list_edges(&agent_address, Some(&tag));
    if links.len() == 0 {
        return Ok(None);
    }
    let rec = match dir.store.get(&links[0].target) {
        Ok(rec) => rec,
        Err(e) => {
            return Err(e);
        },
    };
    Ok(Some(AgentProfile { agent_pub_key, profile: rec.profile }))
}

/// What `search_profiles` returns: the whole shard of the prefix's first
/// [`SHARD_WIDTH`] characters — search narrows to the shard, never beyond it.
pub open spec fn search_profiles_spec(d: DirectoryModel, prefix: Seq<char>) -> Result<
    Seq<AgentProfileModel>,
    ProfileError,
> {
    if prefix.len() < SHARD_WIDTH {
        Err(ProfileError::PrefixTooShort)
    } else {
        profiles_for(d, AddressModel::Shard(shard_key_of(prefix)))
    }
}

/// Searches profiles by username prefix. Fails with `PrefixTooShort` when
/// the prefix is shorter than [`SHARD_WIDTH`] characters; otherwise returns
/// every profile of the prefix's shard, in creation order.
pub fn search_profiles(dir: &Directory, username_prefix: String) -> (r: Result<
    Vec<AgentProfile>,
    ProfileError,
>)
    ensures
        profiles_result_model(r) == search_profiles_spec(dir@, username_prefix@),
{
    let shard = match shard_address(username_prefix.as_str()) {
        Ok(a) => a,
        Err(_) => {
            return Err(ProfileError::PrefixTooShort);
        },
    };
    get_agent_profiles_for_path(dir, &shard)
}

/// What resolving a run of root edges yields: the shards' profiles
/// concatenated in root-edge order, or the first integrity fault.
pub open spec fn profiles_under_roots(d: DirectoryModel, roots: Seq<EdgeModel>) -> Result<
    Seq<AgentProfileModel>,
    ProfileError,
>
    decreases roots.len(),
{
    if roots.len() == 0 {
        Ok(Seq::empty())
    } else {
        match profiles_for(d, roots.first().target) {
            Ok(first) => match profiles_under_roots(d, roots.drop_first()) {
                Ok(rest) => Ok(first + rest),
                Err(e) => Err(e),
            },
            Err(e) => Err(e),
        }
    }
}

/// What `get_all_profiles` returns: every shard's profiles, flattened in
/// root-edge order.
pub open spec fn get_all_profiles_spec(d: DirectoryModel) -> Result<
    Seq<AgentProfileModel>,
    ProfileError,
> {
    profiles_under_roots(d, edges_from(d.edges, AddressModel::Root, None))
}

/// One unfolding of `profiles_under_roots` at position `i`.
proof fn lemma_profiles_under_roots_step(d: DirectoryModel, roots: Seq<EdgeModel>, i: int)
    requires
        0 <= i < roots.len(),
    ensures
        profiles_under_roots(d, roots.skip(i)) == match profiles_for(d, roots[i].target) {
            Ok(first) => match profiles_under_roots(d, roots.skip(i + 1)) {
                Ok(rest) => Ok(first + rest),
                Err(e) => Err(e),
            },
            Err(e) => Err(e),
        },
{
    assert(roots.skip(i).first() == roots[i]);
    assert(roots.skip(i).drop_first() =~= roots.skip(i + 1));
}

/// Lists every profile of the whole directory: each shard under the root,
/// flattened into one sequence.
pub fn get_all_profiles(dir: &Directory) -> (r: Result<Vec<AgentProfile>, ProfileError>)
    ensures
        profiles_result_model(r) == get_all_profiles_spec(dir@),
{
    let root = root_address();
    let children = dir.index.list_edges(&root, None);
    let ghost roots = edges_from(dir@.edges, AddressModel::Root, None);
    let mut out: Vec<AgentProfile> = Vec::new();
    proof {
        assert(roots.skip(0) =~= roots);
        assert(agent_profiles_model(out@) + Seq::<AgentProfileModel>::empty() =~= agent_profiles_model(out@));
    }
    let mut i: usize = 0;
    while i < children.len()
        invariant
            i <= children.len(),
            edge_models(children@) == roots,
            roots == edges_from(dir@.edges, AddressModel::Root, None),
            match profiles_under_roots(dir@, roots.skip(i as int)) {
                Ok(rest) => profiles_under_roots(dir@, roots) == Ok::<
                    Seq<AgentProfileModel>,
                    ProfileError,
                >(agent_profiles_model(out@) + rest),
                Err(e) => profiles_under_roots(dir@, roots) == Err::<
                    Seq<AgentProfileModel>,
                    ProfileError,
                >(e),
            },
        decreases children.len() - i,
    {
        let ghost out0 = agent_profiles_model(out@);
        let mut sub = match get_agent_profiles_for_path(dir, &children[i].target) {
            Ok(sub) => sub,
            Err(e) => {
                proof {
                    lemma_profiles_under_roots_step(dir@, roots, i as int);
                }
                return Err(e);
            },
        };
        let ghost sub0 = agent_profiles_model(sub@);
        out.append(&mut sub);
        proof {
            lemma_profiles_under_roots_step(dir@, roots, i as int);
            assert(agent_profiles_model(out@) =~= out0 + sub0);
            let rest = profiles_under_roots(dir@, roots.skip(i + 1));
            if rest is Ok {
                assert((out0 + sub0) + rest->Ok_0 =~= out0 + (sub0 + rest->Ok_0));
            }
        }
        i = i + 1;
    }
    proof {
        assert(roots.skip(children@.len() as int) =~= Seq::<EdgeModel>::empty());
        assert(agent_profiles_model(out@) + Seq::<AgentProfileModel>::empty() =~= agent_profiles_model(out@));
    }
    Ok(out)
}

} // verus!
