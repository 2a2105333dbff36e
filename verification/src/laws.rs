//! The laws the directory obeys, stated and proved over the models.
//!
//! A [`wf`] directory is one whose graph the operations alone could have
//! built: every edge is well formed, every record hangs off its shard, and
//! every used shard hangs off the root. The empty directory is well formed
//! and `create_profile` preserves well-formedness, so every reachable
//! directory satisfies the laws proved here.

use vstd::prelude::*;

use crate::address::AddressModel;
use crate::link_index::{
    edge_matches, edges_from, lemma_edges_from_complete, lemma_edges_from_push,
    lemma_edges_from_sound, EdgeModel,
};
use crate::prefix_tree::{ensure_shard_next, shard_key_of, SHARD_WIDTH};
use crate::profile::{
    all_resolve, create_profile_allowed, create_profile_error, create_profile_next, edge_resolves,
    get_agent_profile_spec, get_all_profiles_spec, profiles_for, profiles_under_roots,
    reserved_tag, resolved_profiles, search_profiles_spec, username_taken,
    AgentProfileModel, DirectoryModel, ProfileModel,
};
use crate::record_store::{
    lemma_put_slot_bounds, lemma_put_slot_hit, put_slot, StoredRecordModel,
};
use crate::ProfileError;

verus! {

/// What one edge may look like in a directory the operations built:
/// root edges point at the shard their tag names; shard edges carry a full
/// username as tag and point at the record of exactly that username; identity
/// edges carry the reserved tag and point at a stored record; no edge leaves
/// a record.
pub open spec fn wf_edge(d: DirectoryModel, e: EdgeModel) -> bool {
    match e.source {
        AddressModel::Root => e.target == AddressModel::Shard(e.tag),
        AddressModel::Shard(key) => {
            &&& e.target matches AddressModel::Record(i) && 0 <= i < d.records.len()
                && d.records[i].profile.username == e.tag
            &&& key == shard_key_of(e.tag)
            &&& e.tag.len() >= SHARD_WIDTH
        },
        AddressModel::Record(_) => false,
        AddressModel::Agent(_) => {
            &&& e.tag == reserved_tag()
            &&& e.target matches AddressModel::Record(i) && 0 <= i < d.records.len()
        },
    }
}

/// Whether record `i` hangs off its shard by some edge.
pub open spec fn shard_linked(d: DirectoryModel, i: int) -> bool {
    exists|j: int|
        0 <= j < d.edges.len() && (#[trigger] d.edges[j]).source == AddressModel::Shard(
            shard_key_of(d.records[i].profile.username),
        ) && d.edges[j].target == AddressModel::Record(i)
}

/// Whether the shard of `key` hangs off the root by some edge.
pub open spec fn root_linked(d: DirectoryModel, key: Seq<char>) -> bool {
    exists|j: int|
        0 <= j < d.edges.len() && (#[trigger] d.edges[j]).source == AddressModel::Root
            && d.edges[j].target == AddressModel::Shard(key)
}

/// A directory the operations alone could have built.
pub open spec fn wf(d: DirectoryModel) -> bool {
    &&& forall|j: int| 0 <= j < d.edges.len() ==> wf_edge(d, #[trigger] d.edges[j])
    &&& forall|i: int| 0 <= i < d.records.len() ==> #[trigger] shard_linked(d, i)
    &&& forall|j: int|
        0 <= j < d.edges.len() ==> match (#[trigger] d.edges[j]).source {
            AddressModel::Shard(key) => root_linked(d, key),
            _ => true,
        }
}

/// The empty directory is well formed.
pub proof fn lemma_empty_directory_wf()
    ensures
        wf(
            DirectoryModel {
                records: Seq::<StoredRecordModel>::empty(),
                edges: Seq::<EdgeModel>::empty(),
            },
        ),
{
}

/// Creating a profile preserves well-formedness, so every directory built
/// from the empty one by the operations is well formed.
pub proof fn lemma_create_profile_preserves_wf(
    d: DirectoryModel,
    agent_pub_key: Seq<char>,
    p: ProfileModel,
)
    requires
        wf(d),
    ensures
        wf(create_profile_next(d, agent_pub_key, p)),
{
    if create_profile_allowed(d, p) {
        let next = create_profile_next(d, agent_pub_key, p);
        let key = shard_key_of(p.username);
        let slot = put_slot(d.records, p);
        lemma_put_slot_bounds(d.records, p);
        if slot < d.records.len() {
            lemma_put_slot_hit(d.records, p);
        }
        let target = AddressModel::Record(slot);
        let shard_edge = EdgeModel { source: AddressModel::Shard(key), target, tag: p.username };
        let agent_edge = EdgeModel {
            source: AddressModel::Agent(agent_pub_key),
            target,
            tag: reserved_tag(),
        };
        let e1 = ensure_shard_next(d.edges, key);
        let root_present = edges_from(d.edges, AddressModel::Root, Some(key)).len() != 0;
        let root_edge = EdgeModel {
            source: AddressModel::Root,
            target: AddressModel::Shard(key),
            tag: key,
        };
        // The shard of `key` is root-linked in `next`, either by an edge that
        // already stood or by the one `ensure_shard` appended.
        if root_present {
            let listed = edges_from(d.edges, AddressModel::Root, Some(key));
            assert(listed.contains(listed[0]));
            lemma_edges_from_sound(d.edges, AddressModel::Root, Some(key), listed[0]);
            let j = choose|j: int| 0 <= j < d.edges.len() && d.edges[j] == listed[0];
            assert(wf_edge(d, d.edges[j]));
            assert(next.edges[j] == d.edges[j]);
            assert(root_linked(next, key));
        } else {
            assert(next.edges[d.edges.len() as int] == root_edge);
            assert(root_linked(next, key));
        }
        // Every edge of `next` is well formed.
        assert forall|j: int| 0 <= j < next.edges.len() implies wf_edge(
            next,
            #[trigger] next.edges[j],
        ) by {
            if j < d.edges.len() {
                assert(next.edges[j] == d.edges[j]);
                assert(wf_edge(d, d.edges[j]));
            } else if !root_present && j == d.edges.len() {
                assert(next.edges[j] == root_edge);
            } else if j == e1.len() {
                assert(next.edges[j] == shard_edge);
            } else {
                assert(next.edges[j] == agent_edge);
            }
        }
        // Every record of `next` hangs off its shard.
        assert forall|i: int| 0 <= i < next.records.len() implies #[trigger] shard_linked(
            next,
            i,
        ) by {
            if i < d.records.len() {
                assert(shard_linked(d, i));
                let j = choose|j: int|
                    0 <= j < d.edges.len() && (#[trigger] d.edges[j]).source
                        == AddressModel::Shard(shard_key_of(d.records[i].profile.username))
                        && d.edges[j].target == AddressModel::Record(i);
                assert(next.edges[j] == d.edges[j]);
                assert(next.records[i] == d.records[i]);
            } else {
                assert(i == slot && next.records[i].profile == p);
                assert(next.edges[e1.len() as int] == shard_edge);
            }
        }
        // Every shard-sourced edge of `next` has its shard root-linked.
        assert forall|j: int| 0 <= j < next.edges.len() implies match (#[trigger] next.edges[j]).source {
            AddressModel::Shard(k) => root_linked(next, k),
            _ => true,
        } by {
            if j < d.edges.len() {
                assert(next.edges[j] == d.edges[j]);
                match d.edges[j].source {
                    AddressModel::Shard(k) => {
                        assert(root_linked(d, k));
                        let m = choose|m: int|
                            0 <= m < d.edges.len() && (#[trigger] d.edges[m]).source
                                == AddressModel::Root && d.edges[m].target == AddressModel::Shard(
                                k,
                            );
                        assert(next.edges[m] == d.edges[m]);
                        assert(root_linked(next, k));
                    },
                    _ => {},
                }
            } else if j == e1.len() {
                assert(next.edges[j] == shard_edge);
            }
        }
    }
}

/// Materializing a shard is idempotent: ensuring the same address twice
/// leaves the link index exactly as ensuring it once does.
pub proof fn lemma_ensure_shard_idempotent(edges: Seq<EdgeModel>, key: Seq<char>)
    ensures
        ensure_shard_next(ensure_shard_next(edges, key), key) == ensure_shard_next(edges, key),
{
    if edges_from(edges, AddressModel::Root, Some(key)).len() == 0 {
        let root_edge = EdgeModel {
            source: AddressModel::Root,
            target: AddressModel::Shard(key),
            tag: key,
        };
        lemma_edges_from_push(edges, root_edge, AddressModel::Root, Some(key));
        assert(edge_matches(root_edge, AddressModel::Root, Some(key)));
    }
}

/// Create-then-get: after an accepted creation by an identity that carried no
/// profile edge yet, looking that identity up returns exactly the profile
/// just created, paired with it.
pub proof fn lemma_create_then_get(d: DirectoryModel, agent_pub_key: Seq<char>, p: ProfileModel)
    requires
        create_profile_allowed(d, p),
        edges_from(d.edges, AddressModel::Agent(agent_pub_key), Some(reserved_tag())).len() == 0,
    ensures
        get_agent_profile_spec(create_profile_next(d, agent_pub_key, p), agent_pub_key) == Ok::<
            Option<AgentProfileModel>,
            ProfileError,
        >(Some(AgentProfileModel { agent_pub_key, profile: p })),
{
    let next = create_profile_next(d, agent_pub_key, p);
    let key = shard_key_of(p.username);
    let slot = put_slot(d.records, p);
    lemma_put_slot_bounds(d.records, p);
    if slot < d.records.len() {
        lemma_put_slot_hit(d.records, p);
    }
    let target = AddressModel::Record(slot);
    let shard_edge = EdgeModel { source: AddressModel::Shard(key), target, tag: p.username };
    let agent_edge = EdgeModel {
        source: AddressModel::Agent(agent_pub_key),
        target,
        tag: reserved_tag(),
    };
    let e1 = ensure_shard_next(d.edges, key);
    let source = AddressModel::Agent(agent_pub_key);
    let tag = Some(reserved_tag());
    if edges_from(d.edges, AddressModel::Root, Some(key)).len() == 0 {
        let root_edge = EdgeModel {
            source: AddressModel::Root,
            target: AddressModel::Shard(key),
            tag: key,
        };
        lemma_edges_from_push(d.edges, root_edge, source, tag);
    }
    assert(edges_from(e1, source, tag).len() == 0);
    lemma_edges_from_push(e1, shard_edge, source, tag);
    lemma_edges_from_push(e1.push(shard_edge), agent_edge, source, tag);
    let es = edges_from(next.edges, source, tag);
    assert(es == edges_from(e1, source, tag).push(agent_edge));
    assert(es[0] == agent_edge);
}

/// In a well-formed directory an identity lookup never fails: it returns
/// nothing or a profile, but no integrity fault.
pub proof fn lemma_get_agent_profile_total(d: DirectoryModel, agent_pub_key: Seq<char>)
    requires
        wf(d),
    ensures
        get_agent_profile_spec(d, agent_pub_key) is Ok,
{
    let source = AddressModel::Agent(agent_pub_key);
    let es = edges_from(d.edges, source, Some(reserved_tag()));
    if es.len() != 0 {
        assert(es.contains(es[0]));
        lemma_edges_from_sound(d.edges, source, Some(reserved_tag()), es[0]);
        let k = choose|k: int| 0 <= k < d.edges.len() && d.edges[k] == es[0];
        assert(wf_edge(d, d.edges[k]));
    }
}

/// Sequential uniqueness: right after a creation was accepted for a
/// username, a second creation with the same exact username — whatever its
/// fields or caller — is rejected with `DuplicateUsername`. (This holds of
/// sequential calls on one state; concurrent callers racing the
/// check-then-act window are a documented gap.)
pub proof fn lemma_duplicate_username(
    d: DirectoryModel,
    agent_pub_key: Seq<char>,
    first: ProfileModel,
    second: ProfileModel,
)
    requires
        create_profile_allowed(d, first),
        second.username == first.username,
    ensures
        !create_profile_allowed(create_profile_next(d, agent_pub_key, first), second),
        create_profile_error(create_profile_next(d, agent_pub_key, first), second)
            == ProfileError::DuplicateUsername,
{
    let next = create_profile_next(d, agent_pub_key, first);
    let key = shard_key_of(first.username);
    let slot = put_slot(d.records, first);
    let target = AddressModel::Record(slot);
    let shard_edge = EdgeModel { source: AddressModel::Shard(key), target, tag: first.username };
    let agent_edge = EdgeModel {
        source: AddressModel::Agent(agent_pub_key),
        target,
        tag: reserved_tag(),
    };
    let e1 = ensure_shard_next(d.edges, key);
    let source = AddressModel::Shard(key);
    let tag = Some(first.username);
    lemma_edges_from_push(e1, shard_edge, source, tag);
    lemma_edges_from_push(e1.push(shard_edge), agent_edge, source, tag);
    assert(edge_matches(shard_edge, source, tag));
    assert(edges_from(next.edges, source, tag).len() >= 1);
    assert(username_taken(next, second.username));
}

/// The set of read results a shard holds: each stored record whose username
/// starts with the shard's key, paired with its author.
pub open spec fn shard_records(d: DirectoryModel, key: Seq<char>) -> Set<AgentProfileModel> {
    Set::new(
        |ap: AgentProfileModel|
            exists|i: int|
                0 <= i < d.records.len() && shard_key_of(
                    (#[trigger] d.records[i]).profile.username,
                ) == key && ap == (AgentProfileModel {
                    agent_pub_key: d.records[i].author,
                    profile: d.records[i].profile,
                }),
    )
}

/// Shard correctness: in a well-formed directory, a search succeeds and
/// returns exactly the set of profiles whose username's first
/// [`SHARD_WIDTH`] characters equal the prefix's — no others, whatever the
/// creation order was.
pub proof fn lemma_search_exact(d: DirectoryModel, prefix: Seq<char>)
    requires
        wf(d),
        prefix.len() >= SHARD_WIDTH,
    ensures
        ({
            let es = edges_from(d.edges, AddressModel::Shard(shard_key_of(prefix)), None);
            &&& search_profiles_spec(d, prefix) == Ok::<Seq<AgentProfileModel>, ProfileError>(
                resolved_profiles(d, es),
            )
            &&& resolved_profiles(d, es).to_set() == shard_records(d, shard_key_of(prefix))
        }),
{
    let key = shard_key_of(prefix);
    let source = AddressModel::Shard(key);
    let es = edges_from(d.edges, source, None);
    assert forall|j: int| 0 <= j < es.len() implies edge_resolves(d, #[trigger] es[j]) && wf_edge(
        d,
        es[j],
    ) && es[j].source == source by {
        assert(es.contains(es[j]));
        lemma_edges_from_sound(d.edges, source, None, es[j]);
        let k = choose|k: int| 0 <= k < d.edges.len() && d.edges[k] == es[j];
        assert(wf_edge(d, d.edges[k]));
    }
    assert(all_resolve(d, es));
    let s = resolved_profiles(d, es);
    assert forall|ap: AgentProfileModel| s.to_set().contains(ap) implies shard_records(
        d,
        key,
    ).contains(ap) by {
        let j = choose|j: int| 0 <= j < s.len() && s[j] == ap;
        let i = es[j].target->Record_0;
        assert(shard_key_of(d.records[i].profile.username) == key);
        assert(ap == (AgentProfileModel {
            agent_pub_key: d.records[i].author,
            profile: d.records[i].profile,
        }));
    }
    assert forall|ap: AgentProfileModel| shard_records(d, key).contains(ap) implies s
        .to_set()
        .contains(ap) by {
        let i = choose|i: int|
            0 <= i < d.records.len() && shard_key_of((#[trigger] d.records[i]).profile.username)
                == key && ap == (AgentProfileModel {
                agent_pub_key: d.records[i].author,
                profile: d.records[i].profile,
            });
        assert(shard_linked(d, i));
        let j = choose|j: int|
            0 <= j < d.edges.len() && (#[trigger] d.edges[j]).source == AddressModel::Shard(
                shard_key_of(d.records[i].profile.username),
            ) && d.edges[j].target == AddressModel::Record(i);
        assert(edge_matches(d.edges[j], source, None));
        lemma_edges_from_complete(d.edges, source, None, j);
        let m = choose|m: int| 0 <= m < es.len() && es[m] == d.edges[j];
        assert(s[m] == ap);
        assert(s.contains(s[m]));
    }
    assert(s.to_set() =~= shard_records(d, key));
}

/// The set of every stored record's read result.
pub open spec fn all_records(d: DirectoryModel) -> Set<AgentProfileModel> {
    Set::new(
        |ap: AgentProfileModel|
            exists|i: int|
                0 <= i < d.records.len() && ap == (AgentProfileModel {
                    agent_pub_key: (#[trigger] d.records[i]).author,
                    profile: d.records[i].profile,
                }),
    )
}

/// In a well-formed directory every shard listing resolves.
proof fn lemma_shard_listing_resolves(d: DirectoryModel, key: Seq<char>)
    requires
        wf(d),
    ensures
        all_resolve(d, edges_from(d.edges, AddressModel::Shard(key), None)),
        profiles_for(d, AddressModel::Shard(key)) is Ok,
{
    let source = AddressModel::Shard(key);
    let es = edges_from(d.edges, source, None);
    assert forall|j: int| 0 <= j < es.len() implies edge_resolves(d, #[trigger] es[j]) by {
        assert(es.contains(es[j]));
        lemma_edges_from_sound(d.edges, source, None, es[j]);
        let k = choose|k: int| 0 <= k < d.edges.len() && d.edges[k] == es[j];
        assert(wf_edge(d, d.edges[k]));
    }
}

/// A run of root edges into well-formed shards never fails to resolve.
proof fn lemma_profiles_under_roots_ok(d: DirectoryModel, roots: Seq<EdgeModel>)
    requires
        wf(d),
        forall|j: int|
            0 <= j < roots.len() ==> (#[trigger] roots[j]).target matches AddressModel::Shard(_),
    ensures
        profiles_under_roots(d, roots) is Ok,
    decreases roots.len(),
{
    if roots.len() != 0 {
        assert(roots.first() == roots[0]);
        match roots.first().target {
            AddressModel::Shard(k) => {
                lemma_shard_listing_resolves(d, k);
            },
            _ => {
                assert(false);
            },
        }
        assert forall|j: int|
            0 <= j < roots.drop_first().len() implies (#[trigger] roots.drop_first()[j]).target
            matches AddressModel::Shard(_) by {
            assert(roots.drop_first()[j] == roots[j + 1]);
        }
        lemma_profiles_under_roots_ok(d, roots.drop_first());
    }
}

/// What the flattened run holds: exactly what some root edge's shard holds.
proof fn lemma_profiles_under_roots_contains(
    d: DirectoryModel,
    roots: Seq<EdgeModel>,
    ap: AgentProfileModel,
)
    requires
        profiles_under_roots(d, roots) is Ok,
    ensures
        profiles_under_roots(d, roots)->Ok_0.contains(ap) <==> exists|j: int|
            0 <= j < roots.len() && profiles_for(d, (#[trigger] roots[j]).target) is Ok
                && profiles_for(d, roots[j].target)->Ok_0.contains(ap),
    decreases roots.len(),
{
    if roots.len() != 0 {
        let first = profiles_for(d, roots.first().target)->Ok_0;
        let rest = profiles_under_roots(d, roots.drop_first());
        lemma_profiles_under_roots_contains(d, roots.drop_first(), ap);
        let s = profiles_under_roots(d, roots)->Ok_0;
        assert(s == first + rest->Ok_0);
        if s.contains(ap) {
            let m = choose|m: int| 0 <= m < s.len() && s[m] == ap;
            if m < first.len() {
                assert(first[m] == ap);
                assert(first.contains(ap));
                assert(roots[0] == roots.first());
            } else {
                assert(rest->Ok_0[m - first.len()] == ap);
                assert(rest->Ok_0.contains(ap));
                let j = choose|j: int|
                    0 <= j < roots.drop_first().len() && profiles_for(
                        d,
                        (#[trigger] roots.drop_first()[j]).target,
                    ) is Ok && profiles_for(d, roots.drop_first()[j].target)->Ok_0.contains(ap);
                assert(roots[j + 1] == roots.drop_first()[j]);
            }
        }
        if exists|j: int|
            0 <= j < roots.len() && profiles_for(d, (#[trigger] roots[j]).target) is Ok
                && profiles_for(d, roots[j].target)->Ok_0.contains(ap) {
            let j = choose|j: int|
                0 <= j < roots.len() && profiles_for(d, (#[trigger] roots[j]).target) is Ok
                    && profiles_for(d, roots[j].target)->Ok_0.contains(ap);
            if j == 0 {
                let m = choose|m: int| 0 <= m < first.len() && first[m] == ap;
                assert(s[m] == ap);
                assert(s.contains(ap));
            } else {
                assert(roots.drop_first()[j - 1] == roots[j]);
                let m = choose|m: int|
                    0 <= m < rest->Ok_0.len() && rest->Ok_0[m] == ap;
                assert(s[first.len() + m] == ap);
                assert(s.contains(ap));
            }
        }
    }
}

/// Round trip: in a well-formed directory, listing the whole directory
/// succeeds and returns exactly the read result of every stored record —
/// each one reachable through its shard, each shard through the root.
pub proof fn lemma_list_all_complete(d: DirectoryModel)
    requires
        wf(d),
    ensures
        get_all_profiles_spec(d) is Ok,
        get_all_profiles_spec(d)->Ok_0.to_set() == all_records(d),
{
    let roots = edges_from(d.edges, AddressModel::Root, None);
    assert forall|j: int|
        0 <= j < roots.len() implies (#[trigger] roots[j]).target matches AddressModel::Shard(
        _,
    ) by {
        assert(roots.contains(roots[j]));
        lemma_edges_from_sound(d.edges, AddressModel::Root, None, roots[j]);
        let k = choose|k: int| 0 <= k < d.edges.len() && d.edges[k] == roots[j];
        assert(wf_edge(d, d.edges[k]));
    }
    lemma_profiles_under_roots_ok(d, roots);
    let s = get_all_profiles_spec(d)->Ok_0;
    assert forall|ap: AgentProfileModel| s.contains(ap) implies all_records(d).contains(ap) by {
        lemma_profiles_under_roots_contains(d, roots, ap);
        let j = choose|j: int|
            0 <= j < roots.len() && profiles_for(d, (#[trigger] roots[j]).target) is Ok
                && profiles_for(d, roots[j].target)->Ok_0.contains(ap);
        match roots[j].target {
            AddressModel::Shard(k) => {
                lemma_shard_listing_resolves(d, k);
                let es = edges_from(d.edges, AddressModel::Shard(k), None);
                let m = choose|m: int|
                    0 <= m < resolved_profiles(d, es).len() && resolved_profiles(d, es)[m] == ap;
                assert(edge_resolves(d, es[m]));
                let i = es[m].target->Record_0;
                assert(ap == (AgentProfileModel {
                    agent_pub_key: d.records[i].author,
                    profile: d.records[i].profile,
                }));
            },
            _ => {
                assert(false);
            },
        }
    }
    assert forall|ap: AgentProfileModel| all_records(d).contains(ap) implies s.contains(ap) by {
        let i = choose|i: int|
            0 <= i < d.records.len() && ap == (AgentProfileModel {
                agent_pub_key: (#[trigger] d.records[i]).author,
                profile: d.records[i].profile,
            });
        let key = shard_key_of(d.records[i].profile.username);
        assert(shard_linked(d, i));
        let j = choose|j: int|
            0 <= j < d.edges.len() && (#[trigger] d.edges[j]).source == AddressModel::Shard(key)
                && d.edges[j].target == AddressModel::Record(i);
        assert(root_linked(d, key));
        let m = choose|m: int|
            0 <= m < d.edges.len() && (#[trigger] d.edges[m]).source == AddressModel::Root
                && d.edges[m].target == AddressModel::Shard(key);
        assert(edge_matches(d.edges[m], AddressModel::Root, None));
        lemma_edges_from_complete(d.edges, AddressModel::Root, None, m);
        assert(roots.contains(d.edges[m]));
        let jr = choose|jr: int| 0 <= jr < roots.len() && roots[jr] == d.edges[m];
        assert(edge_matches(d.edges[j], AddressModel::Shard(key), None));
        lemma_edges_from_complete(d.edges, AddressModel::Shard(key), None, j);
        let es = edges_from(d.edges, AddressModel::Shard(key), None);
        let me = choose|me: int| 0 <= me < es.len() && es[me] == d.edges[j];
        lemma_shard_listing_resolves(d, key);
        assert(resolved_profiles(d, es)[me] == ap);
        assert(profiles_for(d, roots[jr].target)->Ok_0.contains(ap));
        lemma_profiles_under_roots_contains(d, roots, ap);
    }
    assert(s.to_set() =~= all_records(d));
}

} // verus!
