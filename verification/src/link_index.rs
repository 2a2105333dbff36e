//! The link index: directed, tagged, append-only edges between addresses.
//!
//! Edges are many-valued: a source may carry any number of edges, with equal
//! or different tags, and nothing is ever deduplicated, mutated or deleted.
//! Listing the edges of a source (optionally filtered to one tag) returns
//! them in insertion order. Callers that need idempotence build it on top —
//! see [`crate::prefix_tree::ensure_shard`].

use vstd::prelude::*;

use crate::address::{address_eq, Address, AddressModel};

verus! {

/// One directed, tagged edge of the graph.
#[derive(Debug, PartialEq, Eq)]
pub struct Edge {
    pub source: Address,
    pub target: Address,
    pub tag: String,
}

/// The mathematical value of an [`Edge`].
#[verifier::ext_equal]
pub struct EdgeModel {
    pub source: AddressModel,
    pub target: AddressModel,
    pub tag: Seq<char>,
}

impl View for Edge {
    type V = EdgeModel;

    open spec fn view(&self) -> EdgeModel {
        EdgeModel { source: self.source@, target: self.target@, tag: self.tag@ }
    }
}

impl Clone for Edge {
    fn clone(&self) -> (r: Self)
        ensures
            r@ == self@,
    {
        Edge { source: self.source.clone(), target: self.target.clone(), tag: self.tag.clone() }
    }
}

/// The values of a sequence of edges.
pub open spec fn edge_models(s: Seq<Edge>) -> Seq<EdgeModel> {
    s.map_values(|e: Edge| e@)
}

/// The value of an optional tag filter.
pub open spec fn tag_filter(tag: Option<&String>) -> Option<Seq<char>> {
    match tag {
        Some(t) => Some(t@),
        None => None,
    }
}

/// Whether an edge leaves `source` and passes the optional tag filter.
pub open spec fn edge_matches(e: EdgeModel, source: AddressModel, tag: Option<Seq<char>>) -> bool {
    &&& e.source == source
    &&& match tag {
        Some(t) => e.tag == t,
        None => true,
    }
}

/// The edges of `edges` that leave `source` and pass the tag filter, in
/// insertion order.
pub open spec fn edges_from(
    edges: Seq<EdgeModel>,
    source: AddressModel,
    tag: Option<Seq<char>>,
) -> Seq<EdgeModel>
    decreases edges.len(),
{
    if edges.len() == 0 {
        Seq::empty()
    } else {
        let rest = edges_from(edges.drop_last(), source, tag);
        if edge_matches(edges.last(), source, tag) {
            rest.push(edges.last())
        } else {
            rest
        }
    }
}

/// Appending one edge extends a listing by that edge exactly when it matches.
pub proof fn lemma_edges_from_push(
    edges: Seq<EdgeModel>,
    e: EdgeModel,
    source: AddressModel,
    tag: Option<Seq<char>>,
)
    ensures
        edges_from(edges.push(e), source, tag) == if edge_matches(e, source, tag) {
            edges_from(edges, source, tag).push(e)
        } else {
            edges_from(edges, source, tag)
        },
{
    assert(edges.push(e).drop_last() =~= edges);
    assert(edges.push(e).last() == e);
}

/// Everything a listing returns came from the index and matches the filter.
pub proof fn lemma_edges_from_sound(
    edges: Seq<EdgeModel>,
    source: AddressModel,
    tag: Option<Seq<char>>,
    e: EdgeModel,
)
    requires
        edges_from(edges, source, tag).contains(e),
    ensures
        edges.contains(e),
        edge_matches(e, source, tag),
    decreases edges.len(),
{
    if edges.len() == 0 {
    } else {
        let rest = edges_from(edges.drop_last(), source, tag);
        if edge_matches(edges.last(), source, tag) && e == edges.last() {
            assert(edges[edges.len() - 1] == e);
        } else {
            assert(rest.contains(e));
            lemma_edges_from_sound(edges.drop_last(), source, tag, e);
            let j = choose|j: int| 0 <= j < edges.drop_last().len() && edges.drop_last()[j] == e;
            assert(edges[j] == e);
        }
    }
}

/// Every matching edge of the index shows up in the listing.
pub proof fn lemma_edges_from_complete(
    edges: Seq<EdgeModel>,
    source: AddressModel,
    tag: Option<Seq<char>>,
    k: int,
)
    requires
        0 <= k < edges.len(),
        edge_matches(edges[k], source, tag),
    ensures
        edges_from(edges, source, tag).contains(edges[k]),
    decreases edges.len(),
{
    if k == edges.len() - 1 {
        let r = edges_from(edges, source, tag);
        assert(r[r.len() - 1] == edges[k]);
    } else {
        assert(edges.drop_last()[k] == edges[k]);
        lemma_edges_from_complete(edges.drop_last(), source, tag, k);
        let rest = edges_from(edges.drop_last(), source, tag);
        let j = choose|j: int| 0 <= j < rest.len() && rest[j] == edges[k];
        if edge_matches(edges.last(), source, tag) {
            assert(rest.push(edges.last())[j] == edges[k]);
        }
    }
}

/// The append-only store of tagged edges.
pub struct LinkIndex {
    edges: Vec<Edge>,
}

impl View for LinkIndex {
    type V = Seq<EdgeModel>;

    closed spec fn view(&self) -> Seq<EdgeModel> {
        edge_models(self.edges@)
    }
}

impl LinkIndex {
    /// An index with no edges.
    pub fn new() -> (li: LinkIndex)
        ensures
            li@ == Seq::<EdgeModel>::empty(),
    {
        let li = LinkIndex { edges: Vec::new() };
        proof {
            assert(li@ =~= Seq::<EdgeModel>::empty());
        }
        li
    }

    /// Appends one edge. Never deduplicates: an equal edge may stand twice.
    pub fn add_edge(&mut self, source: Address, target: Address, tag: String)
        ensures
            final(self)@ == old(self)@.push(EdgeModel { source: source@, target: target@, tag: tag@ }),
    {
        let ghost e = EdgeModel { source: source@, target: target@, tag: tag@ };
        self.edges.push(Edge { source, target, tag });
        proof {
            assert(self@ =~= old(self)@.push(e));
        }
    }

    /// All edges leaving `source`, filtered to `tag` if one is given, in
    /// insertion order.
    pub fn list_edges(&self, source: &Address, tag: Option<&String>) -> (r: Vec<Edge>)
        ensures
            edge_models(r@) == edges_from(self@, source@, tag_filter(tag)),
    {
        let ghost t = tag_filter(tag);
        let mut out: Vec<Edge> = Vec::new();
        proof {
            assert(edge_models(out@) =~= edges_from(self@.take(0), source@, t));
        }
        let mut i: usize = 0;
        while i < self.edges.len()
            invariant
                i <= self.edges.len(),
                edge_models(out@) == edges_from(self@.take(i as int), source@, t),
                t == tag_filter(tag),
            decreases self.edges.len() - i,
        {
            let e = &self.edges[i];
            let hit = if address_eq(&e.source, source) {
                match tag {
                    Some(want) => e.tag.eq(want),
                    None => true,
                }
            } else {
                false
            };
            proof {
                assert(self@.take(i + 1).drop_last() =~= self@.take(i as int));
                assert(self@.take(i + 1).last() == e@);
            }
            if hit {
                out.push(e.clone());
                proof {
                    assert(edge_models(out@) =~= edges_from(self@.take(i as int), source@, t).push(e@));
                }
            }
            i = i + 1;
        }
        proof {
            assert(self@.take(self.edges.len() as int) =~= self@);
        }
        out
    }

    /// Whether at least one edge leaves `source` under exactly this tag.
    pub fn has_edge(&self, source: &Address, tag: &String) -> (r: bool)
        ensures
            r == (edges_from(self@, source@, Some(tag@)).len() != 0),
    {
        let hits = self.list_edges(source, Some(tag));
        hits.len() != 0
    }
}

} // verus!
