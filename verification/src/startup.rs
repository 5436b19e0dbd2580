//! What a node works out before it starts.

use crate::config::config::{self, ClusterNode, NodeView};
use crate::persistence::worker::VoteRow;
use crate::service_utils::storage_utils::SerializationData;
use crate::service_utils::text;
use std::collections::HashMap;
use std::sync::Arc;
use vstd::prelude::*;

verus! {

/// How many of `cluster_nodes` peers have to agree, besides the node itself, for
/// a write to be committed. An election counts the vote of the candidate for
/// itself among as many.
pub open spec fn quorum_of(cluster_nodes: int) -> int {
    (cluster_nodes + 1) / 2
}

/// How many of `cluster_nodes` peers have to agree, besides the node itself.
pub fn quorum_size(cluster_nodes: usize) -> (size: u32)
    requires
        cluster_nodes <= u32::MAX,
    ensures
        size == quorum_of(cluster_nodes as int),
{
    let nodes: u32 = cluster_nodes as u32;
    nodes / 2 + nodes % 2
}

/// A leader and a quorum of its peers, who hold a committed write, are a majority
/// of the cluster, so two such groups always have a node in common. This is not
/// said of elections, in which the candidate is one of the quorum.
pub proof fn law_quorum_is_a_majority(cluster_nodes: int, first: int, second: int)
    requires
        0 <= cluster_nodes,
        first >= quorum_of(cluster_nodes) + 1,
        second >= quorum_of(cluster_nodes) + 1,
    ensures
        2 * (quorum_of(cluster_nodes) + 1) > cluster_nodes + 1,
        first + second > cluster_nodes + 1,
{
}

/// The nodes of a cluster without one.
pub open spec fn without(nodes: Seq<NodeView>, node_id: u32) -> Seq<NodeView>
    decreases nodes.len(),
{
    if nodes.len() == 0 {
        Seq::empty()
    } else if nodes.last().node_id == node_id {
        without(nodes.drop_last(), node_id)
    } else {
        without(nodes.drop_last(), node_id).push(nodes.last())
    }
}

/// Filter out self from cluster nodes
pub fn other_nodes(nodes: &Vec<ClusterNode>, node_id: u32) -> (others: Vec<ClusterNode>)
    ensures
        config::nodes_view(others@) == without(config::nodes_view(nodes@), node_id),
{
    let ghost all = config::nodes_view(nodes@);
    let len: usize = nodes.len();
    let mut others: Vec<ClusterNode> = Vec::new();
    let mut done: usize = 0;
    assert(all.take(0) =~= Seq::empty());
    assert(config::nodes_view(others@) =~= Seq::empty());
    while done < len
        invariant
            len == nodes.len(),
            all == config::nodes_view(nodes@),
            done <= len,
            config::nodes_view(others@) == without(all.take(done as int), node_id),
        decreases len - done,
    {
        let node = &nodes[done];
        let ghost longer = all.take(done + 1);
        assert(longer.drop_last() =~= all.take(done as int));
        assert(longer.last() == node@);
        if node.node_id != node_id {
            let ghost before = others@;
            let copy = node.clone();
            others.push(copy);
            assert(config::nodes_view(others@) =~= config::nodes_view(before).push(node@));
        }
        done = done + 1;
    }
    assert(all.take(len as int) =~= all);
    others
}

/// Where a file of some name is looked for, in this order.
pub open spec fn search_locations(resource_dir: Seq<char>, file: Seq<char>) -> Seq<Seq<char>> {
    seq![resource_dir + file, "src/resources"@ + file, "."@ + file]
}

/// What a list of texts says.
pub open spec fn texts_view(texts: Seq<String>) -> Seq<Seq<char>> {
    texts.map_values(|t: String| t@)
}

/// The files that a configuration is read from: first the defaults, then what
/// overrides them.
pub fn config_files(resource_dir: &str) -> (files: Vec<String>)
    ensures
        texts_view(files@) == search_locations(resource_dir@, "/application.toml"@)
            + search_locations(resource_dir@, "/local.toml"@),
{
    let mut files: Vec<String> = Vec::new();
    files.push(text::concat2(resource_dir, "/application.toml"));
    files.push(text::concat2("src/resources", "/application.toml"));
    files.push(text::concat2(".", "/application.toml"));
    files.push(text::concat2(resource_dir, "/local.toml"));
    files.push(text::concat2("src/resources", "/local.toml"));
    files.push(text::concat2(".", "/local.toml"));
    assert(texts_view(files@) =~= search_locations(resource_dir@, "/application.toml"@)
        + search_locations(resource_dir@, "/local.toml"@));
    files
}

/// The name under which a node reports its spans.
pub fn service_name(node_id: u32) -> (name: String)
    ensures
        name@ == "kraft_node_"@ + text::decimal(node_id as nat),
{
    let number = text::decimal_text(node_id as u64);
    text::concat2("kraft_node_", number.as_str())
}

/// The index and the term of the last entry of a log. An empty log has neither,
/// for which zeroes stand.
pub fn last_position(log: &Vec<Arc<SerializationData>>) -> (position: (u64, u64))
    ensures
        position == if log@.len() == 0 {
            (0, 0)
        } else {
            (log@.last().index, log@.last().term)
        },
{
    let len: usize = log.len();
    if len == 0 {
        (0, 0)
    } else {
        (log[len - 1].index, log[len - 1].term)
    }
}

/// The highest term that a node has seen, by its log and its votes, or 0.
pub fn seen_term(log: &Vec<Arc<SerializationData>>, votes: &Vec<VoteRow>) -> (term: u64)
    ensures
        forall|i: int| 0 <= i < log@.len() ==> (#[trigger] log@[i]).term <= term,
        forall|i: int| 0 <= i < votes@.len() ==> (#[trigger] votes@[i]).term <= term,
        term == 0 || (exists|i: int| 0 <= i < log@.len() && (#[trigger] log@[i]).term == term) || (
        exists|i: int| 0 <= i < votes@.len() && (#[trigger] votes@[i]).term == term),
{
    let mut term: u64 = 0;
    let mut entry: usize = 0;
    while entry < log.len()
        invariant
            entry <= log@.len(),
            forall|i: int| 0 <= i < entry ==> (#[trigger] log@[i]).term <= term,
            term == 0 || (exists|i: int|
                0 <= i < log@.len() && (#[trigger] log@[i]).term == term),
        decreases log@.len() - entry,
    {
        if log[entry].term > term {
            term = log[entry].term;
            assert(log@[entry as int].term == term);
        }
        entry = entry + 1;
    }
    let mut vote: usize = 0;
    while vote < votes.len()
        invariant
            vote <= votes@.len(),
            forall|i: int| 0 <= i < log@.len() ==> (#[trigger] log@[i]).term <= term,
            forall|i: int| 0 <= i < vote ==> (#[trigger] votes@[i]).term <= term,
            term == 0 || (exists|i: int|
                0 <= i < log@.len() && (#[trigger] log@[i]).term == term) || (exists|i: int|
                0 <= i < votes@.len() && (#[trigger] votes@[i]).term == term),
        decreases votes@.len() - vote,
    {
        if votes[vote].term > term {
            term = votes[vote].term;
            assert(votes@[vote as int].term == term);
        }
        vote = vote + 1;
    }
    term
}

/// Whom a node has voted for in each term. The last vote of a term counts.
pub open spec fn votes_of(votes: Seq<VoteRow>) -> Map<u64, u32>
    decreases votes.len(),
{
    if votes.len() == 0 {
        Map::empty()
    } else {
        votes_of(votes.drop_last()).insert(votes.last().term, votes.last().candidate_id)
    }
}

/// Whom a node has voted for in each term. The last vote of a term counts.
pub fn votes_by_term(votes: &Vec<VoteRow>) -> (by_term: HashMap<u64, u32>)
    ensures
        by_term@ == votes_of(votes@),
{
    broadcast use vstd::std_specs::hash::group_hash_axioms;

    let mut by_term: HashMap<u64, u32> = HashMap::new();
    let mut vote: usize = 0;
    assert(votes@.take(0) =~= Seq::empty());
    while vote < votes.len()
        invariant
            vote <= votes@.len(),
            by_term@ == votes_of(votes@.take(vote as int)),
        decreases votes@.len() - vote,
    {
        assert(votes@.take(vote + 1).drop_last() =~= votes@.take(vote as int));
        by_term.insert(votes[vote].term, votes[vote].candidate_id);
        vote = vote + 1;
    }
    assert(votes@.take(votes@.len() as int) =~= votes@);
    by_term
}

/// Where each term starts in a log: at the entry that follows on another term.
pub open spec fn starts_of(log: Seq<Arc<SerializationData>>) -> Map<u64, u64>
    decreases log.len(),
{
    if log.len() == 0 {
        Map::empty()
    } else if log.last().prev_term != log.last().term {
        starts_of(log.drop_last()).insert(log.last().term, (log.len() - 1) as u64)
    } else {
        starts_of(log.drop_last())
    }
}

/// Where each term starts in a log: at the entry that follows on another term.
pub fn term_starts(log: &Vec<Arc<SerializationData>>) -> (starts: HashMap<u64, u64>)
    ensures
        starts@ == starts_of(log@),
{
    broadcast use vstd::std_specs::hash::group_hash_axioms;

    let mut starts: HashMap<u64, u64> = HashMap::new();
    let mut entry: usize = 0;
    assert(log@.take(0) =~= Seq::empty());
    while entry < log.len()
        invariant
            entry <= log@.len(),
            starts@ == starts_of(log@.take(entry as int)),
        decreases log@.len() - entry,
    {
        assert(log@.take(entry + 1).drop_last() =~= log@.take(entry as int));
        if log[entry].prev_term != log[entry].term {
            starts.insert(log[entry].term, entry as u64);
        }
        entry = entry + 1;
    }
    assert(log@.take(log@.len() as int) =~= log@);
    starts
}

/// No fewer peers would do, with the node itself, for a majority of the cluster.
pub proof fn law_quorum_is_no_larger_than_needed(cluster_nodes: int)
    requires
        0 <= cluster_nodes,
    ensures
        2 * quorum_of(cluster_nodes) <= cluster_nodes + 1,
        cluster_nodes > 0 ==> 0 < quorum_of(cluster_nodes) <= cluster_nodes,
{
}

/// The other nodes of a cluster are all of its nodes but the one, in their order.
pub proof fn law_other_nodes_are_all_but_one(nodes: Seq<NodeView>, node_id: u32)
    ensures
        without(nodes, node_id) == nodes.filter(|n: NodeView| n.node_id != node_id),
    decreases nodes.len(),
{
    reveal(Seq::filter);
    if nodes.len() > 0 {
        law_other_nodes_are_all_but_one(nodes.drop_last(), node_id);
    }
}

/// A node that starts again has voted for whom it voted last in each term in which it
/// voted, and for nobody in any other.
pub proof fn law_votes_are_recovered(votes: Seq<VoteRow>, term: u64)
    ensures
        (forall|i: int| 0 <= i < votes.len() ==> (#[trigger] votes[i]).term != term) ==> !votes_of(
            votes,
        ).contains_key(term),
        forall|last: int|
            0 <= last < votes.len() && (#[trigger] votes[last]).term == term && (forall|i: int|
                last < i < votes.len() ==> (#[trigger] votes[i]).term != term) ==> votes_of(
                votes,
            ).contains_key(term) && votes_of(votes)[term] == votes[last].candidate_id,
    decreases votes.len(),
{
    if votes.len() > 0 {
        let fewer = votes.drop_last();
        let end = votes.len() - 1;
        law_votes_are_recovered(fewer, term);
        if forall|i: int| 0 <= i < votes.len() ==> (#[trigger] votes[i]).term != term {
            assert forall|i: int| 0 <= i < fewer.len() implies (#[trigger] fewer[i]).term != term by {
                assert(votes[i].term != term);
            }
            assert(votes[end].term != term);
        }
        assert forall|last: int|
            0 <= last < votes.len() && (#[trigger] votes[last]).term == term && (forall|i: int|
                last < i < votes.len() ==> (#[trigger] votes[i]).term != term) implies votes_of(
            votes,
        ).contains_key(term) && votes_of(votes)[term] == votes[last].candidate_id by {
            if last < end {
                assert(fewer[last].term == term);
                assert forall|i: int| last < i < fewer.len() implies (#[trigger] fewer[i]).term
                    != term by {
                    assert(votes[i].term != term);
                }
                assert(votes[end].term != term);
            }
        }
    }
}

/// A term starts in a log at the last entry of that term that follows on another
/// term. A term without such an entry has no start.
pub proof fn law_terms_start_where_they_follow_another(
    log: Seq<Arc<SerializationData>>,
    term: u64,
)
    requires
        log.len() <= u64::MAX,
    ensures
        (forall|i: int|
            0 <= i < log.len() ==> (#[trigger] log[i]).term != term || log[i].prev_term == term)
            ==> !starts_of(log).contains_key(term),
        forall|last: int|
            0 <= last < log.len() && (#[trigger] log[last]).term == term && log[last].prev_term
                != term && (forall|i: int|
                last < i < log.len() ==> (#[trigger] log[i]).term != term || log[i].prev_term
                    == term) ==> starts_of(log).contains_key(term) && starts_of(log)[term] == last,
    decreases log.len(),
{
    if log.len() > 0 {
        let fewer = log.drop_last();
        let end = log.len() - 1;
        law_terms_start_where_they_follow_another(fewer, term);
        if forall|i: int|
            0 <= i < log.len() ==> (#[trigger] log[i]).term != term || log[i].prev_term == term {
            assert forall|i: int| 0 <= i < fewer.len() implies (#[trigger] fewer[i]).term != term
                || fewer[i].prev_term == term by {
                assert(log[i] == fewer[i]);
            }
            assert(log[end].term != term || log[end].prev_term == term);
        }
        assert forall|last: int|
            0 <= last < log.len() && (#[trigger] log[last]).term == term && log[last].prev_term
                != term && (forall|i: int|
                last < i < log.len() ==> (#[trigger] log[i]).term != term || log[i].prev_term
                    == term) implies starts_of(log).contains_key(term) && starts_of(log)[term]
            == last by {
            if last < end {
                assert(fewer[last] == log[last]);
                assert forall|i: int| last < i < fewer.len() implies (#[trigger] fewer[i]).term
                    != term || fewer[i].prev_term == term by {
                    assert(log[i] == fewer[i]);
                }
                assert(log[end].term != term || log[end].prev_term == term);
            }
        }
    }
}

} // verus!
