//! The consensus groups driven from the record plane's coordinator: what a node does in each group
//! this period, an election's rounds, a learner's fetch, and the order of a period's work.

use crate::consensus::{region_in, region_of, ConsensusState, Fetch};
use crate::fleet::membership::{declared_map, Members};
use crate::fleet::record::{
    CONFIG_FETCH_STREAM, CONFIG_STREAM, ROOT_FETCH_STREAM, ROOT_STREAM,
};
use crate::fleet::session::{LateReplies, SessionHandle};
use crate::ids::{contains_host, lists, DomainId, HostId, RegionId};
use std::collections::BTreeMap;
use vstd::prelude::*;
use vstd::std_specs::btree::*;

verus! {

broadcast use group_btree_axioms;

/// A node's seat in a group this period.
#[derive(Clone, Copy, Debug, PartialEq, Eq, Structural)]
pub struct Seat {
    /// Whether a recovery of the group is pending: the node then stands aside as a learner.
    pub rejoining: bool,
    pub voter: bool,
    pub leader: bool,
    pub initialized: bool,
    /// Whether the data plane saw a newer configuration.
    pub refresh_wanted: bool,
    /// Whether the node's own view differs from the configuration it holds.
    pub diverges: bool,
}

/// What a node does in a group this period.
#[derive(Debug)]
pub enum GroupStep {
    /// A learner: fetch from these voters, or stay quiet. No voters named means any peer.
    Learn { fetch: bool, voters: Vec<HostId> },
    /// The leader: propose what its view calls for, and replicate to these voters.
    Lead { others: Vec<HostId> },
    /// The sole voter: elect itself.
    SelfElect,
    /// A follower: wait for its leader, and campaign among these voters past its timeout.
    Follow { others: Vec<HostId> },
}

/// A step's contents.
pub enum GroupStepFacts {
    Learn { fetch: bool, voters: Seq<HostId> },
    Lead { others: Seq<HostId> },
    SelfElect,
    Follow { others: Seq<HostId> },
}

impl View for GroupStep {
    type V = GroupStepFacts;

    open spec fn view(&self) -> GroupStepFacts {
        match *self {
            GroupStep::Learn { fetch, voters } => GroupStepFacts::Learn { fetch, voters: voters@ },
            GroupStep::Lead { others } => GroupStepFacts::Lead { others: others@ },
            GroupStep::SelfElect => GroupStepFacts::SelfElect,
            GroupStep::Follow { others } => GroupStepFacts::Follow { others: others@ },
        }
    }
}

/// The voters other than this node.
pub open spec fn other_voters(voters: Seq<HostId>, local: HostId) -> Seq<HostId> {
    voters.filter(|voter: HostId| voter != local)
}

/// What a node does in a group: a node without a seat learns, reactively, only when something says
/// it is behind; a leader leads, even one retiring; the sole voter elects itself; any other voter
/// follows.
pub open spec fn group_step_of(seat: Seat, local: HostId, voters: Seq<HostId>) -> GroupStepFacts {
    if seat.rejoining {
        GroupStepFacts::Learn { fetch: true, voters: Seq::empty() }
    } else if !seat.voter && !seat.leader {
        GroupStepFacts::Learn {
            fetch: !seat.initialized || seat.refresh_wanted || seat.diverges,
            voters,
        }
    } else if seat.leader {
        GroupStepFacts::Lead { others: other_voters(voters, local) }
    } else if other_voters(voters, local).len() == 0 {
        GroupStepFacts::SelfElect
    } else {
        GroupStepFacts::Follow { others: other_voters(voters, local) }
    }
}

/// The voters other than this node.
fn without_local(voters: &Vec<HostId>, local: HostId) -> (others: Vec<HostId>)
    ensures
        others@ == other_voters(voters@, local),
{
    let mut others: Vec<HostId> = Vec::new();
    let mut i: usize = 0;
    proof {
        reveal(Seq::filter);
        assert(others@ =~= other_voters(voters@.take(0), local));
    }
    while i < voters.len()
        invariant
            i <= voters@.len(),
            others@ == other_voters(voters@.take(i as int), local),
        decreases voters@.len() - i,
    {
        proof {
            reveal(Seq::filter);
            assert(voters@.take(i + 1).drop_last() =~= voters@.take(i as int));
            assert(voters@.take(i + 1).last() == voters@[i as int]);
        }
        if voters[i] != local {
            others.push(voters[i]);
        }
        i += 1;
    }
    assert(voters@.take(i as int) =~= voters@);
    others
}

/// What a node does in a group this period.
pub fn group_step(seat: Seat, local: HostId, voters: Vec<HostId>) -> (step: GroupStep)
    ensures
        step@ == group_step_of(seat, local, voters@),
{
    if seat.rejoining {
        return GroupStep::Learn { fetch: true, voters: Vec::new() };
    }
    if !seat.voter && !seat.leader {
        return GroupStep::Learn {
            fetch: !seat.initialized || seat.refresh_wanted || seat.diverges,
            voters,
        };
    }
    let others = without_local(&voters, local);
    if seat.leader {
        GroupStep::Lead { others }
    } else if others.len() == 0 {
        GroupStep::SelfElect
    } else {
        GroupStep::Follow { others }
    }
}

/// A node whose recovery is pending neither votes nor leads: it stands aside as a learner whatever
/// seat it holds.
pub proof fn a_rejoining_node_stands_aside(seat: Seat, local: HostId, voters: Seq<HostId>)
    requires
        seat.rejoining,
    ensures
        group_step_of(seat, local, voters) is Learn,
{
}

/// A converged learner is quiet: with its state in hand, nothing newer seen and its view equal to
/// its configuration, it fetches nothing.
pub proof fn a_converged_learner_is_quiet(seat: Seat, local: HostId, voters: Seq<HostId>)
    requires
        !seat.rejoining,
        !seat.voter,
        !seat.leader,
        seat.initialized,
        !seat.refresh_wanted,
        !seat.diverges,
    ensures
        group_step_of(seat, local, voters) == (GroupStepFacts::Learn { fetch: false, voters }),
{
}

/// A learner that is behind asks: without the group's state, with a newer configuration seen, or with
/// a view that differs from what it holds, a node without a seat fetches from the group's voters.
pub proof fn a_learner_behind_asks(seat: Seat, local: HostId, voters: Seq<HostId>)
    requires
        !seat.rejoining,
        !seat.voter,
        !seat.leader,
        !seat.initialized || seat.refresh_wanted || seat.diverges,
    ensures
        group_step_of(seat, local, voters) == (GroupStepFacts::Learn { fetch: true, voters }),
{
}

/// A node that rejoins asks any peer for its group's state.
pub proof fn a_rejoining_node_asks_any_peer(seat: Seat, local: HostId, voters: Seq<HostId>)
    requires
        seat.rejoining,
    ensures
        group_step_of(seat, local, voters) matches GroupStepFacts::Learn { fetch, voters: asked }
            && fetch && asked.len() == 0,
{
}

/// Which hosts the other voters are.
proof fn lemma_other_voters(voters: Seq<HostId>, local: HostId)
    ensures
        forall|host: HostId| #[trigger]
            lists(other_voters(voters, local), host) <==> lists(voters, host) && host != local,
    decreases voters.len(),
{
    reveal(Seq::filter);
    let others = other_voters(voters, local);
    if voters.len() > 0 {
        let shorter = voters.drop_last();
        let before = other_voters(shorter, local);
        lemma_other_voters(shorter, local);
        assert(others == (if voters.last() != local {
            before.push(voters.last())
        } else {
            before
        }));
        assert(voters =~= shorter.push(voters.last()));
        assert forall|host: HostId| #[trigger] lists(others, host) <==> lists(voters, host) && host
            != local by {
            lemma_lists_push(shorter, voters.last(), host);
            lemma_lists_push(before, voters.last(), host);
            assert(lists(before, host) <==> lists(shorter, host) && host != local);
        }
    }
}

/// A list with one more host lists that one, and those it listed.
pub(crate) proof fn lemma_lists_push(hosts: Seq<HostId>, last: HostId, host: HostId)
    ensures
        lists(hosts.push(last), host) <==> lists(hosts, host) || host == last,
{
    let longer = hosts.push(last);
    if lists(hosts, host) {
        let i = choose|i: int| 0 <= i < hosts.len() && hosts[i] == host;
        assert(longer[i] == host);
    }
    if host == last {
        assert(longer[hosts.len() as int] == host);
    }
    if lists(longer, host) {
        let i = choose|i: int| 0 <= i < longer.len() && longer[i] == host;
        if i < hosts.len() {
            assert(hosts[i] == host);
        }
    }
}

/// A seat is acted on: a leader leads, even one that votes no more; a voter that does not lead
/// follows, unless it is the only voter, which elects itself. A leader's and a follower's others are
/// the group's voters without the node itself.
pub proof fn a_seat_is_acted_on(seat: Seat, local: HostId, voters: Seq<HostId>)
    requires
        !seat.rejoining,
        seat.voter || seat.leader,
    ensures
        seat.leader == group_step_of(seat, local, voters) is Lead,
        !seat.leader ==> (group_step_of(seat, local, voters) is SelfElect <==> forall|i: int|
            0 <= i < voters.len() ==> #[trigger] voters[i] == local),
        !seat.leader && group_step_of(seat, local, voters) !is SelfElect ==> group_step_of(
            seat,
            local,
            voters,
        ) is Follow,
        match group_step_of(seat, local, voters) {
            GroupStepFacts::Lead { others } => forall|host: HostId| #[trigger]
                lists(others, host) <==> lists(voters, host) && host != local,
            GroupStepFacts::Follow { others } => forall|host: HostId| #[trigger]
                lists(others, host) <==> lists(voters, host) && host != local,
            _ => true,
        },
{
    let others = other_voters(voters, local);
    lemma_other_voters(voters, local);
    if others.len() == 0 {
        assert forall|i: int| 0 <= i < voters.len() implies #[trigger] voters[i] == local by {
            assert(lists(voters, voters[i]));
            assert(!lists(others, voters[i]));
        }
    } else {
        assert(lists(others, others[0]));
        let i = choose|i: int| 0 <= i < voters.len() && voters[i] == others[0];
        assert(voters[i] != local);
    }
}

/// Whether a host is proposed to the council: it may vote, and is of this node's region.
pub open spec fn proposed(members: Members, host: HostId) -> bool {
    members.votable(host) && region_of(members.node_regions@, host) == region_of(
        members.node_regions@,
        members.local,
    )
}

/// Whether `proposals` are the members a council is proposed.
pub open spec fn proposes(
    members: Members,
    alive: Seq<HostId>,
    domains: Option<Map<u64, DomainId>>,
    proposals: Seq<(HostId, Option<DomainId>)>,
) -> bool {
    &&& proposals.map_values(|proposal: (HostId, Option<DomainId>)| proposal.0) == alive.filter(
        |host: HostId| proposed(members, host),
    )
    &&& forall|i: int|
        0 <= i < proposals.len() ==> members.declares(
            (#[trigger] proposals[i]).0,
            domains,
            proposals[i].1,
        )
}

/// The members a council's leader proposes: the alive hosts that may vote, of its region, each with
/// the failure domain its node declares.
pub fn proposed_members(
    members: &Members,
    alive: &Vec<HostId>,
    domains: &Option<BTreeMap<u64, DomainId>>,
) -> (proposals: Vec<(HostId, Option<DomainId>)>)
    ensures
        proposes(*members, alive@, declared_map(*domains), proposals@),
{
    let mut proposals: Vec<(HostId, Option<DomainId>)> = Vec::new();
    let home = region_in(&members.node_regions, members.local);
    let mut i: usize = 0;
    proof {
        reveal(Seq::filter);
        assert(proposals@.map_values(|proposal: (HostId, Option<DomainId>)| proposal.0)
            =~= alive@.take(0).filter(|host: HostId| proposed(*members, host)));
    }
    while i < alive.len()
        invariant
            i <= alive@.len(),
            home == region_of(members.node_regions@, members.local),
            proposals@.map_values(|proposal: (HostId, Option<DomainId>)| proposal.0)
                == alive@.take(i as int).filter(|host: HostId| proposed(*members, host)),
            forall|j: int|
                0 <= j < proposals@.len() ==> members.declares(
                    (#[trigger] proposals@[j]).0,
                    declared_map(*domains),
                    proposals@[j].1,
                ),
        decreases alive@.len() - i,
    {
        let ghost before = proposals@;
        let host = alive[i];
        let learned = members.anchor_of(host);
        proof {
            reveal(Seq::filter);
            assert(alive@.take(i + 1).drop_last() =~= alive@.take(i as int));
            assert(alive@.take(i + 1).last() == alive@[i as int]);
            if let Some(anchor) = learned {
                assert(members.learned@.contains_key(anchor.0));
            }
        }
        let votes = host == members.local || learned.is_some();
        if votes && region_in(&members.node_regions, host) == home {
            let domain = members.declared_domain(host, domains);
            proposals.push((host, domain));
        }
        proof {
            assert(proposals@.map_values(|proposal: (HostId, Option<DomainId>)| proposal.0)
                =~= alive@.take(i + 1).filter(|host: HostId| proposed(*members, host)));
        }
        i += 1;
    }
    assert(alive@.take(i as int) =~= alive@);
    proposals
}

/// Whether a host is a region's representative: the lowest of its alive hosts that may vote.
pub open spec fn represents(
    members: Members,
    alive: Seq<HostId>,
    region: RegionId,
    host: HostId,
) -> bool {
    &&& lists(alive, host)
    &&& members.votable(host)
    &&& region_of(members.node_regions@, host) == region
    &&& forall|i: int|
        0 <= i < alive.len() && members.votable(#[trigger] alive[i]) && region_of(
            members.node_regions@,
            alive[i],
        ) == region ==> host.0 <= alive[i].0
}

/// Whether `representatives` stand for the regions alive.
pub open spec fn stands_for(
    members: Members,
    alive: Seq<HostId>,
    representatives: Map<u64, HostId>,
) -> bool {
    &&& forall|region: u64| #[trigger]
        representatives.contains_key(region) <==> members.region_alive(
            alive,
            RegionId(region),
        )
    &&& forall|region: u64| #[trigger]
        representatives.contains_key(region) ==> represents(
            members,
            alive,
            RegionId(region),
            representatives[region],
        )
}

/// Each alive region's representative.
pub fn alive_representatives(members: &Members, alive: &Vec<HostId>) -> (representatives: BTreeMap<
    u64,
    HostId,
>)
    ensures
        stands_for(*members, alive@, representatives@),
{
    let mut representatives: BTreeMap<u64, HostId> = BTreeMap::new();
    let mut i: usize = 0;
    while i < alive.len()
        invariant
            i <= alive@.len(),
            forall|region: u64| #[trigger]
                representatives@.contains_key(region) <==> members.region_alive(
                    alive@.take(i as int),
                    RegionId(region),
                ),
            forall|region: u64| #[trigger]
                representatives@.contains_key(region) ==> represents(
                    *members,
                    alive@.take(i as int),
                    RegionId(region),
                    representatives@[region],
                ),
        decreases alive@.len() - i,
    {
        let host = alive[i];
        let learned = members.anchor_of(host);
        let region = region_in(&members.node_regions, host);
        let votes = host == members.local || learned.is_some();
        let ghost before = representatives@;
        let ghost seen = alive@.take(i as int);
        let ghost longer = alive@.take(i + 1);
        proof {
            if let Some(anchor) = learned {
                assert(members.learned@.contains_key(anchor.0));
            }
            assert(votes == members.votable(host));
            assert(longer[i as int] == host);
            assert forall|j: int| 0 <= j < i implies #[trigger] longer[j] == seen[j] by {
            }
        }
        if votes {
            let replaces = match representatives.get(&region.0) {
                Some(known) => host.0 < known.0,
                None => true,
            };
            if replaces {
                representatives.insert(region.0, host);
            }
        }
        proof {
            assert forall|other: u64| #[trigger]
                representatives@.contains_key(other) <==> members.region_alive(
                    longer,
                    RegionId(other),
                ) by {
                if members.region_alive(longer, RegionId(other)) {
                    let k = choose|k: int|
                        0 <= k < longer.len() && members.votable(#[trigger] longer[k]) && region_of(
                            members.node_regions@,
                            longer[k],
                        ) == RegionId(other);
                    if k < i {
                        assert(members.votable(seen[k]));
                        assert(before.contains_key(other));
                    }
                }
                if before.contains_key(other) {
                    let k = choose|k: int|
                        0 <= k < seen.len() && members.votable(#[trigger] seen[k]) && region_of(
                            members.node_regions@,
                            seen[k],
                        ) == RegionId(other);
                    assert(members.votable(longer[k]));
                }
                if representatives@.contains_key(other) && !before.contains_key(other) {
                    assert(members.votable(longer[i as int]));
                }
            }
            assert forall|other: u64| #[trigger] representatives@.contains_key(other) implies
                represents(*members, longer, RegionId(other), representatives@[other]) by {
                let chosen = representatives@[other];
                if before.contains_key(other) {
                    let known = before[other];
                    assert(represents(*members, seen, RegionId(other), known));
                    let k = choose|k: int| 0 <= k < seen.len() && seen[k] == known;
                    assert(longer[k] == known);
                    assert(lists(longer, known));
                }
                assert(lists(longer, host));
                assert forall|j: int|
                    0 <= j < longer.len() && members.votable(#[trigger] longer[j]) && region_of(
                        members.node_regions@,
                        longer[j],
                    ) == RegionId(other) implies chosen.0 <= longer[j].0 by {
                    if j < i {
                        assert(longer[j] == seen[j]);
                        assert(members.votable(seen[j]));
                        assert(members.region_alive(seen, RegionId(other)));
                    }
                }
            }
        }
        i += 1;
    }
    assert(alive@.take(i as int) =~= alive@);
    representatives
}

/// A group's round over the transport.
#[derive(Clone, Copy, Debug, PartialEq, Eq)]
pub struct GroupRound {
    pub stream: u64,
    pub late: LateReplies,
}

/// The round a group's consensus messages go out in.
pub open spec fn consensus_round_of(root: bool) -> GroupRound {
    if root {
        GroupRound { stream: ROOT_STREAM, late: LateReplies::Root }
    } else {
        GroupRound { stream: CONFIG_STREAM, late: LateReplies::Council }
    }
}

/// The round a group's consensus messages go out in: on its own stream, with late replies folded
/// into the same group.
pub fn consensus_round(root: bool) -> (round: GroupRound)
    ensures
        round == consensus_round_of(root),
{
    if root {
        GroupRound { stream: ROOT_STREAM, late: LateReplies::Root }
    } else {
        GroupRound { stream: CONFIG_STREAM, late: LateReplies::Council }
    }
}

/// The round a learner's fetches go out in.
pub open spec fn fetch_round_of(root: bool) -> GroupRound {
    if root {
        GroupRound { stream: ROOT_FETCH_STREAM, late: LateReplies::RootFetch }
    } else {
        GroupRound { stream: CONFIG_FETCH_STREAM, late: LateReplies::ConfigFetch }
    }
}

/// The round a learner's fetches go out in.
pub fn fetch_round(root: bool) -> (round: GroupRound)
    ensures
        round == fetch_round_of(root),
{
    if root {
        GroupRound { stream: ROOT_FETCH_STREAM, late: LateReplies::RootFetch }
    } else {
        GroupRound { stream: CONFIG_FETCH_STREAM, late: LateReplies::ConfigFetch }
    }
}

/// A replication round's sessions: those whose voter is owed an append, and those kept without one.
#[derive(Debug)]
pub struct Paired {
    pub requests: Vec<(HostId, SessionHandle)>,
    pub kept: Vec<(HostId, SessionHandle)>,
}

/// Whether `paired` is how a round's sessions are paired with the appends owed.
pub open spec fn pairs(sessions: Seq<(HostId, SessionHandle)>, owed: Seq<HostId>, paired: Paired) -> bool {
    &&& paired.requests@ == sessions.filter(
        |session: (HostId, SessionHandle)| lists(owed, session.0),
    )
    &&& paired.kept@ == sessions.filter(
        |session: (HostId, SessionHandle)| !lists(owed, session.0),
    )
}

/// Pairs a replication round's sessions with the appends owed: every session goes to one side or
/// the other, in order.
pub fn pair_appends(sessions: &Vec<(HostId, SessionHandle)>, owed: &Vec<HostId>) -> (paired: Paired)
    ensures
        pairs(sessions@, owed@, paired),
{
    let mut requests: Vec<(HostId, SessionHandle)> = Vec::new();
    let mut kept: Vec<(HostId, SessionHandle)> = Vec::new();
    let mut i: usize = 0;
    proof {
        reveal(Seq::filter);
        assert(requests@ =~= sessions@.take(0).filter(
            |session: (HostId, SessionHandle)| lists(owed@, session.0),
        ));
        assert(kept@ =~= sessions@.take(0).filter(
            |session: (HostId, SessionHandle)| !lists(owed@, session.0),
        ));
    }
    while i < sessions.len()
        invariant
            i <= sessions@.len(),
            requests@ == sessions@.take(i as int).filter(
                |session: (HostId, SessionHandle)| lists(owed@, session.0),
            ),
            kept@ == sessions@.take(i as int).filter(
                |session: (HostId, SessionHandle)| !lists(owed@, session.0),
            ),
        decreases sessions@.len() - i,
    {
        proof {
            reveal(Seq::filter);
            assert(sessions@.take(i + 1).drop_last() =~= sessions@.take(i as int));
            assert(sessions@.take(i + 1).last() == sessions@[i as int]);
        }
        let (host, session) = sessions[i];
        if contains_host(owed, host) {
            requests.push((host, session));
        } else {
            kept.push((host, session));
        }
        i += 1;
    }
    assert(sessions@.take(i as int) =~= sessions@);
    Paired { requests, kept }
}

/// Where an election stands.
#[derive(Clone, Copy, Debug, PartialEq, Eq, Structural)]
pub enum Election {
    /// Broadcast the pre-vote to the borrowed voters.
    PreVote,
    /// A majority would grant: broadcast the vote over the same sessions.
    Vote,
    /// Return every borrowed session.
    Over,
}

impl Election {
    /// Where an election starts.
    pub open spec fn starting(pre_vote: bool, sessions: usize) -> Election {
        if pre_vote && sessions > 0 {
            Election::PreVote
        } else {
            Election::Over
        }
    }

    /// Where an election starts: a node that already leads or elected itself has no pre-vote to
    /// send, and without a voter's session nothing is sent.
    pub fn start(pre_vote: bool, sessions: usize) -> (election: Election)
        ensures
            election == Self::starting(pre_vote, sessions),
    {
        if pre_vote && sessions > 0 {
            Election::PreVote
        } else {
            Election::Over
        }
    }

    /// Where an election stands after a round.
    pub open spec fn after(self, vote: bool) -> Election {
        if self == Election::PreVote && vote {
            Election::Vote
        } else {
            Election::Over
        }
    }

    /// Where an election stands after a round's replies were folded: only a granted majority of
    /// pre-votes goes on to the vote, so the term advances only then.
    pub fn folded(self, vote: bool) -> (election: Election)
        ensures
            election == self.after(vote),
    {
        match self {
            Election::PreVote => if vote {
                Election::Vote
            } else {
                Election::Over
            },
            _ => Election::Over,
        }
    }
}

/// The last follow-on a round's replies produced, by its place: the vote request to broadcast.
pub open spec fn is_last_follow_on(follow_ons: Seq<bool>, at: int) -> bool {
    &&& 0 <= at < follow_ons.len()
    &&& follow_ons[at]
    &&& forall|i: int| at < i < follow_ons.len() ==> !(#[trigger] follow_ons[i])
}

/// Whether `at` is where the last follow-on stands.
pub open spec fn finds_last(follow_ons: Seq<bool>, at: Option<usize>) -> bool {
    match at {
        Some(at) => is_last_follow_on(follow_ons, at as int),
        None => forall|i: int| 0 <= i < follow_ons.len() ==> !(#[trigger] follow_ons[i]),
    }
}

/// The last follow-on a round's replies produced.
pub fn last_follow_on(follow_ons: &Vec<bool>) -> (at: Option<usize>)
    ensures
        finds_last(follow_ons@, at),
{
    let mut at: Option<usize> = None;
    let mut i: usize = 0;
    while i < follow_ons.len()
        invariant
            i <= follow_ons@.len(),
            match at {
                Some(at) => {
                    &&& at < i
                    &&& follow_ons@[at as int]
                    &&& forall|j: int| at < j < i ==> !(#[trigger] follow_ons@[j])
                },
                None => forall|j: int| 0 <= j < i ==> !(#[trigger] follow_ons@[j]),
            },
        decreases follow_ons@.len() - i,
    {
        if follow_ons[i] {
            at = Some(i);
        }
        i += 1;
    }
    at
}

/// Whether a learner fetches from a peer.
pub open spec fn asks_peer(root: bool, regional: bool, voters: Seq<HostId>, peer: HostId) -> bool {
    (root || regional) && (voters.len() == 0 || lists(voters, peer))
}

/// Whether a fetch goes to a peer: a voter, or any peer while no voter is known, and for the
/// council only one of this node's region.
pub fn fetches_from(root: bool, regional: bool, voters: &Vec<HostId>, peer: HostId) -> (wanted:
    bool)
    ensures
        wanted == asks_peer(root, regional, voters@, peer),
{
    (root || regional) && (voters.len() == 0 || contains_host(voters, peer))
}

/// Whether `request` is what a learner asks with.
pub open spec fn requests(state: ConsensusState, root: bool, request: Fetch) -> bool {
    &&& request.version == state.group_state(root).version
    &&& match request.group {
        Some(group) => state.recovery.target_facts(root) is None && (state.group_state(
            root,
        ).group matches Some(own) && own@ == group@),
        None => state.recovery.target_facts(root) is Some || state.group_state(
            root,
        ).group is None,
    }
}

/// The request a learner fetches with: it names its group and version, unless a recovery of the
/// group is pending, when it asks for the whole state.
pub fn fetch_request(state: &ConsensusState, root: bool) -> (request: Fetch)
    ensures
        requests(*state, root, request),
{
    let version: u64 = if root {
        state.root.version
    } else {
        state.council.version
    };
    let group = if state.recovery.target(root).is_some() {
        None
    } else {
        state.group_id(root)
    };
    Fetch { group, version }
}

/// What a consensus request is answered with.
#[derive(Clone, Copy, Debug, PartialEq, Eq, Structural)]
pub enum GroupAnswer {
    /// Nothing: the peer is of another region, or the message does not decode.
    Nothing,
    /// Run the message through the group, and send its reply if it makes one.
    Run,
}

/// What a group's message is answered with.
pub open spec fn group_answer(root: bool, same_region: bool, decoded: bool) -> GroupAnswer {
    if (root || same_region) && decoded {
        GroupAnswer::Run
    } else {
        GroupAnswer::Nothing
    }
}

/// What a consensus request is answered with: the council serves its own region alone, the root
/// group every region.
pub fn serve_group(root: bool, same_region: bool, decoded: bool) -> (answer: GroupAnswer)
    ensures
        answer == group_answer(root, same_region, decoded),
{
    if (root || same_region) && decoded {
        GroupAnswer::Run
    } else {
        GroupAnswer::Nothing
    }
}

/// The work of a coordinator's period, in its order.
#[derive(Clone, Copy, Debug, PartialEq, Eq, Structural)]
pub enum PeriodStep {
    /// Note forward progress, and settle the dispatches still in flight.
    Settle,
    /// Drive the configuration council.
    Council,
    /// Drive the root group.
    Root,
    /// Install what the council committed.
    Sync,
    /// Fan the committed configurations to the other shards.
    Fan,
    /// Bring the owner's own hold under the installed generation.
    Authority,
    /// One owner shard's record period.
    Records { shard: usize },
    /// Drive the owed takeovers.
    Takeovers,
    /// Serve the adopted heads' content.
    Materialize,
    /// Sleep until the next period.
    Rest,
}

impl PeriodStep {
    /// The step after this one, over a number of shards.
    pub open spec fn following(self, shards: usize) -> PeriodStep {
        match self {
            PeriodStep::Settle => PeriodStep::Council,
            PeriodStep::Council => PeriodStep::Root,
            PeriodStep::Root => PeriodStep::Sync,
            PeriodStep::Sync => PeriodStep::Fan,
            PeriodStep::Fan => PeriodStep::Authority,
            PeriodStep::Authority => if shards > 0 {
                PeriodStep::Records { shard: 0 }
            } else {
                PeriodStep::Takeovers
            },
            PeriodStep::Records { shard } => if shard + 1 < shards {
                PeriodStep::Records { shard: (shard + 1) as usize }
            } else {
                PeriodStep::Takeovers
            },
            PeriodStep::Takeovers => PeriodStep::Materialize,
            PeriodStep::Materialize => PeriodStep::Rest,
            PeriodStep::Rest => PeriodStep::Settle,
        }
    }

    /// The step after this one.
    pub fn next(self, shards: usize) -> (step: PeriodStep)
        ensures
            step == self.following(shards),
    {
        match self {
            PeriodStep::Settle => PeriodStep::Council,
            PeriodStep::Council => PeriodStep::Root,
            PeriodStep::Root => PeriodStep::Sync,
            PeriodStep::Sync => PeriodStep::Fan,
            PeriodStep::Fan => PeriodStep::Authority,
            PeriodStep::Authority => if shards > 0 {
                PeriodStep::Records { shard: 0 }
            } else {
                PeriodStep::Takeovers
            },
            PeriodStep::Records { shard } => if shard < shards && shard + 1 < shards {
                PeriodStep::Records { shard: shard + 1 }
            } else {
                PeriodStep::Takeovers
            },
            PeriodStep::Takeovers => PeriodStep::Materialize,
            PeriodStep::Materialize => PeriodStep::Rest,
            PeriodStep::Rest => PeriodStep::Settle,
        }
    }
}

/// The work of one owner shard's record period, in its order: content places before the head that
/// names it ships, and both before the seal is recorded.
#[derive(Clone, Copy, Debug, PartialEq, Eq, Structural)]
pub enum RecordStep {
    /// Advance the shard's seals a slice each, and put the complete archives' content.
    Seals,
    /// Ship each unplaced head to the candidates that lack it.
    Heads,
    /// Record the seals whose content and head have both placed.
    Record,
    /// The greens' merge records.
    Merges,
    Done,
}

impl RecordStep {
    /// The step that follows.
    pub open spec fn following(self) -> RecordStep {
        match self {
            RecordStep::Seals => RecordStep::Heads,
            RecordStep::Heads => RecordStep::Record,
            RecordStep::Record => RecordStep::Merges,
            RecordStep::Merges => RecordStep::Done,
            RecordStep::Done => RecordStep::Done,
        }
    }

    /// The step after this one.
    pub fn next(self) -> (step: RecordStep)
        ensures
            step == self.following(),
    {
        match self {
            RecordStep::Seals => RecordStep::Heads,
            RecordStep::Heads => RecordStep::Record,
            RecordStep::Record => RecordStep::Merges,
            RecordStep::Merges => RecordStep::Done,
            RecordStep::Done => RecordStep::Done,
        }
    }
}

/// The two groups never share a stream, and a late reply is folded into the group, and the kind of
/// round, that asked for it.
pub proof fn each_group_has_its_own_rounds(root: bool)
    ensures
        consensus_round_of(root).stream != consensus_round_of(!root).stream,
        fetch_round_of(root).stream != fetch_round_of(!root).stream,
        consensus_round_of(root).stream != fetch_round_of(root).stream,
        consensus_round_of(root).stream != fetch_round_of(!root).stream,
        consensus_round_of(false).stream == 7 && consensus_round_of(true).stream == 9,
        fetch_round_of(false).stream == 8 && fetch_round_of(true).stream == 10,
        (consensus_round_of(root).late == LateReplies::Root) == root,
        (consensus_round_of(root).late == LateReplies::Council) == !root,
        (fetch_round_of(root).late == LateReplies::RootFetch) == root,
        (fetch_round_of(root).late == LateReplies::ConfigFetch) == !root,
{
}

/// No session of a replication round is lost, and each goes where its voter's append is: a voter owed
/// an append gets its request, and any other keeps its session.
pub proof fn every_session_is_paired(
    sessions: Seq<(HostId, SessionHandle)>,
    owed: Seq<HostId>,
    paired: Paired,
    at: int,
)
    requires
        pairs(sessions, owed, paired),
        0 <= at < sessions.len(),
    ensures
        lists(owed, sessions[at].0) ==> paired.requests@.contains(sessions[at]),
        !lists(owed, sessions[at].0) ==> paired.kept@.contains(sessions[at]),
        paired.requests@.len() + paired.kept@.len() == sessions.len(),
{
    lemma_paired(sessions, owed, at);
}

/// How a round's sessions are split.
proof fn lemma_paired(sessions: Seq<(HostId, SessionHandle)>, owed: Seq<HostId>, at: int)
    requires
        0 <= at < sessions.len(),
    ensures
        ({
            let requests = sessions.filter(
                |session: (HostId, SessionHandle)| lists(owed, session.0),
            );
            let kept = sessions.filter(|session: (HostId, SessionHandle)| !lists(owed, session.0));
            &&& lists(owed, sessions[at].0) ==> requests.contains(sessions[at])
            &&& !lists(owed, sessions[at].0) ==> kept.contains(sessions[at])
            &&& requests.len() + kept.len() == sessions.len()
        }),
    decreases sessions.len(),
{
    reveal(Seq::filter);
    let shorter = sessions.drop_last();
    let last = sessions.last();
    let requests = sessions.filter(|session: (HostId, SessionHandle)| lists(owed, session.0));
    let kept = sessions.filter(|session: (HostId, SessionHandle)| !lists(owed, session.0));
    let fewer = shorter.filter(|session: (HostId, SessionHandle)| lists(owed, session.0));
    let less = shorter.filter(|session: (HostId, SessionHandle)| !lists(owed, session.0));
    if shorter.len() > 0 {
        lemma_paired(
            shorter,
            owed,
            if at < shorter.len() {
                at
            } else {
                0
            },
        );
    } else {
        assert(fewer.len() == 0 && less.len() == 0);
    }
    if lists(owed, last.0) {
        assert(requests == fewer.push(last));
        assert(requests[fewer.len() as int] == last);
    } else {
        assert(kept == less.push(last));
        assert(kept[less.len() as int] == last);
    }
    if at < shorter.len() {
        if lists(owed, sessions[at].0) {
            let k = choose|k: int| 0 <= k < fewer.len() && fewer[k] == sessions[at];
            assert(requests[k] == sessions[at]);
        } else {
            let k = choose|k: int| 0 <= k < less.len() && less[k] == sessions[at];
            assert(kept[k] == sessions[at]);
        }
    }
}

/// A term advances only on a majority's word: the vote goes out after a pre-vote that would be
/// granted, over sessions that are there, and once.
pub proof fn a_vote_follows_a_granted_pre_vote(
    pre_vote: bool,
    sessions: usize,
    election: Election,
    vote: bool,
)
    ensures
        Election::starting(pre_vote, sessions) != Election::Vote,
        (Election::starting(pre_vote, sessions) == Election::PreVote) == (pre_vote && sessions > 0),
        election.after(vote) != Election::PreVote,
        (election.after(vote) == Election::Vote) == (election == Election::PreVote && vote),
{
}

/// A learner asks the group's voters, or anyone when it knows none, within the group's reach; it asks
/// for its own group from its own version on, and, while it waits for a recovery, as a fresh node.
pub proof fn a_learner_asks_for_its_own_group(
    state: ConsensusState,
    root: bool,
    regional: bool,
    voters: Seq<HostId>,
    peer: HostId,
    request: Fetch,
)
    requires
        requests(state, root, request),
    ensures
        asks_peer(root, regional, voters, peer) <==> (root || regional) && (voters.len() == 0
            || voters.contains(peer)),
        ({
            let own = if root {
                state.root
            } else {
                state.council
            };
            let pending = if root {
                state.recovery.root
            } else {
                state.recovery.council
            };
            &&& request.version == own.version
            &&& request.group is Some <==> pending is None && own.group is Some
            &&& request.group matches Some(group) ==> group@ == (own.group->0)@
        }),
        (group_answer(root, regional, true) == GroupAnswer::Run) == (root || regional),
        group_answer(root, regional, false) == GroupAnswer::Nothing,
{
}

/// A period settles what came in first, drives the council before the root and both before what
/// follows from them, takes every shard's records in turn, and ends with the takeovers.
pub proof fn a_period_runs_in_order(step: PeriodStep, shards: usize, shard: usize)
    ensures
        PeriodStep::Settle.following(shards) == PeriodStep::Council,
        PeriodStep::Council.following(shards) == PeriodStep::Root,
        PeriodStep::Root.following(shards) == PeriodStep::Sync,
        PeriodStep::Sync.following(shards) == PeriodStep::Fan,
        PeriodStep::Fan.following(shards) == PeriodStep::Authority,
        shards > 0 ==> PeriodStep::Authority.following(shards) == (PeriodStep::Records { shard: 0 }),
        shards == 0 ==> PeriodStep::Authority.following(shards) == PeriodStep::Takeovers,
        shard + 1 < shards ==> (PeriodStep::Records { shard }).following(shards)
            == (PeriodStep::Records { shard: (shard + 1) as usize }),
        shard + 1 >= shards ==> (PeriodStep::Records { shard }).following(shards)
            == PeriodStep::Takeovers,
        PeriodStep::Takeovers.following(shards) == PeriodStep::Materialize,
        PeriodStep::Materialize.following(shards) == PeriodStep::Rest,
        PeriodStep::Rest.following(shards) == PeriodStep::Settle,
        RecordStep::Seals.following() == RecordStep::Heads,
        RecordStep::Heads.following() == RecordStep::Record,
        RecordStep::Record.following() == RecordStep::Merges,
        RecordStep::Merges.following() == RecordStep::Done,
{
}

/// A council is proposed the hosts alive and known of the local region, and no others, each with the
/// domain declared for it.
pub proof fn a_council_is_of_one_region(
    members: Members,
    alive: Seq<HostId>,
    domains: Option<Map<u64, DomainId>>,
    proposals: Seq<(HostId, Option<DomainId>)>,
    at: int,
    host: HostId,
)
    requires
        proposes(members, alive, domains, proposals),
    ensures
        0 <= at < proposals.len() ==> {
            let proposed = proposals[at].0;
            &&& alive.contains(proposed)
            &&& region_of(members.node_regions@, proposed) == region_of(
                members.node_regions@,
                members.local,
            )
            &&& proposed == members.local || exists|anchor: u64| #[trigger]
                members.learned@.contains_key(anchor) && members.learned@[anchor].host == proposed
            &&& domains is None ==> proposals[at].1 is None
            &&& domains is Some && (domains->0).contains_key(proposed.0) ==> proposals[at].1 == Some(
                (domains->0)[proposed.0],
            )
        },
        alive.contains(host) && host == members.local ==> exists|i: int|
            0 <= i < proposals.len() && (#[trigger] proposals[i]).0 == host,
        alive.contains(host) && members.has_learned(host) && region_of(members.node_regions@, host)
            == region_of(members.node_regions@, members.local) ==> exists|i: int|
            0 <= i < proposals.len() && (#[trigger] proposals[i]).0 == host,
{
    let hosts = proposals.map_values(|proposal: (HostId, Option<DomainId>)| proposal.0);
    lemma_proposed(members, alive, host);
    if 0 <= at < proposals.len() {
        assert(hosts[at] == proposals[at].0);
        assert(hosts.contains(proposals[at].0));
        lemma_proposed(members, alive, proposals[at].0);
        assert(members.declares(proposals[at].0, domains, proposals[at].1));
    }
    if hosts.contains(host) {
        let i = choose|i: int| 0 <= i < hosts.len() && hosts[i] == host;
        assert(proposals[i].0 == host);
    }
}

/// The hosts proposed of a list are those of it that may be.
proof fn lemma_proposed(members: Members, alive: Seq<HostId>, host: HostId)
    ensures
        alive.filter(|host: HostId| proposed(members, host)).contains(host) <==> alive.contains(host)
            && proposed(members, host),
{
    let may = |host: HostId| proposed(members, host);
    let kept = alive.filter(may);
    if kept.contains(host) {
        let i = choose|i: int| 0 <= i < kept.len() && kept[i] == host;
        alive.lemma_filter_pred(may, i);
        alive.lemma_filter_contains_rev(may, host);
    }
    if alive.contains(host) && proposed(members, host) {
        let i = choose|i: int| 0 <= i < alive.len() && alive[i] == host;
        alive.lemma_filter_contains(may, i);
    }
}

/// Each region with a host that counts is stood for by the lowest of them, and no other region is.
pub proof fn a_region_is_stood_for_by_its_lowest_host(
    members: Members,
    alive: Seq<HostId>,
    representatives: Map<u64, HostId>,
    at: int,
    region: u64,
)
    requires
        stands_for(members, alive, representatives),
        0 <= at < alive.len(),
    ensures
        alive[at] == members.local || members.has_learned(alive[at]) ==> {
            let own = region_of(members.node_regions@, alive[at]).0;
            &&& representatives.contains_key(own)
            &&& representatives[own].0 <= alive[at].0
        },
        representatives.contains_key(region) ==> {
            let host = representatives[region];
            &&& alive.contains(host)
            &&& region_of(members.node_regions@, host) == RegionId(region)
            &&& host == members.local || members.has_learned(host)
        },
{
    if members.votable(alive[at]) {
        let own = region_of(members.node_regions@, alive[at]);
        assert(RegionId(own.0) == own);
        assert(members.region_alive(alive, own));
        assert(representatives.contains_key(own.0));
        assert(represents(members, alive, own, representatives[own.0]));
    }
}

/// The last follow-on is one, and none stands behind it.
pub proof fn the_last_follow_on_has_none_behind_it(follow_ons: Seq<bool>, at: Option<usize>, i: int)
    requires
        finds_last(follow_ons, at),
        0 <= i < follow_ons.len(),
    ensures
        follow_ons[i] ==> at is Some && i <= at->0,
        at matches Some(at) ==> at < follow_ons.len() && follow_ons[at as int],
{
}

} // verus!
