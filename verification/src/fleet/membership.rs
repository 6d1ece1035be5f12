//! Who is a member: the identities peers announce on authenticated contact, what gossip may say of
//! them, who is believed dead and for how long, and whom this node keeps direct contact with.

use crate::arith::clamp_u32;
use crate::consensus::{region_in, region_of};
use crate::ids::{contains_host, lists, DomainId, HostId, RegionId};
use crate::table::{are_keys, keys_of};
use std::collections::{BTreeMap, BTreeSet};
use vstd::prelude::*;
use vstd::std_specs::btree::*;

verus! {

broadcast use group_btree_axioms;

/// What is believed of a member.
#[derive(Clone, Copy, Debug, PartialEq, Eq, Structural)]
pub enum Liveness {
    Alive,
    Suspect,
    Dead,
}

/// A belief about a member, at its incarnation.
#[derive(Clone, Copy, Debug, PartialEq, Eq, Structural)]
pub struct MemberState {
    pub liveness: Liveness,
    pub incarnation: u64,
}

/// A member learned for an anchor on contact: the boot it announced, its member id, and the id the
/// anchor's boots start from.
#[derive(Clone, Copy, Debug, PartialEq, Eq, Structural)]
pub struct LearnedMember {
    pub boot_nonce: u64,
    pub host: HostId,
    pub seed: HostId,
}

/// What an announced identity comes to.
#[derive(Clone, Copy, Debug, PartialEq, Eq, Structural)]
pub enum LearnedOutcome {
    /// The boot already known for the anchor.
    Current,
    /// Another boot: a new member, whose predecessor `old` is to be retired.
    Restarted { old: HostId },
    /// An id the anchor and the boot do not derive to.
    Forged,
}

/// An identity as a peer announced it: its anchor and boot, the id it claims, the id those derive
/// to, and the id the anchor's boots start from.
#[derive(Clone, Copy, Debug, PartialEq, Eq, Structural)]
pub struct AnnouncedIdentity {
    pub anchor: HostId,
    pub boot_nonce: u64,
    pub announced: HostId,
    pub derived: HostId,
    pub seed: HostId,
}

/// What an announced identity comes to. Boots have no order: a different one, whatever its number,
/// is a restart.
pub open spec fn classification(
    known: Option<LearnedMember>,
    identity: AnnouncedIdentity,
) -> LearnedOutcome {
    if identity.announced != identity.derived {
        LearnedOutcome::Forged
    } else {
        match known {
            Some(known) => if identity.boot_nonce == known.boot_nonce {
                LearnedOutcome::Current
            } else {
                LearnedOutcome::Restarted { old: known.host }
            },
            None => LearnedOutcome::Restarted { old: identity.seed },
        }
    }
}

/// What an announced identity comes to.
pub fn classify_announced(known: Option<LearnedMember>, identity: &AnnouncedIdentity) -> (outcome:
    LearnedOutcome)
    ensures
        outcome == classification(known, *identity),
{
    if identity.announced != identity.derived {
        return LearnedOutcome::Forged;
    }
    match known {
        Some(known) => if identity.boot_nonce == known.boot_nonce {
            LearnedOutcome::Current
        } else {
            LearnedOutcome::Restarted { old: known.host }
        },
        None => LearnedOutcome::Restarted { old: identity.seed },
    }
}

/// The identities a control shard has learned.
#[derive(Debug)]
pub struct Members {
    /// This boot's member id.
    pub local: HostId,
    /// The id this node's boots start from.
    pub local_seed: HostId,
    /// The member learned for each anchor.
    pub learned: BTreeMap<u64, LearnedMember>,
    /// The member ids authenticated contact established.
    pub authenticated: BTreeSet<u64>,
    /// Each member's region.
    pub node_regions: BTreeMap<u64, RegionId>,
    /// Announcements refused as forged.
    pub forged: u64,
}

/// A belief to fold into the shared membership.
#[derive(Clone, Copy, Debug, PartialEq, Eq, Structural)]
pub struct Fold {
    pub subject: HostId,
    pub state: MemberState,
}

/// A declaration of failure domains, as a map.
pub open spec fn declared_map(domains: Option<BTreeMap<u64, DomainId>>) -> Option<
    Map<u64, DomainId>,
> {
    match domains {
        Some(domains) => Some(domains@),
        None => None,
    }
}

/// The value of a key, if the table has it.
pub open spec fn lookup<V>(table: Map<u64, V>, key: u64) -> Option<V> {
    if table.contains_key(key) {
        Some(table[key])
    } else {
        None
    }
}

/// The incarnation of a belief that may be absent.
pub open spec fn incarnation_of(belief: Option<MemberState>) -> u64 {
    match belief {
        Some(belief) => belief.incarnation,
        None => 0,
    }
}

/// The folds a restart implies: the old id is dead at its incarnation, the new one alive.
pub open spec fn restart_folds(
    old: HostId,
    old_belief: Option<MemberState>,
    announced: HostId,
) -> Seq<Fold> {
    seq![
        Fold {
            subject: old,
            state: MemberState {
                liveness: Liveness::Dead,
                incarnation: incarnation_of(old_belief),
            },
        },
        Fold {
            subject: announced,
            state: MemberState { liveness: Liveness::Alive, incarnation: 0 },
        },
    ]
}

impl Members {
    /// Whether `learned` and `after` are what an announced identity makes of this.
    pub open spec fn learns(
        &self,
        identity: AnnouncedIdentity,
        beliefs: Map<u64, MemberState>,
        learned: (LearnedOutcome, Seq<Fold>),
        after: Members,
    ) -> bool {
        ({
            let anchor = identity.anchor.0;
            let announced = identity.announced.0;
            let outcome = classification(lookup(self.learned@, anchor), identity);
            let member = LearnedMember {
                boot_nonce: identity.boot_nonce,
                host: identity.announced,
                seed: identity.seed,
            };
            &&& learned.0 == outcome
            &&& after.local == self.local
            &&& after.local_seed == self.local_seed
            &&& match outcome {
                LearnedOutcome::Forged => {
                    &&& learned.1 == Seq::<Fold>::empty()
                    &&& after.learned@ == self.learned@
                    &&& after.authenticated@ == self.authenticated@
                    &&& after.node_regions@ == self.node_regions@
                    &&& after.forged == crate::arith::clamp_u64(self.forged + 1)
                },
                LearnedOutcome::Current => {
                    &&& learned.1 == Seq::<Fold>::empty()
                    &&& after.learned@ == self.learned@
                    &&& after.authenticated@ == self.authenticated@.insert(
                        announced,
                    )
                    &&& after.node_regions@ == self.node_regions@
                    &&& after.forged == self.forged
                },
                LearnedOutcome::Restarted { old: previous } => {
                    &&& learned.1 == restart_folds(
                        previous,
                        lookup(beliefs, previous.0),
                        identity.announced,
                    )
                    &&& after.learned@ == self.learned@.insert(anchor, member)
                    &&& after.authenticated@ == self.authenticated@.remove(
                        previous.0,
                    ).insert(announced)
                    &&& after.node_regions@ == (match lookup(
                        self.node_regions@,
                        previous.0,
                    ) {
                        Some(region) => self.node_regions@.insert(announced, region),
                        None => self.node_regions@,
                    })
                    &&& after.forged == self.forged
                },
            }
        })
    }

    /// Learns an identity announced on authenticated contact: a current one is remembered; a
    /// restart replaces its predecessor, inherits its region, and is folded as a death and a join;
    /// a forged one is counted and changes nothing. Repeated, an announcement is current.
    pub fn learn_member(
        &mut self,
        identity: &AnnouncedIdentity,
        beliefs: &BTreeMap<u64, MemberState>,
    ) -> (learned: (LearnedOutcome, Vec<Fold>))
        ensures
            old(self).learns(
                *identity,
                beliefs@,
                (learned.0, learned.1@),
                *final(self),
            ),
    {
        let anchor: u64 = identity.anchor.0;
        let known = match self.learned.get(&anchor) {
            Some(known) => Some(*known),
            None => None,
        };
        let outcome = classify_announced(known, identity);
        let mut folds: Vec<Fold> = Vec::new();
        match outcome {
            LearnedOutcome::Forged => {
                self.forged = self.forged.saturating_add(1);
            },
            LearnedOutcome::Current => {
                self.authenticated.insert(identity.announced.0);
            },
            LearnedOutcome::Restarted { old: previous } => {
                self.authenticated.remove(&previous.0);
                self.authenticated.insert(identity.announced.0);
                self.learned.insert(
                    anchor,
                    LearnedMember {
                        boot_nonce: identity.boot_nonce,
                        host: identity.announced,
                        seed: identity.seed,
                    },
                );
                let region = match self.node_regions.get(&previous.0) {
                    Some(region) => Some(*region),
                    None => None,
                };
                if let Some(region) = region {
                    self.node_regions.insert(identity.announced.0, region);
                }
                let incarnation: u64 = match beliefs.get(&previous.0) {
                    Some(belief) => belief.incarnation,
                    None => 0,
                };
                folds.push(
                    Fold {
                        subject: previous,
                        state: MemberState { liveness: Liveness::Dead, incarnation },
                    },
                );
                folds.push(
                    Fold {
                        subject: identity.announced,
                        state: MemberState { liveness: Liveness::Alive, incarnation: 0 },
                    },
                );
                assert(folds@ =~= restart_folds(
                    previous,
                    lookup(beliefs@, previous.0),
                    identity.announced,
                ));
            },
        }
        (outcome, folds)
    }

    /// Where the first anchor stands whose current member is `host`.
    pub open spec fn is_anchor_of(&self, host: HostId, anchor: u64) -> bool {
        &&& self.learned@.contains_key(anchor)
        &&& self.learned@[anchor].host == host
        &&& forall|other: u64| #[trigger]
            self.learned@.contains_key(other) && self.learned@[other].host == host ==> anchor
                <= other
    }

    /// Whether any anchor's current member is `host`.
    pub open spec fn has_learned(&self, host: HostId) -> bool {
        exists|anchor: u64| #[trigger]
            self.learned@.contains_key(anchor) && self.learned@[anchor].host == host
    }

    /// Whether `anchor` is the one a member boots from.
    pub open spec fn anchors(&self, host: HostId, anchor: Option<HostId>) -> bool {
        match anchor {
            Some(anchor) => self.is_anchor_of(host, anchor.0),
            None => !self.has_learned(host),
        }
    }

    /// The anchor whose current member is `host`, the first in anchor order.
    pub fn anchor_of(&self, host: HostId) -> (anchor: Option<HostId>)
        ensures
            self.anchors(host, anchor),
    {
        let keys = keys_of(&self.learned);
        let mut i: usize = 0;
        while i < keys.len()
            invariant
                i <= keys@.len(),
                are_keys(self.learned@, keys@),
                forall|j: int| 0 <= j < i ==> self.learned@[#[trigger] keys@[j]].host != host,
            decreases keys@.len() - i,
        {
            let key: u64 = keys[i];
            assert(self.learned@.contains_key(keys@[i as int]));
            if let Some(learned) = self.learned.get(&key) {
                if learned.host == host {
                    proof {
                        assert forall|other: u64| #[trigger]
                            self.learned@.contains_key(other) && self.learned@[other].host
                                == host implies key <= other by {
                            let at = choose|at: int| 0 <= at < keys@.len() && keys@[at] == other;
                        }
                    }
                    return Some(HostId(key));
                }
            }
            i += 1;
        }
        proof {
            assert forall|other: u64| #[trigger] self.learned@.contains_key(other) implies
                self.learned@[other].host != host by {
                let at = choose|at: int| 0 <= at < keys@.len() && keys@[at] == other;
            }
        }
        None
    }

    /// The member id currently learned for an anchor.
    pub fn current_member(&self, anchor: HostId) -> (host: Option<HostId>)
        ensures
            host == (match lookup(self.learned@, anchor.0) {
                Some(learned) => Some(learned.host),
                None => None,
            }),
    {
        match self.learned.get(&anchor.0) {
            Some(learned) => Some(learned.host),
            None => None,
        }
    }

    /// Whether a link still leads to the member it was made for.
    pub open spec fn link_holds(&self, anchor: HostId, expected: HostId, contact: bool) -> bool {
        (match lookup(self.learned@, anchor.0) {
            Some(learned) => learned.host == expected,
            None => true,
        }) && contact
    }

    /// Whether the link to an anchor still addresses `expected`: its learned member still is, or
    /// none was learned, and this node keeps direct contact with it.
    pub fn link_valid(&self, anchor: HostId, expected: HostId, contact: bool) -> (valid: bool)
        ensures
            valid == self.link_holds(anchor, expected, contact),
    {
        let addressed = match self.learned.get(&anchor.0) {
            Some(learned) => learned.host == expected,
            None => true,
        };
        addressed && contact
    }

    /// Whether a failure domain is the one declared for the node behind a member: the member's own
    /// declaration, or that of the id its node's boots start from.
    pub open spec fn declares(
        &self,
        host: HostId,
        domains: Option<Map<u64, DomainId>>,
        domain: Option<DomainId>,
    ) -> bool {
        match domains {
            None => domain is None,
            Some(domains) => if domains.contains_key(host.0) {
                domain == Some(domains[host.0])
            } else if host == self.local {
                domain == lookup(domains, self.local_seed.0)
            } else if self.has_learned(host) {
                exists|anchor: u64| #[trigger]
                    self.is_anchor_of(host, anchor) && domain == lookup(
                        domains,
                        self.learned@[anchor].seed.0,
                    )
            } else {
                domain is None
            },
        }
    }

    /// The failure domain declared for the node behind a member. The domain is the node's, not the
    /// boot's, so a restart keeps it.
    pub fn declared_domain(
        &self,
        host: HostId,
        domains: &Option<BTreeMap<u64, DomainId>>,
    ) -> (domain: Option<DomainId>)
        ensures
            self.declares(host, declared_map(*domains), domain),
    {
        let domains = match domains {
            Some(domains) => domains,
            None => {
                return None;
            },
        };
        if let Some(domain) = domains.get(&host.0) {
            return Some(*domain);
        }
        let seed: HostId = if host == self.local {
            self.local_seed
        } else {
            match self.anchor_of(host) {
                Some(anchor) => {
                    assert(self.learned@.contains_key(anchor.0));
                    match self.learned.get(&anchor.0) {
                        Some(learned) => learned.seed,
                        None => {
                            return None;
                        },
                    }
                },
                None => {
                    return None;
                },
            }
        };
        match domains.get(&seed.0) {
            Some(domain) => Some(*domain),
            None => None,
        }
    }

    /// Whether a host may enter a voter configuration: this node, or one learned over
    /// authenticated contact. A manifest's seed is not admission.
    pub open spec fn votable(&self, host: HostId) -> bool {
        host == self.local || self.has_learned(host)
    }

    /// The hosts that are alive and known by authenticated contact.
    pub open spec fn known_alive(&self, alive: Seq<HostId>) -> Seq<HostId> {
        alive.filter(|host: HostId| self.votable(host))
    }

    /// The alive hosts that may enter a voter configuration.
    pub fn authenticated_alive(&self, alive: &Vec<HostId>) -> (hosts: Vec<HostId>)
        ensures
            hosts@ == self.known_alive(alive@),
    {
        let mut hosts: Vec<HostId> = Vec::new();
        let mut i: usize = 0;
        proof {
            reveal(Seq::filter);
            assert(hosts@ =~= alive@.take(0).filter(|host: HostId| self.votable(host)));
        }
        while i < alive.len()
            invariant
                i <= alive@.len(),
                hosts@ == alive@.take(i as int).filter(|host: HostId| self.votable(host)),
            decreases alive@.len() - i,
        {
            proof {
                reveal(Seq::filter);
                assert(alive@.take(i + 1).drop_last() =~= alive@.take(i as int));
                assert(alive@.take(i + 1).last() == alive@[i as int]);
            }
            let host = alive[i];
            let learned = self.anchor_of(host);
            proof {
                if let Some(anchor) = learned {
                    assert(self.learned@.contains_key(anchor.0));
                }
            }
            if host == self.local || learned.is_some() {
                hosts.push(host);
            }
            i += 1;
        }
        assert(alive@.take(i as int) =~= alive@);
        hosts
    }

    /// Whether a region has an alive host that may vote.
    pub open spec fn region_alive(&self, alive: Seq<HostId>, region: RegionId) -> bool {
        exists|i: int|
            0 <= i < alive.len() && self.votable(#[trigger] alive[i]) && region_of(
                self.node_regions@,
                alive[i],
            ) == region
    }

    /// Whether `regions` are the regions with a host alive.
    pub open spec fn regions_of(&self, alive: Seq<HostId>, regions: Seq<RegionId>) -> bool {
        &&& forall|i: int, j: int| 0 <= i < j < regions.len() ==> regions[i].0 < regions[j].0
        &&& forall|region: RegionId|
            regions.contains(region) <==> self.region_alive(alive, region)
    }

    /// The regions with an alive host that may vote, in increasing order, each once.
    pub fn alive_regions(&self, alive: &Vec<HostId>) -> (regions: Vec<RegionId>)
        ensures
            self.regions_of(alive@, regions@),
    {
        let mut regions: Vec<RegionId> = Vec::new();
        let mut i: usize = 0;
        while i < alive.len()
            invariant
                i <= alive@.len(),
                forall|x: int, y: int|
                    0 <= x < y < regions@.len() ==> regions@[x].0 < regions@[y].0,
                forall|region: RegionId|
                    regions@.contains(region) <==> self.region_alive(
                        alive@.take(i as int),
                        region,
                    ),
            decreases alive@.len() - i,
        {
            let host = alive[i];
            let learned = self.anchor_of(host);
            let votes = host == self.local || learned.is_some();
            let ghost before = regions@;
            let ghost seen = alive@.take(i as int);
            let ghost longer = alive@.take(i + 1);
            proof {
                if let Some(anchor) = learned {
                    assert(self.learned@.contains_key(anchor.0));
                }
                assert(votes == self.votable(host));
                assert(longer[i as int] == host);
                assert forall|region: RegionId| self.region_alive(longer, region) <==> (
                self.region_alive(seen, region) || (votes && region_of(
                    self.node_regions@,
                    host,
                ) == region)) by {
                    if self.region_alive(longer, region) {
                        let k = choose|k: int|
                            0 <= k < longer.len() && self.votable(#[trigger] longer[k])
                                && region_of(self.node_regions@, longer[k]) == region;
                        if k < i {
                            assert(seen[k] == longer[k]);
                        }
                    }
                    if self.region_alive(seen, region) {
                        let k = choose|k: int|
                            0 <= k < seen.len() && self.votable(#[trigger] seen[k]) && region_of(
                                self.node_regions@,
                                seen[k],
                            ) == region;
                        assert(longer[k] == seen[k]);
                    }
                }
            }
            if votes {
                let region = region_in(&self.node_regions, host);
                let mut at: usize = 0;
                while at < regions.len() && regions[at].0 < region.0
                    invariant
                        at <= regions@.len(),
                        regions@ == before,
                        forall|k: int| 0 <= k < at ==> (#[trigger] before[k]).0 < region.0,
                    decreases regions@.len() - at,
                {
                    at += 1;
                }
                if at == regions.len() || regions[at].0 != region.0 {
                    regions.insert(at, region);
                    proof {
                        assert(regions@ == before.insert(at as int, region));
                        assert forall|x: int, y: int| 0 <= x < y < regions@.len() implies
                            regions@[x].0 < regions@[y].0 by {
                            if y > at && x < at {
                                assert(regions@[y] == before[y - 1]);
                            } else if x == at {
                                assert(regions@[y] == before[y - 1]);
                                assert(before[at as int].0 > region.0);
                            } else if y == at {
                                assert(before[x].0 < region.0);
                            } else if x > at {
                                assert(regions@[x] == before[x - 1] && regions@[y] == before[y
                                    - 1]);
                            }
                        }
                        assert forall|other: RegionId| regions@.contains(other) <==> (
                        before.contains(other) || other == region) by {
                            if before.contains(other) {
                                let k = choose|k: int| 0 <= k < before.len() && before[k] == other;
                                if k < at {
                                    assert(regions@[k] == other);
                                } else {
                                    assert(regions@[k + 1] == other);
                                }
                            }
                            if other == region {
                                assert(regions@[at as int] == other);
                            }
                            if regions@.contains(other) && other != region {
                                let k = choose|k: int|
                                    0 <= k < regions@.len() && regions@[k] == other;
                                if k < at {
                                    assert(before[k] == other);
                                } else {
                                    assert(before[k - 1] == other);
                                }
                            }
                        }
                    }
                } else {
                    assert(before[at as int] == region);
                    assert(before.contains(region));
                }
            }
            proof {
                assert forall|region: RegionId|
                    regions@.contains(region) <==> self.region_alive(longer, region) by {
                    assert(before.contains(region) <==> self.region_alive(seen, region));
                }
            }
            i += 1;
        }
        assert(alive@.take(i as int) =~= alive@);
        regions
    }
}

/// A restart is a new member and a repeated announcement is not: once an identity has been
/// learned, announcing it again is current contact.
pub proof fn a_learned_identity_is_current(
    known: Option<LearnedMember>,
    identity: AnnouncedIdentity,
)
    requires
        classification(known, identity) != LearnedOutcome::Forged,
    ensures
        classification(
            Some(
                LearnedMember {
                    boot_nonce: identity.boot_nonce,
                    host: identity.announced,
                    seed: identity.seed,
                },
            ),
            identity,
        ) == LearnedOutcome::Current,
{
}

/// What gossip about one member comes to.
#[derive(Clone, Copy, Debug, PartialEq, Eq, Structural)]
pub enum GossipFold {
    /// A report about this node, for it to refute.
    Own(MemberState),
    /// A report about another member, folded into the shared view; the session's own detector takes
    /// it only when the sender speaks of itself.
    Member { fold: Fold, of_sender: bool },
}

/// What one report comes to: unknown members are not enrolled by gossip, and an alive report does
/// not bring back an identity that authenticated contact has not established.
pub open spec fn report_fold(
    local: HostId,
    sender: HostId,
    beliefs: Map<u64, MemberState>,
    authenticated: Set<u64>,
    report: (HostId, MemberState),
) -> Option<GossipFold> {
    let (subject, state) = report;
    if subject == local {
        Some(GossipFold::Own(state))
    } else if !beliefs.contains_key(subject.0) && subject != sender {
        None
    } else if state.liveness == Liveness::Alive && !authenticated.contains(subject.0) {
        None
    } else {
        Some(GossipFold::Member { fold: Fold { subject, state }, of_sender: subject == sender })
    }
}

/// What a message's gossip comes to, in its order.
pub open spec fn gossip_effect(
    local: HostId,
    sender: HostId,
    beliefs: Map<u64, MemberState>,
    authenticated: Set<u64>,
    gossip: Seq<(HostId, MemberState)>,
) -> Seq<GossipFold>
    decreases gossip.len(),
{
    if gossip.len() == 0 {
        Seq::empty()
    } else {
        let before = gossip_effect(local, sender, beliefs, authenticated, gossip.drop_last());
        match report_fold(local, sender, beliefs, authenticated, gossip.last()) {
            Some(fold) => before.push(fold),
            None => before,
        }
    }
}

/// What an authenticated sender's gossip comes to. Folding a report makes no further member known,
/// so the beliefs held before the message judge all of it.
pub fn receive_probe_gossip(
    local: HostId,
    sender: HostId,
    beliefs: &BTreeMap<u64, MemberState>,
    authenticated: &BTreeSet<u64>,
    gossip: &Vec<(HostId, MemberState)>,
) -> (folds: Vec<GossipFold>)
    ensures
        folds@ == gossip_effect(local, sender, beliefs@, authenticated@, gossip@),
{
    let mut folds: Vec<GossipFold> = Vec::new();
    let mut i: usize = 0;
    assert(folds@ =~= gossip_effect(local, sender, beliefs@, authenticated@, gossip@.take(0)));
    while i < gossip.len()
        invariant
            i <= gossip@.len(),
            folds@ == gossip_effect(
                local,
                sender,
                beliefs@,
                authenticated@,
                gossip@.take(i as int),
            ),
        decreases gossip@.len() - i,
    {
        proof {
            assert(gossip@.take(i + 1).drop_last() =~= gossip@.take(i as int));
            assert(gossip@.take(i + 1).last() == gossip@[i as int]);
        }
        let (subject, state) = gossip[i];
        if subject == local {
            folds.push(GossipFold::Own(state));
        } else if beliefs.contains_key(&subject.0) || subject == sender {
            let alive = match state.liveness {
                Liveness::Alive => true,
                _ => false,
            };
            if !alive || authenticated.contains(&subject.0) {
                folds.push(
                    GossipFold::Member {
                        fold: Fold { subject, state },
                        of_sender: subject == sender,
                    },
                );
            }
        }
        i += 1;
    }
    assert(gossip@.take(i as int) =~= gossip@);
    folds
}

/// Gossip enrolls no stranger and revives no replaced identity: a report about a member that is
/// neither known nor the sender folds nothing, and neither does an alive report about one that
/// authenticated contact has not established.
pub proof fn gossip_enrolls_nobody(
    local: HostId,
    sender: HostId,
    beliefs: Map<u64, MemberState>,
    authenticated: Set<u64>,
    gossip: Seq<(HostId, MemberState)>,
    at: int,
)
    requires
        0 <= at < gossip_effect(local, sender, beliefs, authenticated, gossip).len(),
    ensures
        gossip_effect(local, sender, beliefs, authenticated, gossip)[at] matches GossipFold::Member {
            fold,
            of_sender,
        } ==> {
            &&& fold.subject != local
            &&& beliefs.contains_key(fold.subject.0) || fold.subject == sender
            &&& fold.state.liveness == Liveness::Alive ==> authenticated.contains(fold.subject.0)
            &&& of_sender == (fold.subject == sender)
        },
    decreases gossip.len(),
{
    let before = gossip_effect(local, sender, beliefs, authenticated, gossip.drop_last());
    if at < before.len() {
        gossip_enrolls_nobody(local, sender, beliefs, authenticated, gossip.drop_last(), at);
    }
}

/// Gossip is taken up in its order, report by report: what the reports before one came to stands
/// first in what they all come to.
pub proof fn gossip_is_taken_up_in_order(
    local: HostId,
    sender: HostId,
    beliefs: Map<u64, MemberState>,
    authenticated: Set<u64>,
    gossip: Seq<(HostId, MemberState)>,
    at: int,
)
    requires
        0 <= at <= gossip.len(),
    ensures
        ({
            let all = gossip_effect(local, sender, beliefs, authenticated, gossip);
            let first = gossip_effect(local, sender, beliefs, authenticated, gossip.take(at));
            &&& first.len() <= all.len()
            &&& first.len() <= at
            &&& all.take(first.len() as int) == first
        }),
    decreases gossip.len(),
{
    let all = gossip_effect(local, sender, beliefs, authenticated, gossip);
    if at == gossip.len() {
        assert(gossip.take(at) =~= gossip);
        assert(all.take(all.len() as int) =~= all);
        if gossip.len() > 0 {
            gossip_is_taken_up_in_order(
                local,
                sender,
                beliefs,
                authenticated,
                gossip.drop_last(),
                gossip.len() - 1,
            );
            assert(gossip.drop_last().take(gossip.len() - 1) =~= gossip.drop_last());
        }
    } else {
        gossip_is_taken_up_in_order(
            local,
            sender,
            beliefs,
            authenticated,
            gossip.drop_last(),
            at,
        );
        assert(gossip.drop_last().take(at) =~= gossip.take(at));
        let first = gossip_effect(local, sender, beliefs, authenticated, gossip.take(at));
        assert(all.take(first.len() as int) =~= first);
    }
}

/// No admissible report is lost, and none is changed: a report about this node comes back as its own,
/// to refute; one about a member that is known or sends it, and that does not bring an identity to
/// life which contact has not established, is folded as it was told; and any other is passed over.
pub proof fn no_admissible_report_is_lost(
    local: HostId,
    sender: HostId,
    beliefs: Map<u64, MemberState>,
    authenticated: Set<u64>,
    gossip: Seq<(HostId, MemberState)>,
    at: int,
)
    requires
        0 <= at < gossip.len(),
    ensures
        ({
            let all = gossip_effect(local, sender, beliefs, authenticated, gossip);
            let place = gossip_effect(
                local,
                sender,
                beliefs,
                authenticated,
                gossip.take(at),
            ).len() as int;
            let through = gossip_effect(
                local,
                sender,
                beliefs,
                authenticated,
                gossip.take(at + 1),
            ).len();
            let (subject, state) = gossip[at];
            if subject == local {
                place < all.len() && all[place] == GossipFold::Own(state)
            } else if (beliefs.contains_key(subject.0) || subject == sender) && (state.liveness
                != Liveness::Alive || authenticated.contains(subject.0)) {
                place < all.len() && all[place] == (GossipFold::Member {
                    fold: Fold { subject, state },
                    of_sender: subject == sender,
                })
            } else {
                through == place
            }
        }),
{
    let all = gossip_effect(local, sender, beliefs, authenticated, gossip);
    let longer = gossip.take(at + 1);
    let through = gossip_effect(local, sender, beliefs, authenticated, longer);
    assert(longer.drop_last() =~= gossip.take(at));
    assert(longer.last() == gossip[at]);
    gossip_is_taken_up_in_order(local, sender, beliefs, authenticated, gossip, at + 1);
    if through.len() > 0 {
        assert(all[through.len() - 1] == all.take(through.len() as int)[through.len() - 1]);
    }
}

/// The gossip every packet carries: this node's own state, and what it believes of the peer unless
/// that is alive.
pub open spec fn mandatory_gossip(
    local: HostId,
    own: Option<MemberState>,
    peer: HostId,
    belief: Option<MemberState>,
) -> Seq<(HostId, MemberState)> {
    let first = match own {
        Some(own) => seq![(local, own)],
        None => Seq::empty(),
    };
    match belief {
        Some(belief) => if belief.liveness != Liveness::Alive {
            first.push((peer, belief))
        } else {
            first
        },
        None => first,
    }
}

/// Whether a list already speaks of a subject.
pub open spec fn speaks_of(list: Seq<(HostId, MemberState)>, subject: HostId) -> bool {
    exists|i: int| 0 <= i < list.len() && (#[trigger] list[i]).0 == subject
}

/// A list joined by the reports about subjects it does not speak of yet.
pub open spec fn joined_reports(
    list: Seq<(HostId, MemberState)>,
    reports: Seq<(HostId, MemberState)>,
) -> Seq<(HostId, MemberState)>
    decreases reports.len(),
{
    if reports.len() == 0 {
        list
    } else {
        let before = joined_reports(list, reports.drop_last());
        if speaks_of(before, reports.last().0) {
            before
        } else {
            before.push(reports.last())
        }
    }
}

/// The gossip a packet must carry, and the room the fan-out leaves for further reports.
pub fn reserved_gossip(
    local: HostId,
    own: Option<MemberState>,
    peer: HostId,
    belief: Option<MemberState>,
    fanout: usize,
) -> (reserved: (Vec<(HostId, MemberState)>, usize))
    ensures
        reserved.0@ == mandatory_gossip(local, own, peer, belief),
        reserved.1 == crate::arith::larger(fanout - reserved.0@.len(), 0),
{
    let mut list: Vec<(HostId, MemberState)> = Vec::new();
    if let Some(own) = own {
        list.push((local, own));
    }
    if let Some(belief) = belief {
        if belief.liveness != Liveness::Alive {
            list.push((peer, belief));
        }
    }
    assert(list@ =~= mandatory_gossip(local, own, peer, belief));
    let room: usize = fanout.saturating_sub(list.len());
    (list, room)
}

/// The gossip a packet carries: what it must, and the queued reports about others.
pub fn outgoing_probe_gossip(
    reserved: Vec<(HostId, MemberState)>,
    reports: &Vec<(HostId, MemberState)>,
) -> (gossip: Vec<(HostId, MemberState)>)
    ensures
        gossip@ == joined_reports(reserved@, reports@),
{
    let mut gossip = reserved;
    let mut i: usize = 0;
    assert(reports@.take(0) =~= Seq::<(HostId, MemberState)>::empty());
    while i < reports.len()
        invariant
            i <= reports@.len(),
            gossip@ == joined_reports(reserved@, reports@.take(i as int)),
        decreases reports@.len() - i,
    {
        proof {
            assert(reports@.take(i + 1).drop_last() =~= reports@.take(i as int));
            assert(reports@.take(i + 1).last() == reports@[i as int]);
        }
        let (subject, state) = reports[i];
        let mut spoken = false;
        let mut j: usize = 0;
        while j < gossip.len() && !spoken
            invariant
                j <= gossip@.len(),
                spoken ==> speaks_of(gossip@, subject),
                !spoken ==> forall|k: int| 0 <= k < j ==> (#[trigger] gossip@[k]).0 != subject,
            decreases gossip@.len() - j,
        {
            if gossip[j].0 == subject {
                assert(gossip@[j as int].0 == subject);
                spoken = true;
            }
            j += 1;
        }
        if !spoken {
            gossip.push((subject, state));
        }
        i += 1;
    }
    assert(reports@.take(i as int) =~= reports@);
    gossip
}

/// Whether a member is believed dead.
pub open spec fn believed_dead(beliefs: Map<u64, MemberState>, host: HostId) -> bool {
    beliefs.contains_key(host.0) && beliefs[host.0].liveness == Liveness::Dead
}

/// Whether a member is believed dead.
pub fn is_believed_dead(beliefs: &BTreeMap<u64, MemberState>, host: HostId) -> (dead: bool)
    ensures
        dead == believed_dead(beliefs@, host),
{
    match beliefs.get(&host.0) {
        Some(belief) => belief.liveness == Liveness::Dead,
        None => false,
    }
}

/// One member's turn in the death watch: a dead one is counted once more, any other starts over.
pub open spec fn watched(
    watch: Map<u64, u32>,
    beliefs: Map<u64, MemberState>,
    member: HostId,
) -> Map<u64, u32> {
    if believed_dead(beliefs, member) {
        watch.insert(
            member.0,
            clamp_u32(
                (match lookup(watch, member.0) {
                    Some(count) => count as int,
                    None => 0,
                }) + 1,
            ),
        )
    } else {
        watch.remove(member.0)
    }
}

/// The watch after every member's turn.
pub open spec fn watched_all(
    watch: Map<u64, u32>,
    beliefs: Map<u64, MemberState>,
    members: Seq<HostId>,
) -> Map<u64, u32>
    decreases members.len(),
{
    if members.len() == 0 {
        watch
    } else {
        watched(watched_all(watch, beliefs, members.drop_last()), beliefs, members.last())
    }
}

/// The watch without the hosts that are no longer members.
pub open spec fn watch_of_members(watch: Map<u64, u32>, members: Seq<HostId>) -> Map<u64, u32> {
    watch.restrict(Set::new(|host: u64| lists(members, HostId(host))))
}

/// Advances the council's death watch one period.
pub fn update_council_death_watch(
    watch: &mut BTreeMap<u64, u32>,
    members: &Vec<HostId>,
    beliefs: &BTreeMap<u64, MemberState>,
)
    ensures
        final(watch)@ == watched_all(watch_of_members(old(watch)@, members@), beliefs@, members@),
{
    let hosts = keys_of(watch);
    let ghost before = watch@;
    let mut i: usize = 0;
    while i < hosts.len()
        invariant
            i <= hosts@.len(),
            are_keys(before, hosts@),
            forall|host: u64| #[trigger]
                watch@.contains_key(host) <==> before.contains_key(host) && (lists(
                    members@,
                    HostId(host),
                ) || exists|j: int| i <= j < hosts@.len() && #[trigger] hosts@[j] == host),
            forall|host: u64| #[trigger]
                watch@.contains_key(host) ==> watch@[host] == before[host],
        decreases hosts@.len() - i,
    {
        let host: u64 = hosts[i];
        let ghost kept = watch@;
        if !contains_host(members, HostId(host)) {
            watch.remove(&host);
        }
        proof {
            assert forall|other: u64| #[trigger]
                watch@.contains_key(other) <==> before.contains_key(other) && (lists(
                    members@,
                    HostId(other),
                ) || exists|j: int| i + 1 <= j < hosts@.len() && #[trigger] hosts@[j] == other) by {
                if kept.contains_key(other) && !lists(members@, HostId(other)) {
                    let j = choose|j: int| i <= j < hosts@.len() && #[trigger] hosts@[j] == other;
                    if other != host {
                        assert(j != i);
                        assert(hosts@[j] == other);
                    }
                }
                if exists|j: int| i + 1 <= j < hosts@.len() && #[trigger] hosts@[j] == other {
                    let j = choose|j: int|
                        i + 1 <= j < hosts@.len() && #[trigger] hosts@[j] == other;
                    assert(hosts@[i as int] < hosts@[j]);
                    assert(other != host);
                    assert(kept.contains_key(other) == before.contains_key(other)) by {
                        assert(i <= j < hosts@.len() && hosts@[j] == other);
                    }
                }
            }
        }
        i += 1;
    }
    assert(watch@ =~= watch_of_members(before, members@));
    let ghost start = watch@;
    let mut k: usize = 0;
    assert(members@.take(0) =~= Seq::<HostId>::empty());
    while k < members.len()
        invariant
            k <= members@.len(),
            watch@ == watched_all(start, beliefs@, members@.take(k as int)),
        decreases members@.len() - k,
    {
        proof {
            assert(members@.take(k + 1).drop_last() =~= members@.take(k as int));
            assert(members@.take(k + 1).last() == members@[k as int]);
        }
        let member = members[k];
        if is_believed_dead(beliefs, member) {
            let count: u32 = match watch.get(&member.0) {
                Some(count) => *count,
                None => 0,
            };
            watch.insert(member.0, count.saturating_add(1));
        } else {
            watch.remove(&member.0);
        }
        k += 1;
    }
    assert(members@.take(k as int) =~= members@);
}

/// Of a council whose members are distinct, the watch counts exactly the periods in a row a member
/// has been believed dead: one more for a dead member, none for any other, and nothing for a host
/// that is no member.
pub proof fn the_death_watch_counts_periods_in_a_row(
    watch: Map<u64, u32>,
    beliefs: Map<u64, MemberState>,
    members: Seq<HostId>,
    host: HostId,
)
    requires
        members.no_duplicates(),
    ensures
        ({
            let after = watched_all(watch_of_members(watch, members), beliefs, members);
            if lists(members, host) && believed_dead(beliefs, host) {
                lookup(after, host.0) == Some(
                    clamp_u32(
                        (match lookup(watch, host.0) {
                            Some(count) => count as int,
                            None => 0,
                        }) + 1,
                    ),
                )
            } else {
                lookup(after, host.0) is None
            }
        }),
{
    let start = watch_of_members(watch, members);
    lemma_watched_all(start, beliefs, members, host);
    if lists(members, host) {
        assert(lookup(start, host.0) == lookup(watch, host.0));
    }
}

/// What a whole turn of the watch makes of one host.
proof fn lemma_watched_all(
    watch: Map<u64, u32>,
    beliefs: Map<u64, MemberState>,
    members: Seq<HostId>,
    host: HostId,
)
    requires
        members.no_duplicates(),
    ensures
        ({
            let after = watched_all(watch, beliefs, members);
            lookup(after, host.0) == (if lists(members, host) {
                lookup(watched(watch, beliefs, host), host.0)
            } else {
                lookup(watch, host.0)
            })
        }),
    decreases members.len(),
{
    if members.len() > 0 {
        let rest = members.drop_last();
        assert(rest.no_duplicates());
        lemma_watched_all(watch, beliefs, rest, host);
        let last = members.last();
        if host == last {
            assert(members[members.len() - 1] == host);
            assert(!lists(rest, host)) by {
                if lists(rest, host) {
                    let k = choose|k: int| 0 <= k < rest.len() && rest[k] == host;
                    assert(members[k] == members[members.len() - 1]);
                }
            }
        } else {
            assert(lists(members, host) == lists(rest, host)) by {
                if lists(members, host) {
                    let k = choose|k: int| 0 <= k < members.len() && members[k] == host;
                    assert(rest[k] == host);
                }
                if lists(rest, host) {
                    let k = choose|k: int| 0 <= k < rest.len() && rest[k] == host;
                    assert(members[k] == host);
                }
            }
            assert(host.0 != last.0);
        }
    }
}

/// The members a council's leader may retire: those believed dead for at least the confirmation
/// window, the council's own election timeout or its floor.
pub fn stable_dead_council_members(
    watch: &BTreeMap<u64, u32>,
    base_periods: u32,
    floor_periods: u32,
) -> (dead: Vec<HostId>)
    ensures
        ({
            let window = crate::arith::larger(base_periods as int, floor_periods as int);
            &&& forall|i: int, j: int| 0 <= i < j < dead@.len() ==> dead@[i].0 < dead@[j].0
            &&& forall|host: u64| #[trigger]
                lists(dead@, HostId(host)) <==> watch@.contains_key(host) && watch@[host]
                    >= window
        }),
{
    let window: u32 = if base_periods >= floor_periods {
        base_periods
    } else {
        floor_periods
    };
    let hosts = keys_of(watch);
    let mut dead: Vec<HostId> = Vec::new();
    let mut i: usize = 0;
    while i < hosts.len()
        invariant
            i <= hosts@.len(),
            are_keys(watch@, hosts@),
            forall|x: int, y: int| 0 <= x < y < dead@.len() ==> dead@[x].0 < dead@[y].0,
            forall|x: int|
                0 <= x < dead@.len() ==> exists|j: int|
                    0 <= j < i && hosts@[j] == (#[trigger] dead@[x]).0,
            forall|x: int|
                0 <= x < dead@.len() ==> watch@[(#[trigger] dead@[x]).0] >= window,
            forall|j: int|
                0 <= j < i && watch@[#[trigger] hosts@[j]] >= window ==> lists(
                    dead@,
                    HostId(hosts@[j]),
                ),
        decreases hosts@.len() - i,
    {
        let host: u64 = hosts[i];
        assert(watch@.contains_key(hosts@[i as int]));
        let ghost before = dead@;
        if let Some(count) = watch.get(&host) {
            if *count >= window {
                proof {
                    assert forall|x: int| 0 <= x < before.len() implies (#[trigger] before[x]).0
                        < host by {
                        let j = choose|j: int| 0 <= j < i && hosts@[j] == before[x].0;
                        assert(hosts@[j] < hosts@[i as int]);
                    }
                }
                dead.push(HostId(host));
                proof {
                    assert(dead@[before.len() as int] == HostId(host));
                    assert forall|j: int|
                        0 <= j < i + 1 && watch@[#[trigger] hosts@[j]] >= window implies lists(
                        dead@,
                        HostId(hosts@[j]),
                    ) by {
                        if j < i {
                            let x = choose|x: int|
                                0 <= x < before.len() && before[x] == HostId(hosts@[j]);
                            assert(dead@[x] == HostId(hosts@[j]));
                        }
                    }
                    assert forall|x: int| 0 <= x < dead@.len() implies exists|j: int|
                        0 <= j < i + 1 && hosts@[j] == (#[trigger] dead@[x]).0 by {
                        if x < before.len() {
                            let j = choose|j: int| 0 <= j < i && hosts@[j] == before[x].0;
                            assert(hosts@[j] == dead@[x].0);
                        } else {
                            assert(hosts@[i as int] == dead@[x].0);
                        }
                    }
                }
            }
        }
        i += 1;
    }
    proof {
        assert forall|host: u64| #[trigger] lists(dead@, HostId(host)) <==> watch@.contains_key(
            host,
        ) && watch@[host] >= window by {
            if lists(dead@, HostId(host)) {
                let x = choose|x: int| 0 <= x < dead@.len() && dead@[x] == HostId(host);
                let j = choose|j: int| 0 <= j < i && hosts@[j] == dead@[x].0;
                assert(watch@.contains_key(hosts@[j]));
            }
            if watch@.contains_key(host) && watch@[host] >= window {
                let at = choose|at: int| 0 <= at < hosts@.len() && hosts@[at] == host;
                assert(watch@[hosts@[at]] >= window);
            }
        }
    }
    dead
}

/// The groups a peer may have a place in.
#[derive(Debug)]
pub struct ContactSets {
    pub council_initialized: bool,
    pub root_initialized: bool,
    /// The council configuration's members.
    pub members: Vec<HostId>,
    /// This owner's bounded record neighbourhood.
    pub neighbourhood: Vec<HostId>,
    pub council_voters: Vec<HostId>,
    pub root_voters: Vec<HostId>,
}

impl ContactSets {
    /// Whether this node keeps direct contact with a peer: never with one believed dead; before
    /// both groups hold state, and with a host the configuration does not hold yet, with any other;
    /// then with its neighbourhood and with the voters of both groups.
    pub open spec fn contact(&self, belief: Option<MemberState>, peer: HostId) -> bool {
        &&& !(belief matches Some(belief) && belief.liveness == Liveness::Dead)
        &&& {
            ||| !self.council_initialized
            ||| !self.root_initialized
            ||| !lists(self.members@, peer)
            ||| lists(self.neighbourhood@, peer)
            ||| lists(self.council_voters@, peer)
            ||| lists(self.root_voters@, peer)
        }
    }

    /// Whether this node keeps direct contact with a peer.
    pub fn keeps_direct_contact_with(&self, belief: Option<MemberState>, peer: HostId) -> (keeps:
        bool)
        ensures
            keeps == self.contact(belief, peer),
    {
        let dead = match belief {
            Some(belief) => belief.liveness == Liveness::Dead,
            None => false,
        };
        !dead && (!self.council_initialized || !self.root_initialized || !contains_host(
            &self.members,
            peer,
        ) || contains_host(&self.neighbourhood, peer) || contains_host(&self.council_voters, peer)
            || contains_host(&self.root_voters, peer))
    }
}

/// A consensus voter that is not believed dead is always in direct contact, in the copyset or not.
pub proof fn live_voters_stay_in_contact(
    sets: ContactSets,
    belief: Option<MemberState>,
    voter: HostId,
)
    requires
        lists(sets.council_voters@, voter) || lists(sets.root_voters@, voter),
        !(belief matches Some(belief) && belief.liveness == Liveness::Dead),
    ensures
        sets.contact(belief, voter),
{
}

/// Whether every host of one list is in the other.
fn all_in(inner: &Vec<HostId>, outer: &Vec<HostId>) -> (all: bool)
    ensures
        all == (forall|host: HostId| lists(inner@, host) ==> lists(outer@, host)),
{
    let mut i: usize = 0;
    while i < inner.len()
        invariant
            i <= inner@.len(),
            forall|j: int| 0 <= j < i ==> lists(outer@, #[trigger] inner@[j]),
        decreases inner@.len() - i,
    {
        if !contains_host(outer, inner[i]) {
            assert(lists(inner@, inner@[i as int]));
            return false;
        }
        i += 1;
    }
    true
}

/// Whether two lists hold different hosts.
pub open spec fn hosts_differ(a: Seq<HostId>, b: Seq<HostId>) -> bool {
    exists|host: HostId| lists(a, host) != lists(b, host)
}

/// Whether this node's alive view and the configuration's members differ as sets: a learner's cue
/// to fetch the committed configuration.
pub fn membership_diverges_from_config(alive: &Vec<HostId>, members: &Vec<HostId>) -> (diverges:
    bool)
    ensures
        diverges == hosts_differ(alive@, members@),
{
    let same = all_in(alive, members) && all_in(members, alive);
    proof {
        if !same {
            if exists|host: HostId| lists(alive@, host) && !lists(members@, host) {
                let host = choose|host: HostId| lists(alive@, host) && !lists(members@, host);
                assert(lists(alive@, host) != lists(members@, host));
            } else {
                let host = choose|host: HostId| lists(members@, host) && !lists(alive@, host);
                assert(lists(alive@, host) != lists(members@, host));
            }
        }
    }
    !same
}

/// Whether two lists hold different regions.
pub open spec fn regions_differ(a: Seq<RegionId>, b: Seq<RegionId>) -> bool {
    exists|region: RegionId| a.contains(region) != b.contains(region)
}

/// Whether every region of one list is in the other.
fn all_regions_in(inner: &Vec<RegionId>, outer: &Vec<RegionId>) -> (all: bool)
    ensures
        all == (forall|region: RegionId| inner@.contains(region) ==> outer@.contains(region)),
{
    let mut i: usize = 0;
    while i < inner.len()
        invariant
            i <= inner@.len(),
            forall|j: int| 0 <= j < i ==> outer@.contains(#[trigger] inner@[j]),
        decreases inner@.len() - i,
    {
        if !crate::consensus::contains_region(outer, inner[i]) {
            assert(inner@.contains(inner@[i as int]));
            return false;
        }
        i += 1;
    }
    true
}

/// Whether the alive regions and the root configuration's differ as sets: a root learner's cue.
pub fn root_diverges(alive: &Vec<RegionId>, known: &Vec<RegionId>) -> (diverges: bool)
    ensures
        diverges == regions_differ(alive@, known@),
{
    let same = all_regions_in(alive, known) && all_regions_in(known, alive);
    proof {
        if !same {
            if exists|region: RegionId| alive@.contains(region) && !known@.contains(region) {
                let region = choose|region: RegionId|
                    alive@.contains(region) && !known@.contains(region);
                assert(alive@.contains(region) != known@.contains(region));
            } else {
                let region = choose|region: RegionId|
                    known@.contains(region) && !alive@.contains(region);
                assert(alive@.contains(region) != known@.contains(region));
            }
        }
    }
    !same
}

/// The peer a probe task tracks.
#[derive(Clone, Copy, Debug, PartialEq, Eq, Structural)]
pub struct ProbedPeer {
    pub anchor: HostId,
    pub host: HostId,
}

impl ProbedPeer {
    /// Whether `death` and `later` are what a peer's current identity makes of this.
    pub open spec fn follows(
        self,
        current: Option<HostId>,
        belief: Option<MemberState>,
        death: Option<Fold>,
        later: ProbedPeer,
    ) -> bool {
        if current matches Some(current) && current != self.host {
            &&& later == (ProbedPeer { host: current->0, ..self })
            &&& death == Some(
                Fold {
                    subject: self.host,
                    state: MemberState {
                        liveness: Liveness::Dead,
                        incarnation: incarnation_of(belief),
                    },
                },
            )
        } else {
            later == self && death is None
        }
    }

    /// Follows the peer to the id it now holds: the previous id, folded dead at its incarnation,
    /// when it moved, and nothing while it has not.
    pub fn follow_current_id(
        &mut self,
        current: Option<HostId>,
        belief: Option<MemberState>,
    ) -> (death: Option<Fold>)
        ensures
            old(self).follows(current, belief, death, *final(self)),
    {
        let current = match current {
            Some(current) => current,
            None => {
                return None;
            },
        };
        if current == self.host {
            return None;
        }
        let incarnation: u64 = match belief {
            Some(belief) => belief.incarnation,
            None => 0,
        };
        let death = Fold {
            subject: self.host,
            state: MemberState { liveness: Liveness::Dead, incarnation },
        };
        self.host = current;
        Some(death)
    }
}

/// An identity is forged exactly when it is not the one its boot derives; a boot already known is
/// current; and any other is a restart of the member known until then, or of the seed.
pub proof fn an_identity_is_its_boots(known: Option<LearnedMember>, identity: AnnouncedIdentity)
    ensures
        (classification(known, identity) == LearnedOutcome::Forged) == (identity.announced
            != identity.derived),
        identity.announced == identity.derived ==> ((classification(known, identity)
            == LearnedOutcome::Current) == (known matches Some(known) && known.boot_nonce
            == identity.boot_nonce)),
        classification(known, identity) matches LearnedOutcome::Restarted { old } ==> old == (
        match known {
            Some(known) => known.host,
            None => identity.seed,
        }),
{
}

/// A forged identity teaches nothing; a restart replaces the member it was: the previous id is told
/// dead at the incarnation it was believed at and is no longer authenticated, the announced id is told
/// alive anew, is authenticated, stands for its anchor, and keeps its predecessor's region.
pub proof fn a_restart_replaces_the_member(
    before: Members,
    identity: AnnouncedIdentity,
    beliefs: Map<u64, MemberState>,
    learned: (LearnedOutcome, Seq<Fold>),
    after: Members,
)
    requires
        before.learns(identity, beliefs, learned, after),
    ensures
        after.local == before.local,
        after.local_seed == before.local_seed,
        identity.announced != identity.derived ==> {
            &&& learned.0 == LearnedOutcome::Forged
            &&& learned.1.len() == 0
            &&& after.learned@ == before.learned@
            &&& after.authenticated@ == before.authenticated@
            &&& after.node_regions@ == before.node_regions@
            &&& before.forged < u64::MAX ==> after.forged == before.forged + 1
        },
        identity.announced == identity.derived ==> {
            &&& after.authenticated@.contains(identity.announced.0)
            &&& after.forged == before.forged
            &&& after.learned@.contains_key(identity.anchor.0)
            &&& after.learned@[identity.anchor.0].boot_nonce == identity.boot_nonce
            &&& learned.0 != LearnedOutcome::Current ==> {
                &&& after.learned@[identity.anchor.0].host == identity.announced
                &&& after.learned@[identity.anchor.0].seed == identity.seed
            }
        },
        learned.0 == LearnedOutcome::Current ==> learned.1.len() == 0 && after.learned@
            == before.learned@,
        learned.0 matches LearnedOutcome::Restarted { old: previous } ==> {
            &&& learned.1.len() == 2
            &&& learned.1[0].subject == previous
            &&& learned.1[0].state.liveness == Liveness::Dead
            &&& beliefs.contains_key(previous.0) ==> learned.1[0].state.incarnation
                == beliefs[previous.0].incarnation
            &&& learned.1[1].subject == identity.announced
            &&& learned.1[1].state.liveness == Liveness::Alive
            &&& learned.1[1].state.incarnation == 0
            &&& previous != identity.announced ==> !after.authenticated@.contains(previous.0)
            &&& before.node_regions@.contains_key(previous.0) ==> after.node_regions@.contains_key(
                identity.announced.0,
            ) && after.node_regions@[identity.announced.0] == before.node_regions@[previous.0]
        },
{
}

/// A link holds while its peer is in contact and its anchor's member is still the one it was made
/// for.
pub proof fn a_link_is_one_members(
    members: Members,
    anchor: HostId,
    expected: HostId,
    contact: bool,
)
    ensures
        members.link_holds(anchor, expected, contact) <==> contact && (
        members.learned@.contains_key(anchor.0) ==> members.learned@[anchor.0].host == expected),
{
}

/// Every packet speaks of its sender, and a suspected or dead peer is told so by every packet to it:
/// an alive one is told nothing of itself.
pub proof fn a_suspected_peer_is_told(
    local: HostId,
    own: Option<MemberState>,
    peer: HostId,
    belief: Option<MemberState>,
)
    ensures
        ({
            let reserved = mandatory_gossip(local, own, peer, belief);
            let told = belief matches Some(belief) && belief.liveness != Liveness::Alive;
            &&& reserved.len() == (if own is Some {
                1int
            } else {
                0
            }) + (if told {
                1int
            } else {
                0
            })
            &&& own matches Some(own) ==> reserved[0] == (local, own)
            &&& told ==> reserved.last() == (peer, belief->0)
        }),
{
}

/// A packet's gossip keeps what is reserved, takes up the first report of every other subject, and
/// speaks of nobody twice that the reserved part does not.
pub proof fn a_packet_speaks_of_each_subject_once(
    reserved: Seq<(HostId, MemberState)>,
    reports: Seq<(HostId, MemberState)>,
    subject: HostId,
)
    ensures
        ({
            let gossip = joined_reports(reserved, reports);
            &&& reserved.is_prefix_of(gossip)
            &&& gossip.len() <= reserved.len() + reports.len()
            &&& speaks_of(gossip, subject) <==> speaks_of(reserved, subject) || speaks_of(
                reports,
                subject,
            )
            &&& forall|i: int, j: int|
                reserved.len() <= i < gossip.len() && 0 <= j < i ==> (#[trigger] gossip[i]).0 != (
                #[trigger] gossip[j]).0
            &&& forall|i: int|
                reserved.len() <= i < gossip.len() ==> reports.contains(#[trigger] gossip[i])
        }),
    decreases reports.len(),
{
    if reports.len() > 0 {
        let shorter = reports.drop_last();
        let last = reports.last();
        let before = joined_reports(reserved, shorter);
        let gossip = joined_reports(reserved, reports);
        a_packet_speaks_of_each_subject_once(reserved, shorter, subject);
        a_packet_speaks_of_each_subject_once(reserved, shorter, last.0);
        assert(reports =~= shorter.push(last));
        assert(reports[reports.len() - 1] == last);
        if speaks_of(shorter, subject) {
            let k = choose|k: int| 0 <= k < shorter.len() && (#[trigger] shorter[k]).0 == subject;
            assert(reports[k].0 == subject);
        }
        if speaks_of(reports, subject) && subject != last.0 {
            let k = choose|k: int| 0 <= k < reports.len() && (#[trigger] reports[k]).0 == subject;
            assert(shorter[k].0 == subject);
        }
        if !speaks_of(before, last.0) {
            assert(gossip == before.push(last));
            if speaks_of(before, subject) {
                let k = choose|k: int| 0 <= k < before.len() && (#[trigger] before[k]).0 == subject;
                assert(gossip[k].0 == subject);
            }
            if subject == last.0 {
                assert(gossip[before.len() as int].0 == subject);
            }
            if speaks_of(gossip, subject) && subject != last.0 {
                let k = choose|k: int| 0 <= k < gossip.len() && (#[trigger] gossip[k]).0 == subject;
                assert(before[k].0 == subject);
            }
        }
        assert forall|i: int| reserved.len() <= i < gossip.len() implies reports.contains(
            #[trigger] gossip[i],
        ) by {
            if i < before.len() {
                assert(shorter.contains(before[i]));
                let k = choose|k: int| 0 <= k < shorter.len() && shorter[k] == before[i];
                assert(reports[k] == gossip[i]);
            } else {
                assert(gossip[i] == last);
            }
        }
        assert forall|i: int, j: int|
            reserved.len() <= i < gossip.len() && 0 <= j < i implies (#[trigger] gossip[i]).0 != (
        #[trigger] gossip[j]).0 by {
            if i < before.len() {
                assert(before[i].0 != before[j].0);
            } else {
                assert(before[j] == gossip[j]);
            }
        }
    }
}

/// Direct contact is kept with every live peer while the groups form, and then with the members a
/// node's own roles reach: a dead peer is never in contact, and a member in none of them is not.
pub proof fn contact_follows_the_roles(
    sets: ContactSets,
    belief: Option<MemberState>,
    peer: HostId,
)
    ensures
        ({
            let dead = belief matches Some(held) && held.liveness == Liveness::Dead;
            let formed = sets.council_initialized && sets.root_initialized;
            &&& dead ==> !sets.contact(belief, peer)
            &&& !dead && !formed ==> sets.contact(belief, peer)
            &&& !dead && formed ==> (sets.contact(belief, peer) <==> !lists(sets.members@, peer)
                || lists(sets.neighbourhood@, peer) || lists(sets.council_voters@, peer) || lists(
                sets.root_voters@,
                peer,
            ))
        }),
{
}

/// Only a death is a death: a suspected or an unknown host is not believed dead, and starts no watch.
pub proof fn a_suspicion_is_no_death(
    watch: Map<u64, u32>,
    beliefs: Map<u64, MemberState>,
    host: HostId,
)
    ensures
        !beliefs.contains_key(host.0) ==> !believed_dead(beliefs, host),
        beliefs.contains_key(host.0) && beliefs[host.0].liveness == Liveness::Suspect
            ==> !believed_dead(beliefs, host),
        beliefs.contains_key(host.0) && beliefs[host.0].liveness == Liveness::Alive
            ==> !believed_dead(beliefs, host),
        beliefs.contains_key(host.0) && beliefs[host.0].liveness == Liveness::Dead ==> believed_dead(
            beliefs,
            host,
        ),
        !believed_dead(beliefs, host) ==> !watched(watch, beliefs, host).contains_key(host.0),
{
}

/// A member boots from the lowest anchor it was learned under, and one that was not learned from none.
pub proof fn a_member_boots_from_its_lowest_anchor(
    members: Members,
    host: HostId,
    anchor: Option<HostId>,
    other: u64,
)
    requires
        members.anchors(host, anchor),
        members.learned@.contains_key(other),
        members.learned@[other].host == host,
    ensures
        anchor is Some && members.learned@.contains_key((anchor->0).0) && members.learned@[(
        anchor->0).0].host == host,
        (anchor->0).0 <= other,
{
}

/// A domain declared for a member itself comes first; the local node's is its seed's, and a learned
/// member's is the seed's it was learned with; without a declaration there is none.
pub proof fn a_domain_is_declared_for_the_seed(
    members: Members,
    host: HostId,
    domains: Map<u64, DomainId>,
    domain: Option<DomainId>,
    anchor: u64,
)
    requires
        members.declares(host, Some(domains), domain),
    ensures
        domains.contains_key(host.0) ==> domain == Some(domains[host.0]),
        !domains.contains_key(host.0) && host == members.local && domains.contains_key(
            members.local_seed.0,
        ) ==> domain == Some(domains[members.local_seed.0]),
        !domains.contains_key(host.0) && host == members.local && !domains.contains_key(
            members.local_seed.0,
        ) ==> domain is None,
        !domains.contains_key(host.0) && host != members.local && (forall|other: u64| #[trigger]
            members.learned@.contains_key(other) ==> members.learned@[other].host != host)
            ==> domain is None,
        !domains.contains_key(host.0) && host != members.local && members.learned@.contains_key(anchor)
            && members.learned@[anchor].host == host && (forall|other: u64| #[trigger]
            members.learned@.contains_key(other) && members.learned@[other].host == host ==> anchor
                <= other) ==> {
            let seed = members.learned@[anchor].seed.0;
            &&& domains.contains_key(seed) ==> domain == Some(domains[seed])
            &&& !domains.contains_key(seed) ==> domain is None
        },
        members.declares(host, None, domain) ==> domain is None,
{
    if members.learned@.contains_key(anchor) && members.learned@[anchor].host == host && (forall|
        other: u64,
    | #[trigger]
        members.learned@.contains_key(other) && members.learned@[other].host == host ==> anchor
            <= other) {
        assert(members.is_anchor_of(host, anchor));
        assert(members.has_learned(host));
        assert forall|other: u64| members.is_anchor_of(host, other) implies other == anchor by {}
    }
}

/// The hosts that count as alive are those listed alive that are this node or were learned, in order.
pub proof fn only_a_learned_member_counts_as_alive(
    members: Members,
    alive: Seq<HostId>,
    host: HostId,
    anchor: u64,
)
    ensures
        members.known_alive(alive).contains(host) ==> alive.contains(host) && (host == members.local
            || exists|other: u64| #[trigger]
            members.learned@.contains_key(other) && members.learned@[other].host == host),
        alive.contains(host) && host == members.local ==> members.known_alive(alive).contains(host),
        alive.contains(host) && members.learned@.contains_key(anchor) && members.learned@[anchor].host
            == host ==> members.known_alive(alive).contains(host),
    decreases alive.len(),
{
    reveal(Seq::filter);
    if alive.len() > 0 {
        let rest = alive.drop_last();
        let last = alive.last();
        only_a_learned_member_counts_as_alive(members, rest, host, anchor);
        let before = members.known_alive(rest);
        assert(members.known_alive(alive) == (if members.votable(last) {
            before.push(last)
        } else {
            before
        }));
        vstd::seq_lib::lemma_seq_contains_after_push(before, last, host);
        vstd::seq_lib::lemma_seq_contains_after_push(rest, last, host);
        assert(rest.push(last) =~= alive);
    }
}

/// A region is alive exactly when a host of it is that counts; each is listed once.
pub proof fn a_region_is_alive_with_its_hosts(
    members: Members,
    alive: Seq<HostId>,
    regions: Seq<RegionId>,
    at: int,
    i: int,
    j: int,
)
    requires
        members.regions_of(alive, regions),
        0 <= at < alive.len(),
    ensures
        alive[at] == members.local && members.node_regions@.contains_key(alive[at].0)
            ==> regions.contains(members.node_regions@[alive[at].0]),
        alive[at] == members.local && !members.node_regions@.contains_key(alive[at].0)
            ==> regions.contains(RegionId(0)),
        0 <= i < regions.len() ==> exists|k: int|
            0 <= k < alive.len() && (if members.node_regions@.contains_key(
                (#[trigger] alive[k]).0,
            ) {
                members.node_regions@[alive[k].0]
            } else {
                RegionId(0)
            }) == regions[i] && (alive[k] == members.local || exists|anchor: u64| #[trigger]
                members.learned@.contains_key(anchor) && members.learned@[anchor].host == alive[k]),
        0 <= i < j < regions.len() ==> regions[i] != regions[j],
{
    let region = region_of(members.node_regions@, alive[at]);
    if alive[at] == members.local {
        assert(members.votable(alive[at]));
        assert(members.region_alive(alive, region));
        assert(regions.contains(region));
    }
    if 0 <= i < regions.len() {
        assert(regions.contains(regions[i]));
        assert(members.region_alive(alive, regions[i]));
        let k = choose|k: int|
            0 <= k < alive.len() && members.votable(#[trigger] alive[k]) && region_of(
                members.node_regions@,
                alive[k],
            ) == regions[i];
        assert(members.votable(alive[k]));
    }
}

/// Two rosters diverge exactly when a host is on one and not on the other, whatever the order; two lists
/// of regions likewise.
pub proof fn rosters_diverge_in_a_host(
    a: Seq<HostId>,
    b: Seq<HostId>,
    host: HostId,
    regions: Seq<RegionId>,
    others: Seq<RegionId>,
    region: RegionId,
)
    ensures
        a.contains(host) && !b.contains(host) ==> hosts_differ(a, b) && hosts_differ(b, a),
        (forall|i: int| 0 <= i < a.len() ==> b.contains(#[trigger] a[i])) && (forall|i: int|
            0 <= i < b.len() ==> a.contains(#[trigger] b[i])) ==> !hosts_differ(a, b),
        regions.contains(region) && !others.contains(region) ==> regions_differ(regions, others)
            && regions_differ(others, regions),
        (forall|i: int| 0 <= i < regions.len() ==> others.contains(#[trigger] regions[i])) && (forall|
            i: int,
        |
            0 <= i < others.len() ==> regions.contains(#[trigger] others[i])) ==> !regions_differ(
            regions,
            others,
        ),
{
    if a.contains(host) && !b.contains(host) {
        assert(lists(a, host) != lists(b, host));
        assert(lists(b, host) != lists(a, host));
    }
    if regions.contains(region) && !others.contains(region) {
        assert(regions.contains(region) != others.contains(region));
        assert(others.contains(region) != regions.contains(region));
    }
}

/// A peer whose identity moved on is followed, and its earlier boot is dead at the incarnation it was
/// believed at; any other peer is left as it is.
pub proof fn a_peers_earlier_boot_is_dead(
    peer: ProbedPeer,
    current: Option<HostId>,
    belief: Option<MemberState>,
    death: Option<Fold>,
    later: ProbedPeer,
)
    requires
        peer.follows(current, belief, death, later),
    ensures
        later.anchor == peer.anchor,
        current matches Some(now) ==> later.host == now,
        current is None ==> later.host == peer.host,
        death is Some <==> later.host != peer.host,
        death matches Some(fold) ==> fold.subject == peer.host && fold.state.liveness
            == Liveness::Dead && (belief matches Some(held) ==> fold.state.incarnation
            == held.incarnation) && (belief is None ==> fold.state.incarnation == 0),
{
}

} // verus!
