//! Explicit quorum-loss recovery. A human capability authorizes one reviewed retained copy after
//! the former group is fenced. Recovery creates a distinct consensus identity; neither discovery
//! nor a timeout may authorize it.

use crate::consensus::{
    group_facts, holds_authority, serves, Adopt, ConsensusRefusal, ConsensusState, Fetch, Fetched,
    GroupId, GroupState,
};
use crate::digest::{blake3_keyed_digest, keyed_hash, push_bytes, same_bytes};
use crate::ids::{contains_host, lists, HostEpoch, HostId, ObjectId, RegionId};
use crate::landing::constant_time_eq;
use crate::table::{are_keys, keys_of};
use crate::wire::{a_word_reads_back, push_word, word};
use std::collections::BTreeMap;
use vstd::prelude::*;
use vstd::std_specs::btree::*;

verus! {

broadcast use group_btree_axioms;

/// A node-specific operator capability for quorum-loss recovery. It authorizes nothing else.
#[derive(Clone, Copy)]
pub struct RecoveryKey([u8; 32]);

impl View for RecoveryKey {
    type V = Seq<u8>;

    closed spec fn view(&self) -> Seq<u8> {
        self.0@
    }
}

/// Whether every byte is zero.
pub open spec fn all_zero(bytes: Seq<u8>) -> bool {
    forall|i: int| 0 <= i < bytes.len() ==> bytes[i] == 0
}

impl RecoveryKey {
    /// Accepts a provisioned 256-bit key; the all-zero unprovisioned value is refused.
    pub fn from_bytes(bytes: [u8; 32]) -> (key: Option<RecoveryKey>)
        ensures
            match key {
                Some(key) => !all_zero(bytes@) && key@ == bytes@,
                None => all_zero(bytes@),
            },
    {
        let mut i: usize = 0;
        while i < 32
            invariant
                i <= 32,
                forall|j: int| 0 <= j < i ==> bytes@[j] == 0,
            decreases 32 - i,
        {
            if bytes[i] != 0 {
                assert(bytes@[i as int] != 0);
                return Some(RecoveryKey(bytes));
            }
            i += 1;
        }
        None
    }

    /// Authorizes the exact reviewed plan without exposing the key.
    pub fn proof_for(&self, plan: &[u8; 32]) -> (approval: [u8; 32])
        ensures
            approval@ == proof_of(self@, plan@),
    {
        recovery_proof(&self.0, plan)
    }

    /// The key's bytes.
    fn bytes(&self) -> (bytes: &[u8; 32])
        ensures
            bytes@ == self@,
    {
        &self.0
    }
}

/// The bytes of `slates/consensus-recovery/v1`.
pub open spec fn recovery_label() -> Seq<u8> {
    seq![
        115u8, 108, 97, 116, 101, 115, 47, 99, 111, 110, 115, 101, 110, 115, 117, 115, 45, 114,
        101, 99, 111, 118, 101, 114, 121, 47, 118, 49,
    ]
}

/// The bytes of `slates/consensus-recovery-plan/v1`.
pub open spec fn plan_label() -> Seq<u8> {
    seq![
        115u8, 108, 97, 116, 101, 115, 47, 99, 111, 110, 115, 101, 110, 115, 117, 115, 45, 114,
        101, 99, 111, 118, 101, 114, 121, 45, 112, 108, 97, 110, 47, 118, 49,
    ]
}

/// The proof that a secret's holder reviewed a plan.
pub open spec fn proof_of(secret: Seq<u8>, plan: Seq<u8>) -> Seq<u8> {
    blake3_keyed_digest(secret, recovery_label() + plan)
}

/// Proves that the human surface reviewed this exact plan. The plan binds the group, the retained
/// state, the destination and the daemon's start, so the proof authorizes no other reset.
pub fn recovery_proof(secret: &[u8; 32], plan: &[u8; 32]) -> (approval: [u8; 32])
    ensures
        approval@ == proof_of(secret@, plan@),
{
    let label: [u8; 28] = [
        115, 108, 97, 116, 101, 115, 47, 99, 111, 110, 115, 101, 110, 115, 117, 115, 45, 114, 101,
        99, 111, 118, 101, 114, 121, 47, 118, 49,
    ];
    let mut input: Vec<u8> = Vec::new();
    push_bytes(&mut input, label.as_slice());
    push_bytes(&mut input, plan.as_slice());
    assert(label@ =~= recovery_label());
    assert(input@ =~= recovery_label() + plan@);
    keyed_hash(secret, input.as_slice())
}

/// The secret that recovery is authorized under: the operator's key, or the node's own.
pub open spec fn secret_of(key: Option<RecoveryKey>, issuer: Seq<u8>) -> Seq<u8> {
    match key {
        Some(key) => key@,
        None => issuer,
    }
}

/// The secret that recovery is authorized under: the operator's key, or the node's own.
pub fn secret<'a>(key: &'a Option<RecoveryKey>, issuer: &'a [u8; 32]) -> (secret: &'a [u8; 32])
    ensures
        secret@ == secret_of(*key, issuer@),
{
    match key {
        Some(key) => key.bytes(),
        None => issuer,
    }
}

/// Authority to replace one specific old group with one specific new group. The old state stays
/// intact until the replacement has validated completely.
#[derive(Clone, Copy, Debug)]
pub struct JoinTarget {
    pub group: GroupId,
    /// The least configuration version the new group may bring.
    pub floor: u64,
}

/// A join target's contents.
pub struct TargetFacts {
    pub group: Seq<u8>,
    pub floor: u64,
}

/// A completed authorization.
#[derive(Clone, Copy, Debug)]
pub struct Receipt {
    pub digest: [u8; 32],
    pub group: GroupId,
    pub joining: bool,
}

/// The operator's state: one pending join and one completed authorization per group.
#[derive(Clone, Copy, Debug)]
pub struct RecoveryState {
    pub council: Option<JoinTarget>,
    pub root: Option<JoinTarget>,
    pub council_receipt: Option<Receipt>,
    pub root_receipt: Option<Receipt>,
}

impl Default for RecoveryState {
    /// No recovery, pending or completed.
    fn default() -> (state: RecoveryState)
        ensures
            state == (RecoveryState {
                council: None,
                root: None,
                council_receipt: None,
                root_receipt: None,
            }),
    {
        RecoveryState { council: None, root: None, council_receipt: None, root_receipt: None }
    }
}

impl RecoveryState {
    /// The pending join's contents, if one is pending for the group.
    pub open spec fn target_facts(&self, root: bool) -> Option<TargetFacts> {
        match if root {
            self.root
        } else {
            self.council
        } {
            Some(target) => Some(TargetFacts { group: target.group@, floor: target.floor }),
            None => None,
        }
    }

    /// The completed authorization of a group, if it has one.
    pub open spec fn receipt(&self, root: bool) -> Option<Receipt> {
        if root {
            self.root_receipt
        } else {
            self.council_receipt
        }
    }

    /// Whether any join is pending.
    pub open spec fn is_joining(&self) -> bool {
        self.council is Some || self.root is Some
    }

    /// Whether any join is pending.
    pub fn joining(&self) -> (joining: bool)
        ensures
            joining == self.is_joining(),
    {
        self.council.is_some() || self.root.is_some()
    }

    /// The pending join of a group, if one is pending.
    pub fn target(&self, root: bool) -> (target: Option<JoinTarget>)
        ensures
            target == (if root {
                self.root
            } else {
                self.council
            }),
            match target {
                Some(target) => self.target_facts(root) == Some(
                    TargetFacts { group: target.group@, floor: target.floor },
                ),
                None => self.target_facts(root) is None,
            },
    {
        if root {
            self.root
        } else {
            self.council
        }
    }

    /// This without the target of one group.
    pub open spec fn cleared(self, root: bool) -> RecoveryState {
        if root {
            RecoveryState { root: None, ..self }
        } else {
            RecoveryState { council: None, ..self }
        }
    }

    /// Ends the pending join of a group.
    pub fn clear_target(&mut self, root: bool)
        ensures
            *final(self) == old(self).cleared(root),
    {
        if root {
            self.root = None;
        } else {
            self.council = None;
        }
    }
}

/// The retained copy of a group, as a recovery reviews it.
#[derive(Debug)]
pub struct Retained {
    /// The saved consensus state, encoded.
    pub raft: Vec<u8>,
    /// The base configuration, encoded.
    pub base: Vec<u8>,
    /// The applied configuration, encoded.
    pub view: Vec<u8>,
    pub snapshot_index: u64,
    pub log_entries: u64,
    pub commit_index: u64,
    pub version: u64,
    pub voters: Vec<HostId>,
}

/// A recovery as the operator reviews it.
#[derive(Debug)]
pub struct RecoveryPlan {
    pub member: u64,
    pub previous: GroupId,
    pub digest: [u8; 32],
    pub committed: u64,
    pub last_log: u64,
    pub version: u64,
    pub voters: Vec<HostId>,
    pub target: Option<GroupId>,
}

/// The bytes of a destination that may be absent.
pub open spec fn destination_bytes(target: Option<Seq<u8>>) -> Seq<u8> {
    match target {
        None => seq![0u8],
        Some(group) => seq![1u8] + group,
    }
}

/// The bytes of a pending join that may be absent.
pub open spec fn pending_bytes(pending: Option<TargetFacts>) -> Seq<u8> {
    match pending {
        None => seq![0u8],
        Some(join) => seq![1u8] + join.group + word(join.floor),
    }
}

/// The bytes a plan's digest covers: which group, what it was, where it goes, the join that is
/// pending, and all that is retained of it.
pub open spec fn plan_input(
    root: bool,
    previous: Seq<u8>,
    target: Option<Seq<u8>>,
    pending: Option<TargetFacts>,
    retained: Seq<u8>,
) -> Seq<u8> {
    plan_label() + seq![
        (if root {
            1u8
        } else {
            0u8
        }),
    ] + previous + destination_bytes(target) + pending_bytes(pending) + retained
}

impl Retained {
    /// The retained bytes a plan's digest covers.
    pub open spec fn bytes(&self) -> Seq<u8> {
        self.raft@ + self.base@ + self.view@
    }
}

/// Why there is no plan, if there is none: nothing is retained or the group has no identity; the
/// destination is the group itself; or the log's end cannot be counted.
pub open spec fn plan_refusal(
    previous: Option<GroupId>,
    target: Option<GroupId>,
    retained: Option<Retained>,
) -> Option<ConsensusRefusal> {
    if retained is None || previous is None {
        Some(ConsensusRefusal::RecoveryUnavailable)
    } else if target is Some && target->0@ == previous->0@ {
        Some(ConsensusRefusal::RecoveryStale)
    } else if (retained->0).snapshot_index + (retained->0).log_entries > u64::MAX {
        Some(ConsensusRefusal::RecoveryUnavailable)
    } else {
        None
    }
}

/// The digest of the plan made of a state, under a secret, over what is retained of a group.
pub open spec fn plan_digest(
    state: ConsensusState,
    secret: Seq<u8>,
    root: bool,
    target: Option<GroupId>,
    retained: Retained,
) -> Seq<u8> {
    blake3_keyed_digest(
        secret,
        plan_input(
            root,
            state.group_state(root).group->0@,
            group_facts(target),
            state.recovery.target_facts(root),
            retained.bytes(),
        ),
    )
}

/// Whether `plan` is the recovery to review.
pub open spec fn plans(
    state: ConsensusState,
    secret: Seq<u8>,
    root: bool,
    target: Option<GroupId>,
    retained: Option<Retained>,
    plan: Result<RecoveryPlan, ConsensusRefusal>,
) -> bool {
    match plan {
        Ok(plan) => {
            let previous = state.group_state(root).group;
            &&& plan_refusal(previous, target, retained) is None
            &&& plan.member == state.host.0
            &&& plan.previous@ == previous->0@
            &&& plan.digest@ == plan_digest(state, secret, root, target, retained->0)
            &&& plan.committed == (retained->0).commit_index
            &&& plan.last_log == (retained->0).snapshot_index + (retained->0).log_entries
            &&& plan.version == (retained->0).version
            &&& plan.voters == (retained->0).voters
            &&& plan.target == target
        },
        Err(refusal) => plan_refusal(state.group_state(root).group, target, retained) == Some(
            refusal,
        ),
    }
}

/// The recovery the operator is to review: bound, under the secret, to the group, the destination,
/// the pending join and every retained byte.
pub fn plan(
    state: &ConsensusState,
    secret: &[u8; 32],
    root: bool,
    target: Option<GroupId>,
    retained: Option<Retained>,
) -> (plan: Result<RecoveryPlan, ConsensusRefusal>)
    ensures
        plans(*state, secret@, root, target, retained, plan),
{
    let retained = match retained {
        Some(retained) => retained,
        None => {
            return Err(ConsensusRefusal::RecoveryUnavailable);
        },
    };
    let previous = match state.group_id(root) {
        Some(previous) => previous,
        None => {
            return Err(ConsensusRefusal::RecoveryUnavailable);
        },
    };
    if let Some(group) = &target {
        if group.is(&previous) {
            return Err(ConsensusRefusal::RecoveryStale);
        }
    }
    let last_log: u64 = match retained.snapshot_index.checked_add(retained.log_entries) {
        Some(last_log) => last_log,
        None => {
            return Err(ConsensusRefusal::RecoveryUnavailable);
        },
    };
    let label: [u8; 33] = [
        115, 108, 97, 116, 101, 115, 47, 99, 111, 110, 115, 101, 110, 115, 117, 115, 45, 114, 101,
        99, 111, 118, 101, 114, 121, 45, 112, 108, 97, 110, 47, 118, 49,
    ];
    let mut input: Vec<u8> = Vec::new();
    push_bytes(&mut input, label.as_slice());
    input.push(
        if root {
            1
        } else {
            0
        },
    );
    push_bytes(&mut input, previous.0.as_slice());
    match &target {
        Some(group) => {
            input.push(1);
            push_bytes(&mut input, group.0.as_slice());
        },
        None => {
            input.push(0);
        },
    }
    let pending = state.recovery.target(root);
    match &pending {
        Some(join) => {
            input.push(1);
            push_bytes(&mut input, join.group.0.as_slice());
            push_word(&mut input, join.floor);
        },
        None => {
            input.push(0);
        },
    }
    push_bytes(&mut input, retained.raft.as_slice());
    push_bytes(&mut input, retained.base.as_slice());
    push_bytes(&mut input, retained.view.as_slice());
    assert(label@ =~= plan_label());
    assert(input@ =~= plan_input(
        root,
        previous@,
        group_facts(target),
        state.recovery.target_facts(root),
        retained.bytes(),
    ));
    Ok(
        RecoveryPlan {
            member: state.host.0,
            previous,
            digest: keyed_hash(secret, input.as_slice()),
            committed: retained.commit_index,
            last_log,
            version: retained.version,
            voters: retained.voters,
            target,
        },
    )
}

/// What an approved recovery comes to.
#[derive(Debug)]
pub enum Recovery {
    Refused(ConsensusRefusal),
    /// This approval was carried out before: its receipt.
    Started { group: GroupId, joining: bool },
    /// Suspend the old group and wait for the named one, at the reviewed version or later.
    Join { group: GroupId, floor: u64 },
    /// Re-form the group from the retained copy.
    Reform,
}

impl ConsensusState {
    /// Judges an approval: its proof must verify under the secret; an approval already carried out
    /// is answered from its receipt; and the plan reviewed must be the plan made now, of this state
    /// and of what is retained of the group.
    pub fn recover(
        &self,
        secret: &[u8; 32],
        root: bool,
        target: Option<GroupId>,
        digest: &[u8; 32],
        approval: &[u8; 32],
        retained: Option<Retained>,
    ) -> (recovery: Recovery)
        ensures
            recovery == self.recovery_decision(secret@, root, target, digest@, approval@, retained),
    {
        let expected = recovery_proof(secret, digest);
        let reviewed = plan(self, secret, root, target, retained);
        self.judge_approval(&expected, root, target, digest, approval, &reviewed)
    }

    /// Judges an approval of the plan with this digest, whose proof is to be `expected`.
    pub fn judge_approval(
        &self,
        expected: &[u8; 32],
        root: bool,
        target: Option<GroupId>,
        digest: &[u8; 32],
        approval: &[u8; 32],
        reviewed: &Result<RecoveryPlan, ConsensusRefusal>,
    ) -> (recovery: Recovery)
        ensures
            recovery == self.approval_decision(
                expected@,
                root,
                target,
                digest@,
                approval@,
                *reviewed,
            ),
    {
        if !constant_time_eq(expected.as_slice(), approval.as_slice()) {
            return Recovery::Refused(ConsensusRefusal::GrantIssuerUnverified);
        }
        let receipt = if root {
            self.recovery.root_receipt
        } else {
            self.recovery.council_receipt
        };
        if let Some(receipt) = receipt {
            if same_bytes(receipt.digest.as_slice(), digest.as_slice()) {
                return Recovery::Started { group: receipt.group, joining: receipt.joining };
            }
        }
        let floor: u64 = match reviewed {
            Err(refusal) => {
                return Recovery::Refused(*refusal);
            },
            Ok(plan) => {
                if !same_bytes(plan.digest.as_slice(), digest.as_slice()) {
                    return Recovery::Refused(ConsensusRefusal::RecoveryStale);
                }
                plan.version
            },
        };
        match target {
            Some(group) => Recovery::Join { group, floor },
            None => Recovery::Reform,
        }
    }

    /// What an approval comes to under a secret, with this retained of the group, in the order it is
    /// judged.
    pub open spec fn recovery_decision(
        &self,
        secret: Seq<u8>,
        root: bool,
        target: Option<GroupId>,
        digest: Seq<u8>,
        approval: Seq<u8>,
        retained: Option<Retained>,
    ) -> Recovery {
        let receipt = self.recovery.receipt(root);
        let refusal = plan_refusal(self.group_state(root).group, target, retained);
        if proof_of(secret, digest) != approval {
            Recovery::Refused(ConsensusRefusal::GrantIssuerUnverified)
        } else if receipt is Some && (receipt->0).digest@ == digest {
            Recovery::Started { group: (receipt->0).group, joining: (receipt->0).joining }
        } else if refusal is Some {
            Recovery::Refused(refusal->0)
        } else if plan_digest(*self, secret, root, target, retained->0) != digest {
            Recovery::Refused(ConsensusRefusal::RecoveryStale)
        } else {
            match target {
                Some(group) => Recovery::Join { group, floor: (retained->0).version },
                None => Recovery::Reform,
            }
        }
    }

    /// What an approval comes to, in the order it is judged, when its proof is to be `expected`.
    pub open spec fn approval_decision(
        &self,
        expected: Seq<u8>,
        root: bool,
        target: Option<GroupId>,
        digest: Seq<u8>,
        approval: Seq<u8>,
        reviewed: Result<RecoveryPlan, ConsensusRefusal>,
    ) -> Recovery {
        let receipt = self.recovery.receipt(root);
        if expected != approval {
            Recovery::Refused(ConsensusRefusal::GrantIssuerUnverified)
        } else if receipt is Some && (receipt->0).digest@ == digest {
            Recovery::Started { group: (receipt->0).group, joining: (receipt->0).joining }
        } else if reviewed is Err {
            Recovery::Refused(reviewed->Err_0)
        } else if (reviewed->Ok_0).digest@ != digest {
            Recovery::Refused(ConsensusRefusal::RecoveryStale)
        } else {
            match target {
                Some(group) => Recovery::Join { group, floor: (reviewed->Ok_0).version },
                None => Recovery::Reform,
            }
        }
    }

    /// Whether `started` and `after` are what an approved recovery makes of this.
    pub open spec fn starts_recovery(
        &self,
        root: bool,
        digest: [u8; 32],
        group: GroupId,
        floor: Option<u64>,
        started: Result<(), ConsensusRefusal>,
        after: ConsensusState,
    ) -> bool {
        match started {
            Ok(()) => {
                let before = self.group_state(root);
                &&& floor is None ==> before.version < u64::MAX
                &&& after.recovery.receipt(root) == Some(
                    Receipt { digest, group, joining: floor is Some },
                )
                &&& after.recovery.target_facts(root) == (match floor {
                    Some(floor) => Some(TargetFacts { group: group@, floor }),
                    None => None,
                })
                &&& after.recovery.receipt(!root) == self.recovery.receipt(!root)
                &&& after.recovery.target_facts(!root)
                    == self.recovery.target_facts(!root)
                &&& after.group_state(root) == (match floor {
                    Some(_) => before,
                    None => GroupState {
                        initialized: true,
                        group: Some(group),
                        version: (before.version + 1) as u64,
                        voter: true,
                    },
                })
                &&& after.group_state(!root) == self.group_state(!root)
                &&& after == (ConsensusState {
                    council: after.council,
                    root: after.root,
                    recovery: after.recovery,
                    bootstrap_authorized: None,
                    consensus_ready: false,
                    ..*self
                })
            },
            Err(refusal) => {
                &&& floor is None && self.group_state(root).version == u64::MAX
                &&& refusal == ConsensusRefusal::RecoveryUnavailable
                &&& after == *self
            },
        }
    }

    /// Records an approved recovery before it is published, with its receipt: the join it waits for,
    /// from `floor` on, or the group it re-formed as, one version on and with this node its voter.
    /// The node serves nothing until the recovery is complete, and a creation this boot authorized
    /// is forgotten. A group whose version has no successor cannot re-form, and nothing changes.
    pub fn recovery_started(
        &mut self,
        root: bool,
        digest: [u8; 32],
        group: GroupId,
        floor: Option<u64>,
    ) -> (started: Result<(), ConsensusRefusal>)
        ensures
            old(self).starts_recovery(root, digest, group, floor, started, *final(self)),
    {
        let pending = match floor {
            Some(floor) => Some(JoinTarget { group, floor }),
            None => {
                let version: u64 = if root {
                    self.root.version
                } else {
                    self.council.version
                };
                let reformed = match version.checked_add(1) {
                    Some(version) => GroupState {
                        initialized: true,
                        group: Some(group),
                        version,
                        voter: true,
                    },
                    None => {
                        return Err(ConsensusRefusal::RecoveryUnavailable);
                    },
                };
                if root {
                    self.root = reformed;
                } else {
                    self.council = reformed;
                }
                None
            },
        };
        let receipt = Some(Receipt { digest, group, joining: floor.is_some() });
        if root {
            self.recovery.root = pending;
            self.recovery.root_receipt = receipt;
        } else {
            self.recovery.council = pending;
            self.recovery.council_receipt = receipt;
        }
        self.bootstrap_authorized = None;
        self.consensus_ready = false;
        Ok(())
    }

    /// Whether `recovery` and `after` are what a recovery's publication makes of this.
    pub open spec fn publishes_recovery(
        &self,
        stored: bool,
        group: GroupId,
        joining: bool,
        recovery: Recovery,
        after: ConsensusState,
    ) -> bool {
        &&& recovery == (if stored {
            Recovery::Started { group, joining }
        } else {
            Recovery::Refused(ConsensusRefusal::RecoveryUnavailable)
        })
        &&& after == (ConsensusState {
            consensus_ready: if stored && !self.recovery.is_joining() {
                serves(*self)
            } else {
                self.consensus_ready
            },
            ..*self
        })
    }

    /// The reply once the recovery's publication succeeded or failed: a failed one is unavailable;
    /// otherwise, with no join pending, the recovered authority is installed and the node is ready
    /// when both groups hold state and the council's configuration holds it.
    pub fn recovery_published(&mut self, stored: bool, group: GroupId, joining: bool) -> (recovery:
        Recovery)
        ensures
            old(self).publishes_recovery(stored, group, joining, recovery, *final(self)),
    {
        if !stored {
            return Recovery::Refused(ConsensusRefusal::RecoveryUnavailable);
        }
        if !self.recovery.joining() {
            self.install_recovered_authority();
        }
        Recovery::Started { group, joining }
    }

    /// Brings the readiness into step with a recovered authority.
    pub fn install_recovered_authority(&mut self)
        ensures
            *final(self) == (ConsensusState {
                consensus_ready: holds_authority(*old(self)),
                ..*old(self)
            }),
    {
        self.consensus_ready = self.council.initialized && self.root.initialized && contains_host(
            &self.members,
            self.host,
        );
    }
}

/// A configuration a group is re-formed over: its version, each owner's fencing epoch, and each
/// neighbourhood's generation.
#[derive(Debug)]
pub struct ReformBase {
    pub version: u64,
    pub epochs: BTreeMap<u64, HostEpoch>,
    pub generations: BTreeMap<u64, u64>,
}

/// Whether a configuration can be re-formed: its version and every epoch have a successor.
pub open spec fn reformable(base: ReformBase) -> bool {
    &&& base.version < u64::MAX
    &&& forall|owner: u64| #[trigger]
        base.epochs@.contains_key(owner) ==> base.epochs@[owner].0 < u64::MAX
}

/// Whether `reformed` is what re-forming a configuration comes to.
pub open spec fn reforms(base: ReformBase, reformed: Result<ReformBase, ConsensusRefusal>) -> bool {
    match reformed {
        Ok(reformed) => {
            &&& reformable(base)
            &&& reformed.version == base.version + 1
            &&& reformed.epochs@.dom() == base.epochs@.dom()
            &&& forall|owner: u64| #[trigger]
                base.epochs@.contains_key(owner) ==> reformed.epochs@[owner].0
                    == base.epochs@[owner].0 + 1
            &&& reformed.generations@.dom() == base.generations@.dom()
            &&& forall|owner: u64| #[trigger]
                base.generations@.contains_key(owner) ==> reformed.generations@[owner]
                    == reformed.version
        },
        Err(refusal) => !reformable(base) && refusal == ConsensusRefusal::RecoveryUnavailable,
    }
}

/// Re-forms a regional configuration: the next version, every owner's epoch raised by one, so that
/// every writer under the old group is fenced, and every neighbourhood of the new version.
pub fn reform(base: &ReformBase) -> (reformed: Result<ReformBase, ConsensusRefusal>)
    ensures
        reforms(*base, reformed),
{
    let version: u64 = match base.version.checked_add(1) {
        Some(version) => version,
        None => {
            return Err(ConsensusRefusal::RecoveryUnavailable);
        },
    };
    let owners = keys_of(&base.epochs);
    let mut epochs: BTreeMap<u64, HostEpoch> = BTreeMap::new();
    let mut i: usize = 0;
    while i < owners.len()
        invariant
            i <= owners@.len(),
            base.version < u64::MAX,
            are_keys(base.epochs@, owners@),
            forall|owner: u64|
                #![trigger epochs@.contains_key(owner)]
                epochs@.contains_key(owner) <==> exists|j: int|
                    0 <= j < i && #[trigger] owners@[j] == owner,
            forall|j: int|
                0 <= j < i ==> epochs@[#[trigger] owners@[j]].0 == base.epochs@[owners@[j]].0 + 1,
        decreases owners@.len() - i,
    {
        let owner: u64 = owners[i];
        assert(base.epochs@.contains_key(owners@[i as int]));
        let ghost before = epochs@;
        if let Some(epoch) = base.epochs.get(&owner) {
            match epoch.0.checked_add(1) {
                Some(next) => {
                    epochs.insert(owner, HostEpoch(next));
                },
                None => {
                    assert(!reformable(*base)) by {
                        assert(base.epochs@.contains_key(owner));
                    }
                    return Err(ConsensusRefusal::RecoveryUnavailable);
                },
            }
        }
        proof {
            assert forall|other: u64|
                #![trigger epochs@.contains_key(other)]
                epochs@.contains_key(other) <==> exists|j: int|
                    0 <= j < i + 1 && #[trigger] owners@[j] == other by {
                if before.contains_key(other) {
                    let j = choose|j: int| 0 <= j < i && #[trigger] owners@[j] == other;
                    assert(owners@[j] == other);
                }
                if other == owner {
                    assert(owners@[i as int] == other);
                }
            }
        }
        i += 1;
    }
    proof {
        assert forall|owner: u64| #[trigger] base.epochs@.contains_key(owner) implies
            epochs@.contains_key(owner) && epochs@[owner].0 == base.epochs@[owner].0 + 1 by {
            let at = choose|at: int| 0 <= at < owners@.len() && owners@[at] == owner;
            assert(owners@[at] == owner);
        }
        assert forall|owner: u64| #[trigger] epochs@.contains_key(owner) implies
            base.epochs@.contains_key(owner) by {
            let j = choose|j: int| 0 <= j < i && #[trigger] owners@[j] == owner;
            assert(base.epochs@.contains_key(owners@[j]));
        }
        assert(epochs@.dom() =~= base.epochs@.dom());
        assert(reformable(*base)) by {
            assert forall|owner: u64| #[trigger] base.epochs@.contains_key(owner) implies
                base.epochs@[owner].0 < u64::MAX by {
                assert(epochs@[owner].0 == base.epochs@[owner].0 + 1);
            }
        }
    }
    let places = keys_of(&base.generations);
    let mut generations: BTreeMap<u64, u64> = BTreeMap::new();
    let mut k: usize = 0;
    while k < places.len()
        invariant
            k <= places@.len(),
            are_keys(base.generations@, places@),
            forall|owner: u64|
                #![trigger generations@.contains_key(owner)]
                generations@.contains_key(owner) <==> exists|j: int|
                    0 <= j < k && #[trigger] places@[j] == owner,
            forall|owner: u64| #[trigger]
                generations@.contains_key(owner) ==> generations@[owner] == version,
        decreases places@.len() - k,
    {
        let owner: u64 = places[k];
        let ghost before = generations@;
        generations.insert(owner, version);
        proof {
            assert forall|other: u64|
                #![trigger generations@.contains_key(other)]
                generations@.contains_key(other) <==> exists|j: int|
                    0 <= j < k + 1 && #[trigger] places@[j] == other by {
                if before.contains_key(other) {
                    let j = choose|j: int| 0 <= j < k && #[trigger] places@[j] == other;
                    assert(places@[j] == other);
                }
                if other == owner {
                    assert(places@[k as int] == other);
                }
            }
        }
        k += 1;
    }
    proof {
        assert forall|owner: u64| #[trigger] base.generations@.contains_key(owner) implies
            generations@.contains_key(owner) by {
            let at = choose|at: int| 0 <= at < places@.len() && places@[at] == owner;
            assert(places@[at] == owner);
        }
        assert forall|owner: u64| #[trigger] generations@.contains_key(owner) implies
            base.generations@.contains_key(owner) by {
            let j = choose|j: int| 0 <= j < k && #[trigger] places@[j] == owner;
            assert(base.generations@.contains_key(places@[j]));
        }
        assert(generations@.dom() =~= base.generations@.dom());
    }
    Ok(ReformBase { version, epochs, generations })
}

/// A root configuration: its version, the regions it has taken in, and the objects that moved from
/// the region they were made in.
#[derive(Debug, PartialEq, Eq)]
pub struct RootBase {
    pub version: u64,
    pub regions: Vec<RegionId>,
    pub homes: BTreeMap<u128, RegionId>,
}

impl RootBase {
    /// The region an object is at home in: where it moved to, or where it was made.
    pub open spec fn home(&self, object: ObjectId, made_in: RegionId) -> RegionId {
        if self.homes@.contains_key(object.0) {
            self.homes@[object.0]
        } else {
            made_in
        }
    }

    /// The region an object is at home in.
    pub fn home_of(&self, object: ObjectId, made_in: RegionId) -> (region: RegionId)
        ensures
            region == self.home(object, made_in),
    {
        match self.homes.get(&object.0) {
            Some(region) => *region,
            None => made_in,
        }
    }
}

/// Whether `reformed` is what re-forming a root configuration comes to.
pub open spec fn reforms_root(base: RootBase, reformed: Result<RootBase, ConsensusRefusal>) -> bool {
    match reformed {
        Ok(reformed) => base.version < u64::MAX && reformed == (RootBase {
            version: (base.version + 1) as u64,
            ..base
        }),
        Err(refusal) => base.version == u64::MAX && refusal
            == ConsensusRefusal::RecoveryUnavailable,
    }
}

/// Re-forms a root configuration: the next version, and everything else as it was.
pub fn reform_root(base: RootBase) -> (reformed: Result<RootBase, ConsensusRefusal>)
    ensures
        reforms_root(base, reformed),
{
    match base.version.checked_add(1) {
        Some(version) => Ok(RootBase { version, regions: base.regions, homes: base.homes }),
        None => Err(ConsensusRefusal::RecoveryUnavailable),
    }
}

/// A re-formed root keeps every moved home: whatever a group was re-formed from, its objects stay at
/// home where they were.
pub proof fn a_reformed_root_keeps_moved_homes(base: RootBase, object: ObjectId, made_in: RegionId)
    requires
        base.version < u64::MAX,
    ensures
        (RootBase { version: (base.version + 1) as u64, ..base }).home(object, made_in)
            == base.home(object, made_in),
{
}

/// An approval is carried out once: repeated, it is answered with what it started, whatever the
/// retained state has become.
pub proof fn an_approval_is_carried_out_once(
    state: ConsensusState,
    secret: Seq<u8>,
    root: bool,
    target: Option<GroupId>,
    digest: Seq<u8>,
    retained: Option<Retained>,
)
    requires
        state.recovery.receipt(root) matches Some(receipt) && receipt.digest@ == digest,
    ensures
        state.recovery_decision(secret, root, target, digest, proof_of(secret, digest), retained)
            == (Recovery::Started {
            group: (state.recovery.receipt(root)->0).group,
            joining: (state.recovery.receipt(root)->0).joining,
        }),
{
}

/// Nothing is recovered without its proof, and nothing but the plan as it is now is recovered: the
/// approved digest is that of the plan made of the state the approval meets, over what is retained of
/// the group then, to this destination.
pub proof fn only_the_reviewed_plan_is_recovered(
    state: ConsensusState,
    secret: Seq<u8>,
    root: bool,
    target: Option<GroupId>,
    digest: Seq<u8>,
    approval: Seq<u8>,
    retained: Option<Retained>,
)
    requires
        ({
            let decision = state.recovery_decision(secret, root, target, digest, approval, retained);
            decision is Join || decision is Reform
        }),
    ensures
        approval == proof_of(secret, digest),
        plan_refusal(state.group_state(root).group, target, retained) is None,
        digest == plan_digest(state, secret, root, target, retained->0),
{
}

/// A join goes back behind nothing that was reviewed: the node that waits for its new group takes no
/// reply of another group, and none whose configuration is older than the reviewed plan's.
pub proof fn a_join_starts_at_the_reviewed_version(
    before: ConsensusState,
    after: ConsensusState,
    secret: Seq<u8>,
    root: bool,
    target: Option<GroupId>,
    digest: Seq<u8>,
    approval: Seq<u8>,
    retained: Option<Retained>,
    peer: HostId,
    reply: Fetched,
)
    requires
        before.recovery_decision(secret, root, target, digest, approval, retained) matches
            Recovery::Join { group, floor } && after.recovery.target_facts(root) == Some(
            TargetFacts { group: group@, floor },
        ),
        after.adoption(root, peer, reply) != Adopt::Refuse,
    ensures
        target matches Some(group) && reply.group@ == group@,
        retained matches Some(copy) && reply.version->0 >= copy.version,
{
}

/// A re-formed group answers its learners: one that still has the version the group was re-formed
/// from is behind it.
pub proof fn a_reformed_group_answers_its_learners(
    before: ConsensusState,
    after: ConsensusState,
    root: bool,
    group: GroupId,
    request: Fetch,
)
    requires
        before.group_state(root).version < u64::MAX,
        after.recovery.target_facts(root) is None,
        after.group_state(root) == (GroupState {
            initialized: true,
            group: Some(group),
            version: (before.group_state(root).version + 1) as u64,
            voter: true,
        }),
        request.group matches Some(asked) && asked@ == group@,
        request.version <= before.group_state(root).version,
    ensures
        after.answers_fetch(root, request, false),
{
}

/// A plan binds its group and its destination: the bytes of two plans' digests differ unless the
/// plans are of one group, go to one destination, and find one pending join.
pub proof fn a_plan_binds_its_destination(
    root: (bool, bool),
    previous: (GroupId, GroupId),
    target: (Option<GroupId>, Option<GroupId>),
    pending: (Option<JoinTarget>, Option<JoinTarget>),
    retained: (Seq<u8>, Seq<u8>),
)
    requires
        plan_input(
            root.0,
            previous.0@,
            group_facts(target.0),
            join_facts(pending.0),
            retained.0,
        ) == plan_input(
            root.1,
            previous.1@,
            group_facts(target.1),
            join_facts(pending.1),
            retained.1,
        ),
    ensures
        root.0 == root.1,
        previous.0@ == previous.1@,
        group_facts(target.0) == group_facts(target.1),
        join_facts(pending.0) == join_facts(pending.1),
{
    let a = plan_input(
        root.0,
        previous.0@,
        group_facts(target.0),
        join_facts(pending.0),
        retained.0,
    );
    let b = plan_input(
        root.1,
        previous.1@,
        group_facts(target.1),
        join_facts(pending.1),
        retained.1,
    );
    lemma_plan_parts(root.0, previous.0, target.0, pending.0, retained.0);
    lemma_plan_parts(root.1, previous.1, target.1, pending.1, retained.1);
    assert(a[33] == b[33]);
    assert(a[66] == b[66]);
    let at: int = if target.0 is Some {
        99
    } else {
        67
    };
    assert(a[at] == b[at]);
    if pending.0 is Some {
        a_word_reads_back((pending.0->0).floor, Seq::empty());
        a_word_reads_back((pending.1->0).floor, Seq::empty());
        assert(word((pending.0->0).floor) + Seq::<u8>::empty() =~= word((pending.0->0).floor));
        assert(word((pending.1->0).floor) + Seq::<u8>::empty() =~= word((pending.1->0).floor));
    }
}

/// The contents of a pending join that may be absent.
pub open spec fn join_facts(pending: Option<JoinTarget>) -> Option<TargetFacts> {
    match pending {
        Some(join) => Some(TargetFacts { group: join.group@, floor: join.floor }),
        None => None,
    }
}

/// Where the parts of a plan's bytes stand.
proof fn lemma_plan_parts(
    root: bool,
    previous: GroupId,
    target: Option<GroupId>,
    pending: Option<JoinTarget>,
    retained: Seq<u8>,
)
    ensures
        ({
            let bytes = plan_input(
                root,
                previous@,
                group_facts(target),
                join_facts(pending),
                retained,
            );
            let at: int = if target is Some {
                99
            } else {
                67
            };
            &&& bytes[33] == (if root {
                1u8
            } else {
                0u8
            })
            &&& bytes.subrange(34, 66) == previous@
            &&& bytes[66] == (if target is Some {
                1u8
            } else {
                0u8
            })
            &&& target matches Some(group) ==> bytes.subrange(67, 99) == group@
            &&& bytes[at] == (if pending is Some {
                1u8
            } else {
                0u8
            })
            &&& pending matches Some(join) ==> bytes.subrange(at + 1, at + 33) == join.group@
                && bytes.subrange(at + 33, at + 41) == word(join.floor)
        }),
{
    let bytes = plan_input(root, previous@, group_facts(target), join_facts(pending), retained);
    let at: int = if target is Some {
        99
    } else {
        67
    };
    assert(plan_label().len() == 33);
    assert(previous@.len() == 32);
    assert(bytes.subrange(34, 66) =~= previous@);
    if let Some(group) = target {
        assert(group@.len() == 32);
        assert(bytes.subrange(67, 99) =~= group@);
    }
    if let Some(join) = pending {
        assert(join.group@.len() == 32);
        a_word_reads_back(join.floor, Seq::empty());
        assert(bytes.subrange(at + 1, at + 33) =~= join.group@);
        assert(bytes.subrange(at + 33, at + 41) =~= word(join.floor));
    }
}

/// While a join is pending the old group is not served: none of its messages is read, and no fetch
/// of it is answered.
pub proof fn a_pending_join_serves_no_old_group(
    state: ConsensusState,
    root: bool,
    envelope: Option<crate::consensus::Envelope>,
    fetch: crate::consensus::Fetch,
    join_available: bool,
)
    requires
        state.recovery.target_facts(root) is Some,
    ensures
        state.message_refusal(root, envelope) == Some(
            crate::consensus::EnvelopeError::ForeignGroup,
        ),
        !state.answers_fetch(root, fetch, join_available),
        !serves(state),
{
}

/// A re-formed region fences every writer of its old group: every owner's epoch is one above what it
/// was, the version is the next, every neighbourhood is of that version, and nobody is added or lost.
/// It cannot be done only where a number has no successor.
pub proof fn a_reformed_region_fences_every_writer(
    base: ReformBase,
    reformed: Result<ReformBase, ConsensusRefusal>,
    owner: u64,
)
    requires
        reforms(base, reformed),
    ensures
        reformed matches Ok(after) ==> {
            &&& after.version == base.version + 1
            &&& after.epochs@.contains_key(owner) == base.epochs@.contains_key(owner)
            &&& base.epochs@.contains_key(owner) ==> after.epochs@[owner].0
                == base.epochs@[owner].0 + 1
            &&& after.generations@.contains_key(owner) == base.generations@.contains_key(owner)
            &&& base.generations@.contains_key(owner) ==> after.generations@[owner] == base.version
                + 1
        },
        reformed is Err ==> reformed == Err::<ReformBase, ConsensusRefusal>(
            ConsensusRefusal::RecoveryUnavailable,
        ) && (base.version == u64::MAX || exists|full: u64| #[trigger]
            base.epochs@.contains_key(full) && base.epochs@[full].0 == u64::MAX),
        base.version == u64::MAX ==> reformed is Err,
        base.epochs@.contains_key(owner) && base.epochs@[owner].0 == u64::MAX ==> reformed is Err,
{
    if let Ok(after) = reformed {
        assert(after.epochs@.dom().contains(owner) == base.epochs@.dom().contains(owner));
        assert(after.generations@.dom().contains(owner) == base.generations@.dom().contains(owner));
    }
}

/// A re-formed root keeps its regions and every moved home, one version on.
pub proof fn a_reformed_root_is_one_version_on(
    base: RootBase,
    reformed: Result<RootBase, ConsensusRefusal>,
    object: ObjectId,
    made_in: RegionId,
)
    requires
        reforms_root(base, reformed),
    ensures
        reformed is Err <==> base.version == u64::MAX,
        reformed matches Err(refusal) ==> refusal == ConsensusRefusal::RecoveryUnavailable,
        reformed matches Ok(after) ==> {
            &&& after.version == base.version + 1
            &&& after.regions == base.regions
            &&& base.homes@.contains_key(object.0) ==> after.home(object, made_in)
                == base.homes@[object.0]
            &&& !base.homes@.contains_key(object.0) ==> after.home(object, made_in) == made_in
        },
{
}

/// A plan tells the operator what is there: this node, its group, what is retained of it, and where it
/// is to go; there is none without a retained copy and an identity, none back to the group itself, and
/// none of a log whose end has no number.
pub proof fn a_plan_tells_what_is_retained(
    state: ConsensusState,
    secret: Seq<u8>,
    root: bool,
    target: Option<GroupId>,
    retained: Option<Retained>,
    plan: Result<RecoveryPlan, ConsensusRefusal>,
)
    requires
        plans(state, secret, root, target, retained, plan),
    ensures
        ({
            let own = if root {
                state.root.group
            } else {
                state.council.group
            };
            let there = retained is Some && own is Some;
            let back = target is Some && own is Some && (target->0)@ == (own->0)@;
            let counted = (retained->0).snapshot_index + (retained->0).log_entries <= u64::MAX;
            &&& plan is Ok <==> there && !back && counted
            &&& there && back ==> plan == Err::<RecoveryPlan, ConsensusRefusal>(
                ConsensusRefusal::RecoveryStale,
            )
            &&& !there ==> plan == Err::<RecoveryPlan, ConsensusRefusal>(
                ConsensusRefusal::RecoveryUnavailable,
            )
            &&& plan matches Ok(plan) ==> {
                &&& plan.member == state.host.0
                &&& plan.previous@ == (own->0)@
                &&& plan.committed == (retained->0).commit_index
                &&& plan.last_log == (retained->0).snapshot_index + (retained->0).log_entries
                &&& plan.version == (retained->0).version
                &&& plan.voters == (retained->0).voters
                &&& plan.target == target
            }
        }),
{
}

/// A recovery is decided in this order: an approval that does not prove the plan is refused; one that
/// was carried out is answered with its receipt; then the plan must be there and be the approved one;
/// and it goes to the destination it names, or re-forms the group.
pub proof fn an_approved_recovery_goes_where_it_says(
    state: ConsensusState,
    secret: Seq<u8>,
    root: bool,
    target: Option<GroupId>,
    digest: Seq<u8>,
    approval: Seq<u8>,
    retained: Option<Retained>,
)
    ensures
        ({
            let decision = state.recovery_decision(
                secret,
                root,
                target,
                digest,
                approval,
                retained,
            );
            let receipt = if root {
                state.recovery.root_receipt
            } else {
                state.recovery.council_receipt
            };
            let proved = approval == blake3_keyed_digest(secret, recovery_label() + digest);
            let repeated = receipt is Some && (receipt->0).digest@ == digest;
            &&& !proved ==> decision == Recovery::Refused(ConsensusRefusal::GrantIssuerUnverified)
            &&& proved && repeated ==> decision == (Recovery::Started {
                group: (receipt->0).group,
                joining: (receipt->0).joining,
            })
            &&& decision matches Recovery::Join { group, floor } ==> {
                &&& target == Some(group)
                &&& floor == (retained->0).version
                &&& proved && !repeated
            }
            &&& decision is Reform ==> target is None && proved && !repeated
        }),
{
}

/// A started recovery is on record before it is told: its receipt names the plan, the group and
/// whether it joins; the node waits for the group it joins, from the reviewed version on, or holds and
/// votes in the group it re-formed, one version on; it serves nothing meanwhile; and the other group is
/// as it was.
pub proof fn a_started_recovery_is_on_record(
    before: ConsensusState,
    root: bool,
    digest: [u8; 32],
    group: GroupId,
    floor: Option<u64>,
    started: Result<(), ConsensusRefusal>,
    after: ConsensusState,
)
    requires
        before.starts_recovery(root, digest, group, floor, started, after),
    ensures
        started is Err ==> after == before && floor is None,
        started matches Err(refusal) ==> refusal == ConsensusRefusal::RecoveryUnavailable,
        started is Ok ==> {
            let (own, was) = if root {
                (after.root, before.root)
            } else {
                (after.council, before.council)
            };
            let receipt = if root {
                after.recovery.root_receipt
            } else {
                after.recovery.council_receipt
            };
            let pending = if root {
                after.recovery.root
            } else {
                after.recovery.council
            };
            &&& receipt is Some && (receipt->0).digest == digest && (receipt->0).group == group && (
            receipt->0).joining == (floor is Some)
            &&& pending is Some <==> floor is Some
            &&& pending matches Some(target) ==> target.group@ == group@ && Some(target.floor)
                == floor
            &&& floor is Some ==> own == was
            &&& floor is None ==> own.initialized && own.voter && own.group == Some(group)
                && own.version == was.version + 1
            &&& !after.consensus_ready
            &&& after.bootstrap_authorized is None
            &&& root ==> after.council == before.council && after.recovery.council_receipt
                == before.recovery.council_receipt
            &&& !root ==> after.root == before.root && after.recovery.root_receipt
                == before.recovery.root_receipt
        },
{
    if started is Ok {
        assert(after.recovery.receipt(!root) == before.recovery.receipt(!root));
        assert(after.group_state(!root) == before.group_state(!root));
    }
}

/// A recovery is acknowledged once it is stored, and refused where it could not be; a node with no join
/// pending then serves as its groups allow, and one that still waits does not.
pub proof fn a_stored_recovery_is_acknowledged(
    before: ConsensusState,
    stored: bool,
    group: GroupId,
    joining: bool,
    recovery: Recovery,
    after: ConsensusState,
)
    requires
        before.publishes_recovery(stored, group, joining, recovery, after),
    ensures
        recovery is Started <==> stored,
        recovery matches Recovery::Started { group: told, joining: waits } ==> told == group && waits
            == joining,
        !stored ==> recovery == Recovery::Refused(ConsensusRefusal::RecoveryUnavailable)
            && after == before,
        stored && (before.recovery.council is Some || before.recovery.root is Some) ==> after
            == before,
        stored && before.recovery.council is None && before.recovery.root is None ==> (
        after.consensus_ready <==> before.council.initialized && before.root.initialized
            && before.members@.contains(before.host)),
        after.council == before.council && after.root == before.root && after.recovery
            == before.recovery,
{
}

/// The operator's key outranks the node's own secret.
pub proof fn the_operators_key_comes_first(key: RecoveryKey, issuer: Seq<u8>)
    ensures
        secret_of(Some(key), issuer) == key@,
        secret_of(None, issuer) == issuer,
{
}

/// An approval is taken from the issuer's key alone; one that was already started is answered again; a
/// plan that changed since it was reviewed is stale; and otherwise the recovery goes where it says, no
/// lower than the reviewed version.
pub proof fn an_approval_is_of_the_reviewed_plan(
    state: ConsensusState,
    expected: Seq<u8>,
    root: bool,
    target: Option<GroupId>,
    digest: Seq<u8>,
    approval: Seq<u8>,
    reviewed: Result<RecoveryPlan, ConsensusRefusal>,
)
    ensures
        ({
            let decision = state.approval_decision(
                expected,
                root,
                target,
                digest,
                approval,
                reviewed,
            );
            let receipt = if root {
                state.recovery.root_receipt
            } else {
                state.recovery.council_receipt
            };
            let repeated = receipt is Some && (receipt->0).digest@ == digest;
            &&& approval != expected ==> decision == Recovery::Refused(
                ConsensusRefusal::GrantIssuerUnverified,
            )
            &&& approval == expected && repeated ==> decision == (Recovery::Started {
                group: (receipt->0).group,
                joining: (receipt->0).joining,
            })
            &&& approval == expected && !repeated ==> {
                &&& reviewed matches Err(refusal) ==> decision == Recovery::Refused(refusal)
                &&& reviewed matches Ok(plan) ==> {
                    &&& plan.digest@ != digest ==> decision == Recovery::Refused(
                        ConsensusRefusal::RecoveryStale,
                    )
                    &&& plan.digest@ == digest && target is None ==> decision is Reform
                    &&& plan.digest@ == digest && target is Some ==> decision == (Recovery::Join {
                        group: target->0,
                        floor: plan.version,
                    })
                }
            }
        }),
{
}

/// A node is joining while either group has a target, and clearing one group's leaves the other's.
pub proof fn a_cleared_target_is_one_groups(state: RecoveryState, root: bool)
    ensures
        state.is_joining() <==> state.council is Some || state.root is Some,
        root ==> state.cleared(root).root is None && state.cleared(root).council == state.council,
        !root ==> state.cleared(root).council is None && state.cleared(root).root == state.root,
        state.cleared(root).root_receipt == state.root_receipt,
        state.cleared(root).council_receipt == state.council_receipt,
        !state.cleared(true).cleared(false).is_joining(),
{
}

/// Bytes are all zero exactly when none of them is another.
pub proof fn a_set_byte_is_no_zero(bytes: Seq<u8>, at: int)
    requires
        0 <= at < bytes.len(),
    ensures
        bytes[at] != 0 ==> !all_zero(bytes),
        (forall|i: int| 0 <= i < bytes.len() ==> #[trigger] bytes[i] == 0) ==> all_zero(bytes),
{
}

/// A recovery's plan and its approval are each labelled as what they are.
pub proof fn a_recovery_is_labelled(
    root: bool,
    previous: Seq<u8>,
    target: Option<Seq<u8>>,
    pending: Option<TargetFacts>,
    retained: Seq<u8>,
)
    ensures
        recovery_label() == "slates/consensus-recovery/v1"@.map_values(|c: char| c as u8),
        plan_label() == "slates/consensus-recovery-plan/v1"@.map_values(|c: char| c as u8),
        ({
            let input = plan_input(root, previous, target, pending, retained);
            &&& plan_label().is_prefix_of(input)
            &&& input[plan_label().len() as int] == 1 <==> root
            &&& input.subrange(
                plan_label().len() as int + 1,
                (plan_label().len() + 1 + previous.len()) as int,
            ) == previous
            &&& input.skip(input.len() - retained.len()) == retained
        }),
{
    reveal_strlit("slates/consensus-recovery/v1");
    reveal_strlit("slates/consensus-recovery-plan/v1");
    assert(recovery_label() =~= "slates/consensus-recovery/v1"@.map_values(|c: char| c as u8));
    assert(plan_label() =~= "slates/consensus-recovery-plan/v1"@.map_values(|c: char| c as u8));
    let input = plan_input(root, previous, target, pending, retained);
    assert(input.take(plan_label().len() as int) =~= plan_label());
    assert(input.subrange(
        plan_label().len() as int + 1,
        (plan_label().len() + 1 + previous.len()) as int,
    ) =~= previous);
    assert(input.skip(input.len() - retained.len()) =~= retained);
}

/// A started recovery leaves this node's identity, its peers' regions and what the configurations hold
/// as they were, and the other group's pending recovery with them.
pub proof fn a_started_recovery_keeps_the_rest(
    before: ConsensusState,
    root: bool,
    digest: [u8; 32],
    group: GroupId,
    floor: Option<u64>,
    started: Result<(), ConsensusRefusal>,
    after: ConsensusState,
)
    requires
        before.starts_recovery(root, digest, group, floor, started, after),
    ensures
        after.host == before.host && after.seed == before.seed && after.members == before.members
            && after.root_regions == before.root_regions && after.node_regions == before.node_regions,
        started is Ok && floor is Some ==> after.council == before.council && after.root
            == before.root,
        root ==> (after.recovery.council is Some <==> before.recovery.council is Some),
        !root ==> (after.recovery.root is Some <==> before.recovery.root is Some),
{
}

} // verus!
