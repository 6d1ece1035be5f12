//! Landings and grants through the server: a client asks to land a snapshot onto a host directory;
//! without a grant it is told what would land, and the plan is recorded; a grant made on the
//! control channel binds that plan; and a landing that ran is recorded with its audit.

use crate::config::DaemonConfig;
use crate::error::{
    answers_db, answers_vfs, refusal_of_db, refusal_of_vfs, DbError, Refusal, VfsError,
};
use crate::head::{Principal, PrincipalFacts};
use crate::ids::{ObjectId, SnapshotId};
use std::collections::{BTreeMap, VecDeque};
use vstd::prelude::*;
use vstd::std_specs::btree::*;

verus! {

broadcast use group_btree_axioms;

/// How many audit records the server keeps in memory; the durable record is the database's.
pub const AUDIT_RETAIN: usize = 4096;

/// How far a landing has come.
#[derive(Clone, Copy, Debug, PartialEq, Eq, Structural)]
pub enum LandingStatus {
    Planning,
    AwaitingGrant,
    Validating,
    Writing,
    Syncing,
    Advancing,
    Done,
    Partial,
    Refused,
    Aborted,
}

/// The name a landing's status goes by on the wire.
pub open spec fn status_name(status: LandingStatus) -> Seq<char> {
    match status {
        LandingStatus::Planning => "planning"@,
        LandingStatus::AwaitingGrant => "awaiting_grant"@,
        LandingStatus::Validating => "validating"@,
        LandingStatus::Writing => "writing"@,
        LandingStatus::Syncing => "syncing"@,
        LandingStatus::Advancing => "advancing"@,
        LandingStatus::Done => "done"@,
        LandingStatus::Partial => "partial"@,
        LandingStatus::Refused => "refused"@,
        LandingStatus::Aborted => "aborted"@,
    }
}

/// The name a landing's status goes by on the wire.
pub fn landing_state_name(status: LandingStatus) -> (name: &'static str)
    ensures
        name@ == status_name(status),
{
    match status {
        LandingStatus::Planning => "planning",
        LandingStatus::AwaitingGrant => "awaiting_grant",
        LandingStatus::Validating => "validating",
        LandingStatus::Writing => "writing",
        LandingStatus::Syncing => "syncing",
        LandingStatus::Advancing => "advancing",
        LandingStatus::Done => "done",
        LandingStatus::Partial => "partial",
        LandingStatus::Refused => "refused",
        LandingStatus::Aborted => "aborted",
    }
}

/// What an audit record is of.
#[derive(Clone, Copy, Debug, PartialEq, Eq, Structural)]
pub enum AuditKind {
    GrantIssued,
    GrantRevoked,
    LandingPlanned,
    LandingValidated,
    EntryWritten,
    EntryRefused,
    LandingFinished,
}

/// The name an audit record's kind goes by on the wire.
pub open spec fn kind_name(kind: AuditKind) -> Seq<char> {
    match kind {
        AuditKind::GrantIssued => "grant_issued"@,
        AuditKind::GrantRevoked => "grant_revoked"@,
        AuditKind::LandingPlanned => "landing_planned"@,
        AuditKind::LandingValidated => "landing_validated"@,
        AuditKind::EntryWritten => "entry_written"@,
        AuditKind::EntryRefused => "entry_refused"@,
        AuditKind::LandingFinished => "landing_finished"@,
    }
}

/// The name an audit record's kind goes by on the wire.
pub fn audit_kind_name(kind: AuditKind) -> (name: &'static str)
    ensures
        name@ == kind_name(kind),
{
    match kind {
        AuditKind::GrantIssued => "grant_issued",
        AuditKind::GrantRevoked => "grant_revoked",
        AuditKind::LandingPlanned => "landing_planned",
        AuditKind::LandingValidated => "landing_validated",
        AuditKind::EntryWritten => "entry_written",
        AuditKind::EntryRefused => "entry_refused",
        AuditKind::LandingFinished => "landing_finished",
    }
}

/// Where a grant stands.
#[derive(Clone, Copy, Debug, PartialEq, Eq, Structural)]
pub enum GrantStatus {
    Issued,
    Consumed,
    Expired,
    Revoked,
}

/// The name a grant's status goes by on the wire.
pub open spec fn grant_name(status: GrantStatus) -> Seq<char> {
    match status {
        GrantStatus::Issued => "issued"@,
        GrantStatus::Consumed => "consumed"@,
        GrantStatus::Expired => "expired"@,
        GrantStatus::Revoked => "revoked"@,
    }
}

/// The name a grant's status goes by on the wire.
pub fn grant_state_name(status: GrantStatus) -> (name: &'static str)
    ensures
        name@ == grant_name(status),
{
    match status {
        GrantStatus::Issued => "issued",
        GrantStatus::Consumed => "consumed",
        GrantStatus::Expired => "expired",
        GrantStatus::Revoked => "revoked",
    }
}

/// Where a grant was made. A grant is made at the control channel's command line only, never by a
/// client.
#[derive(Clone, Copy, Debug, PartialEq, Eq, Structural)]
pub enum GrantSurface {
    Cli,
}

/// How often a grant may be used, as asked for.
#[derive(Clone, Copy, Debug, PartialEq, Eq, Structural)]
pub enum GrantScope {
    Once,
    Session,
}

/// How often a grant may be used, as recorded: a session's grant names the session.
#[derive(Clone, Copy, Debug, PartialEq, Eq, Structural)]
pub enum RecordedScope {
    Once,
    Session { session: u64 },
}

impl GrantScope {
    /// The scope as a grant records it.
    pub open spec fn records(self, session: u64) -> RecordedScope {
        match self {
            GrantScope::Once => RecordedScope::Once,
            GrantScope::Session => RecordedScope::Session { session },
        }
    }

    /// The scope as recorded for a session.
    pub fn recorded(self, session: u64) -> (scope: RecordedScope)
        ensures
            scope == self.records(session),
    {
        match self {
            GrantScope::Once => RecordedScope::Once,
            GrantScope::Session => RecordedScope::Session { session },
        }
    }
}

impl RecordedScope {
    /// The scope as a client sees it.
    pub open spec fn asks(self) -> GrantScope {
        match self {
            RecordedScope::Once => GrantScope::Once,
            RecordedScope::Session { .. } => GrantScope::Session,
        }
    }

    /// The scope as a client sees it.
    pub fn asked(self) -> (scope: GrantScope)
        ensures
            scope == self.asks(),
    {
        match self {
            RecordedScope::Once => GrantScope::Once,
            RecordedScope::Session { .. } => GrantScope::Session,
        }
    }
}

/// The session of a principal: its user id, and none for the others.
pub open spec fn session(principal: PrincipalFacts) -> u64 {
    match principal {
        PrincipalFacts::Uid { uid } => uid as u64,
        _ => 0,
    }
}

/// The session of a principal.
pub fn session_of(principal: &Principal) -> (number: u64)
    ensures
        number == session(principal@),
{
    match principal {
        Principal::Uid { uid } => *uid as u64,
        _ => 0,
    }
}

/// A landing presented and waiting for a grant.
#[derive(Debug)]
pub struct Awaiting {
    /// The identity of the plan the grant must bind.
    pub manifest: [u8; 32],
    pub volume: ObjectId,
    pub snapshot: SnapshotId,
    pub target: String,
    /// Whom it was presented to.
    pub principal: Principal,
}

/// A waiting landing's contents.
pub struct AwaitingFacts {
    pub manifest: Seq<u8>,
    pub volume: ObjectId,
    pub snapshot: SnapshotId,
    pub target: Seq<char>,
    pub principal: PrincipalFacts,
}

impl View for Awaiting {
    type V = AwaitingFacts;

    open spec fn view(&self) -> AwaitingFacts {
        AwaitingFacts {
            manifest: self.manifest@,
            volume: self.volume,
            snapshot: self.snapshot,
            target: self.target@,
            principal: self.principal@,
        }
    }
}

/// The landing state of a shard.
#[derive(Debug)]
pub struct LandingState {
    /// The next landing's id.
    pub next_landing: u64,
    /// The landings waiting for a grant.
    pub awaiting: BTreeMap<u64, Awaiting>,
}

impl Default for LandingState {
    /// No landing yet; the first has id one.
    fn default() -> (state: LandingState)
        ensures
            state.next_landing == 1,
            state.awaiting@ == Map::<u64, Awaiting>::empty(),
    {
        LandingState { next_landing: 1, awaiting: BTreeMap::new() }
    }
}

/// A landing: its id, and what it lands where.
#[derive(Debug)]
pub struct LandingIds {
    pub landing: u64,
    pub volume: ObjectId,
    pub snapshot: SnapshotId,
    pub target: String,
}

/// A landing's durable record.
#[derive(Debug)]
pub struct LandingRecord {
    pub id: u64,
    pub volume: ObjectId,
    pub snapshot: SnapshotId,
    pub target: String,
    pub manifest: [u8; 32],
    pub grant: Option<u64>,
    pub state: LandingStatus,
    pub written: u32,
    pub conflicts: u32,
}

/// A landing record's contents.
pub struct LandingFacts {
    pub id: u64,
    pub volume: ObjectId,
    pub snapshot: SnapshotId,
    pub target: Seq<char>,
    pub manifest: Seq<u8>,
    pub grant: Option<u64>,
    pub state: LandingStatus,
    pub written: u32,
    pub conflicts: u32,
}

impl View for LandingRecord {
    type V = LandingFacts;

    open spec fn view(&self) -> LandingFacts {
        LandingFacts {
            id: self.id,
            volume: self.volume,
            snapshot: self.snapshot,
            target: self.target@,
            manifest: self.manifest@,
            grant: self.grant,
            state: self.state,
            written: self.written,
            conflicts: self.conflicts,
        }
    }
}

/// An audit record. The database numbers it as it is appended.
#[derive(Debug)]
pub struct AuditRecord {
    pub at_ns: u64,
    pub kind: AuditKind,
    pub principal: Principal,
    pub grant: Option<u64>,
    pub landing: Option<u64>,
    pub manifest: Option<[u8; 32]>,
    pub outcome: Option<LandingStatus>,
}

/// An audit record's contents.
pub struct AuditFacts {
    pub at_ns: u64,
    pub kind: AuditKind,
    pub principal: PrincipalFacts,
    pub grant: Option<u64>,
    pub landing: Option<u64>,
    pub manifest: Option<Seq<u8>>,
    pub outcome: Option<LandingStatus>,
}

impl View for AuditRecord {
    type V = AuditFacts;

    open spec fn view(&self) -> AuditFacts {
        AuditFacts {
            at_ns: self.at_ns,
            kind: self.kind,
            principal: self.principal@,
            grant: self.grant,
            landing: self.landing,
            manifest: match self.manifest {
                Some(manifest) => Some(manifest@),
                None => None,
            },
            outcome: self.outcome,
        }
    }
}

/// A step of a landing as the engine's audit logs it. The engine knows no principal.
#[derive(Clone, Copy, Debug)]
pub struct EngineAudit {
    pub at_ns: u64,
    pub kind: AuditKind,
    pub grant: Option<u64>,
    pub landing: u64,
    pub manifest: [u8; 32],
    pub outcome: Option<LandingStatus>,
}

impl EngineAudit {
    /// The durable record of a step: the caller's, whoever it was.
    pub open spec fn mirrored(self, principal: PrincipalFacts) -> AuditFacts {
        AuditFacts {
            at_ns: self.at_ns,
            kind: self.kind,
            principal,
            grant: self.grant,
            landing: Some(self.landing),
            manifest: Some(self.manifest@),
            outcome: self.outcome,
        }
    }

    /// The durable record of a step, stamped with the caller's principal.
    pub fn mirror(&self, principal: &Principal) -> (record: AuditRecord)
        ensures
            record@ == self.mirrored(principal@),
    {
        AuditRecord {
            at_ns: self.at_ns,
            kind: self.kind,
            principal: principal.copy(),
            grant: self.grant,
            landing: Some(self.landing),
            manifest: Some(self.manifest),
            outcome: self.outcome,
        }
    }
}

/// A grant's durable record.
#[derive(Debug)]
pub struct GrantRecord {
    pub id: u64,
    pub principal: Principal,
    pub surface: GrantSurface,
    pub volume: ObjectId,
    pub snapshot: SnapshotId,
    pub target: String,
    pub manifest: [u8; 32],
    pub scope: RecordedScope,
    pub issued_ns: u64,
    pub expires_ns: u64,
    pub state: GrantStatus,
}

/// A grant record's contents.
pub struct GrantFacts {
    pub id: u64,
    pub principal: PrincipalFacts,
    pub surface: GrantSurface,
    pub volume: ObjectId,
    pub snapshot: SnapshotId,
    pub target: Seq<char>,
    pub manifest: Seq<u8>,
    pub scope: RecordedScope,
    pub issued_ns: u64,
    pub expires_ns: u64,
    pub state: GrantStatus,
}

impl View for GrantRecord {
    type V = GrantFacts;

    open spec fn view(&self) -> GrantFacts {
        GrantFacts {
            id: self.id,
            principal: self.principal@,
            surface: self.surface,
            volume: self.volume,
            snapshot: self.snapshot,
            target: self.target@,
            manifest: self.manifest@,
            scope: self.scope,
            issued_ns: self.issued_ns,
            expires_ns: self.expires_ns,
            state: self.state,
        }
    }
}

/// A target's lease, as the landing that took it records it.
#[derive(Debug)]
pub struct LeaseRecord {
    pub target: String,
    pub holder: u64,
    pub landing: u64,
    pub taken_ns: u64,
    pub term_ns: u64,
}

/// A lease record's contents.
pub struct LeaseFacts {
    pub target: Seq<char>,
    pub holder: u64,
    pub landing: u64,
    pub taken_ns: u64,
    pub term_ns: u64,
}

impl View for LeaseRecord {
    type V = LeaseFacts;

    open spec fn view(&self) -> LeaseFacts {
        LeaseFacts {
            target: self.target@,
            holder: self.holder,
            landing: self.landing,
            taken_ns: self.taken_ns,
            term_ns: self.term_ns,
        }
    }
}

/// A mutation of the durable records.
#[derive(Debug)]
pub enum LandingOp {
    Landing(LandingRecord),
    Lease(LeaseRecord),
    Audit(AuditRecord),
    Grant(GrantRecord),
    /// A grant's status changed.
    GrantState { id: u64, state: GrantStatus },
}

/// A mutation's contents.
pub enum LandingOpFacts {
    Landing(LandingFacts),
    Lease(LeaseFacts),
    Audit(AuditFacts),
    Grant(GrantFacts),
    GrantState { id: u64, state: GrantStatus },
}

impl View for LandingOp {
    type V = LandingOpFacts;

    open spec fn view(&self) -> LandingOpFacts {
        match *self {
            LandingOp::Landing(record) => LandingOpFacts::Landing(record@),
            LandingOp::Lease(record) => LandingOpFacts::Lease(record@),
            LandingOp::Audit(record) => LandingOpFacts::Audit(record@),
            LandingOp::Grant(record) => LandingOpFacts::Grant(record@),
            LandingOp::GrantState { id, state } => LandingOpFacts::GrantState { id, state },
        }
    }
}

/// The contents of a list of mutations.
pub open spec fn op_facts(ops: Seq<LandingOp>) -> Seq<LandingOpFacts> {
    ops.map_values(|op: LandingOp| op@)
}

/// How many entries of a plan come to one action.
#[derive(Debug, PartialEq, Eq)]
pub struct ActionCount {
    pub action: String,
    pub count: u64,
}

/// What a plan would do, in short.
#[derive(Debug, PartialEq, Eq)]
pub struct LandingSummary {
    pub by_action: Vec<ActionCount>,
    pub bytes: u64,
    /// The entries the filter left out.
    pub filtered_out: u64,
}

/// A plan that no grant covers: its identity, what it would do, and the entries that a preliminary
/// pass found in conflict with the target.
#[derive(Debug, PartialEq, Eq)]
pub struct LandingPlan {
    pub manifest: [u8; 32],
    pub summary: LandingSummary,
    pub conflicts: Vec<String>,
}

/// Which entries of a snapshot a landing takes.
#[derive(Debug, PartialEq, Eq)]
pub struct Filter {
    pub included: Vec<String>,
    pub excluded: Vec<String>,
}

/// What the landing engine is asked to do.
#[derive(Debug, PartialEq, Eq)]
pub struct LandingRequest {
    pub landing: u64,
    /// Who takes the target's lease.
    pub holder: u64,
    pub grant: Option<u64>,
    pub filter: Filter,
    pub now_ns: u64,
    pub lease_term_ns: u64,
    /// Whether every write is forced to the medium.
    pub media_durability: bool,
    pub large_class_bytes: u64,
    pub cores: u64,
    pub max_depth: u64,
    pub variance_permille: u64,
    /// Whether measured costs and a count of the target's entries steer the plan.
    pub measured: bool,
}

/// The request a landing is run with.
pub open spec fn requested(
    config: DaemonConfig,
    principal: PrincipalFacts,
    ids: LandingIds,
    filter: Filter,
    grant: Option<u64>,
    now_ns: u64,
) -> LandingRequest {
    LandingRequest {
        landing: ids.landing,
        holder: session(principal),
        grant,
        filter,
        now_ns,
        lease_term_ns: config.failover_slo_ns,
        media_durability: false,
        large_class_bytes: config.large_class_bytes,
        cores: 1,
        max_depth: 1,
        variance_permille: 0,
        measured: false,
    }
}

/// What the landing engine is asked to do: under the caller's session as the lease's holder, for the
/// operator's failover objective as its term, and at the configured large-class boundary; on one
/// core, one entry deep, without forced writes, and with nothing measured of the target.
pub fn landing_request(
    config: &DaemonConfig,
    principal: &Principal,
    ids: &LandingIds,
    filter: Filter,
    grant: Option<u64>,
    now_ns: u64,
) -> (request: LandingRequest)
    ensures
        request == requested(*config, principal@, *ids, filter, grant, now_ns),
{
    LandingRequest {
        landing: ids.landing,
        holder: session_of(principal),
        grant,
        filter,
        now_ns,
        lease_term_ns: config.failover_slo_ns,
        media_durability: false,
        large_class_bytes: config.large_class_bytes,
        cores: 1,
        max_depth: 1,
        variance_permille: 0,
        measured: false,
    }
}

/// What the landing engine refuses.
#[derive(Debug)]
pub enum LandRefusal {
    /// No grant covers the plan.
    GrantRequired { plan: LandingPlan },
    /// Entries conflict with what the target holds.
    Conflict { entries: Vec<String> },
    /// Another holder has the target's lease.
    LeaseHeld { holder: u64 },
    /// The grant binds another plan.
    GrantMismatch,
    /// The grant does not hold.
    GrantInvalid,
    /// The target failed, in its own words.
    Target { reason: String },
    /// The volume refused.
    Volume(VfsError),
}

/// What a landing that ran reports.
#[derive(Clone, Copy, Debug)]
pub struct LandingReport {
    pub state: LandingStatus,
    pub manifest: [u8; 32],
    pub written: u64,
    pub skipped: u64,
    pub conflicts: u64,
    pub failed: u64,
    pub bytes_written: u64,
}

/// What the verb does with the engine's outcome.
#[derive(Debug)]
pub enum LandStep {
    /// The landing ran: record it.
    Finish,
    /// A grant is required: record the plan and present it.
    Present { plan: LandingPlan },
    /// Refuse.
    Refuse(Refusal),
}

/// Whether a step is what the engine's outcome comes to.
pub open spec fn steps_on(outcome: Result<(), LandRefusal>, step: LandStep) -> bool {
    match outcome {
        Ok(_) => step is Finish,
        Err(LandRefusal::GrantRequired { plan }) => step == (LandStep::Present { plan }),
        Err(LandRefusal::Conflict { entries }) => step matches LandStep::Refuse(
            Refusal::LandingConflict { entries: told },
        ) && told == entries,
        Err(LandRefusal::LeaseHeld { holder }) => step == LandStep::Refuse(
            Refusal::LandingLeaseHeld { holder },
        ),
        Err(LandRefusal::GrantMismatch) => step == LandStep::Refuse(Refusal::GrantMismatch),
        Err(LandRefusal::GrantInvalid) => step == LandStep::Refuse(Refusal::GrantInvalid),
        Err(LandRefusal::Target { reason }) => step == LandStep::Refuse(
            Refusal::TargetUnavailable { reason },
        ),
        Err(LandRefusal::Volume(error)) => step matches LandStep::Refuse(told) && answers_vfs(
            error,
            told,
        ),
    }
}

/// What the verb does with the engine's outcome.
pub fn land_outcome(outcome: Result<(), LandRefusal>) -> (step: LandStep)
    ensures
        steps_on(outcome, step),
{
    match outcome {
        Ok(_) => LandStep::Finish,
        Err(LandRefusal::GrantRequired { plan }) => LandStep::Present { plan },
        Err(LandRefusal::Conflict { entries }) => LandStep::Refuse(
            Refusal::LandingConflict { entries },
        ),
        Err(LandRefusal::LeaseHeld { holder }) => LandStep::Refuse(
            Refusal::LandingLeaseHeld { holder },
        ),
        Err(LandRefusal::GrantMismatch) => LandStep::Refuse(Refusal::GrantMismatch),
        Err(LandRefusal::GrantInvalid) => LandStep::Refuse(Refusal::GrantInvalid),
        Err(LandRefusal::Target { reason }) => LandStep::Refuse(
            Refusal::TargetUnavailable { reason },
        ),
        Err(LandRefusal::Volume(error)) => LandStep::Refuse(refusal_of_vfs(&error)),
    }
}

/// Why a target could not be opened.
#[derive(Debug)]
pub enum TargetRefusal {
    NotAbsolute,
    EscapesTarget,
    TargetNotOwned,
    /// The host refused, in its own words.
    Unavailable(String),
}

/// Whether `told` is how a refused target is told.
pub open spec fn tells_target(refusal: TargetRefusal, told: Refusal) -> bool {
    told matches Refusal::TargetUnavailable { reason } && reason@ == (match refusal {
        TargetRefusal::NotAbsolute => "the target path is not absolute"@,
        TargetRefusal::EscapesTarget => "a component escapes the target directory"@,
        TargetRefusal::TargetNotOwned => "the target is owned by another user"@,
        TargetRefusal::Unavailable(words) => words@,
    })
}

/// What a target that could not be opened is refused with.
pub fn target_refusal(refusal: &TargetRefusal) -> (told: Refusal)
    ensures
        tells_target(*refusal, told),
{
    let reason = match refusal {
        TargetRefusal::NotAbsolute => "the target path is not absolute".to_owned(),
        TargetRefusal::EscapesTarget => "a component escapes the target directory".to_owned(),
        TargetRefusal::TargetNotOwned => "the target is owned by another user".to_owned(),
        TargetRefusal::Unavailable(words) => words.clone(),
    };
    Refusal::TargetUnavailable { reason }
}

/// What a landing request comes to before its target is opened.
#[derive(Debug)]
pub enum LandStart {
    /// Open the target and run the engine, for this snapshot.
    Open { snapshot: SnapshotId },
    Refuse(Refusal),
}

/// How a landing starts.
pub open spec fn begins(
    supported: bool,
    head: Option<SnapshotId>,
    writes: bool,
    snapshot: Option<SnapshotId>,
) -> LandStart {
    match head {
        _ if !supported => LandStart::Refuse(Refusal::Unsupported { feature: "landing" }),
        None => LandStart::Refuse(Refusal::NotFound),
        Some(head) => if !writes {
            LandStart::Refuse(Refusal::Forbidden { verb: "land" })
        } else {
            LandStart::Open {
                snapshot: match snapshot {
                    Some(snapshot) => snapshot,
                    None => head,
                },
            }
        },
    }
}

/// What a landing request comes to before its target is opened: the platform must have a writer, the
/// volume must be there, and its caller must be allowed to write it. Without a snapshot named, the
/// head is landed.
pub fn land_verb(
    supported: bool,
    head: Option<SnapshotId>,
    writes: bool,
    snapshot: Option<SnapshotId>,
) -> (start: LandStart)
    ensures
        start == begins(supported, head, writes, snapshot),
{
    if !supported {
        return LandStart::Refuse(Refusal::Unsupported { feature: "landing" });
    }
    let head = match head {
        Some(head) => head,
        None => {
            return LandStart::Refuse(Refusal::NotFound);
        },
    };
    if !writes {
        return LandStart::Refuse(Refusal::Forbidden { verb: "land" });
    }
    LandStart::Open {
        snapshot: match snapshot {
            Some(snapshot) => snapshot,
            None => head,
        },
    }
}

/// A number held to thirty-two bits.
fn narrow(value: u64) -> (narrow: u32)
    ensures
        narrow == crate::arith::clamp_u32(value as int),
{
    if value > u32::MAX as u64 {
        u32::MAX
    } else {
        value as u32
    }
}

/// What presenting a plan records: the landing, waiting for a grant, and its audit.
pub open spec fn presented_ops(
    ids: LandingIds,
    principal: PrincipalFacts,
    manifest: Seq<u8>,
    now_ns: u64,
) -> Seq<LandingOpFacts> {
    seq![
        LandingOpFacts::Landing(
            LandingFacts {
                id: ids.landing,
                volume: ids.volume,
                snapshot: ids.snapshot,
                target: ids.target@,
                manifest,
                grant: None,
                state: LandingStatus::AwaitingGrant,
                written: 0,
                conflicts: 0,
            },
        ),
        LandingOpFacts::Audit(
            AuditFacts {
                at_ns: now_ns,
                kind: AuditKind::LandingPlanned,
                principal,
                grant: None,
                landing: Some(ids.landing),
                manifest: Some(manifest),
                outcome: None,
            },
        ),
    ]
}

/// What finishing a landing records: the landing, the target's lease it ran under, its audit in
/// order, each record the caller's, and its grant consumed.
pub open spec fn finished_ops(
    ids: LandingIds,
    principal: PrincipalFacts,
    report: LandingReport,
    request: LandingRequest,
    audit: Seq<EngineAudit>,
) -> Seq<LandingOpFacts> {
    let landed = seq![
        LandingOpFacts::Landing(
            LandingFacts {
                id: ids.landing,
                volume: ids.volume,
                snapshot: ids.snapshot,
                target: ids.target@,
                manifest: report.manifest@,
                grant: request.grant,
                state: report.state,
                written: crate::arith::clamp_u32(report.written as int),
                conflicts: crate::arith::clamp_u32(report.conflicts as int),
            },
        ),
        LandingOpFacts::Lease(
            LeaseFacts {
                target: ids.target@,
                holder: request.holder,
                landing: ids.landing,
                taken_ns: request.now_ns,
                term_ns: request.lease_term_ns,
            },
        ),
    ] + audit.filter(|step: EngineAudit| step.landing == ids.landing).map_values(
        |step: EngineAudit| LandingOpFacts::Audit(step.mirrored(principal)),
    );
    match request.grant {
        Some(id) => landed.push(
            LandingOpFacts::GrantState { id, state: GrantStatus::Consumed },
        ),
        None => landed,
    }
}

/// What issuing a grant records: the grant, bound to the plan that waits, its audit, and the landing
/// with its grant.
pub open spec fn issued_ops(
    awaiting: AwaitingFacts,
    principal: PrincipalFacts,
    landing: u64,
    grant: u64,
    scope: RecordedScope,
    now_ns: u64,
    term_ns: u64,
) -> Seq<LandingOpFacts> {
    seq![
        LandingOpFacts::Grant(
            GrantFacts {
                id: grant,
                principal,
                surface: GrantSurface::Cli,
                volume: awaiting.volume,
                snapshot: awaiting.snapshot,
                target: awaiting.target,
                manifest: awaiting.manifest,
                scope,
                issued_ns: now_ns,
                expires_ns: crate::arith::clamp_u64(now_ns + term_ns),
                state: GrantStatus::Issued,
            },
        ),
        LandingOpFacts::Audit(
            AuditFacts {
                at_ns: now_ns,
                kind: AuditKind::GrantIssued,
                principal,
                grant: Some(grant),
                landing: Some(landing),
                manifest: Some(awaiting.manifest),
                outcome: None,
            },
        ),
        LandingOpFacts::Landing(
            LandingFacts {
                id: landing,
                volume: awaiting.volume,
                snapshot: awaiting.snapshot,
                target: awaiting.target,
                manifest: awaiting.manifest,
                grant: Some(grant),
                state: LandingStatus::AwaitingGrant,
                written: 0,
                conflicts: 0,
            },
        ),
    ]
}

impl LandingState {
    /// Whether `ops` and `later` are what presenting a plan makes of this.
    pub open spec fn presents(
        &self,
        ids: LandingIds,
        principal: PrincipalFacts,
        manifest: Seq<u8>,
        now_ns: u64,
        ops: Seq<LandingOp>,
        later: LandingState,
    ) -> bool {
        &&& op_facts(ops) == presented_ops(ids, principal, manifest, now_ns)
        &&& later.next_landing == crate::arith::clamp_u64(self.next_landing + 1)
        &&& later.awaiting@.contains_key(ids.landing)
        &&& later.awaiting@[ids.landing]@ == (AwaitingFacts {
            manifest: manifest,
            volume: ids.volume,
            snapshot: ids.snapshot,
            target: ids.target@,
            principal: principal,
        })
        &&& later.awaiting@.remove(ids.landing) == self.awaiting@.remove(ids.landing)
    }

    /// Presents a plan: the landing waits for a grant that binds it, and the ids move on.
    pub fn present(
        &mut self,
        ids: &LandingIds,
        principal: &Principal,
        manifest: [u8; 32],
        now_ns: u64,
    ) -> (ops: Vec<LandingOp>)
        ensures
            old(self).presents(
                *ids,
                principal@,
                manifest@,
                now_ns,
                ops@,
                *final(self),
            ),
    {
        self.next_landing = self.next_landing.saturating_add(1);
        self.awaiting.insert(
            ids.landing,
            Awaiting {
                manifest,
                volume: ids.volume,
                snapshot: ids.snapshot,
                target: ids.target.clone(),
                principal: principal.copy(),
            },
        );
        assert(self.awaiting@.remove(ids.landing) =~= old(self).awaiting@.remove(ids.landing));
        let mut ops: Vec<LandingOp> = Vec::new();
        ops.push(
            LandingOp::Landing(
                LandingRecord {
                    id: ids.landing,
                    volume: ids.volume,
                    snapshot: ids.snapshot,
                    target: ids.target.clone(),
                    manifest,
                    grant: None,
                    state: LandingStatus::AwaitingGrant,
                    written: 0,
                    conflicts: 0,
                },
            ),
        );
        ops.push(
            LandingOp::Audit(
                AuditRecord {
                    at_ns: now_ns,
                    kind: AuditKind::LandingPlanned,
                    principal: principal.copy(),
                    grant: None,
                    landing: Some(ids.landing),
                    manifest: Some(manifest),
                    outcome: None,
                },
            ),
        );
        assert(op_facts(ops@) =~= presented_ops(*ids, principal@, manifest@, now_ns));
        ops
    }

    /// Whether `ops` and `later` are what finishing a landing makes of this.
    pub open spec fn finishes(
        &self,
        ids: LandingIds,
        principal: PrincipalFacts,
        report: LandingReport,
        request: LandingRequest,
        audit: Seq<EngineAudit>,
        ops: Seq<LandingOp>,
        later: LandingState,
    ) -> bool {
        &&& op_facts(ops) == finished_ops(
            ids,
            principal,
            report,
            request,
            audit,
        )
        &&& later.next_landing == crate::arith::clamp_u64(self.next_landing + 1)
        &&& later.awaiting@ == self.awaiting@.remove(ids.landing)
    }

    /// Finishes a landing that ran as it was requested: it no longer waits, the ids move on, and the
    /// record, the lease it took, the engine's audit of it under the caller's principal, and its
    /// consumed grant are written.
    pub fn finish(
        &mut self,
        ids: &LandingIds,
        principal: &Principal,
        report: &LandingReport,
        request: &LandingRequest,
        audit: &Vec<EngineAudit>,
    ) -> (ops: Vec<LandingOp>)
        ensures
            old(self).finishes(
                *ids,
                principal@,
                *report,
                *request,
                audit@,
                ops@,
                *final(self),
            ),
    {
        self.next_landing = self.next_landing.saturating_add(1);
        self.awaiting.remove(&ids.landing);
        let mut ops: Vec<LandingOp> = Vec::new();
        ops.push(
            LandingOp::Landing(
                LandingRecord {
                    id: ids.landing,
                    volume: ids.volume,
                    snapshot: ids.snapshot,
                    target: ids.target.clone(),
                    manifest: report.manifest,
                    grant: request.grant,
                    state: report.state,
                    written: narrow(report.written),
                    conflicts: narrow(report.conflicts),
                },
            ),
        );
        ops.push(
            LandingOp::Lease(
                LeaseRecord {
                    target: ids.target.clone(),
                    holder: request.holder,
                    landing: ids.landing,
                    taken_ns: request.now_ns,
                    term_ns: request.lease_term_ns,
                },
            ),
        );
        let ghost landed = op_facts(ops@);
        let ghost own = |step: EngineAudit| step.landing == ids.landing;
        let ghost kind = |step: EngineAudit| LandingOpFacts::Audit(step.mirrored(principal@));
        let mut i: usize = 0;
        proof {
            reveal(Seq::filter);
            assert(op_facts(ops@) =~= landed + audit@.take(0).filter(own).map_values(kind));
        }
        while i < audit.len()
            invariant
                i <= audit@.len(),
                own == (|step: EngineAudit| step.landing == ids.landing),
                kind == (|step: EngineAudit| LandingOpFacts::Audit(step.mirrored(principal@))),
                op_facts(ops@) == landed + audit@.take(i as int).filter(own).map_values(kind),
            decreases audit@.len() - i,
        {
            let ghost before = ops@;
            proof {
                reveal(Seq::filter);
                assert(audit@.take(i + 1).drop_last() =~= audit@.take(i as int));
                assert(audit@.take(i + 1).last() == audit@[i as int]);
            }
            let mine = audit[i].landing == ids.landing;
            if mine {
                ops.push(LandingOp::Audit(audit[i].mirror(principal)));
                assert(op_facts(ops@) =~= op_facts(before).push(kind(audit@[i as int])));
            }
            proof {
                let shorter = audit@.take(i as int).filter(own);
                let longer = audit@.take(i + 1).filter(own);
                if mine {
                    assert(longer =~= shorter.push(audit@[i as int]));
                    assert(longer.map_values(kind) =~= shorter.map_values(kind).push(
                        kind(audit@[i as int]),
                    ));
                    assert(op_facts(ops@) =~= landed + longer.map_values(kind));
                } else {
                    assert(longer =~= shorter);
                }
            }
            i += 1;
        }
        proof {
            assert(audit@.take(i as int) =~= audit@);
        }
        let ghost before = ops@;
        if let Some(id) = request.grant {
            ops.push(LandingOp::GrantState { id, state: GrantStatus::Consumed });
            assert(op_facts(ops@) =~= op_facts(before).push(
                LandingOpFacts::GrantState { id, state: GrantStatus::Consumed },
            ));
        }
        proof {
            let expected = finished_ops(*ids, principal@, *report, *request, audit@);
            assert(landed =~= seq![landed[0], landed[1]]);
            assert(op_facts(ops@) =~= expected);
        }
        ops
    }

    /// Whether `issued` is what granting a presented landing gives.
    pub open spec fn issues(
        &self,
        principal: PrincipalFacts,
        landing: u64,
        scope: GrantScope,
        grant: u64,
        now_ns: u64,
        term_ns: u64,
        issued: Result<Vec<LandingOp>, Refusal>,
    ) -> bool {
        match issued {
            Ok(ops) => {
                &&& self.awaiting@.contains_key(landing)
                &&& op_facts(ops@) == issued_ops(
                    self.awaiting@[landing]@,
                    principal,
                    landing,
                    grant,
                    match scope {
                        GrantScope::Once => RecordedScope::Once,
                        GrantScope::Session => RecordedScope::Session {
                            session: session(principal),
                        },
                    },
                    now_ns,
                    term_ns,
                )
            },
            Err(refusal) => !self.awaiting@.contains_key(landing) && refusal
                == Refusal::NotFound,
        }
    }

    /// Issues a grant for a landing that waits, binding its plan; the landing's record gains the
    /// grant. A landing that does not wait has none.
    pub fn issue_grant(
        &self,
        principal: &Principal,
        landing: u64,
        scope: GrantScope,
        grant: u64,
        now_ns: u64,
        term_ns: u64,
    ) -> (issued: Result<Vec<LandingOp>, Refusal>)
        ensures
            self.issues(
                principal@,
                landing,
                scope,
                grant,
                now_ns,
                term_ns,
                issued,
            ),
    {
        let awaiting = match self.awaiting.get(&landing) {
            Some(awaiting) => awaiting,
            None => {
                return Err(Refusal::NotFound);
            },
        };
        let mut ops: Vec<LandingOp> = Vec::new();
        ops.push(
            LandingOp::Grant(
                GrantRecord {
                    id: grant,
                    principal: principal.copy(),
                    surface: GrantSurface::Cli,
                    volume: awaiting.volume,
                    snapshot: awaiting.snapshot,
                    target: awaiting.target.clone(),
                    manifest: awaiting.manifest,
                    scope: scope.recorded(session_of(principal)),
                    issued_ns: now_ns,
                    expires_ns: now_ns.saturating_add(term_ns),
                    state: GrantStatus::Issued,
                },
            ),
        );
        ops.push(
            LandingOp::Audit(
                AuditRecord {
                    at_ns: now_ns,
                    kind: AuditKind::GrantIssued,
                    principal: principal.copy(),
                    grant: Some(grant),
                    landing: Some(landing),
                    manifest: Some(awaiting.manifest),
                    outcome: None,
                },
            ),
        );
        ops.push(
            LandingOp::Landing(
                LandingRecord {
                    id: landing,
                    volume: awaiting.volume,
                    snapshot: awaiting.snapshot,
                    target: awaiting.target.clone(),
                    manifest: awaiting.manifest,
                    grant: Some(grant),
                    state: LandingStatus::AwaitingGrant,
                    written: 0,
                    conflicts: 0,
                },
            ),
        );
        proof {
            let expected = issued_ops(
                self.awaiting@[landing]@,
                principal@,
                landing,
                grant,
                match scope {
                    GrantScope::Once => RecordedScope::Once,
                    GrantScope::Session => RecordedScope::Session { session: session(principal@) },
                },
                now_ns,
                term_ns,
            );
            assert(op_facts(ops@) =~= expected);
        }
        Ok(ops)
    }
}

/// A grant binds exactly the plan that was presented: the grant issued for a landing names the
/// volume, the snapshot, the target and the plan's identity that its presentation put to wait.
pub proof fn a_grant_binds_the_presented_plan(
    presented: AwaitingFacts,
    principal: PrincipalFacts,
    landing: u64,
    grant: u64,
    scope: RecordedScope,
    now_ns: u64,
    term_ns: u64,
)
    ensures
        ({
            let ops = issued_ops(presented, principal, landing, grant, scope, now_ns, term_ns);
            ops[0] matches LandingOpFacts::Grant(record) && {
                &&& record.manifest == presented.manifest
                &&& record.volume == presented.volume
                &&& record.snapshot == presented.snapshot
                &&& record.target == presented.target
                &&& record.state == GrantStatus::Issued
                &&& record.expires_ns >= record.issued_ns
            }
        }),
{
}

/// A used grant is consumed with the landing that used it: no finished landing leaves its grant
/// issued.
pub proof fn a_finished_landing_consumes_its_grant(
    ids: LandingIds,
    principal: PrincipalFacts,
    report: LandingReport,
    request: LandingRequest,
    audit: Seq<EngineAudit>,
)
    ensures
        request.grant matches Some(grant) ==> finished_ops(
            ids,
            principal,
            report,
            request,
            audit,
        ).last() == (LandingOpFacts::GrantState { id: grant, state: GrantStatus::Consumed }),
{
}

/// A landing's outcome and the lease it ran under are recorded together: a finished landing records
/// its target's lease, taken by the holder that was requested, for the term that was requested.
pub proof fn a_finished_landing_records_its_lease(
    ids: LandingIds,
    principal: PrincipalFacts,
    report: LandingReport,
    request: LandingRequest,
    audit: Seq<EngineAudit>,
)
    ensures
        ({
            let ops = finished_ops(ids, principal, report, request, audit);
            &&& ops[0] matches LandingOpFacts::Landing(record) && record.id == ids.landing
                && record.state == report.state
            &&& ops[1] matches LandingOpFacts::Lease(lease) && lease.landing == ids.landing
                && lease.target == ids.target@ && lease.holder == request.holder && lease.term_ns
                == request.lease_term_ns
        }),
{
}

/// A granted landing's record gains the grant: whatever issuing a grant records, the last of it is
/// the landing, as it was presented, with the grant named.
pub proof fn a_granted_landing_names_its_grant(
    presented: AwaitingFacts,
    principal: PrincipalFacts,
    landing: u64,
    grant: u64,
    scope: RecordedScope,
    now_ns: u64,
    term_ns: u64,
)
    ensures
        issued_ops(presented, principal, landing, grant, scope, now_ns, term_ns).last() matches
            LandingOpFacts::Landing(record) && {
            &&& record.id == landing
            &&& record.grant == Some(grant)
            &&& record.manifest == presented.manifest
            &&& record.state == LandingStatus::AwaitingGrant
        },
{
}

/// A landing is audited as its caller's: every audit record a finished landing writes names the
/// principal that asked for it, and the landing itself.
pub proof fn a_landing_is_audited_as_its_callers(
    ids: LandingIds,
    principal: PrincipalFacts,
    report: LandingReport,
    request: LandingRequest,
    audit: Seq<EngineAudit>,
    at: int,
)
    requires
        0 <= at < finished_ops(ids, principal, report, request, audit).len(),
    ensures
        finished_ops(ids, principal, report, request, audit)[at] matches LandingOpFacts::Audit(record)
            ==> record.principal == principal && record.landing == Some(ids.landing),
{
    let own = |step: EngineAudit| step.landing == ids.landing;
    let kept = audit.filter(own);
    if 1 < at <= kept.len() + 1 {
        audit.lemma_filter_pred(own, at - 2);
        assert(own(kept[at - 2]));
    }
}

/// What a landing that ran is answered with.
#[derive(Debug, PartialEq, Eq)]
pub struct LandingOutcome {
    pub landing: u64,
    /// The status it ended with, by its name.
    pub state: &'static str,
    pub written: u64,
    pub skipped: u64,
    pub conflicts: u64,
    pub failed: u64,
    pub bytes_written: u64,
}

/// Whether `outcome` is what a landing's caller is told.
pub open spec fn tells_landed(ids: LandingIds, report: LandingReport, outcome: LandingOutcome) -> bool {
    &&& outcome.landing == ids.landing
    &&& outcome.state@ == status_name(report.state)
    &&& outcome.written == report.written
    &&& outcome.skipped == report.skipped
    &&& outcome.conflicts == report.conflicts
    &&& outcome.failed == report.failed
    &&& outcome.bytes_written == report.bytes_written
}

/// What a landing that ran is answered with: its report's own counts.
pub fn landed(ids: &LandingIds, report: &LandingReport) -> (outcome: LandingOutcome)
    ensures
        tells_landed(*ids, *report, outcome),
{
    LandingOutcome {
        landing: ids.landing,
        state: landing_state_name(report.state),
        written: report.written,
        skipped: report.skipped,
        conflicts: report.conflicts,
        failed: report.failed,
        bytes_written: report.bytes_written,
    }
}

/// What a landing without a grant is answered with.
#[derive(Debug, PartialEq, Eq)]
pub struct GrantRequired {
    pub landing: u64,
    pub manifest: [u8; 32],
    pub summary: LandingSummary,
    pub conflicts: Vec<String>,
}

/// Whether `required` is what a caller is asked to grant.
pub open spec fn asks_grant(ids: LandingIds, plan: LandingPlan, required: GrantRequired) -> bool {
    &&& required.landing == ids.landing
    &&& required.manifest == plan.manifest
    &&& required.summary == plan.summary
    &&& required.conflicts == plan.conflicts
}

/// What a landing without a grant is answered with: the plan a grant must bind, what it would do,
/// and the conflicts that the preliminary pass found.
pub fn grant_required(ids: &LandingIds, plan: LandingPlan) -> (required: GrantRequired)
    ensures
        asks_grant(*ids, plan, required),
{
    GrantRequired {
        landing: ids.landing,
        manifest: plan.manifest,
        summary: plan.summary,
        conflicts: plan.conflicts,
    }
}

/// Whether `outcome` is what a change of the tables gives.
pub open spec fn changes(refused: Option<DbError>, outcome: Result<(), Refusal>) -> bool {
    match refused {
        None => outcome is Ok,
        Some(error) => outcome matches Err(refusal) && answers_db(error, refusal),
    }
}

/// How a list of mutations went: done, or refused at the first that the database refused.
pub fn mutated(refused: Option<DbError>) -> (outcome: Result<(), Refusal>)
    ensures
        changes(refused, outcome),
{
    match refused {
        None => Ok(()),
        Some(error) => Err(refusal_of_db(&error)),
    }
}

/// A record of the audit log, with its number.
#[derive(Clone, Copy, Debug)]
pub struct AuditLogged {
    pub seq: u64,
    pub at_ns: u64,
    pub kind: AuditKind,
    pub grant: Option<u64>,
    pub landing: Option<u64>,
    pub manifest: Option<[u8; 32]>,
    pub outcome: Option<LandingStatus>,
}

/// An entry of the audit log, as the wire carries it.
#[derive(Clone, Copy, Debug)]
pub struct AuditEntry {
    pub seq: u64,
    pub at_ns: u64,
    pub kind: &'static str,
    pub grant: Option<u64>,
    pub landing: Option<u64>,
    pub manifest: Option<[u8; 32]>,
    pub outcome: Option<&'static str>,
}

/// Whether an entry is a record's.
pub open spec fn is_entry_of(record: AuditLogged, entry: AuditEntry) -> bool {
    &&& entry.seq == record.seq
    &&& entry.at_ns == record.at_ns
    &&& entry.kind@ == kind_name(record.kind)
    &&& entry.grant == record.grant
    &&& entry.landing == record.landing
    &&& entry.manifest == record.manifest
    &&& match record.outcome {
        Some(status) => entry.outcome matches Some(name) && name@ == status_name(status),
        None => entry.outcome is None,
    }
}

/// Whether `entries` are the audit records from a sequence on.
pub open spec fn audits(records: Seq<AuditLogged>, since: u64, entries: Seq<AuditEntry>) -> bool {
    ({
        let kept = records.filter(|record: AuditLogged| record.seq >= since);
        &&& entries.len() == kept.len()
        &&& forall|i: int|
            0 <= i < kept.len() ==> is_entry_of(#[trigger] kept[i], entries[i])
    })
}

/// The audit log from a number on, in its order.
pub fn audit_verb(records: &Vec<AuditLogged>, since: u64) -> (entries: Vec<AuditEntry>)
    ensures
        audits(records@, since, entries@),
{
    let mut entries: Vec<AuditEntry> = Vec::new();
    let ghost newer = |record: AuditLogged| record.seq >= since;
    let mut i: usize = 0;
    proof {
        reveal(Seq::filter);
    }
    while i < records.len()
        invariant
            i <= records@.len(),
            newer == (|record: AuditLogged| record.seq >= since),
            entries@.len() == records@.take(i as int).filter(newer).len(),
            forall|j: int|
                0 <= j < entries@.len() ==> is_entry_of(
                    #[trigger] records@.take(i as int).filter(newer)[j],
                    entries@[j],
                ),
        decreases records@.len() - i,
    {
        let record = records[i];
        proof {
            reveal(Seq::filter);
            assert(records@.take(i + 1).drop_last() =~= records@.take(i as int));
            assert(records@.take(i + 1).last() == record);
        }
        if record.seq >= since {
            let outcome = match record.outcome {
                Some(status) => Some(landing_state_name(status)),
                None => None,
            };
            entries.push(
                AuditEntry {
                    seq: record.seq,
                    at_ns: record.at_ns,
                    kind: audit_kind_name(record.kind),
                    grant: record.grant,
                    landing: record.landing,
                    manifest: record.manifest,
                    outcome,
                },
            );
        }
        i += 1;
    }
    assert(records@.take(i as int) =~= records@);
    entries
}

/// A grant, as the wire lists it.
#[derive(Debug)]
pub struct GrantSummary {
    pub id: u64,
    pub volume: ObjectId,
    pub target: String,
    pub manifest: [u8; 32],
    pub scope: GrantScope,
    pub state: &'static str,
}

/// Whether a summary is a grant's.
pub open spec fn summarizes(record: GrantRecord, summary: GrantSummary) -> bool {
    &&& summary.id == record.id
    &&& summary.volume == record.volume
    &&& summary.target@ == record.target@
    &&& summary.manifest == record.manifest
    &&& summary.scope == record.scope.asks()
    &&& summary.state@ == grant_name(record.state)
}

/// Whether `grants` are a principal's own grants.
pub open spec fn lists_grants(
    records: Seq<GrantRecord>,
    principal: PrincipalFacts,
    grants: Seq<GrantSummary>,
) -> bool {
    let own = own_grants(records, principal);
    &&& grants.len() == own.len()
    &&& forall|i: int| 0 <= i < own.len() ==> summarizes(#[trigger] own[i], grants[i])
}

/// The grants of a principal, in the order they are recorded.
pub open spec fn own_grants(records: Seq<GrantRecord>, principal: PrincipalFacts) -> Seq<
    GrantRecord,
> {
    records.filter(|record: GrantRecord| record.principal@ == principal)
}

/// A principal's grants, as the wire lists them, in the order they are recorded.
pub fn grants_verb(records: &Vec<GrantRecord>, principal: &Principal) -> (grants: Vec<GrantSummary>)
    ensures
        lists_grants(records@, principal@, grants@),
{
    let mut grants: Vec<GrantSummary> = Vec::new();
    let ghost mine = |record: GrantRecord| record.principal@ == principal@;
    let mut i: usize = 0;
    proof {
        reveal(Seq::filter);
    }
    while i < records.len()
        invariant
            i <= records@.len(),
            mine == (|record: GrantRecord| record.principal@ == principal@),
            grants@.len() == records@.take(i as int).filter(mine).len(),
            forall|j: int|
                0 <= j < grants@.len() ==> summarizes(
                    #[trigger] records@.take(i as int).filter(mine)[j],
                    grants@[j],
                ),
        decreases records@.len() - i,
    {
        let record = &records[i];
        proof {
            reveal(Seq::filter);
            assert(records@.take(i + 1).drop_last() =~= records@.take(i as int));
            assert(records@.take(i + 1).last() == *record);
        }
        if record.principal.same_as(principal) {
            grants.push(
                GrantSummary {
                    id: record.id,
                    volume: record.volume,
                    target: record.target.clone(),
                    manifest: record.manifest,
                    scope: record.scope.asked(),
                    state: grant_state_name(record.state),
                },
            );
        }
        i += 1;
    }
    assert(records@.take(i as int) =~= records@);
    grants
}

/// A landing's observer: the timings of its newest entries, within a bound, and how many were shed.
#[derive(Debug)]
pub struct SpanObserver {
    entries: VecDeque<(u64, u64)>,
    capacity: usize,
    dropped: u64,
}

/// What an observer holds.
pub struct SpanFacts {
    pub entries: Seq<(u64, u64)>,
    pub capacity: usize,
    pub dropped: u64,
}

impl View for SpanObserver {
    type V = SpanFacts;

    closed spec fn view(&self) -> SpanFacts {
        SpanFacts {
            entries: self.entries@,
            capacity: self.capacity,
            dropped: self.dropped,
        }
    }
}

impl SpanFacts {
    /// What an observer holds after one more entry: at its bound the oldest is shed, or, with no
    /// room at all, the new one, and the loss counted.
    pub open spec fn observed(self, start_ns: u64, end_ns: u64) -> SpanFacts {
        if self.entries.len() != self.capacity {
            SpanFacts { entries: self.entries.push((start_ns, end_ns)), ..self }
        } else if self.entries.len() == 0 {
            SpanFacts { dropped: crate::arith::clamp_u64(self.dropped + 1), ..self }
        } else {
            SpanFacts {
                entries: self.entries.skip(1).push((start_ns, end_ns)),
                dropped: crate::arith::clamp_u64(self.dropped + 1),
                ..self
            }
        }
    }
}

impl SpanObserver {
    /// The observer of one landing: it keeps a client ring's depth of timings, at least one.
    pub fn for_landing(config: &DaemonConfig) -> (observer: SpanObserver)
        ensures
            observer@ == (SpanFacts {
                entries: Seq::empty(),
                capacity: crate::arith::larger(config.region.slots as int, 1) as usize,
                dropped: 0,
            }),
    {
        let capacity: usize = if config.region.slots > 1 {
            config.region.slots as usize
        } else {
            1
        };
        SpanObserver::with_capacity(capacity)
    }

    /// An observer that keeps at most `capacity` timings.
    pub fn with_capacity(capacity: usize) -> (observer: SpanObserver)
        ensures
            observer@ == (SpanFacts { entries: Seq::empty(), capacity, dropped: 0 }),
    {
        SpanObserver { entries: VecDeque::new(), capacity, dropped: 0 }
    }

    /// Takes up one entry's timing.
    pub fn after_entry(&mut self, start_ns: u64, end_ns: u64)
        ensures
            final(self)@ == old(self)@.observed(start_ns, end_ns),
    {
        if self.entries.len() == self.capacity {
            if self.entries.len() == 0 {
                self.dropped = self.dropped.saturating_add(1);
                return;
            }
            let oldest = self.entries.pop_front();
            assert(self.entries@ =~= old(self)@.entries.skip(1));
            self.dropped = self.dropped.saturating_add(1);
        }
        self.entries.push_back((start_ns, end_ns));
    }

    /// The timings kept, oldest first, and how many were shed.
    pub fn drain(self) -> (drained: (Vec<(u64, u64)>, u64))
        ensures
            drained.0@ == self@.entries,
            drained.1 == self@.dropped,
    {
        let mut timings: Vec<(u64, u64)> = Vec::new();
        let mut i: usize = 0;
        while i < self.entries.len()
            invariant
                i <= self.entries@.len(),
                timings@ =~= self.entries@.take(i as int),
            decreases self.entries@.len() - i,
        {
            timings.push(self.entries[i]);
            i += 1;
        }
        assert(self.entries@.take(i as int) =~= self.entries@);
        (timings, self.dropped)
    }
}

/// An observer stays within its bound: whatever it takes up, one that was within it still is.
pub proof fn an_observer_is_bounded(observer: SpanFacts, start_ns: u64, end_ns: u64)
    requires
        observer.entries.len() <= observer.capacity,
    ensures
        ({
            let after = observer.observed(start_ns, end_ns);
            &&& after.entries.len() <= after.capacity
            &&& after.capacity == observer.capacity
            &&& after.dropped >= observer.dropped
        }),
{
}

/// Whether two byte strings of one length are equal, reading both to the end wherever they differ.
pub fn constant_time_eq(a: &[u8], b: &[u8]) -> (same: bool)
    ensures
        same == (a@ == b@),
{
    if a.len() != b.len() {
        return false;
    }
    let mut differing: usize = 0;
    let mut i: usize = 0;
    while i < a.len()
        invariant
            i <= a@.len(),
            a@.len() == b@.len(),
            differing <= i,
            differing == 0 <==> (forall|j: int| 0 <= j < i ==> a@[j] == b@[j]),
        decreases a@.len() - i,
    {
        let differs: usize = if a[i] != b[i] {
            1
        } else {
            0
        };
        differing = differing + differs;
        i += 1;
    }
    proof {
        if differing == 0 {
            assert(a@ =~= b@);
        }
    }
    differing == 0
}

/// Only an interactive user's session has a number, the user's own; a grant for a session is recorded
/// with it, and either scope is read back as it was asked for.
pub proof fn a_session_is_its_users(principal: PrincipalFacts, scope: GrantScope, number: u64)
    ensures
        principal matches PrincipalFacts::Uid { uid } ==> session(principal) == uid,
        !(principal is Uid) ==> session(principal) == 0,
        scope.records(number).asks() == scope,
        scope == GrantScope::Session <==> scope.records(number) is Session,
        scope.records(number) matches RecordedScope::Session { session: kept } ==> kept == number,
{
}

/// A landing runs as its caller's session, under the grant it was given, with the filter that was
/// asked, and holds its lease for the failover budget.
pub proof fn a_landing_runs_as_it_was_asked(
    config: DaemonConfig,
    principal: PrincipalFacts,
    ids: LandingIds,
    filter: Filter,
    grant: Option<u64>,
    now_ns: u64,
)
    ensures
        ({
            let request = requested(config, principal, ids, filter, grant, now_ns);
            &&& request.landing == ids.landing
            &&& principal matches PrincipalFacts::Uid { uid } ==> request.holder == uid
            &&& !(principal is Uid) ==> request.holder == 0
            &&& request.grant == grant && request.filter == filter && request.now_ns == now_ns
            &&& request.lease_term_ns == config.failover_slo_ns
            &&& request.large_class_bytes == config.large_class_bytes
            &&& !request.media_durability && !request.measured
            &&& request.cores == 1 && request.max_depth == 1 && request.variance_permille == 0
        }),
{
}

/// A landing that ended without a refusal is finished, one that needs a grant is presented with its
/// plan, and any other refusal is told as the one it is, with what it carries.
pub proof fn a_landings_outcome_is_told(outcome: Result<(), LandRefusal>, step: LandStep)
    requires
        steps_on(outcome, step),
    ensures
        step is Finish <==> outcome is Ok,
        step is Present <==> (outcome matches Err(LandRefusal::GrantRequired { .. })),
        outcome matches Err(LandRefusal::GrantRequired { plan: shown }) ==> (
        step matches LandStep::Present { plan } && plan == shown),
        step matches LandStep::Refuse(refusal) ==> {
            &&& refusal is GrantMismatch <==> outcome == Err::<(), LandRefusal>(
                LandRefusal::GrantMismatch,
            )
            &&& refusal is GrantInvalid <==> outcome == Err::<(), LandRefusal>(
                LandRefusal::GrantInvalid,
            )
            &&& refusal is LandingConflict <==> (outcome matches Err(LandRefusal::Conflict { .. }))
            &&& refusal is LandingLeaseHeld <==> (outcome matches Err(
                LandRefusal::LeaseHeld { .. },
            ))
            &&& refusal is TargetUnavailable <==> (outcome matches Err(LandRefusal::Target { .. }))
            &&& outcome matches Err(LandRefusal::Conflict { entries: found }) ==> (
            refusal matches Refusal::LandingConflict { entries } && entries == found)
            &&& outcome matches Err(LandRefusal::LeaseHeld { holder: held }) ==> (
            refusal matches Refusal::LandingLeaseHeld { holder } && holder == held)
            &&& outcome matches Err(LandRefusal::Target { reason: words }) ==> (
            refusal matches Refusal::TargetUnavailable { reason } && reason == words)
            &&& outcome matches Err(LandRefusal::Volume(error)) ==> answers_vfs(error, refusal)
        },
{
    if let Err(LandRefusal::Volume(error)) = outcome {
        if let LandStep::Refuse(refusal) = step {
            crate::error::a_volumes_error_keeps_its_meaning(error, refusal);
        }
    }
}

/// A landing opens the snapshot that was asked for, or the volume's head, of a volume that is there and
/// that its caller may write, where landings are supported; otherwise it is refused, for the first of
/// these that is missing.
pub proof fn a_landing_opens_what_was_asked(
    supported: bool,
    head: Option<SnapshotId>,
    writes: bool,
    snapshot: Option<SnapshotId>,
)
    ensures
        begins(supported, head, writes, snapshot) is Open <==> supported && head is Some && writes,
        begins(supported, head, writes, snapshot) matches LandStart::Open { snapshot: opened } ==> (
        snapshot is Some ==> opened == snapshot->0) && (snapshot is None ==> opened == head->0),
        begins(supported, head, writes, snapshot) matches LandStart::Refuse(refusal) ==> {
            &&& refusal is Unsupported <==> !supported
            &&& refusal is NotFound <==> supported && head is None
            &&& refusal is Forbidden <==> supported && head is Some && !writes
        },
        begins(supported, head, writes, snapshot) matches LandStart::Refuse(
            Refusal::Forbidden { verb },
        ) ==> verb == "land",
        begins(supported, head, writes, snapshot) matches LandStart::Refuse(
            Refusal::Unsupported { feature },
        ) ==> feature == "landing",
{
}

/// A presented plan awaits its grant as it was presented, and is recorded and audited so; the next
/// landing has the next number.
pub proof fn a_presented_plan_awaits_its_grant(
    state: LandingState,
    ids: LandingIds,
    principal: PrincipalFacts,
    manifest: Seq<u8>,
    now_ns: u64,
    ops: Seq<LandingOp>,
    later: LandingState,
    other: u64,
)
    requires
        state.presents(ids, principal, manifest, now_ns, ops, later),
        state.next_landing < u64::MAX,
    ensures
        later.next_landing == state.next_landing + 1,
        later.awaiting@.contains_key(ids.landing),
        ({
            let awaiting = later.awaiting@[ids.landing]@;
            &&& awaiting.manifest == manifest && awaiting.volume == ids.volume && awaiting.snapshot
                == ids.snapshot && awaiting.target == ids.target@ && awaiting.principal == principal
        }),
        other != ids.landing ==> later.awaiting@.contains_key(other) == state.awaiting@.contains_key(
            other,
        ),
        ops.len() == 2,
        ops[0]@ matches LandingOpFacts::Landing(record) && record.id == ids.landing && record.volume
            == ids.volume && record.snapshot == ids.snapshot && record.target == ids.target@
            && record.manifest == manifest && record.grant is None && record.state
            == LandingStatus::AwaitingGrant && record.written == 0 && record.conflicts == 0,
        ops[1]@ matches LandingOpFacts::Audit(record) && record.at_ns == now_ns && record.kind
            == AuditKind::LandingPlanned && record.principal == principal && record.grant is None
            && record.landing == Some(ids.landing) && record.manifest == Some(manifest)
            && record.outcome is None,
{
    assert(op_facts(ops).len() == 2);
    assert(op_facts(ops)[0] == ops[0]@);
    assert(op_facts(ops)[1] == ops[1]@);
    if other != ids.landing {
        assert(later.awaiting@.remove(ids.landing).contains_key(other)
            == state.awaiting@.remove(ids.landing).contains_key(other));
    }
}

/// A finished landing awaits nothing, and is recorded with what it wrote and where, under its grant; the
/// lease it held is recorded with it, and exactly its own audit steps follow, as its caller's.
pub proof fn a_finished_landing_is_recorded(
    state: LandingState,
    ids: LandingIds,
    principal: PrincipalFacts,
    report: LandingReport,
    request: LandingRequest,
    audit: Seq<EngineAudit>,
    ops: Seq<LandingOp>,
    later: LandingState,
    at: int,
)
    requires
        state.finishes(ids, principal, report, request, audit, ops, later),
        state.next_landing < u64::MAX,
        0 <= at < audit.len(),
    ensures
        later.next_landing == state.next_landing + 1,
        later.awaiting@ == state.awaiting@.remove(ids.landing),
        ops.len() >= 2,
        ops[0]@ matches LandingOpFacts::Landing(record) && record.id == ids.landing && record.volume
            == ids.volume && record.snapshot == ids.snapshot && record.target == ids.target@
            && record.manifest == report.manifest@ && record.grant == request.grant && record.state
            == report.state && (report.written <= u32::MAX ==> record.written == report.written) && (
        report.conflicts <= u32::MAX ==> record.conflicts == report.conflicts),
        ops[1]@ matches LandingOpFacts::Lease(lease) && lease.target == ids.target@ && lease.holder
            == request.holder && lease.landing == ids.landing && lease.taken_ns == request.now_ns
            && lease.term_ns == request.lease_term_ns,
        audit[at].landing == ids.landing ==> exists|i: int|
            2 <= i < ops.len() && ((#[trigger] ops[i])@ matches LandingOpFacts::Audit(record)
                && record.at_ns == audit[at].at_ns && record.kind == audit[at].kind && record.principal
                == principal && record.grant == audit[at].grant && record.landing == Some(ids.landing)
                && record.manifest == Some(audit[at].manifest@) && record.outcome
                == audit[at].outcome),
{
    let facts = op_facts(ops);
    let own = |step: EngineAudit| step.landing == ids.landing;
    let kept = audit.filter(own);
    let mirrored = kept.map_values(
        |step: EngineAudit| LandingOpFacts::Audit(step.mirrored(principal)),
    );
    assert(facts.len() == ops.len());
    assert(facts[0] == ops[0]@);
    assert(facts[1] == ops[1]@);
    if audit[at].landing == ids.landing {
        audit.lemma_filter_contains(own, at);
        let k = choose|k: int| 0 <= k < kept.len() && kept[k] == audit[at];
        assert(mirrored[k] == LandingOpFacts::Audit(audit[at].mirrored(principal)));
        assert(facts[k + 2] == mirrored[k]);
        assert(ops[k + 2]@ == facts[k + 2]);
    }
}

/// A grant is issued for a landing that awaits one and for no other: to the caller who asked, on the
/// presented plan, until the term has passed, in the scope that was asked; and it is audited.
pub proof fn a_grant_is_issued_to_its_caller(
    state: LandingState,
    principal: PrincipalFacts,
    landing: u64,
    scope: GrantScope,
    grant: u64,
    now_ns: u64,
    term_ns: u64,
    issued: Result<Vec<LandingOp>, Refusal>,
)
    requires
        state.issues(principal, landing, scope, grant, now_ns, term_ns, issued),
    ensures
        issued is Ok <==> state.awaiting@.contains_key(landing),
        issued matches Err(refusal) ==> refusal is NotFound,
        issued matches Ok(ops) ==> {
            let awaiting = state.awaiting@[landing]@;
            &&& ops@.len() == 3
            &&& ops@[0]@ matches LandingOpFacts::Grant(record) && {
                &&& record.id == grant && record.principal == principal
                &&& record.volume == awaiting.volume && record.snapshot == awaiting.snapshot
                &&& record.target == awaiting.target && record.manifest == awaiting.manifest
                &&& record.issued_ns == now_ns && record.state == GrantStatus::Issued
                &&& now_ns + term_ns <= u64::MAX ==> record.expires_ns == now_ns + term_ns
                &&& record.scope is Once <==> scope == GrantScope::Once
                &&& record.scope matches RecordedScope::Session { session: kept } ==> (
                principal matches PrincipalFacts::Uid { uid } ==> kept == uid)
            }
            &&& ops@[1]@ matches LandingOpFacts::Audit(record) && record.kind
                == AuditKind::GrantIssued && record.principal == principal && record.grant == Some(
                grant,
            ) && record.landing == Some(landing) && record.manifest == Some(awaiting.manifest)
                && record.at_ns == now_ns && record.outcome is None
            &&& ops@[2]@ matches LandingOpFacts::Landing(record) && record.id == landing
                && record.grant == Some(grant) && record.volume == awaiting.volume
                && record.snapshot == awaiting.snapshot && record.target == awaiting.target
                && record.manifest == awaiting.manifest && record.written == 0 && record.conflicts
                == 0 && record.state == LandingStatus::AwaitingGrant
        },
{
    if let Ok(ops) = issued {
        let facts = op_facts(ops@);
        assert(facts.len() == 3);
        assert(facts[0] == ops@[0]@);
        assert(facts[1] == ops@[1]@);
        assert(facts[2] == ops@[2]@);
    }
}

/// A caller is told each count as the landing reported it, and is asked to grant the very plan that was
/// made; a change of the tables is refused as the tables refused it.
pub proof fn a_caller_is_told_what_was_reported(
    ids: LandingIds,
    report: LandingReport,
    outcome: LandingOutcome,
    plan: LandingPlan,
    required: GrantRequired,
    refused: Option<DbError>,
    changed: Result<(), Refusal>,
)
    requires
        tells_landed(ids, report, outcome),
        asks_grant(ids, plan, required),
        changes(refused, changed),
    ensures
        outcome.landing == ids.landing && outcome.written == report.written && outcome.skipped
            == report.skipped && outcome.conflicts == report.conflicts && outcome.failed
            == report.failed && outcome.bytes_written == report.bytes_written,
        outcome.state@ == status_name(report.state),
        required.landing == ids.landing && required.manifest == plan.manifest && required.summary
            == plan.summary && required.conflicts == plan.conflicts,
        changed is Ok <==> refused is None,
        refused matches Some(error) ==> answers_db(error, changed->Err_0),
{
}

/// The audit shows the records from the sequence that was asked on, in their order, and no earlier one.
pub proof fn the_audit_starts_where_it_is_asked(
    records: Seq<AuditLogged>,
    since: u64,
    entries: Seq<AuditEntry>,
    at: int,
    shown: int,
)
    requires
        audits(records, since, entries),
        0 <= at < records.len(),
        0 <= shown < entries.len(),
    ensures
        entries[shown].seq >= since,
        records[at].seq >= since ==> exists|i: int|
            0 <= i < entries.len() && (#[trigger] entries[i]).seq == records[at].seq
                && entries[i].at_ns == records[at].at_ns && entries[i].grant == records[at].grant
                && entries[i].landing == records[at].landing && entries[i].manifest
                == records[at].manifest && (entries[i].outcome is Some <==> records[at].outcome
                is Some) && entries[i].kind@ == kind_name(records[at].kind),
        entries.len() <= records.len(),
{
    let recent = |record: AuditLogged| record.seq >= since;
    let kept = records.filter(recent);
    records.lemma_filter_pred(recent, shown);
    assert(is_entry_of(kept[shown], entries[shown]));
    assert(recent(kept[shown]));
    records.lemma_filter_len(recent);
    if records[at].seq >= since {
        records.lemma_filter_contains(recent, at);
        let k = choose|k: int| 0 <= k < kept.len() && kept[k] == records[at];
        assert(is_entry_of(kept[k], entries[k]));
    }
}

/// A principal is shown its own grants, every one of them and no one else's.
pub proof fn a_principal_sees_its_own_grants(
    records: Seq<GrantRecord>,
    principal: PrincipalFacts,
    grants: Seq<GrantSummary>,
    at: int,
    shown: int,
)
    requires
        lists_grants(records, principal, grants),
        0 <= at < records.len(),
        0 <= shown < grants.len(),
    ensures
        records[at].principal@ == principal ==> exists|i: int|
            0 <= i < grants.len() && (#[trigger] grants[i]).id == records[at].id && grants[i].volume
                == records[at].volume && grants[i].target@ == records[at].target@
                && grants[i].manifest == records[at].manifest && (grants[i].scope
                == GrantScope::Once <==> records[at].scope is Once) && grants[i].state@
                == grant_name(records[at].state),
        exists|i: int|
            0 <= i < records.len() && (#[trigger] records[i]).id == grants[shown].id
                && records[i].principal@ == principal,
{
    let kept = own_grants(records, principal);
    lemma_own_grants(records, principal, kept[shown]);
    lemma_own_grants(records, principal, records[at]);
    assert(summarizes(kept[shown], grants[shown]));
    assert(kept.contains(kept[shown]));
    let i = choose|i: int| 0 <= i < records.len() && records[i] == kept[shown];
    assert(records[i].id == grants[shown].id);
    if records[at].principal@ == principal {
        let k = choose|k: int| 0 <= k < kept.len() && kept[k] == records[at];
        assert(summarizes(kept[k], grants[k]));
    }
}

/// A grant is among a principal's exactly when it is recorded and the principal's.
proof fn lemma_own_grants(
    records: Seq<GrantRecord>,
    principal: PrincipalFacts,
    record: GrantRecord,
)
    ensures
        own_grants(records, principal).contains(record) <==> records.contains(record)
            && record.principal@ == principal,
    decreases records.len(),
{
    reveal(Seq::filter);
    if records.len() > 0 {
        let rest = records.drop_last();
        let last = records.last();
        lemma_own_grants(rest, principal, record);
        let before = own_grants(rest, principal);
        assert(own_grants(records, principal) == (if last.principal@ == principal {
            before.push(last)
        } else {
            before
        }));
        vstd::seq_lib::lemma_seq_contains_after_push(before, last, record);
        vstd::seq_lib::lemma_seq_contains_after_push(rest, last, record);
        assert(rest.push(last) =~= records);
    }
}

/// An observer keeps the newest spans in order: a span is added at the end, a full observer lets its
/// oldest go, and each span that is let go is counted.
pub proof fn an_observer_keeps_the_newest_spans(observer: SpanFacts, start_ns: u64, end_ns: u64)
    requires
        observer.entries.len() <= observer.capacity,
        observer.dropped < u64::MAX,
    ensures
        ({
            let after = observer.observed(start_ns, end_ns);
            &&& observer.capacity > 0 ==> after.entries.last() == (start_ns, end_ns)
            &&& observer.entries.len() < observer.capacity ==> after.entries.drop_last()
                == observer.entries && after.dropped == observer.dropped
            &&& observer.entries.len() == observer.capacity && observer.capacity > 0
                ==> after.entries.drop_last() == observer.entries.skip(1) && after.dropped
                == observer.dropped + 1
            &&& observer.capacity == 0 ==> after.entries == observer.entries && after.dropped
                == observer.dropped + 1
        }),
{
    let after = observer.observed(start_ns, end_ns);
    if observer.entries.len() < observer.capacity {
        assert(after.entries.drop_last() =~= observer.entries);
    } else if observer.capacity > 0 {
        assert(after.entries.drop_last() =~= observer.entries.skip(1));
    }
}

/// No two states of a landing share a name, nor two of a grant, nor two kinds of audit record.
pub proof fn every_state_has_its_own_name(
    a: LandingStatus,
    b: LandingStatus,
    c: GrantStatus,
    d: GrantStatus,
    e: AuditKind,
    f: AuditKind,
)
    ensures
        a != b ==> status_name(a) != status_name(b),
        c != d ==> grant_name(c) != grant_name(d),
        e != f ==> kind_name(e) != kind_name(f),
{
    reveal_strlit("planning");
    reveal_strlit("awaiting_grant");
    reveal_strlit("validating");
    reveal_strlit("writing");
    reveal_strlit("syncing");
    reveal_strlit("advancing");
    reveal_strlit("done");
    reveal_strlit("partial");
    reveal_strlit("refused");
    reveal_strlit("aborted");
    reveal_strlit("issued");
    reveal_strlit("consumed");
    reveal_strlit("expired");
    reveal_strlit("revoked");
    reveal_strlit("grant_issued");
    reveal_strlit("grant_revoked");
    reveal_strlit("landing_planned");
    reveal_strlit("landing_validated");
    reveal_strlit("entry_written");
    reveal_strlit("entry_refused");
    reveal_strlit("landing_finished");
    if a != b && status_name(a) == status_name(b) {
        assert(status_name(a)[0] == status_name(b)[0]);
        assert(status_name(a)[1] == status_name(b)[1]);
        assert(status_name(a).len() == status_name(b).len());
    }
    if c != d && grant_name(c) == grant_name(d) {
        assert(grant_name(c)[0] == grant_name(d)[0]);
        assert(grant_name(c).len() == grant_name(d).len());
    }
    if e != f && kind_name(e) == kind_name(f) {
        assert(kind_name(e)[6] == kind_name(f)[6]);
        assert(kind_name(e).len() == kind_name(f).len());
        assert(kind_name(e)[0] == kind_name(f)[0]);
        assert(kind_name(e)[8] == kind_name(f)[8]);
    }
}

/// A refused target is told as an unavailable one: in the words it was refused with, and otherwise by
/// what is wrong with it, each in its own words.
pub proof fn a_refused_target_is_told(
    refusal: TargetRefusal,
    told: Refusal,
    other: TargetRefusal,
    told_other: Refusal,
)
    requires
        tells_target(refusal, told),
        tells_target(other, told_other),
    ensures
        told is TargetUnavailable,
        refusal matches TargetRefusal::Unavailable(words) ==> told->TargetUnavailable_reason@
            == words@,
        refusal is NotAbsolute && other is EscapesTarget || refusal is NotAbsolute && other
            is TargetNotOwned || refusal is EscapesTarget && other is TargetNotOwned
            ==> told->TargetUnavailable_reason@ != told_other->TargetUnavailable_reason@,
{
    reveal_strlit("the target path is not absolute");
    reveal_strlit("a component escapes the target directory");
    reveal_strlit("the target is owned by another user");
    if told->TargetUnavailable_reason@ == told_other->TargetUnavailable_reason@ {
        assert(told->TargetUnavailable_reason@.len() == told_other->TargetUnavailable_reason@.len());
    }
}

} // verus!
