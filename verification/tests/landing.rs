//! Landings, grants and the audit log.

use slates_server::error::{
    push_names, refusal_of_db, refusal_of_vfs, DbError, Refusal, ServerError, VfsError,
};
use slates_server::head::Principal;
use slates_server::ids::{ObjectId, SnapshotId};
use slates_server::config::{
    DaemonConfig, MachineProfile, RuntimeConfig, UnitSizes,
};
use slates_server::landing::{
    audit_kind_name, audit_verb, constant_time_eq, grant_required, grant_state_name, grants_verb,
    land_outcome, land_verb, landed, landing_request, landing_state_name, mutated, session_of,
    target_refusal, ActionCount, AuditKind, AuditLogged, EngineAudit, Filter, GrantRecord,
    GrantScope, GrantStatus, GrantSurface, LandRefusal, LandStart, LandStep, LandingIds, LandingOp,
    LandingPlan, LandingReport, LandingState, LandingStatus, LandingSummary, RecordedScope,
    SpanObserver, TargetRefusal,
};
use slates_server::text::{push_listed, push_one_field, push_two_fields};

const OWNER: Principal = Principal::Uid { uid: 501 };

fn ids(landing: u64) -> LandingIds {
    LandingIds {
        landing,
        volume: ObjectId(4),
        snapshot: SnapshotId(9),
        target: "/srv/out".to_owned(),
    }
}

fn report(state: LandingStatus) -> LandingReport {
    LandingReport {
        state,
        manifest: [7; 32],
        written: u64::MAX,
        skipped: 0,
        conflicts: 2,
        failed: 0,
        bytes_written: 10,
    }
}

#[test]
fn a_grant_binds_the_plan_that_was_presented() {
    let mut state = LandingState::default();
    assert_eq!(state.next_landing, 1);
    let ops = state.present(&ids(1), &OWNER, [7; 32], 100);
    assert_eq!(ops.len(), 2);
    assert!(matches!(
        &ops[0],
        LandingOp::Landing(record)
            if record.id == 1 && record.state == LandingStatus::AwaitingGrant
                && record.grant.is_none() && record.manifest == [7; 32]
    ));
    assert!(matches!(
        &ops[1],
        LandingOp::Audit(record)
            if record.kind == AuditKind::LandingPlanned && record.landing == Some(1)
    ));
    assert_eq!(state.next_landing, 2);
    let issued = state.issue_grant(&OWNER, 1, GrantScope::Session, 77, 200, 50).unwrap();
    assert!(matches!(
        &issued[0],
        LandingOp::Grant(grant)
            if grant.id == 77 && grant.surface == GrantSurface::Cli && grant.manifest == [7; 32]
                && grant.target == "/srv/out" && grant.expires_ns == 250 && grant.state == GrantStatus::Issued
                && grant.scope == RecordedScope::Session { session: 501 }
    ));
    assert!(matches!(
        &issued[1],
        LandingOp::Audit(record)
            if record.kind == AuditKind::GrantIssued && record.grant == Some(77)
    ));
    assert_eq!(issued.len(), 3, "the landing's record gains the grant");
    assert!(matches!(
        &issued[2],
        LandingOp::Landing(record)
            if record.id == 1 && record.grant == Some(77) && record.manifest == [7; 32]
                && record.volume == ObjectId(4) && record.snapshot == SnapshotId(9)
                && record.target == "/srv/out" && record.state == LandingStatus::AwaitingGrant
                && record.written == 0 && record.conflicts == 0
    ));
    assert_eq!(
        state.issue_grant(&OWNER, 9, GrantScope::Once, 78, 200, 50).err(),
        Some(Refusal::NotFound)
    );
}

#[test]
fn a_finished_landing_consumes_its_grant_and_keeps_its_own_audit() {
    let mut state = LandingState::default();
    state.present(&ids(1), &OWNER, [7; 32], 100);
    let audit = |landing: u64, kind: AuditKind| EngineAudit {
        at_ns: 5,
        kind,
        grant: None,
        landing,
        manifest: [7; 32],
        outcome: Some(LandingStatus::Done),
    };
    let caller = Principal::Sid { sid: "S-1".to_owned() };
    let records = vec![
        audit(1, AuditKind::LandingValidated),
        audit(2, AuditKind::EntryWritten),
        audit(1, AuditKind::LandingFinished),
    ];
    let filter = Filter { included: Vec::new(), excluded: Vec::new() };
    let request = landing_request(&config(4), &OWNER, &ids(1), filter, Some(77), 9);
    let ops = state.finish(&ids(1), &caller, &report(LandingStatus::Done), &request, &records);
    assert_eq!(ops.len(), 5);
    assert!(matches!(
        &ops[0],
        LandingOp::Landing(record)
            if record.written == u32::MAX && record.conflicts == 2 && record.grant == Some(77)
    ));
    assert!(matches!(
        &ops[1],
        LandingOp::Lease(lease)
            if lease.target == "/srv/out" && lease.holder == 501 && lease.landing == 1
                && lease.taken_ns == 9 && lease.term_ns == 55
    ));
    assert!(matches!(
        &ops[2],
        LandingOp::Audit(a)
            if a.kind == AuditKind::LandingValidated && a.principal == caller
                && a.landing == Some(1) && a.manifest == Some([7; 32])
                && a.outcome == Some(LandingStatus::Done) && a.at_ns == 5
    ));
    assert!(matches!(&ops[3], LandingOp::Audit(a) if a.kind == AuditKind::LandingFinished));
    assert!(matches!(
        &ops[4],
        LandingOp::GrantState { id: 77, state: GrantStatus::Consumed }
    ));
    assert!(state.awaiting.is_empty());
    assert_eq!(state.issue_grant(&OWNER, 1, GrantScope::Once, 1, 0, 0).err(), Some(Refusal::NotFound));
}

#[test]
fn a_landing_needs_a_writer_a_volume_and_the_right_to_write_it() {
    let head = Some(SnapshotId(3));
    assert!(matches!(
        land_verb(false, head, true, None),
        LandStart::Refuse(Refusal::Unsupported { feature: "landing" })
    ));
    assert!(matches!(land_verb(true, None, true, None), LandStart::Refuse(Refusal::NotFound)));
    assert!(matches!(
        land_verb(true, head, false, None),
        LandStart::Refuse(Refusal::Forbidden { verb: "land" })
    ));
    assert!(matches!(
        land_verb(true, head, true, None),
        LandStart::Open { snapshot: SnapshotId(3) }
    ));
    assert!(matches!(
        land_verb(true, head, true, Some(SnapshotId(8))),
        LandStart::Open { snapshot: SnapshotId(8) }
    ));
}

fn plan() -> LandingPlan {
    LandingPlan {
        manifest: [1; 32],
        summary: LandingSummary {
            by_action: vec![
                ActionCount { action: "create".to_owned(), count: 3 },
                ActionCount { action: "delete".to_owned(), count: 1 },
            ],
            bytes: 4096,
            filtered_out: 2,
        },
        conflicts: vec!["src/main.rs".to_owned()],
    }
}

fn config(ring_entries: u64) -> DaemonConfig {
    let profile = MachineProfile {
        memory_total: 1 << 34,
        memory_limit: None,
        page: 4096,
        cache_line: 64,
        encoded_bytes: 100,
        blake3_bytes_per_second: 1 << 30,
        wake_p99_ns: 1,
        ring_entries,
        spin_before_park_ns: 1,
        arena_region_bytes: 1 << 21,
        huge_pages: false,
        memcpy: Vec::new(),
        codecs: Vec::new(),
    };
    let runtime = RuntimeConfig {
        shards: 1,
        pin: false,
        cores: Vec::new(),
        step_budget_ns: 1,
        timer_tick_ns: 1,
        tasks_per_shard: 1,
        timers_per_shard: 1,
        spin_ns: 1,
    };
    let sizes = UnitSizes {
        volume_record_bytes: 512,
        inode_unit_bytes: 256,
        directory_unit_bytes: 1024,
        recovery_budget_ns: 1_000,
        region_total_bytes: 1 << 20,
        requests_in_flight: 20,
        telemetry_spans_per_reply: 16,
        guest_readable_bytes: 1,
        guest_writable_bytes: 1,
    };
    let region = DaemonConfig::region_geometry(&profile);
    DaemonConfig::derive(&profile, runtime, sizes, region, "landing").with_failover_slo(55)
}

#[test]
fn the_engine_is_handed_the_callers_session_and_the_configured_bounds() {
    let filter = || Filter { included: vec!["src".to_owned()], excluded: Vec::new() };
    let request = landing_request(&config(4), &OWNER, &ids(3), filter(), Some(77), 9);
    assert_eq!((request.landing, request.holder, request.grant), (3, 501, Some(77)));
    assert_eq!((request.now_ns, request.lease_term_ns), (9, 55));
    assert_eq!(request.large_class_bytes, 1 << 21);
    assert_eq!((request.cores, request.max_depth, request.variance_permille), (1, 1, 0));
    assert!(!request.media_durability && !request.measured);
    assert_eq!(request.filter, filter());
    let other = Principal::Sid { sid: "S-1".to_owned() };
    assert_eq!(landing_request(&config(4), &other, &ids(3), filter(), None, 9).holder, 0);
    let mut observer = SpanObserver::for_landing(&config(4));
    for i in 0..6 {
        observer.after_entry(i, i);
    }
    let (entries, dropped) = observer.drain();
    assert_eq!((entries.len(), dropped), (4, 2));
}

#[test]
fn a_landing_is_answered_with_its_own_counts_or_its_plan() {
    let outcome = landed(&ids(3), &report(LandingStatus::Partial));
    assert_eq!((outcome.landing, outcome.state), (3, "partial"));
    assert_eq!((outcome.written, outcome.skipped), (u64::MAX, 0));
    assert_eq!((outcome.conflicts, outcome.failed, outcome.bytes_written), (2, 0, 10));
    let required = grant_required(&ids(3), plan());
    assert_eq!((required.landing, required.manifest), (3, [1; 32]));
    assert_eq!(required.summary, plan().summary);
    assert_eq!(required.conflicts, plan().conflicts);
}

#[test]
fn every_outcome_of_the_engine_has_its_reply() {
    assert!(matches!(land_outcome(Ok(())), LandStep::Finish));
    let told = |refusal: LandRefusal| match land_outcome(Err(refusal)) {
        LandStep::Refuse(told) => told,
        other => panic!("{other:?}"),
    };
    assert!(matches!(
        land_outcome(Err(LandRefusal::GrantRequired { plan: plan() })),
        LandStep::Present { plan: told } if told == plan()
    ));
    let entries = vec!["a".to_owned(), "b".to_owned()];
    assert_eq!(
        told(LandRefusal::Conflict { entries: entries.clone() }),
        Refusal::LandingConflict { entries }
    );
    assert_eq!(
        told(LandRefusal::LeaseHeld { holder: 4 }),
        Refusal::LandingLeaseHeld { holder: 4 }
    );
    assert_eq!(told(LandRefusal::GrantMismatch), Refusal::GrantMismatch);
    assert_eq!(told(LandRefusal::GrantInvalid), Refusal::GrantInvalid);
    assert_eq!(
        told(LandRefusal::Target { reason: "gone".to_owned() }),
        Refusal::TargetUnavailable { reason: "gone".to_owned() }
    );
    assert_eq!(told(LandRefusal::Volume(VfsError::Archived)), Refusal::Archived);
}

#[test]
fn a_target_is_refused_with_a_reason() {
    for refusal in [
        TargetRefusal::NotAbsolute,
        TargetRefusal::EscapesTarget,
        TargetRefusal::TargetNotOwned,
        TargetRefusal::Unavailable("ENOENT".to_owned()),
    ] {
        match target_refusal(&refusal) {
            Refusal::TargetUnavailable { reason } => assert!(!reason.is_empty()),
            other => panic!("{other:?}"),
        }
    }
}

#[test]
fn the_audit_is_listed_from_a_number_on() {
    let logged = |seq: u64, kind: AuditKind, outcome: Option<LandingStatus>| AuditLogged {
        seq,
        at_ns: seq * 10,
        kind,
        grant: Some(seq),
        landing: None,
        manifest: Some([seq as u8; 32]),
        outcome,
    };
    let records = vec![
        logged(1, AuditKind::GrantIssued, None),
        logged(2, AuditKind::EntryRefused, None),
        logged(3, AuditKind::LandingFinished, Some(LandingStatus::Partial)),
    ];
    let entries = audit_verb(&records, 2);
    assert_eq!(entries.len(), 2);
    assert_eq!((entries[0].seq, entries[0].kind), (2, "entry_refused"));
    assert_eq!((entries[1].seq, entries[1].kind), (3, "landing_finished"));
    assert_eq!(entries[1].outcome, Some("partial"));
    assert_eq!(entries[1].manifest, Some([3; 32]));
    assert_eq!(entries[0].outcome, None);
    assert!(audit_verb(&records, 4).is_empty());
}

#[test]
fn a_principals_own_grants_are_listed() {
    let grant = |id: u64, uid: u32, state: GrantStatus| GrantRecord {
        id,
        principal: Principal::Uid { uid },
        surface: GrantSurface::Cli,
        volume: ObjectId(4),
        snapshot: SnapshotId(1),
        target: "/srv".to_owned(),
        manifest: [1; 32],
        scope: RecordedScope::Session { session: u64::from(uid) },
        issued_ns: 0,
        expires_ns: 9,
        state,
    };
    let records = vec![
        grant(1, 501, GrantStatus::Issued),
        grant(2, 502, GrantStatus::Issued),
        grant(3, 501, GrantStatus::Revoked),
    ];
    let own = grants_verb(&records, &OWNER);
    assert_eq!(own.len(), 2);
    assert_eq!((own[0].id, own[0].state), (1, "issued"));
    assert_eq!((own[1].id, own[1].state), (3, "revoked"));
    assert_eq!(own[0].scope, GrantScope::Session);
    assert_eq!(own[0].target, "/srv");
}

#[test]
fn the_wire_names_are_lower_case_words() {
    assert_eq!(landing_state_name(LandingStatus::AwaitingGrant), "awaiting_grant");
    assert_eq!(audit_kind_name(AuditKind::LandingValidated), "landing_validated");
    assert_eq!(grant_state_name(GrantStatus::Consumed), "consumed");
    assert_eq!(session_of(&OWNER), 501);
    assert_eq!(session_of(&Principal::Sid { sid: "S".to_owned() }), 0);
    assert_eq!(GrantScope::Once.recorded(5), RecordedScope::Once);
    assert_eq!(RecordedScope::Session { session: 5 }.asked(), GrantScope::Session);
}

#[test]
fn an_observer_keeps_the_newest_entries_within_its_bound() {
    let mut observer = SpanObserver::with_capacity(2);
    for i in 0..5 {
        observer.after_entry(i, i + 1);
    }
    let (entries, dropped) = observer.drain();
    assert_eq!(entries, vec![(3, 4), (4, 5)]);
    assert_eq!(dropped, 3);
}

#[test]
fn secrets_are_compared_whole() {
    assert!(constant_time_eq(b"abcd", b"abcd"));
    assert!(!constant_time_eq(b"abcd", b"abce"));
    assert!(!constant_time_eq(b"xbcd", b"abcd"));
    assert!(!constant_time_eq(b"abcd", b"abc"));
    assert!(constant_time_eq(b"", b""));
}

#[test]
fn every_volume_refusal_has_its_wire_refusal() {
    let cases = [
        (VfsError::NotFound, Refusal::NotFound),
        (VfsError::AlreadyExists, Refusal::AlreadyExists { existing: ObjectId(0) }),
        (VfsError::NoSpace, Refusal::NoSpace),
        (VfsError::InvalidName, Refusal::InvalidName),
        (VfsError::Destroying, Refusal::Destroying),
        (VfsError::Archived, Refusal::Archived),
        (VfsError::PolicyMismatch, Refusal::PolicyMismatch),
        (
            VfsError::BaseUnavailable(5),
            Refusal::BaseUnavailable { path: String::new(), errno: 5 },
        ),
        (
            VfsError::BudgetExceeded { available: 8 },
            Refusal::BudgetExceeded { available: 8 },
        ),
        (
            VfsError::Other("odd".to_owned()),
            Refusal::BadRequest { reason: "odd".to_owned() },
        ),
    ];
    for (error, refusal) in cases {
        assert_eq!(refusal_of_vfs(&error), refusal);
    }
}

#[test]
fn every_database_refusal_has_its_wire_refusal() {
    let cases = [
        (DbError::NotFound, Refusal::NotFound),
        (
            DbError::AlreadyExists { existing: ObjectId(3) },
            Refusal::AlreadyExists { existing: ObjectId(3) },
        ),
        (DbError::StaleLease { current: 4 }, Refusal::StaleLease { current: 4 }),
        (DbError::LeaseHeld { epoch: 5 }, Refusal::LeaseHeld { epoch: 5 }),
        (DbError::StaleCompletion, Refusal::DuplicateRequest),
        (
            DbError::Capacity { table: "volumes" },
            Refusal::BadRequest { reason: "volumes at capacity".to_owned() },
        ),
        (
            DbError::Other("odd".to_owned()),
            Refusal::BadRequest { reason: "odd".to_owned() },
        ),
    ];
    for (error, refusal) in cases {
        assert_eq!(refusal_of_db(&error), refusal);
    }
    assert_eq!(mutated(None), Ok(()));
    assert_eq!(mutated(Some(DbError::NotFound)), Err(Refusal::NotFound));
}

#[test]
fn a_refusal_is_told_in_full() {
    let existing = ObjectId(0x0100_0000_0000_0000_0000_0000_0000_00ff);
    assert_eq!(
        Refusal::AlreadyExists { existing }.message(),
        "AlreadyExists { existing: VolumeId { bytes: \
         [1, 0, 0, 0, 0, 0, 0, 0, 0, 0, 0, 0, 0, 0, 0, 255] } }"
    );
    // The derived form writes the same of every other refusal.
    let others = [
        Refusal::NotFound,
        Refusal::NoSpace,
        Refusal::InvalidName,
        Refusal::Destroying,
        Refusal::Archived,
        Refusal::PolicyMismatch,
        Refusal::BaseUnavailable { path: "/a \"b\"\n".to_owned(), errno: -5 },
        Refusal::BudgetExceeded { available: u64::MAX },
        Refusal::BadRequest { reason: "a\\b\u{301}".to_owned() },
        Refusal::StaleLease { current: 0 },
        Refusal::LeaseHeld { epoch: 10 },
        Refusal::DuplicateRequest,
        Refusal::Forbidden { verb: "land" },
        Refusal::Unsupported { feature: "landing" },
        Refusal::LandingConflict { entries: Vec::new() },
        Refusal::LandingConflict { entries: vec!["a".to_owned()] },
        Refusal::LandingConflict { entries: vec!["a".to_owned(), "b c".to_owned()] },
        Refusal::LandingLeaseHeld { holder: 501 },
        Refusal::GrantMismatch,
        Refusal::GrantInvalid,
        Refusal::TargetUnavailable { reason: "gone".to_owned() },
    ];
    for refusal in others {
        assert_eq!(refusal.message(), format!("{refusal:?}"));
    }
    let mut text = String::from("> ");
    push_one_field(&mut text, "Forbidden", "verb", "\"land\"");
    assert_eq!(text, "> Forbidden { verb: \"land\" }");
    let mut text = String::new();
    push_two_fields(&mut text, "Pair", ("a", "1"), ("b", "\"x\""));
    assert_eq!(text, "Pair { a: 1, b: \"x\" }");
    let mut text = String::from("[");
    push_listed(&mut text, &vec!["1".to_owned(), "\"x\"".to_owned(), "3".to_owned()]);
    assert_eq!(text, "[1, \"x\", 3");
    assert_eq!(
        Refusal::Forbidden { verb: "land" }.message(),
        "Forbidden { verb: \"land\" }"
    );
}

#[test]
fn a_server_error_says_what_stopped_the_daemon() {
    let missing = ServerError::ChokepointsUnregistered { missing: vec!["log.append", "shard.op"] };
    let message = missing.message();
    assert!(message.contains("log.append") && message.contains("shard.op"), "{message}");
    assert!(ServerError::Anchor("gone".to_owned()).message().contains("gone"));
    assert!(!ServerError::NotOnShard.message().is_empty());
    let refused = ServerError::Refused(Refusal::StaleLease { current: 4 });
    assert_eq!(refused.message(), "refused: StaleLease { current: 4 }");
    assert_eq!(refused.clone(), refused);
    let mut names = String::new();
    push_names(&mut names, &vec!["a", "b"]);
    assert!(names.contains('a') && names.contains('b'));
}
