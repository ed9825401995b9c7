//! Where a cut may fall, and what a cut costs.

use sakur4_core::cache::plan::{BoundaryPlan, CacheStatus, CoherenceAction};
use sakur4_core::cache::{
    common_prefix_tokens, Coherence, CoherenceConfig, RollBackMethod, RollBackStep, SlotReading,
};
use sakur4_core::error::Error;
use sakur4_core::llama::embedded::{EmbeddedBackend, NullBackend};
use sakur4_core::llama::{
    CapabilitySet, CheckpointKind, CheckpointRef, RestoreOutcome, SnapReason, SnapshotOutcome,
};
use sakur4_core::tokens::{CharTokenizer, TokenCounter};

#[test]
fn aligned_plan_reports_reuse_and_a_zero_or_positive_delta() {
    let p = BoundaryPlan::aligned(
        5000,
        4608,
        SnapReason::InternalCheckpoint { delta: 392 },
        8,
        false,
    );
    assert_eq!(p.status, CacheStatus::PartialReuse);
    assert!(p.is_reuse());
    assert_eq!(p.delta(), 392);
    assert!(p.summary().contains("4608"));
    assert!(!p.wants_snapshot());
}

#[test]
fn exact_hit_has_zero_delta() {
    let p = BoundaryPlan::aligned(
        4608,
        4608,
        SnapReason::InternalCheckpoint { delta: 0 },
        3,
        false,
    );
    assert_eq!(p.delta(), 0);
    assert_eq!(p.action, CoherenceAction::EvictAtAlignedBoundary);
}

#[test]
fn unaligned_plan_requests_a_snapshot_and_names_the_gap() {
    let p = BoundaryPlan::unaligned(12_000, Some(8192), 512);
    assert_eq!(p.status, CacheStatus::FullRePrefill);
    assert!(p.wants_snapshot());
    assert!(p.reason.contains("3808 tokens before"));
    assert!(!p.is_reuse());
}

#[test]
fn unaligned_plan_without_any_checkpoint_reads_cleanly() {
    let p = BoundaryPlan::unaligned(1000, None, 512);
    assert!(p.reason.contains("no checkpoint is close enough"));
    assert_eq!(p.nearest_cut, None);
    assert!(p.wants_snapshot(), "an unavoidable rewrite should be protected by a save");
}

#[test]
fn a_ring_ahead_of_the_cut_is_reported_as_no_reuse_not_as_a_gap() {
    let p = BoundaryPlan::past_the_ring(1000, 2500, 4, false);
    assert_eq!(p.status, CacheStatus::FullRePrefill);
    assert!(!p.is_reuse());
    assert_eq!(p.ring_lead(), Some(1500));
    assert!(p.reason.contains("past the requested"));
}

#[test]
fn capability_fallback_plan_never_claims_reuse() {
    let p = BoundaryPlan::full_rewrite(2000, "backend unreachable");
    assert_eq!(p.action, CoherenceAction::EvictAndAcceptReprefill);
    assert!(!p.is_reuse());
    assert!(!p.wants_snapshot());
    assert!(p.summary().contains("FULL RE-PREFILL"));
}

#[test]
fn status_strings_match_the_database_check_constraint() {
    // `slot_state.cache_status` has a CHECK constraint listing exactly these.
    for s in [
        CacheStatus::Unknown,
        CacheStatus::Cold,
        CacheStatus::FullRePrefill,
        CacheStatus::PartialReuse,
        CacheStatus::WarmRestored,
    ] {
        assert!(
            ["unknown", "cold", "full-re-prefill", "partial-reuse", "warm-restored"]
                .contains(&s.as_str()),
            "{} is not in the schema's allowed set",
            s.as_str()
        );
    }
}

#[test]
fn common_prefix_counts_shared_leading_tokens() {
    let counter = TokenCounter::new(CharTokenizer { chars_per_token: 4 });
    assert_eq!(common_prefix_tokens("", "abc", &counter), 0);
    assert_eq!(common_prefix_tokens("abc", "abc", &counter), 1);
    assert_eq!(common_prefix_tokens("abcdefgh", "abcdefghij", &counter), 2);
    assert_eq!(common_prefix_tokens("xyz", "abc", &counter), 0);
}

fn layer(backend: &EmbeddedBackend) -> Coherence {
    Coherence::new(backend.capabilities(), CoherenceConfig::default())
}

#[test]
fn unreachable_backend_yields_a_full_rewrite_plan() {
    let backend = NullBackend::new();
    let ccl = Coherence::new(backend.capabilities(), CoherenceConfig::default());
    let err = backend.slot_state("0").unwrap_err();
    let plan = ccl.plan_boundary(SlotReading::Unreadable(&err), &[], None, 4000);
    assert_eq!(plan.status, CacheStatus::FullRePrefill);
    assert!(plan.aligned_cut.is_none());
    assert!(plan.reason.contains("full re-prefill"));
}

#[test]
fn cut_points_snap_onto_the_ring() {
    let mut backend = EmbeddedBackend::new().with_ring(512, 8);
    backend.advance_to(6000);
    let state = backend.slot_state("0");
    let plan = layer(&backend).plan_boundary(SlotReading::State(&state), &[], None, 5000);
    assert_eq!(plan.status, CacheStatus::PartialReuse);
    assert_eq!(plan.aligned_cut, Some(4608));
    assert_eq!(plan.delta(), 392);
    assert!(plan.reason.contains("in-memory checkpoint"));
}

#[test]
fn a_gap_beyond_tolerance_falls_back_rather_than_snapping_far() {
    let mut backend = EmbeddedBackend::new().with_ring(4096, 4);
    backend.advance_to(20_000);
    let state = backend.slot_state("0");
    let plan = layer(&backend).plan_boundary(SlotReading::State(&state), &[], None, 12_000);
    assert_eq!(plan.status, CacheStatus::FullRePrefill);
    assert!(plan.reason.contains("tolerance"));
    assert_eq!(plan.nearest_cut, Some(8192));
}

fn saved(path: &str) -> SnapshotOutcome {
    SnapshotOutcome {
        snapshot_id: "snap_1".into(),
        file_path: Some(path.into()),
        size_bytes: Some(4096),
        elapsed_ms: 2,
    }
}

#[test]
fn partial_state_architectures_only_trust_durable_saves() {
    let mut backend = EmbeddedBackend::new().with_ring(512, 8);
    backend.advance_to(6000);
    let state = backend.slot_state("0");
    let caps = CapabilitySet { partial_state_only: true, ..backend.capabilities() };
    let ccl = Coherence::new(caps, CoherenceConfig::default());
    let plan = ccl.plan_boundary(SlotReading::State(&state), &[], None, 5000);
    assert_eq!(plan.status, CacheStatus::FullRePrefill);
    assert!(plan.reason.contains("partial state"));

    let recorded = vec![ccl.snapshot(Some(&state), &saved("sakur4/slot.bin"))];
    let at_live = ccl.plan_boundary(SlotReading::State(&state), &recorded, None, 6000);
    assert_eq!(at_live.status, CacheStatus::PartialReuse);
    assert_eq!(at_live.aligned_cut, Some(6000));
    assert_eq!(at_live.delta(), 0);

    let below_live = ccl.plan_boundary(SlotReading::State(&state), &recorded, None, 5000);
    assert_eq!(below_live.status, CacheStatus::FullRePrefill);
    assert!(below_live.reason.contains("past the requested boundary"), "{}", below_live.reason);
}

#[test]
fn an_aligned_cut_is_saved_only_where_that_is_switched_on() {
    let backend = EmbeddedBackend::new();
    let aligned = CoherenceAction::EvictAtAlignedBoundary;
    assert!(!layer(&backend).saves_before(aligned, None));
    let config =
        CoherenceConfig { snapshot_even_when_aligned: true, ..CoherenceConfig::default() };
    let ccl = Coherence::new(backend.capabilities(), config);
    assert!(ccl.saves_before(aligned, None));
    assert!(!ccl.saves_before(CoherenceAction::EvictAndAcceptReprefill, None));
    assert!(!ccl.saves_before(CoherenceAction::Skip, None));
    let none = Coherence::new(NullBackend::new().capabilities(), config);
    assert!(!none.saves_before(aligned, None));
}

#[test]
fn pre_rewrite_snapshot_records_a_checkpoint_and_logs_it() {
    let mut backend = EmbeddedBackend::new().with_ring(256, 4);
    backend.advance_to(3000);
    let ccl = layer(&backend);
    assert!(ccl.saves_before(CoherenceAction::SnapshotThenEvict, None));
    assert!(!ccl.saves_before(CoherenceAction::SnapshotThenEvict, Some(1)));
    let state = backend.slot_state("0");
    let cp = ccl.pre_rewrite_snapshot(None, Some(&state), &saved("sakur4/slot.bin"));
    assert_eq!(cp.kind, CheckpointKind::PreRewrite);
    assert_eq!(cp.token_position, 3000);
    assert!(cp.size_bytes.unwrap() > 0);
}

#[test]
fn snapshots_are_pruned_to_the_retention_policy() {
    let cfg = CoherenceConfig { snapshot_retention_per_slot: 2, ..Default::default() };
    let ccl = Coherence::new(EmbeddedBackend::new().capabilities(), cfg);
    let files: Vec<String> = (0..4).map(|i| format!("f{i}")).collect();
    assert_eq!(ccl.prune_snapshots(&files), vec!["f2", "f3"]);
    assert!(ccl.prune_snapshots(&files[..1].to_vec()).is_empty());
    assert!(ccl.may_delete(Some("/var/lib/Sakur4/slots")));
    assert!(!ccl.may_delete(Some("/home/someone")));
    assert!(!ccl.may_delete(None));
}

#[test]
fn observe_prompt_reports_partial_reuse_after_an_aligned_plan() {
    let mut backend = EmbeddedBackend::new().with_ring(512, 8);
    backend.advance_to(6000);
    let ccl = layer(&backend);
    let state = backend.slot_state("0");
    let plan = ccl.plan_boundary(SlotReading::State(&state), &[], None, 5000);
    let counter = TokenCounter::heuristic();
    let (retained, detail) = ccl.record_plan(&"abcd".repeat(1000), "{}", &counter);
    assert!(retained > 0);
    let (hash, json) = Coherence::split_detail(&detail);
    assert_eq!((hash.len(), json.as_str()), (16, "{}"));
    let obs = ccl.observe_prompt(
        "0",
        "some prompt text",
        &counter,
        Some(("0123456789abcdef", Some(&plan))),
    );
    assert_eq!(obs.cache_status, CacheStatus::PartialReuse);
    assert!(obs.reused_tokens > 0);
    assert!(obs.detail.contains("reused from the LCP"));
}

#[test]
fn full_rewrite_plans_are_reported_as_such_at_observation_time() {
    let backend = NullBackend::new();
    let ccl = Coherence::new(backend.capabilities(), CoherenceConfig::default());
    let err = backend.slot_state("0").unwrap_err();
    let plan = ccl.plan_boundary(SlotReading::Unreadable(&err), &[], None, 1000);
    let obs = ccl.observe_prompt(
        "0",
        "hello",
        &TokenCounter::heuristic(),
        Some(("0123456789abcdef", Some(&plan))),
    );
    assert_eq!(obs.cache_status, CacheStatus::FullRePrefill);
    assert_eq!(obs.reused_tokens, 0);
}

#[test]
fn rollback_prefers_the_ring_and_reports_honestly() {
    let mut backend = EmbeddedBackend::new().with_ring(512, 8);
    backend.advance_to(5000);
    let ccl = layer(&backend);
    assert_eq!(ccl.mark_fold_open("fold_1", 4608).token_position, 4608);
    let state = backend.slot_state("0");
    match ccl.roll_back_to("0", Some(&state), &[], 4608) {
        RollBackStep::Done(out) => {
            assert!(out.performed);
            assert_eq!(out.method, RollBackMethod::RingRewind);
        }
        RollBackStep::Restore(p) => panic!("{p}"),
    }
}

#[test]
fn rollback_falls_back_to_a_restore_when_the_ring_has_moved() {
    let mut backend = EmbeddedBackend::new().with_ring(512, 2);
    backend.advance_to(9000);
    let ccl = layer(&backend);
    let state = backend.slot_state("0");
    let saves = [(9000, "sakur4/slot.bin".to_string())];
    match ccl.roll_back_to("0", Some(&state), &saves, 4000) {
        RollBackStep::Restore(path) => {
            let restored =
                RestoreOutcome { restored: true, restore_time_ms: 3, detail: "ok".into() };
            let out = Coherence::rolled_back_by_restore(&path, Ok(&restored));
            assert_eq!(out.method, RollBackMethod::SlotRestore);
            assert!(out.performed);
            assert_eq!(ccl.restore(&restored), CacheStatus::WarmRestored);
        }
        RollBackStep::Done(out) => panic!("{out:?}"),
    }
}

#[test]
fn rollback_restores_the_save_taken_when_the_fold_opened() {
    let mut backend = EmbeddedBackend::new().with_ring(512, 2);
    backend.advance_to(9000);
    let ccl = layer(&backend);
    let state = backend.slot_state("0");
    let saves = [
        (9000, "newest.bin".to_string()),
        (4000, "fold.bin".to_string()),
        (4000, "before.bin".to_string()),
    ];
    let path = |target| match ccl.roll_back_to("0", Some(&state), &saves, target) {
        RollBackStep::Restore(path) => path,
        RollBackStep::Done(out) => panic!("{out:?}"),
    };
    assert_eq!(path(4000), "fold.bin");
    assert_eq!(path(4001), "newest.bin");
    match ccl.roll_back_to("0", Some(&state), &[], 4000) {
        RollBackStep::Done(out) => {
            assert!(!out.performed);
            assert_eq!(out.method, RollBackMethod::Nothing);
        }
        RollBackStep::Restore(p) => panic!("{p}"),
    }
}

#[test]
fn the_status_line_names_backend_and_capabilities() {
    let ccl = layer(&EmbeddedBackend::new());
    let line = ccl.status_line("embedded", None);
    assert!(line.starts_with("backend=embedded caps="));
    assert!(line.ends_with(" last=unknown"));
}

#[test]
fn merging_covers_everything_and_adds_nothing_twice() {
    let at = |position: i64, kind: CheckpointKind| CheckpointRef {
        id: format!("c{position}"),
        token_position: position,
        kind,
        size_bytes: None,
    };
    let mut state = EmbeddedBackend::new().slot_state("0");
    state.checkpoints = vec![at(2000, CheckpointKind::Internal), at(1000, CheckpointKind::Internal)];
    let recorded = [
        at(1000, CheckpointKind::Internal),
        at(1000, CheckpointKind::FoldMarker),
        at(1000, CheckpointKind::FoldMarker),
    ];
    let layer = layer(&EmbeddedBackend::new());
    let usable = layer.usable_checkpoints(SlotReading::State(&state), &recorded);
    let seen: Vec<_> = usable.iter().map(|c| (c.token_position, c.kind)).collect();
    assert_eq!(
        seen,
        vec![
            (1000, CheckpointKind::Internal),
            (1000, CheckpointKind::FoldMarker),
            (2000, CheckpointKind::Internal),
        ]
    );
}

#[test]
fn every_fallback_has_a_reason() {
    let layer = layer(&EmbeddedBackend::new());
    let gone = Error::BackendUnavailable("connection refused".into());
    let plan = layer.plan_boundary(SlotReading::Unreadable(&gone), &[], None, 4000);
    assert_eq!(plan.status, CacheStatus::FullRePrefill);
    assert!(plan.reason.contains("connection refused"), "got: {}", plan.reason);
    let mut empty = EmbeddedBackend::new().slot_state("0");
    empty.checkpoints = Vec::new();
    let plan = layer.plan_boundary(SlotReading::State(&empty), &[], None, 4000);
    assert_eq!(plan.status, CacheStatus::FullRePrefill);
    assert!(plan.reason.contains("no checkpoints"), "got: {}", plan.reason);
}
