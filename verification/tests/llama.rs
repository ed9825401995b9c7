//! Backends, their capabilities and their checkpoints.

use sakur4_core::llama::embedded::{EmbeddedBackend, NullBackend};
use sakur4_core::llama::{
    snap_to_checkpoint, BackendSpec, CapabilitySet, CheckpointKind, CheckpointRef, SnapReason,
};

fn cps(positions: &[(i64, CheckpointKind)]) -> Vec<CheckpointRef> {
    positions
        .iter()
        .enumerate()
        .map(|(i, (p, k))| CheckpointRef {
            id: format!("c{i}"),
            token_position: *p,
            kind: *k,
            size_bytes: None,
        })
        .collect()
}

#[test]
fn spec_parsing_covers_every_documented_form() {
    assert!(matches!(BackendSpec::parse("auto"), BackendSpec::Auto));
    assert!(matches!(BackendSpec::parse(""), BackendSpec::Auto));
    assert!(matches!(BackendSpec::parse("embedded"), BackendSpec::Embedded));
    assert!(matches!(BackendSpec::parse("sakur4://embedded"), BackendSpec::Embedded));
    assert!(matches!(BackendSpec::parse("none"), BackendSpec::Disabled));
    match BackendSpec::parse("http://10.0.0.5:8080/") {
        BackendSpec::Url(u) => assert_eq!(u, "http://10.0.0.5:8080"),
        other => panic!("{other:?}"),
    }
}

#[test]
fn default_capabilities_are_pessimistic() {
    let caps = CapabilitySet::default();
    assert!(!caps.reachable);
    assert!(!caps.can_align_boundaries());
    assert!(!caps.can_restore());
    assert_eq!(caps.summary(), "unreachable");
}

#[test]
fn snap_prefers_latest_checkpoint_at_or_before() {
    let ring = cps(&[
        (100, CheckpointKind::Internal),
        (900, CheckpointKind::Internal),
        (1200, CheckpointKind::Internal),
    ]);
    let (pos, reason) = snap_to_checkpoint(1000, &ring, 512).unwrap();
    assert_eq!(pos, 900);
    assert_eq!(reason.delta(), 100);
    assert_eq!(reason, SnapReason::InternalCheckpoint { delta: 100 });
}

#[test]
fn snap_refuses_when_the_gap_exceeds_tolerance() {
    let ring = cps(&[(100, CheckpointKind::Internal), (900, CheckpointKind::Internal)]);
    // 900 is the latest checkpoint at or before each of these cuts.
    assert!(snap_to_checkpoint(2000, &ring, 512).is_none(), "gap 1100 > 512");
    assert!(snap_to_checkpoint(1413, &ring, 512).is_none(), "gap 513 > 512");
    // Exactly at the tolerance is inside it: the boundary is inclusive, so a
    // 512-token budget buys a full 512-token snap.
    assert!(snap_to_checkpoint(1412, &ring, 512).is_some(), "gap 512 == 512");
    assert!(snap_to_checkpoint(1400, &ring, 512).is_some(), "gap 500 < 512");
}

#[test]
fn snap_never_selects_a_checkpoint_after_the_cut() {
    // A checkpoint beyond the cut would mean re-prefilling the gap, which
    // defeats the purpose; the correct answer is the earlier one.
    let ring = cps(&[(800, CheckpointKind::Internal), (1100, CheckpointKind::Internal)]);
    let (pos, _) = snap_to_checkpoint(1000, &ring, 512).unwrap();
    assert_eq!(pos, 800);
}

#[test]
fn snap_requires_a_usable_candidate() {
    assert!(snap_to_checkpoint(1000, &[], 512).is_none());
    assert!(snap_to_checkpoint(0, &cps(&[(10, CheckpointKind::Internal)]), 512).is_none());
    // Only a zero-position checkpoint exists: nothing to snap back onto.
    assert!(snap_to_checkpoint(100, &cps(&[(0, CheckpointKind::Internal)]), 512).is_none());
}

#[test]
fn ring_is_regenerated_and_capped() {
    let mut b = EmbeddedBackend::new().with_ring(100, 3);
    b.advance_to(1000);
    let st = b.slot_state("0");
    assert_eq!(st.n_past, 1000);
    assert_eq!(
        st.checkpoints
            .iter()
            .map(|c| c.token_position)
            .collect::<Vec<_>>(),
        vec![800, 900, 1000],
        "only the most recent ring entries survive"
    );
}

#[test]
fn rewrite_clears_the_ring_like_a_prefix_divergence() {
    let mut b = EmbeddedBackend::new().with_ring(100, 8);
    b.advance_to(500);
    assert!(!b.slot_state("0").checkpoints.is_empty());
    b.simulate_rewrite(120);
    let st = b.slot_state("0");
    assert_eq!(st.n_past, 120);
    assert!(st.checkpoints.is_empty());
    assert!(b.was_rewritten());
}

#[test]
fn embedded_capabilities_support_the_full_ccl_path() {
    let caps = EmbeddedBackend::new().capabilities();
    assert!(caps.can_align_boundaries());
    assert!(caps.can_restore());
    assert!(caps.can_tokenize());
    assert!(!caps.partial_state_only);
    assert!(caps.summary().contains("checkpoint-ring"));
}

#[test]
fn snap_works_against_the_embedded_ring() {
    let mut b = EmbeddedBackend::new().with_ring(100, 8);
    b.advance_to(5000);
    let st = b.slot_state("0");
    let (aligned, reason) = snap_to_checkpoint(4300, &st.checkpoints, 512).unwrap();
    assert_eq!(aligned, 4300);
    assert_eq!(reason.delta(), 0);
}

#[test]
fn null_backend_reports_every_capability_false() {
    let caps = NullBackend::new().capabilities();
    assert!(!caps.reachable);
    assert!(!caps.can_align_boundaries());
    assert!(NullBackend::new().slot_state("0").is_err());
}

#[test]
fn a_saved_slot_is_restored_to_where_it_was() {
    let mut b = EmbeddedBackend::new().with_ring(100, 8);
    b.advance_to(700);
    let saved = b.save_slot();
    assert_eq!((saved.n_past, saved.checkpoints.len()), (700, 7));
    let ring: Vec<i64> = b.slot_state("0").checkpoints.iter().map(|c| c.token_position).collect();
    assert_eq!(saved.checkpoints, ring);
    b.erase_slot();
    assert_eq!(b.slot_state("0").n_past, 0);
    let out = b.restore_slot("0", Some(saved.n_past), "s0.json", 2);
    assert!(out.restored);
    assert_eq!(out.detail, "embedded slot 0 restored to 700 tokens from s0.json");
    assert_eq!(b.slot_state("0").n_past, 700);
    assert_eq!(b.models(), vec!["sakur4-embedded"]);
}
