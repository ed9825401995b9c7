//! The atlas: summaries, their anchors and their staleness.

use sakur4_core::error::Error;
use sakur4_core::ids::short_hash_str;
use sakur4_core::memory::fabric::MemoryFabric;
use sakur4_core::memory::semantic::{
    new_atlas_id, stamped_now, AnchorReading, AnchorType, AtlasRow, SemanticEntry, SemanticWrite, StaleReason,
    StalenessReport,
};

fn entry(recorded: &str, current: Option<&str>) -> SemanticEntry {
    SemanticEntry::from_row(
        "atlas_1".into(),
        "f() validates the user id".into(),
        AnchorType::SymbolicFact,
        "sym_1".into(),
        recorded.into(),
        current.map(String::from),
        Some("aux-model".into()),
        None,
        None,
        "2026-09-12T00:00:00Z".into(),
    )
}

#[test]
fn fresh_when_hashes_match() {
    let e = entry("abc", Some("abc"));
    assert!(!e.is_stale);
    assert_eq!(e.staleness_marker(), "");
    assert_eq!(e.render_for_prompt(), "f() validates the user id");
}

#[test]
fn stale_when_the_anchor_changed() {
    let e = entry("abc", Some("def"));
    assert!(e.is_stale);
    assert_eq!(e.staleness_marker(), "[STALE]");
    let rendered = e.render_for_prompt();
    assert!(rendered.contains("[STALE SUMMARY"));
    assert!(rendered.contains("do not trust"));
}

#[test]
fn a_deleted_anchor_is_stale_not_fresh() {
    let e = entry("abc", None);
    assert!(
        e.is_stale,
        "a summary of something that no longer exists must never render as fact"
    );
}

#[test]
fn writes_require_an_anchor() {
    let mut w = SemanticWrite::on_fact("summary", "");
    assert!(matches!(w.validate(), Err(Error::Integrity(_))));
    w.anchor_id = "sym_1".into();
    assert!(w.validate().is_ok());
}

#[test]
fn writes_require_content() {
    let w = SemanticWrite::on_fact("   ", "sym_1");
    assert!(w.validate().is_err());
}

#[test]
fn extra_anchors_are_recorded_on_the_write() {
    let w = SemanticWrite::on_episode("summary", "ep_1")
        .also_anchored_to(AnchorType::SymbolicFact, "sym_9");
    assert_eq!(w.extra_anchors.len(), 1);
    assert_eq!(w.anchor_type, AnchorType::EpisodicStream);
}

#[test]
fn an_empty_atlas_is_clean() {
    let r = StalenessReport { total: 0, stale: 0, deleted_anchors: 0, entries: Vec::new() };
    assert!(r.is_clean());
}

fn row(id: &str, current: Option<&str>) -> AtlasRow {
    AtlasRow {
        atlas_id: id.into(),
        anchor_type: "symbolic_fact".into(),
        anchor_id: "sym_1".into(),
        recorded_hash: "abc".into(),
        current_hash: current.map(String::from),
        anchors: Vec::new(),
    }
}

fn reading(id: &str, recorded: Option<&str>, current: Option<&str>) -> AnchorReading {
    AnchorReading {
        anchor_type: AnchorType::EpisodicStream,
        anchor_id: id.into(),
        recorded: recorded.map(String::from),
        current: current.map(String::from),
    }
}

#[test]
fn every_anchor_takes_part_in_staleness() {
    let fabric = MemoryFabric::new();
    let stale = |anchors: Vec<AnchorReading>| {
        fabric.semantic_entry("atlas_1", Some(entry("a", Some("a"))), anchors).unwrap().is_stale
    };
    assert!(!stale(vec![]));
    assert!(!stale(vec![reading("ep_1", Some("x"), Some("x"))]));
    assert!(!stale(vec![reading("ep_1", None, Some("x"))]), "nothing was recorded to differ from");
    assert!(stale(vec![reading("ep_1", Some("x"), Some("x")), reading("ep_2", Some("x"), None)]));
    assert!(stale(vec![reading("ep_1", Some("x"), Some("y"))]));
    let again = reading("ep_1", Some("x"), Some("y")).refreshed();
    assert_eq!(again.recorded.as_deref(), Some("y"));
    assert!(!stale(vec![again]));
    assert!(reading("ep_1", Some("x"), None).refreshed().drifted());
}

#[test]
fn a_report_names_the_anchor_that_drifted() {
    let mut fresh = row("a", Some("abc"));
    fresh.anchors = vec![reading("ep_1", Some("x"), Some("x")), reading("ep_2", Some("x"), None)];
    let mut own = row("b", Some("def"));
    own.anchors = vec![reading("ep_3", Some("x"), None)];
    let report = MemoryFabric::new().staleness_report(vec![fresh, own], 8).unwrap();
    assert_eq!((report.total, report.stale, report.deleted_anchors), (2, 2, 1));
    assert_eq!(report.entries[0].anchor_id, "ep_2");
    assert_eq!(report.entries[0].anchor_type, AnchorType::EpisodicStream);
    assert_eq!(report.entries[0].reason, StaleReason::AnchorDeleted);
    assert_eq!(report.entries[1].anchor_id, "sym_1");
    assert_eq!(report.entries[1].reason, StaleReason::AnchorChanged);
}

#[test]
fn the_own_anchor_comes_first() {
    let own = AnchorReading { anchor_type: AnchorType::SymbolicFact, ..reading("sym_1", None, None) };
    let anchors = vec![reading("ep_2", None, Some("x")), own, reading("ep_3", None, Some("x"))];
    let found = MemoryFabric::new()
        .semantic_entry("atlas_1", Some(entry("a", Some("a"))), anchors)
        .unwrap();
    let ids: Vec<&str> = found.anchors.iter().map(|a| a.1.as_str()).collect();
    assert_eq!(ids, ["sym_1", "ep_2", "ep_3"]);
    assert!(!found.is_stale, "the own anchor is measured by the entry itself");
}

#[test]
fn a_staleness_report_tells_changed_from_deleted() {
    let fabric = MemoryFabric::new();
    let rows = vec![
        row("f", Some("abc")),
        row("a", Some("def")),
        row("g", Some("abc")),
        row("b", None),
        row("h", Some("abc")),
    ];
    let report = fabric.staleness_report(rows, 64).expect("known anchor types");
    assert_eq!((report.total, report.stale, report.deleted_anchors), (5, 2, 1));
    assert_eq!(report.entries[0].atlas_id, "a");
    assert!(matches!(report.entries[0].reason, StaleReason::AnchorChanged));
    assert_eq!(report.entries[1].atlas_id, "b");
    assert!(matches!(report.entries[1].reason, StaleReason::AnchorDeleted));
    assert!(!report.is_clean());
    let odd = AtlasRow { anchor_type: "nonsense".into(), ..row("c", None) };
    let Err(Error::Invalid(m)) = fabric.staleness_report(vec![odd], 64) else {
        panic!("an entry anchored nowhere is an error");
    };
    assert_eq!(m, "unknown anchor type: nonsense");
    let fresh = fabric.staleness_report(vec![row("a", Some("abc"))], 64).unwrap();
    assert!(fresh.is_clean() && fresh.total == 1);
}

#[test]
fn a_staleness_report_counts_beyond_what_it_lists() {
    let fabric = MemoryFabric::new();
    let rows: Vec<AtlasRow> = (0..100).map(|i| row(&format!("atlas_{i}"), None)).collect();
    let report = fabric.staleness_report(rows, 10).unwrap();
    assert_eq!((report.total, report.stale, report.deleted_anchors), (100, 100, 100));
    assert_eq!(report.entries.len(), 10);
    for e in &report.entries {
        assert_eq!(e.reason == StaleReason::AnchorDeleted, e.current_hash.is_none());
    }
    let none_listed = fabric.staleness_report(vec![row("a", None)], 0).unwrap();
    assert_eq!((none_listed.stale, none_listed.entries.len()), (1, 0));
}

#[test]
fn a_write_is_resolved_against_its_anchors() {
    let w = SemanticWrite::on_fact("summary", "sym_1")
        .also_anchored_to(AnchorType::EpisodicStream, "ep_2");
    let extra = [Some("0000000000000002".to_string())];
    let resolved = w.resolve(Some("hash"), &extra).expect("the anchor exists");
    assert_eq!(resolved.recorded_hash, "hash");
    assert!(resolved.atlas_id.starts_with("atlas_"));
    assert_eq!(resolved.edges.len(), 2);
    assert_eq!(resolved.edges[0].target_hash, None);
    assert_eq!(resolved.edges[1].target_hash.as_deref(), Some("0000000000000002"));
    assert!(matches!(w.resolve(None, &extra), Err(Error::Integrity(_))));
}

#[test]
fn refreshing_needs_the_anchor() {
    let e = entry("abc", Some("def"));
    assert_eq!(e.refresh(Some("def")).unwrap(), "def");
    assert!(matches!(e.refresh(None), Err(Error::Integrity(_))));
}

#[test]
fn anchor_types_are_told_by_their_names() {
    for t in [AnchorType::SymbolicFact, AnchorType::EpisodicStream] {
        assert_eq!(AnchorType::parse(t.as_str()).unwrap(), t);
        assert_eq!(AnchorType::from_stored(t.as_str()), t);
        assert_eq!(t.node("x").id, "x");
    }
    assert!(AnchorType::parse("nope").is_err());
    assert_ne!(AnchorType::SymbolicFact.id_prefix(), AnchorType::EpisodicStream.id_prefix());
    assert!(new_atlas_id().starts_with("atlas_"));
    assert!(stamped_now().ends_with('Z'));
    assert_eq!(entry("a", None).content_hash(), short_hash_str("f() validates the user id"));
}

#[test]
fn an_entry_is_fresh_until_its_anchor_changes() {
    let fabric = MemoryFabric::new();
    let w = SemanticWrite::on_fact("f() validates the user id", "sym_1");
    let written = fabric.put_semantic(&w, Some("abc"), &[]).expect("the anchor exists");
    assert!(!entry(&written.recorded_hash, Some("abc")).is_stale);
    let drifted = entry(&written.recorded_hash, Some("def"));
    assert!(drifted.is_stale);
    let anew = drifted.refresh(Some("def")).unwrap();
    assert!(!entry(&anew, Some("def")).is_stale);
    assert!(entry(&anew, None).is_stale);
}

#[test]
fn an_unacceptable_summary_is_refused_before_its_anchors_are_looked_at() {
    let fabric = MemoryFabric::new();
    let blank = SemanticWrite::on_fact(" ", "sym_1");
    assert!(matches!(fabric.put_semantic(&blank, None, &[]), Err(Error::Invalid(_))));
    let long = SemanticWrite::on_fact(&"x".repeat(32_001), "sym_1");
    match fabric.put_semantic(&long, Some("abc"), &[]) {
        Err(Error::Invalid(m)) => assert!(m.contains("32001 characters")),
        other => panic!("expected a refusal, got {other:?}"),
    }
    let dangling = SemanticWrite::on_fact("summary", "sym_1")
        .also_anchored_to(AnchorType::EpisodicStream, "ep_9");
    match fabric.put_semantic(&dangling, Some("abc"), &[None]) {
        Err(Error::Integrity(m)) => assert!(m.contains("episodic_stream (ep_9)")),
        other => panic!("expected a refusal, got {other:?}"),
    }
}

#[test]
fn a_summary_that_is_not_there_is_not_found() {
    let fabric = MemoryFabric::new();
    let anchors = vec![reading("ep_1", Some("x"), Some("x"))];
    let found = fabric.semantic_entry("atlas_1", Some(entry("a", Some("a"))), anchors).unwrap();
    assert_eq!(found.anchors.len(), 2);
    match fabric.semantic_entry("atlas_2", None, Vec::new()) {
        Err(Error::NotFound(m)) => assert_eq!(m, "semantic entry atlas_2"),
        other => panic!("expected nothing, got {other:?}"),
    }
}
