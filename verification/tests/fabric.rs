//! Committing episodes and assembling the timeline.

use sakur4_core::error::Error;
use sakur4_core::ids::short_hash_str;
use sakur4_core::memory::anchor::{AnchorKind, AnchorRow, PinRequest};
use sakur4_core::memory::episodic::{EpisodeRow, EpisodeTier, NewEpisode};
use sakur4_core::memory::fabric::MemoryFabric;
use sakur4_core::memory::semantic::AnchorType;
use sakur4_core::memory::symbolic::{FactKind, FactSource, SymbolicWrite};
use sakur4_core::tokens::{CharTokenizer, TokenCounter};

fn counter() -> TokenCounter {
    TokenCounter::new(CharTokenizer { chars_per_token: 4 })
}

fn row(seq: i64, content: &str) -> EpisodeRow {
    EpisodeRow {
        episode_id: format!("ep_{seq}"),
        seq,
        session_id: "s1".into(),
        slot_id: None,
        role: "user".into(),
        content: content.into(),
        tool_name: None,
        token_count: counter().count(content).get() as i64,
        created_at: "2026-09-12T00:00:00Z".into(),
        fold_id: None,
        eviction_tier: EpisodeTier::Live,
        droppable: false,
        superseded_by: None,
        project_id: None,
    }
}

#[test]
fn a_commit_measures_the_episode_and_reads_its_structure() {
    let new = NewEpisode::tool_result("s1", "http", "id,name\n1,a\n2,b\n").with_project("p");
    let pending = MemoryFabric::new().commit_episode(&new, &counter(), true, false);
    assert!(pending.episode_id.starts_with("ep_"));
    assert_eq!(pending.token_count, 4);
    assert_eq!(pending.facts.len(), 2);
    assert_eq!(pending.edges.len(), 2);
    let out = pending.committed(9);
    assert_eq!((out.seq, out.facts_extracted), (9, 2));
    assert!(out.anchor_proposal.is_none());
}

#[test]
fn a_constraint_in_a_turn_is_proposed_as_an_anchor() {
    let new = NewEpisode::user("s1", "never force-push to main");
    let out = MemoryFabric::new().commit_episode(&new, &counter(), false, true).committed(1);
    assert!(out.anchor_proposal.is_some());
    let out = MemoryFabric::new().commit_episode(&new, &counter(), false, false).committed(1);
    assert!(out.anchor_proposal.is_none());
}

#[test]
fn a_timeline_keeps_the_newest_that_fit() {
    let rows: Vec<EpisodeRow> = (1..=5).map(|i| row(i, &"x".repeat(40))).collect();
    let fabric = MemoryFabric::new();
    let all = fabric.timeline(&rows, 10_000, &counter(), false);
    assert_eq!((all.episodes_total, all.episodes_included), (5, 5));
    assert_eq!((all.included_tokens, all.total_tokens, all.reclaimed_tokens), (50, 50, 0));
    let measured = counter().count(&all.rendered).get();
    assert_eq!(fabric.session_live_tokens(&rows, &counter()), measured);
    assert_eq!(measured, 60, "the rendering adds a speaker and a line end to each turn");
    let some = fabric.timeline(&rows, all.total_tokens / 2, &counter(), false);
    assert!(some.episodes_included < 5 && some.episodes_included > 0);
    assert!(some.included_tokens <= all.total_tokens / 2);
    assert!(some.items.last().unwrap().included, "the newest stays");
    assert!(!some.items[0].included);
}

#[test]
fn folded_episodes_are_left_out_unless_asked_for() {
    let mut rows = vec![row(1, "folded text"), row(2, "plain text")];
    rows[0].fold_id = Some("fold_1".into());
    let fabric = MemoryFabric::new();
    let without = fabric.timeline(&rows, 1000, &counter(), false);
    let with = fabric.timeline(&rows, 1000, &counter(), true);
    assert!(!without.rendered.contains("folded text"));
    assert!(with.rendered.contains("folded text"));
}

#[test]
fn changes_to_rows_that_do_not_exist_are_errors() {
    let fabric = MemoryFabric::new();
    assert!(fabric.set_tier("ep_1", 1).is_ok());
    assert!(matches!(fabric.set_tier("ep_1", 0), Err(Error::NotFound(_))));
    assert_eq!(fabric.mark_superseded("ep_1", "ep_2", 1).unwrap().src_id.len(), 4);
    assert!(matches!(fabric.mark_superseded("ep_1", "ep_2", 0), Err(Error::NotFound(_))));
}

#[test]
fn a_file_outline_lists_its_facts() {
    let fabric = MemoryFabric::new();
    assert_eq!(fabric.file_outline("src/a.rs", &[]), "");
    let fact = SymbolicWrite::new(FactKind::Function, "m::f")
        .signature("fn f()")
        .into_fact(FactSource::TreeSitter, None);
    let text = fabric.file_outline("src/a.rs", &[fact]);
    assert!(text.starts_with("src/a.rs\n"));
    assert!(text.contains("fn f()"));
}

#[test]
fn an_episode_that_is_not_there_is_not_found() {
    let fabric = MemoryFabric::new();
    assert_eq!(fabric.episode("ep_1", Some(row(1, "hello"))).unwrap().content, "hello");
    match fabric.episode("ep_2", None) {
        Err(Error::NotFound(m)) => assert_eq!(m, "episode ep_2"),
        other => panic!("expected nothing, got {other:?}"),
    }
}

#[test]
fn a_timeline_tells_what_eviction_reclaimed() {
    let mut rows: Vec<EpisodeRow> = (1..=3).map(|i| row(i, &"x".repeat(400))).collect();
    rows[0].eviction_tier = EpisodeTier::Archived;
    let timeline = MemoryFabric::new().timeline(&rows, 10_000, &counter(), false);
    assert_eq!(timeline.total_tokens, 300);
    assert_eq!(timeline.included_tokens, 200);
    assert_eq!(timeline.reclaimed_tokens, 100);
    assert_eq!(timeline.episodes_evicted, 1);
}

fn anchored(id: &str, kind: AnchorKind, session: Option<&str>) -> AnchorRow {
    let row = PinRequest::new(kind, id).into_row().expect("not blank");
    AnchorRow {
        anchor_id: id.into(),
        session_id: session.map(String::from),
        created_at: "2026-09-12T00:00:00Z".into(),
        ..row
    }
}

#[test]
fn anchors_are_listed_safety_first() {
    let rows = [
        anchored("b", AnchorKind::TaskContract, None),
        anchored("d", AnchorKind::SafetyConstraint, Some("s2")),
        anchored("c", AnchorKind::SafetyConstraint, Some("s1")),
        anchored("a", AnchorKind::SafetyConstraint, None),
    ];
    let fabric = MemoryFabric::new();
    let ids = |session: Option<&str>| -> Vec<String> {
        fabric.anchors(&rows, session).into_iter().map(|a| a.anchor_id).collect()
    };
    assert_eq!(ids(Some("s1")), ["a", "c", "b"]);
    assert_eq!(ids(None), ["a", "c", "d", "b"]);
}

#[test]
fn only_live_unfolded_episodes_may_be_evicted() {
    let mut rows = vec![row(4, "d"), row(1, "a"), row(2, "b"), row(3, "c")];
    rows[2].eviction_tier = EpisodeTier::Masked;
    rows[3].fold_id = Some("fold_1".into());
    let left: Vec<i64> =
        MemoryFabric::new().evictable_episodes(&rows).iter().map(|e| e.seq).collect();
    assert_eq!(left, [1, 4], "oldest first");
}

#[test]
fn an_anchor_is_hashed_by_what_it_holds() {
    let fabric = MemoryFabric::new();
    let fact = SymbolicWrite::new(FactKind::Function, "m::f")
        .into_fact(FactSource::ToolOutputParser, None);
    let of_fact = fabric.anchor_hash(AnchorType::SymbolicFact, Some(&fact), None);
    assert_eq!(of_fact.as_deref(), Some(fact.ast_hash.as_str()));
    let turn = row(7, "some content");
    let of_turn = fabric.anchor_hash(AnchorType::EpisodicStream, None, Some(&turn));
    assert_eq!(of_turn, Some(short_hash_str("some content")));
    assert_eq!(of_turn, Some(turn.content_hash()));
    let other = row(8, "some content");
    assert_eq!(fabric.anchor_hash(AnchorType::EpisodicStream, None, Some(&other)), of_turn);
    assert_eq!(fabric.anchor_hash(AnchorType::EpisodicStream, Some(&fact), None), None);
    assert_eq!(fabric.anchor_hash(AnchorType::SymbolicFact, None, Some(&turn)), None);
}
