//! What is recalled, in which order, and how stale summaries are shown.

use sakur4_core::memory::dependency::{EdgeKind, NodeRef};
use sakur4_core::memory::episodic::{EpisodeRow, EpisodeTier};
use sakur4_core::memory::semantic::{AnchorType, SemanticEntry};
use sakur4_core::memory::symbolic::{FactKind, FactSource, SymbolicFact, SymbolicWrite};
use sakur4_core::recall::candidates::{Accum, Candidates};
use sakur4_core::recall::terms::{overlap, terms};
use sakur4_core::recall::{
    lexical_only_note, recall_edge_kinds, HitKind, RecallEngine, RecallFilters, RecallHit,
    RecallPolicy, RerankFigures, Retriever, Score,
};
use sakur4_core::tokens::{CharTokenizer, TokenCounter};

fn engine() -> RecallEngine {
    RecallEngine::new(
        RecallPolicy::default(),
        TokenCounter::new(CharTokenizer { chars_per_token: 4 }),
    )
}

fn episode(id: &str, session: &str, content: &str) -> EpisodeRow {
    EpisodeRow {
        episode_id: id.into(),
        seq: 1,
        session_id: session.into(),
        slot_id: None,
        role: "user".into(),
        content: content.into(),
        tool_name: None,
        token_count: 1,
        created_at: "2026-09-12T00:00:00Z".into(),
        fold_id: None,
        eviction_tier: EpisodeTier::Live,
        droppable: false,
        superseded_by: None,
        project_id: None,
    }
}

fn fact(name: &str, signature: &str) -> SymbolicFact {
    SymbolicWrite::new(FactKind::Function, name)
        .at_path("src/auth.rs")
        .signature(signature)
        .into_fact(FactSource::TreeSitter, Some("p1".into()))
}

fn entry(content: &str, anchor: &str, current: Option<&str>) -> SemanticEntry {
    SemanticEntry::from_row(
        "atlas_1".into(),
        content.into(),
        AnchorType::SymbolicFact,
        anchor.into(),
        "old".into(),
        current.map(String::from),
        None,
        Some("p1".into()),
        None,
        "2026-09-12T00:00:00Z".into(),
    )
}

fn fused(found: &Accum) -> f64 {
    found
        .evidence
        .iter()
        .map(|e| {
            let weight = match e.retriever {
                Retriever::Bm25 => 1.0,
                Retriever::Vector => 0.8,
                Retriever::Graph => 0.6,
            };
            weight / (10.0 + e.rank as f64)
        })
        .sum()
}

/// Weighs a hit by its ranks and features.
fn weigh(e: &RecallEngine, hit: RecallHit, found: &Accum, query: &str) -> RecallHit {
    let words = terms(query);
    let f = e.rerank_features(&words, &hit, found);
    let bonus = f.overlap as f64 / f.words as f64 * 0.5;
    let mut score = fused(found) + bonus;
    if f.agreeing > 1 {
        score += 0.25 * (f.agreeing - 1) as f64;
    }
    score += match f.kind {
        HitKind::SymbolicFact => 0.2,
        HitKind::SemanticEntry => -0.1,
        HitKind::Episode => 0.0,
    };
    if hit.stale {
        score *= 0.35;
    }
    let figures = RerankFigures {
        overlap_bonus: format!("{bonus:.2}"),
        stale_penalty: "0.35".into(),
        score: Score { key: (score * 1e12) as i64, text: format!("{score:.3}") },
    };
    e.rerank(hit, found, f, figures)
}

fn accum(kind: HitKind, id: &str, evidence: &[(Retriever, usize)]) -> Accum {
    let mut c = Candidates::new();
    for (retriever, rank) in evidence {
        c.add(kind, id, *retriever, *rank);
    }
    c.into_list().pop().unwrap()
}

#[test]
fn recall_finds_episodes_by_lexical_overlap() {
    let e = engine();
    let close = episode("a", "s1", "the cache coherence layer snaps eviction boundaries");
    let far = episode("b", "s1", "unrelated chatter about lunch");
    let mut c = Candidates::new();
    c.episodes(&vec!["b".into(), "a".into()]);
    let filters = RecallFilters::default();
    let mut hits = Vec::new();
    for found in c.into_list() {
        let row = if found.id == "a" { &close } else { &far };
        let hit = e.episode_hit(row, &filters).unwrap();
        hits.push(weigh(&e, hit, &found, "eviction boundaries"));
    }
    let res = e.recall("eviction boundaries", None, hits, vec![], vec![]);
    assert!(!res.hits.is_empty());
    assert!(res.hits[0].rendered.contains("snaps eviction boundaries"));
    assert_eq!(res.token_cost(), res.hits.iter().map(|h| h.token_cost).sum::<usize>());
}

#[test]
fn empty_query_returns_nothing_rather_than_everything() {
    assert!(terms("   ").is_empty());
    let e = engine();
    let res = e.recall("   ", None, Vec::new(), vec![], vec![]);
    assert!(res.hits.is_empty());
    assert_eq!(res.render(), "");
}

#[test]
fn staleness_regression_edit_a_function_then_query_for_it() {
    let e = engine();
    let summary = "checkUser validates a user by email address";
    let fresh = entry(summary, "sym_1", Some("old"));
    assert!(!fresh.is_stale, "a freshly written summary is not stale");

    let now = fact("auth::checkUser", "fn checkUser(id: UserId) -> Result<User>");
    let stale = entry(summary, &now.fact_id, Some(&now.ast_hash));
    let replacement = e.current_anchor_content(&stale, Some(&now), None);
    let hit = e.entry_hit(&stale, &RecallFilters::default(), replacement).unwrap();
    assert!(hit.stale, "[STALE] flag missing");
    assert!(hit.rendered.contains("[STALE"), "a stale summary must never render bare");
    let replacement = hit.stale_replacement.as_ref().expect("current content must be attached");
    assert!(replacement.contains("UserId"));
    assert!(!replacement.contains("email"), "must not repeat the stale signature");

    let res = e.recall("checkUser", None, vec![hit], vec![], vec![]);
    assert!(res.stale_superseded.contains(&stale.atlas_id));
    assert!(res.notes.iter().any(|n| n.contains("stale")));
}

#[test]
fn deleted_anchor_is_treated_as_stale() {
    let e = engine();
    let gone = entry("a summary of gone()", "sym_gone", None);
    assert!(gone.is_stale);
    let replacement = e.current_anchor_content(&gone, None, None);
    assert!(replacement.is_none());
    let hit = e.hit_from_semantic(&gone, replacement);
    assert!(hit.reasons.iter().any(|r| r.contains("no longer exists")));
}

#[test]
fn a_non_stale_summary_is_not_penalised() {
    let e = engine();
    let fresh = entry("stable returns a constant", "sym_1", Some("old"));
    let hit = e.entry_hit(&fresh, &RecallFilters::default(), Some("ignored".into())).unwrap();
    let found = accum(HitKind::SemanticEntry, "atlas_1", &[(Retriever::Bm25, 0)]);
    let hit = weigh(&e, hit, &found, "stable");
    assert!(!hit.stale);
    assert!(hit.stale_replacement.is_none());
    assert!(!hit.reasons.iter().any(|r| r.contains("penalised")));
}

#[test]
fn symbolic_hits_are_ranked_above_interpretations_at_equal_relevance() {
    let e = engine();
    let f = fact("auth::validate", "fn validate(id: UserId) -> bool");
    let filters = RecallFilters::default();
    let evidence = [(Retriever::Bm25, 0)];
    let one = weigh(
        &e,
        e.fact_hit(&f, &filters).unwrap(),
        &accum(HitKind::SymbolicFact, "f", &evidence),
        "validate",
    );
    let two = weigh(
        &e,
        e.entry_hit(&entry("validate checks a user", "sym_1", Some("old")), &filters, None)
            .unwrap(),
        &accum(HitKind::SemanticEntry, "atlas_1", &evidence),
        "validate",
    );
    let ranked = e.rank(vec![two, one], 8);
    assert_eq!(ranked[0].kind, HitKind::SymbolicFact, "ground truth must outrank interpretation");
}

#[test]
fn evicted_episodes_are_still_recallable_verbatim() {
    let e = engine();
    let body = "the exact bytes of a tool result that must survive";
    let mut row = episode("a", "s1", body);
    row.eviction_tier = EpisodeTier::Archived;
    let hit = e.recall_episode(&row);
    assert_eq!(hit.rendered, body, "round-trip integrity");
    assert!(hit.reasons.iter().any(|r| r.contains("original bytes")));
    let searched = e.episode_hit(&row, &RecallFilters::default()).unwrap();
    assert_eq!(searched.rendered, body);
    assert!(searched.reasons.iter().any(|r| r.contains("restored verbatim")));
}

#[test]
fn filters_restrict_by_session() {
    let e = engine();
    let filters = RecallFilters { session_id: Some("s2".into()), ..Default::default() };
    assert!(e.episode_hit(&episode("a", "s1", "alpha content here"), &filters).is_none());
    assert!(e.episode_hit(&episode("b", "s2", "alpha content here"), &filters).is_some());
}

#[test]
fn filters_restrict_by_file_project_fold_and_tier() {
    let e = engine();
    let f = fact("m::f", "fn f()");
    let here = RecallFilters { file_path: Some("src/auth.rs".into()), ..Default::default() };
    let there = RecallFilters { file_path: Some("src/other.rs".into()), ..Default::default() };
    assert!(e.fact_hit(&f, &here).is_some());
    assert!(e.fact_hit(&f, &there).is_none());
    let other = RecallFilters { project_id: Some("p2".into()), ..Default::default() };
    assert!(e.entry_hit(&entry("x", "sym_1", None), &other, None).is_none());

    let mut row = episode("a", "s1", "text");
    row.project_id = None;
    assert!(e.episode_hit(&row, &other).is_none());
    assert!(e.episode_hit(&row, &RecallFilters::default()).is_some());
    row.project_id = Some("p1".into());
    assert!(e.episode_hit(&row, &other).is_none());
    row.project_id = Some("p2".into());
    assert!(e.episode_hit(&row, &other).is_some());

    row.fold_id = Some("fold_1".into());
    assert!(e.episode_hit(&row, &RecallFilters::default()).is_none());
    let folded = RecallFilters { include_folded: Some(true), ..Default::default() };
    assert!(folded.wants_folded());
    assert!(e.episode_hit(&row, &folded).is_some());
    row.fold_id = None;
    row.eviction_tier = EpisodeTier::Archived;
    let live_only = RecallFilters { include_archived: Some(false), ..Default::default() };
    assert!(e.episode_hit(&row, &live_only).is_none());
}

#[test]
fn result_set_renders_with_stale_replacements_inline() {
    let e = engine();
    let now = fact("staleness_probe_fn", "fn staleness_probe_fn(a: u64)");
    let stale = entry("staleness_probe_fn accepts a byte", "sym_1", Some("new"));
    let hit = e.hit_from_semantic(&stale, e.current_anchor_content(&stale, Some(&now), None));
    let res = e.recall("staleness_probe_fn", None, vec![hit], vec![], vec![]);
    let rendered = res.render();
    assert!(rendered.contains("RECALLED MEMORY"), "got:\n{rendered}");
    assert!(rendered.contains("STALE"), "got:\n{rendered}");
    assert!(rendered.contains("CURRENT VALUE"), "got:\n{rendered}");
    assert!(rendered.contains("u64"), "the current signature must be shown:\n{rendered}");
    assert!(rendered.starts_with(
        "=== RECALLED MEMORY ===\n[1] (semantic_entry · score 0.000 · STALE)\n    [STALE SUMMARY"
    ));
}

#[test]
fn active_backends_reports_what_is_actually_live() {
    let backends = engine().active_backends("sakur4-hashing-v1", false);
    assert!(backends.iter().any(|b| b.starts_with("bm25")));
    assert!(backends.iter().any(|b| b.starts_with("vector(")));
    assert!(backends.iter().any(|b| b == "graph"));
    assert_eq!(backends[1], "vector(sakur4-hashing-v1, deterministic)");
    assert_eq!(engine().active_backends("m", true)[1], "vector(m)");
}

#[test]
fn reciprocal_rank_fusion_favours_agreement_and_top_ranks() {
    let a = accum(HitKind::Episode, "x", &[(Retriever::Bm25, 0)]);
    let b = accum(HitKind::Episode, "x", &[(Retriever::Bm25, 5)]);
    assert!(fused(&a) > fused(&b));

    let both = accum(HitKind::Episode, "x", &[(Retriever::Bm25, 3), (Retriever::Vector, 3)]);
    let one = accum(HitKind::Episode, "x", &[(Retriever::Bm25, 3)]);
    assert!(fused(&both) > fused(&one));
    assert_eq!(both.retrievers().len(), 2);
}

#[test]
fn terms_ignore_short_and_non_alphanumeric_tokens() {
    assert_eq!(terms("a bb ccc dddd"), vec!["ccc", "dddd"]);
    assert_eq!(terms("snake_case_name"), vec!["snake_case_name"]);
    assert!(terms("!!! ???").is_empty());
}

#[test]
fn terms_are_lowercase_and_measured_in_bytes() {
    assert_eq!(terms("CheckUser éé ÄB"), vec!["checkuser", "éé", "äb"]);
    assert_eq!(overlap(&terms("Alpha beta gamma"), "ALPHA and Gamma"), 2);
    assert_eq!(overlap(&Vec::new(), "anything"), 0);
}

#[test]
fn filters_default_to_everything() {
    let f = RecallFilters::default();
    assert!(f.wants(HitKind::Episode));
    assert!(f.wants(HitKind::SymbolicFact));
    assert!(f.wants(HitKind::SemanticEntry));
    let only = RecallFilters { kinds: Some(vec![HitKind::Episode]), ..Default::default() };
    assert!(only.wants(HitKind::Episode));
    assert!(!only.wants(HitKind::SymbolicFact));
}

#[test]
fn candidates_are_merged_by_what_they_are_for() {
    let mut c = Candidates::new();
    c.episodes(&vec!["a".into(), "b".into()]);
    c.entries(&vec!["a".into()]);
    c.vectors(&vec![
        ("semantic_atlas".into(), "a".into()),
        ("other".into(), "z".into()),
        ("symbolic_fact".into(), "f".into()),
    ]);
    assert_eq!(c.seeds(), vec![
        NodeRef::episode("a"),
        NodeRef::episode("b"),
        NodeRef::atlas("a"),
        NodeRef::fact("f"),
    ]);
    c.anchored(&vec!["a".into()]);
    c.neighbours(&vec![NodeRef::file("src/a.rs"), NodeRef::episode("b")]);
    let list = c.into_list();
    assert_eq!(list.len(), 4);
    let atlas = &list[2];
    assert_eq!((atlas.kind, atlas.id.as_str(), atlas.evidence.len()), (
        HitKind::SemanticEntry,
        "a",
        3
    ));
    assert_eq!(atlas.retrievers(), vec![Retriever::Bm25, Retriever::Vector, Retriever::Graph]);
    assert_eq!(list[3].evidence[0].rank, 2);
    assert_eq!(list[1].evidence[1].rank, 1);
}

#[test]
fn reasons_say_why_a_hit_ranks_where_it_does() {
    let e = engine();
    let stale = entry("alpha beta", "sym_1", Some("new"));
    let hit = e.hit_from_semantic(&stale, None);
    let found = accum(HitKind::SemanticEntry, "atlas_1", &[
        (Retriever::Bm25, 0),
        (Retriever::Vector, 1),
        (Retriever::Graph, 2),
    ]);
    let hit = weigh(&e, hit, &found, "alpha gamma");
    assert!(hit.reasons.contains(&"3 retrievers agree (+0.50)".to_string()));
    assert!(hit.reasons.contains(&"1 query term(s) present (+0.25)".to_string()));
    assert!(hit.reasons.contains(&"interpretation, not ground truth (−0.10)".to_string()));
    assert!(hit.reasons.last().unwrap().starts_with("penalised ×0.35"));
    assert_eq!(hit.token_cost, hit.rendered.chars().count().div_ceil(4));
}

#[test]
fn ties_are_broken_by_id_and_the_rest_is_cut() {
    let e = engine();
    let filters = RecallFilters::default();
    let hits: Vec<RecallHit> = ["c", "a", "b"]
        .iter()
        .map(|id| e.episode_hit(&episode(id, "s1", "x"), &filters).unwrap())
        .collect();
    let ranked = e.rank(hits, 2);
    let ids: Vec<&str> = ranked.iter().map(|h| h.id.as_str()).collect();
    assert_eq!(ids, vec!["a", "b"]);
    assert_eq!(e.result_count(None), 8);
    assert_eq!(e.result_count(Some(0)), 1);
    assert_eq!(e.result_count(Some(500)), 100);
}

#[test]
fn long_episodes_are_cut_in_a_search() {
    let policy = RecallPolicy { max_item_tokens: 2, ..Default::default() };
    let e = RecallEngine::new(policy, TokenCounter::heuristic());
    let hit = e.episode_hit(&episode("a", "s1", "0123456789"), &RecallFilters::default()).unwrap();
    assert_eq!(hit.rendered, "01234567\n… [truncated; recall by id for the full episode]");
    assert_eq!(e.policy().max_item_tokens, 2);
}

#[test]
fn facts_and_summaries_are_cut_as_well() {
    let policy = RecallPolicy { max_item_tokens: 2, ..Default::default() };
    let e = RecallEngine::new(policy, TokenCounter::heuristic());
    let long = fact("a_rather_long_name", "fn f()");
    let hit = e.fact_hit(&long, &RecallFilters::default()).unwrap();
    assert_eq!(hit.rendered, "a_rather\n… [truncated; recall by id for the full fact]");
    let fresh = entry("0123456789", "sym_1", Some("old"));
    assert!(!fresh.is_stale);
    let hit = e.hit_from_semantic(&fresh, None);
    assert_eq!(hit.rendered, "01234567\n… [truncated; recall by id for the full summary]");
    let stale = entry("0123456789", "sym_1", Some("new"));
    let hit = e.hit_from_semantic(&stale, None);
    assert!(hit.rendered.starts_with("[STALE SUMMARY — do not trust] 01234567\n…"));
    assert!(hit.rendered.contains("has changed since this summary was written"));
    assert!(!hit.rendered.contains("0123456789"));
}

#[test]
fn names_and_notes_are_fixed() {
    assert_eq!(Retriever::Graph.as_str(), "graph");
    assert_eq!(HitKind::SymbolicFact.as_str(), "symbolic_fact");
    assert_eq!(
        lexical_only_note("down"),
        "dense retrieval unavailable (down); results are lexical-only"
    );
    assert_eq!(recall_edge_kinds()[0], EdgeKind::DerivedFrom);
}
