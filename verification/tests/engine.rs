//! The configuration of an engine and what it decides from it.

use sakur4_core::engine::{DbStats, Engine, EngineConfig, Overrides, PartReports};
use sakur4_core::ids::short_hash_str;
use sakur4_core::llama::embedded::{EmbeddedBackend, NullBackend};
use sakur4_core::llama::BackendSpec;
use sakur4_core::tokens::TokenCounter;

fn nothing_set() -> Overrides {
    Overrides { db: None, backend: None, project_root: None, embed_url: None, embed_model: None }
}

#[test]
fn defaults_can_be_overridden_by_the_environment() {
    let base = EngineConfig::default();
    assert_eq!((base.db_path.as_str(), base.backend.as_str()), ("sakur4.db", "auto"));
    let env = Overrides {
        db: Some(":memory:".into()),
        backend: Some("  ".into()),
        project_root: Some("/repo".into()),
        ..nothing_set()
    };
    let c = base.with_env(&env);
    assert_eq!(c.db_path, ":memory:");
    assert!(c.in_memory());
    assert_eq!(c.backend, "auto", "a blank setting changes nothing");
    assert_eq!(c.project_root.as_deref(), Some("/repo"));
    assert_eq!(c.embed_url, None);
    assert_eq!(c.default_n_ctx, 32_768);
    let c = c.with_env(&nothing_set());
    assert_eq!(c.db_path, ":memory:");
}

#[test]
fn every_default_is_what_it_is_said_to_be() {
    let c = EngineConfig::default();
    assert_eq!(c.eviction.keep_prefix_tokens, 0);
    assert_eq!(c.eviction.cache_prefix_reserve_tokens, 4096);
    assert_eq!(c.eviction.keep_recent_tokens, 4096);
    assert_eq!(c.eviction.cache_prefix_max_tokens, 8192);
    assert!(!c.eviction.allow_drop && c.eviction.cache_align);
    assert_eq!(c.eviction.max_tier_step, 1);
    assert_eq!(c.coherence.snap_tolerance_tokens, 512);
    assert!(c.coherence.snapshot_before_rewrite && !c.coherence.snapshot_even_when_aligned);
    assert_eq!(c.coherence.snapshot_retention_per_slot, 4);
    assert_eq!(c.coherence.min_free_disk_bytes, 2 * 1024 * 1024 * 1024);
    assert_eq!(c.recall.candidates_per_retriever, 30);
    assert_eq!((c.recall.default_k, c.recall.max_item_tokens), (8, 2_000));
    assert!(c.recall.include_archived);
}

#[test]
fn a_project_is_named_after_its_root() {
    let mut c = EngineConfig::default();
    assert_eq!(c.resolved_project_id(), "proj_default");
    c.project_root = Some("/repo".into());
    assert_eq!(c.resolved_project_id(), format!("proj_{}", short_hash_str("/repo")));
    c.project_id = Some("mine".into());
    assert_eq!(c.resolved_project_id(), "mine");
}

#[test]
fn the_window_is_what_the_server_reports_or_what_is_configured() {
    let c = EngineConfig { backend: "embedded".into(), ..EngineConfig::default() };
    let engine = Engine::open(c, TokenCounter::heuristic(), "chosen");
    assert!(matches!(engine.requested_backend(), BackendSpec::Embedded));
    assert_eq!(engine.backend_note(), "chosen");
    assert_eq!(engine.project_id(), "proj_default");
    assert_eq!(engine.config().default_n_ctx, 32_768);
    let backend = EmbeddedBackend::new().with_n_ctx(4096);
    let state = backend.slot_state("0");
    assert_eq!(engine.context_window(&backend.capabilities(), Some(&state)), 4096);
    assert_eq!(engine.context_window(&backend.capabilities(), None), 32_768);
    let null = NullBackend::new();
    assert_eq!(engine.context_window(&null.capabilities(), Some(&state)), 32_768);
}

#[test]
fn a_status_collects_what_the_parts_report() {
    let engine = Engine::open(EngineConfig::default(), TokenCounter::heuristic(), "note");
    let backend = EmbeddedBackend::new();
    let status = engine.status(PartReports {
        backend_name: "embedded".into(),
        backend_spec: "sakur4://embedded".into(),
        capabilities: backend.capabilities(),
        embedder: "e".into(),
        repo_files: 3,
        db: DbStats { episodes: 7, symbolic_facts: 4, semantic_entries: 2, anchors: 1 },
        recall_backends: vec!["bm25".into()],
    });
    assert_eq!(status.cache_summary, backend.capabilities().summary());
    assert_eq!(status.tokenizer, engine.tokens().kind().as_str());
    assert_eq!((status.repo_files, status.symbolic_facts), (3, 4));
    assert_eq!((status.db.episodes, status.db.semantic_entries, status.db.anchors), (7, 2, 1));
    assert_eq!(status.project_id, "proj_default");
    assert_eq!(status.backend_note, "note");
}
