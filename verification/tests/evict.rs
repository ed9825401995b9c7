//! Eviction plans, their application, and folds.

use sakur4_core::cache::plan::CoherenceAction;
use sakur4_core::cache::{Coherence, CoherenceConfig, RollBackMethod, RollBackOutcome, SlotReading};
use sakur4_core::error::Error;
use sakur4_core::evict::folds::{FoldRecord, UnfoldRequest};
use sakur4_core::evict::worth::{score_candidates, Worth};
use sakur4_core::evict::{
    anchor_tokens, EvictionEngine, EvictionPlan, EvictionPolicy, Pressure, Score, Situation,
    WindowBudget,
};
use sakur4_core::llama::embedded::EmbeddedBackend;
use sakur4_core::llama::{CheckpointKind, CheckpointRef};
use sakur4_core::memory::anchor::{AnchorKind, AnchorRow, PinRequest};
use sakur4_core::memory::episodic::{EpisodeRow, EpisodeTier};
use sakur4_core::memory::fabric::MemoryFabric;
use sakur4_core::prompt::PromptParts;
use sakur4_core::tokens::{CharTokenizer, TokenCounter};

fn counter() -> TokenCounter {
    TokenCounter::new(CharTokenizer { chars_per_token: 4 })
}

fn engine(policy: EvictionPolicy) -> EvictionEngine {
    EvictionEngine::new(policy, counter(), CoherenceConfig::default().snap_tolerance_tokens)
}

fn episode(seq: i64, content: String) -> EpisodeRow {
    EpisodeRow {
        episode_id: format!("ep_{seq}"),
        seq,
        session_id: "s1".into(),
        slot_id: Some("0".into()),
        role: "user".into(),
        token_count: counter().count(&content).get() as i64,
        content,
        tool_name: None,
        created_at: "2026-09-12T00:00:00Z".into(),
        fold_id: None,
        eviction_tier: EpisodeTier::Live,
        droppable: false,
        superseded_by: None,
        project_id: None,
    }
}

fn seed(n: usize, tokens: usize) -> Vec<EpisodeRow> {
    (1..=n).map(|i| episode(i as i64, "x".repeat(tokens * 4))).collect()
}

fn big_prompt(timeline_tokens: usize) -> PromptParts {
    PromptParts::new().with_system("system").with_timeline(&"t".repeat(timeline_tokens * 4))
}

/// The score as a float and the integer that orders like it.
fn weighed(w: &Worth) -> Score {
    let mut value = w.age_rank as f64 / w.age_span as f64 * 6.0;
    value += w.role_halves as f64 / 2.0;
    value += w.dependents_counted as f64 * 1.5;
    value -= (w.tokens as f64 / 2048.0).min(2.0);
    if w.superseded {
        value -= 3.0;
    }
    if w.droppable {
        value -= 1.0;
    }
    if w.in_fold {
        value += 3.0;
    }
    Score {
        value_key: (value * 1e9) as i64,
        value_text: format!("{value:.2}"),
        dependents: w.dependents,
        has_dependents: w.dependents > 0,
        notes: w.notes.clone(),
    }
}

fn budget(context_window: usize, live: usize) -> WindowBudget {
    WindowBudget {
        context_window,
        threshold: (context_window as f64 * 0.75).round() as usize,
        target: (context_window as f64 * 0.55).round() as usize,
        prefix_share: (live as f64 * 0.35) as usize,
    }
}

fn plan_with(
    engine: &EvictionEngine,
    episodes: &[EpisodeRow],
    dependents: &[usize],
    anchors: &[AnchorRow],
    parts: &PromptParts,
    context_window: usize,
    checkpoints: Option<&[CheckpointRef]>,
) -> Result<EvictionPlan, Error> {
    let live = parts.timeline_tokens(&engine.counter);
    let scores: Vec<Score> =
        score_candidates(episodes, dependents).iter().map(weighed).collect();
    engine.plan(&Situation {
        session_id: "s1",
        slot_id: "0",
        window: budget(context_window, live),
        parts,
        anchors,
        episodes,
        scores: &scores,
        checkpoints,
        partial_state_only: false,
    })
}

fn plan(episodes: &[EpisodeRow], parts: &PromptParts) -> EvictionPlan {
    let none = vec![0; episodes.len()];
    plan_with(
        &engine(EvictionPolicy::default()),
        episodes,
        &none,
        &[],
        parts,
        32_768,
        Some(&[]),
    )
    .unwrap()
}

#[test]
fn relaxed_pressure_produces_no_plan() {
    let plan = plan(&seed(5, 100), &big_prompt(500));
    assert_eq!(plan.pressure, Pressure::Relaxed);
    assert!(plan.is_empty());
    assert!(plan.notes[0].contains("below the"));
}

#[test]
fn pressure_triggers_and_the_plan_reclaims_toward_target() {
    let plan = plan(&seed(40, 1000), &big_prompt(40_000));
    assert_eq!(plan.pressure, Pressure::Compacting);
    assert!(!plan.is_empty(), "a 40k-token session must produce evictions");
    assert!(plan.planned_savings > 0);
    assert!(
        plan.token_after_plan() <= plan.threshold,
        "plan must at least return under the trigger"
    );
}

#[test]
fn evictions_escalate_one_tier_at_a_time() {
    let plan = plan(&seed(40, 1000), &big_prompt(40_000));
    for u in &plan.updates {
        assert_eq!(
            u.to.severity(),
            u.from.severity() + 1,
            "no tier may be skipped: {} → {}",
            u.from.as_str(),
            u.to.as_str()
        );
    }
}

#[test]
fn drop_is_never_selected_without_explicit_opt_in() {
    let plan = plan(&seed(60, 1000), &big_prompt(60_000));
    assert!(
        plan.updates.iter().all(|u| u.to != EpisodeTier::Dropped),
        "allow_drop defaults to false; nothing may be dropped"
    );
}

#[test]
fn round_trip_integrity_survives_the_harshest_plan() {
    let engine = engine(EvictionPolicy::default());
    let episodes = seed(40, 1000);
    let parts = big_prompt(40_000);
    let plan = plan(&episodes, &parts);
    let steps = engine.apply(&plan, &parts, &CoherenceConfig::default());
    // Applying a plan changes tiers and nothing else.
    assert_eq!(steps.tiers.len(), plan.updates.len());
    let after: Vec<EpisodeRow> = episodes
        .iter()
        .map(|e| {
            let mut e2 = e.clone();
            if let Some((_, tier)) = steps.tiers.iter().find(|(id, _)| *id == e.episode_id) {
                e2.eviction_tier = *tier;
            }
            e2
        })
        .collect();
    assert!(after.iter().zip(&episodes).all(|(a, b)| a.content == b.content));
    assert!(after.iter().any(|e| e.eviction_tier != EpisodeTier::Live));
}

#[test]
fn recent_context_is_never_evicted() {
    let episodes = seed(40, 1000);
    let plan = plan(&episodes, &big_prompt(40_000));
    let seq_of = |id: &str| episodes.iter().find(|e| e.episode_id == id).map(|e| e.seq);
    let newest_touched =
        plan.updates.iter().filter_map(|u| seq_of(&u.episode_id)).max().unwrap_or(0);
    assert!(newest_touched < 40, "newest evicted={newest_touched}");
    assert!(newest_touched <= 35, "five turns reach the budget of 4096");
    assert!(plan.retained_prefix_tokens > 0);
    assert!(engine(EvictionPolicy::default()).policy().keep_recent_tokens > 0);
}

#[test]
fn an_aligned_plan_says_whether_only_partial_state_is_kept() {
    let parts = big_prompt(40_000);
    let episodes = seed(40, 1000);
    let e = engine(EvictionPolicy::default());
    let scores: Vec<Score> =
        score_candidates(&episodes, &[0; 40]).iter().map(weighed).collect();
    for partial_state_only in [false, true] {
        let plan = e
            .plan(&Situation {
                session_id: "s1",
                slot_id: "0",
                window: budget(32_768, 40_000),
                parts: &parts,
                anchors: &[],
                episodes: &episodes,
                scores: &scores,
                checkpoints: Some(&[]),
                partial_state_only,
            })
            .unwrap();
        let coherence = plan.coherence.expect("cache alignment must be evaluated");
        assert_eq!(coherence.partial_state_only, partial_state_only);
    }
}

fn pinned(kind: AnchorKind, content: &str) -> AnchorRow {
    PinRequest::new(kind, content).into_row().unwrap()
}

#[test]
fn anchors_are_never_candidates_for_eviction() {
    let episodes = seed(40, 1000);
    let anchors = vec![pinned(AnchorKind::SafetyConstraint, "never force-push to main")];
    let e = engine(EvictionPolicy::default());
    let plan =
        plan_with(&e, &episodes, &[0; 40], &anchors, &big_prompt(40_000), 32_768, None).unwrap();
    assert!(plan.anchor_tokens > 0, "the pinned anchor must cost tokens");
    assert_eq!(plan.anchor_tokens, anchor_tokens(&anchors, &counter()));
    assert!(
        plan.updates.iter().all(|u| !u.episode_id.starts_with("anc_")),
        "no eviction update may reference an anchor"
    );
}

#[test]
fn anchor_overflow_is_a_visible_error_not_a_silent_drop() {
    let episodes = seed(5, 100);
    let anchors: Vec<AnchorRow> = (0..4)
        .map(|i| {
            pinned(AnchorKind::TaskContract, &format!("constraint {i}: {}", "y".repeat(2000)))
        })
        .collect();
    let e = engine(EvictionPolicy::default());
    let err = plan_with(&e, &episodes, &[0; 5], &anchors, &big_prompt(100), 1024, None)
        .unwrap_err();
    assert!(matches!(err, Error::BudgetOverflow(_)));
    assert!(err.to_string().contains("will not silently drop"));
    assert_eq!(
        e.assess(&budget(1024, 500), &big_prompt(100), &anchors),
        Pressure::AnchorOverflow
    );
}

#[test]
fn dependency_holds_a_large_tool_result_above_a_later_turn() {
    let mut episodes = vec![episode(1, "z".repeat(20_000)), episode(2, "w".repeat(400))];
    for e in seed(20, 1000) {
        episodes.push(episode(e.seq + 2, e.content));
    }
    let mut dependents = vec![0; episodes.len()];
    dependents[0] = 1;
    let e = engine(EvictionPolicy::default());
    let plan =
        plan_with(&e, &episodes, &dependents, &[], &big_prompt(41_000), 32_768, None).unwrap();
    if let Some(u) = plan.updates.iter().find(|u| u.episode_id == "ep_1") {
        assert!(u.to.severity() <= EpisodeTier::Masked.severity());
    }
}

#[test]
fn a_plan_carries_a_cache_verdict() {
    let mut backend = EmbeddedBackend::new().with_ring(256, 8);
    backend.advance_to(41_000);
    let state = backend.slot_state("0");
    let layer = Coherence::new(backend.capabilities(), CoherenceConfig::default());
    let usable = layer.usable_checkpoints(SlotReading::State(&state), &[]);
    let e = engine(EvictionPolicy::default());
    let plan = plan_with(
        &e,
        &seed(40, 1000),
        &[0; 40],
        &[],
        &big_prompt(40_000),
        32_768,
        Some(&usable),
    )
    .unwrap();
    let coherence = plan.coherence.expect("cache alignment must be evaluated");
    assert!(coherence.requested_cut > 0);
    assert!(coherence.summary().len() > 10);
}

#[test]
fn an_aligned_plan_saves_first_only_where_that_is_switched_on() {
    let e = engine(EvictionPolicy::default());
    let parts = big_prompt(40_000);
    let save = CheckpointRef {
        id: "save".into(),
        token_position: 4096,
        kind: CheckpointKind::SlotSaveFile,
        size_bytes: None,
    };
    let episodes = seed(40, 1000);
    let plan =
        plan_with(&e, &episodes, &[0; 40], &[], &parts, 32_768, Some(&[save])).unwrap();
    let coherence = plan.coherence.as_ref().expect("cache alignment must be evaluated");
    assert_eq!(coherence.action, CoherenceAction::EvictAtAlignedBoundary);
    let config = CoherenceConfig::default();
    assert!(e.apply(&plan, &parts, &config).snapshot_reason.is_none());
    let always = CoherenceConfig { snapshot_even_when_aligned: true, ..config };
    let steps = e.apply(&plan, &parts, &always);
    assert_eq!(steps.snapshot_reason.as_deref(), Some(coherence.reason.as_str()));
}

#[test]
fn applying_a_plan_records_state_for_the_next_turn() {
    let e = engine(EvictionPolicy::default());
    let parts = big_prompt(40_000);
    let plan = plan(&seed(40, 1000), &parts);
    let steps = e.apply(&plan, &parts, &CoherenceConfig::default());
    let outcome = e.applied(&plan, plan.updates.len(), steps.snapshot_reason.is_some());
    assert_eq!(outcome.applied, plan.updates.len());
    assert!(outcome.tokens_reclaimed > 0);
    let retained = steps.retained_text.expect("the plan was aligned with the cache");
    assert_eq!(retained, parts.retained_prefix_text(plan.retained_prefix_tokens));
    assert_eq!(steps.retained_tokens, plan.retained_prefix_tokens);
}

#[test]
fn compact_if_needed_is_a_no_op_when_relaxed() {
    let e = engine(EvictionPolicy::default());
    assert!(!e.compact_if_needed(&plan(&seed(3, 100), &big_prompt(300))));
    assert!(e.compact_if_needed(&plan(&seed(40, 1000), &big_prompt(40_000))));
}

#[test]
fn suppressing_cache_alignment_leaves_the_verdict_absent() {
    let policy = EvictionPolicy { cache_align: false, ..Default::default() };
    let plan = plan_with(
        &engine(policy),
        &seed(40, 1000),
        &[0; 40],
        &[],
        &big_prompt(40_000),
        32_768,
        Some(&[]),
    )
    .unwrap();
    assert!(plan.coherence.is_none());
    assert!(!plan.is_cache_cheap());
}

#[test]
fn claimed_reuse_is_preserved() {
    let episodes = seed(40, 1000);
    let none = vec![0; episodes.len()];
    for position in [500, 1500, 2500, 4000, 9000, 60_000] {
        let ring = [CheckpointRef {
            id: "ring".into(),
            token_position: position,
            kind: CheckpointKind::Internal,
            size_bytes: None,
        }];
        let plan = plan_with(
            &engine(EvictionPolicy::default()),
            &episodes,
            &none,
            &[],
            &big_prompt(40_000),
            32_768,
            Some(&ring),
        )
        .unwrap();
        assert!(plan.retained_prefix_tokens > 0);
        let boundary = plan.coherence.as_ref().expect("the server was asked");
        match boundary.aligned_cut {
            Some(cut) => {
                assert!(boundary.is_reuse());
                assert!(cut <= plan.retained_prefix_tokens as i64, "cut {cut} at {position}");
            }
            None => assert!(!boundary.is_reuse()),
        }
    }
}

#[test]
fn each_episode_moves_at_most_once_in_a_plan() {
    let plan = plan(&seed(60, 1000), &big_prompt(60_000));
    let mut ids: Vec<&str> = plan.updates.iter().map(|u| u.episode_id.as_str()).collect();
    let n = ids.len();
    ids.sort();
    ids.dedup();
    assert_eq!(ids.len(), n);
    let saved: usize = plan.updates.iter().map(|u| u.tokens_before - u.tokens_after).sum();
    assert_eq!(saved, plan.planned_savings);
}

#[test]
fn a_droppable_archived_episode_is_dropped_only_by_opt_in() {
    let mut row = episode(1, "x".repeat(4000));
    row.eviction_tier = EpisodeTier::Archived;
    row.droppable = true;
    let score = Score {
        value_key: 0,
        value_text: "0.00".into(),
        dependents: 0,
        has_dependents: false,
        notes: vec![],
    };
    let open = engine(EvictionPolicy { allow_drop: true, ..Default::default() });
    let shut = engine(EvictionPolicy::default());
    assert!(shut.propose_escalation(&row, &score, 100).is_none());
    if let Some(u) = open.propose_escalation(&row, &score, 100) {
        assert_eq!(u.to, EpisodeTier::Dropped);
    }
    row.eviction_tier = EpisodeTier::Live;
    let u = shut.propose_escalation(&row, &score, 100).expect("masking reclaims tokens");
    assert_eq!(u.to, EpisodeTier::Masked);
    assert!(u.tokens_after < u.tokens_before);
}

#[test]
fn worth_is_weighed_in_whole_numbers() {
    let mut episodes = seed(3, 1);
    episodes[1].role = "tool".into();
    episodes[1].superseded_by = Some("ep_3".into());
    let worth = score_candidates(&episodes, &[0, 9, 0]);
    assert_eq!((worth[0].age_rank, worth[0].age_span), (0, 2));
    assert_eq!((worth[2].age_rank, worth[2].role_halves), (2, 4));
    assert_eq!((worth[1].dependents, worth[1].dependents_counted), (9, 6));
    assert!(worth[1].superseded);
    assert!(worth[1].notes.iter().any(|n| n.contains("9 node(s) depend")));
}

fn open_fold() -> FoldRecord {
    FoldRecord {
        description: "refactor auth module".into(),
        goal: "extract the token validator".into(),
        status: "open".into(),
        result_summary: None,
        opened_token_position: 2000,
        tokens_at_open: Some(2000),
        tokens_reclaimed: None,
        created_at: "2026-09-12T00:00:00Z".into(),
        closed_at: None,
    }
}

#[test]
fn a_fold_is_noted_as_json() {
    let e = engine(EvictionPolicy::default());
    let fold = FoldRecord {
        goal: "say \"no\" \\ to é\tand\n\u{8}\u{c}\r\u{1}\u{1f}\u{7f}".into(),
        ..open_fold()
    };
    let request = UnfoldRequest {
        session_id: "s1",
        slot_id: "0",
        fold_id: "fold_1",
        result_summary: "done",
    };
    let steps = e.unfold(&request, Some(&fold), &[episode(1, "x".repeat(40))]).unwrap();
    assert_eq!(
        steps.episode.meta.as_deref(),
        Some(
            "{\"fold_id\":\"fold_1\",\"folded_episodes\":1,\"folded_tokens\":10,\
             \"goal\":\"say \\\"no\\\" \\\\ to é\\tand\\n\\b\\f\\r\\u0001\\u001f\u{7f}\"}"
        )
    );
}

#[test]
fn fold_and_unfold_collapse_the_window_and_keep_the_trace() {
    let e = engine(EvictionPolicy::default());
    let fold_id = e.begin_fold("refactor auth module").unwrap();
    let fold = e.fold(fold_id, 2000, Some("save.bin".into()), Some(2000));
    assert!(fold.fold_id.starts_with("fold_"));
    assert!(fold.checkpoint.is_some(), "a save point should have been taken");
    assert_eq!(e.fold_edge(&fold.fold_id, "s1").src_id, fold.fold_id);

    let mut episodes: Vec<EpisodeRow> = (0..6)
        .map(|i| episode(i + 1, format!("folded step {i}: {}", "q".repeat(400))))
        .collect();
    for ep in &mut episodes {
        e.tag_episode_with_fold(&ep.episode_id, &fold.fold_id, 1).unwrap();
        ep.fold_id = Some(fold.fold_id.clone());
    }
    let request = UnfoldRequest {
        session_id: "s1",
        slot_id: "0",
        fold_id: &fold.fold_id,
        result_summary: "extracted TokenValidator into its own module",
    };
    let steps = e.unfold(&request, Some(&open_fold()), &episodes).unwrap();
    assert_eq!(steps.episodes_folded, 6);
    assert!(steps.tokens_reclaimed > 0);
    assert_eq!(steps.roll_back_to, 2000);
    let rolled = RollBackOutcome {
        performed: true,
        method: RollBackMethod::RingRewind,
        detail: "rewound".into(),
    };
    let out = e.unfolded(&fold.fold_id, &steps, Some(&rolled));
    assert!(out.trace_retrievable && out.rollback_performed);

    // The live window no longer carries the folded steps, but the summary.
    for ep in &mut episodes {
        let (_, tier) = steps.tiers.iter().find(|(id, _)| *id == ep.episode_id).unwrap();
        ep.eviction_tier = *tier;
    }
    let mut all = episodes.clone();
    let mut summary = episode(7, steps.episode.content.clone());
    summary.role = steps.episode.role.as_str().to_string();
    all.push(summary);
    let timeline = MemoryFabric::new().timeline(&all, 100_000, &counter(), false);
    assert!(
        timeline.rendered.contains("result: extracted TokenValidator"),
        "the summary must be in the live window"
    );
    assert!(
        !timeline.rendered.contains("folded step 0"),
        "folded steps must have left the live window"
    );

    // The full trace is still retrievable.
    let closed = FoldRecord { status: "closed".into(), ..open_fold() };
    let trace = e.recall_fold(&fold.fold_id, Some(closed), episodes).unwrap();
    assert_eq!(trace.episodes.len(), 6);
    assert!(trace.episodes[1].content.contains("folded step 1"));
    assert_eq!(trace.status, "closed");
}

fn unfold_request(result_summary: &str) -> UnfoldRequest<'_> {
    UnfoldRequest { session_id: "s1", slot_id: "0", fold_id: "fold_1", result_summary }
}

#[test]
fn unfold_refuses_an_empty_summary() {
    let e = engine(EvictionPolicy::default());
    let err = e.unfold(&unfold_request("   "), Some(&open_fold()), &[]).unwrap_err();
    assert!(matches!(err, Error::Invalid(_)));
}

#[test]
fn unfold_twice_is_rejected() {
    let e = engine(EvictionPolicy::default());
    assert!(e.unfold(&unfold_request("done"), Some(&open_fold()), &[]).is_ok());
    let closed = FoldRecord { status: "closed".into(), ..open_fold() };
    let err = e.unfold(&unfold_request("done again"), Some(&closed), &[]).unwrap_err();
    assert!(err.to_string().contains("already closed"));
}

#[test]
fn folds_that_do_not_exist_are_not_found() {
    let e = engine(EvictionPolicy::default());
    assert!(matches!(e.begin_fold("  "), Err(Error::Invalid(_))));
    assert!(matches!(e.unfold(&unfold_request("x"), None, &[]), Err(Error::NotFound(_))));
    assert!(matches!(e.recall_fold("fold_1", None, vec![]), Err(Error::NotFound(_))));
    assert!(matches!(e.tag_episode_with_fold("ep", "fold_1", 0), Err(Error::NotFound(_))));
}
