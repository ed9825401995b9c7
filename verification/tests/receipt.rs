//! Receipts: where the budget went, and why.

use sakur4_core::cache::plan::BoundaryPlan;
use sakur4_core::evict::{EvictionPlan, Pressure, TierUpdate};
use sakur4_core::memory::episodic::EpisodeTier as T;
use sakur4_core::prompt::PromptParts;
use sakur4_core::receipt::{
    Breakdown, EvictionSummary, Receipt, ReceiptBuilder, ReceiptFigures, ReceiptStats, Share,
    StoredReceipt, BAR_WIDTH,
};
use sakur4_core::tokens::{CharTokenizer, TokenCounter, TokenizerKind};

fn counter() -> TokenCounter {
    TokenCounter::new(CharTokenizer { chars_per_token: 4 })
}

fn parts() -> PromptParts {
    PromptParts::new()
        .with_system("you are a careful coding agent")
        .with_anchors("[SAFETY CONSTRAINT] never force-push to main")
        .with_recall("recall: the validator lives in src/auth.rs")
        .with_repo_map("src/auth.rs\n  fn validate")
        .with_timeline("<user> refactor auth\n<assistant> on it\n")
        .with_tool_schemas("{\"name\":\"read_file\"}")
}

fn figures(r: &Receipt) -> ReceiptFigures {
    let total = r.total_tokens.max(1) as f64;
    let sum = r.breakdown.total().max(1) as f64;
    let shares = r
        .breakdown
        .by_size()
        .iter()
        .map(|(_, tokens)| Share {
            percent: format!("{:.1}", *tokens as f64 / total * 100.0),
            filled: (*tokens as f64 / sum * BAR_WIDTH as f64).round() as usize,
        })
        .collect();
    let full = if r.context_window == 0 {
        0.0
    } else {
        (r.total_tokens as f64 / r.context_window as f64).min(1.0)
    };
    let saved = r.prompt_tokens_reused.unwrap_or(0) as f64 / total;
    ReceiptFigures {
        full_percent: format!("{:.0}", full * 100.0),
        shares,
        saved_percent: format!("{:.0}", saved * 100.0),
    }
}

#[test]
fn breakdown_matches_the_measured_prompt_within_tolerance() {
    let c = counter();
    let r = Receipt::build("s1", Some("0"), 1, &parts(), &c, 32_768);
    assert!(
        r.breakdown_is_consistent(),
        "sum {} vs measured {}",
        r.breakdown.total(),
        r.total_tokens
    );
}

#[test]
fn every_category_is_populated_by_the_sample_prompt() {
    let c = counter();
    let b = Breakdown::from_parts(&parts(), &c);
    assert!(b.system_prompt > 0);
    assert!(b.pinned_anchors > 0);
    assert!(b.retrieved_memory > 0);
    assert!(b.repo_map > 0);
    assert!(b.raw_recent_history > 0);
    assert!(b.tool_schemas > 0);
    assert_eq!(b.fold_summaries, 0);
}

#[test]
fn by_size_is_descending() {
    let b = Breakdown::from_parts(&parts(), &counter());
    let sizes = b.by_size();
    for pair in sizes.windows(2) {
        assert!(pair[0].1 >= pair[1].1);
    }
}

#[test]
fn render_is_readable_without_any_client_formatting() {
    let c = counter();
    let r = Receipt::build("s1", Some("0"), 3, &parts(), &c, 32_768)
        .with_cache("partial-reuse", "snapped 128 tokens back onto an in-memory checkpoint")
        .with_cache_numbers(9_000, 1_200)
        .with_prompt_eval_ms(412)
        .with_backend("embedded");
    let text = r.render(&figures(&r));
    assert!(text.contains("Context Ledger Receipt"));
    assert!(text.contains("where the budget went"));
    assert!(text.contains("pinned anchors"));
    assert!(text.contains("partial-reuse"));
    assert!(text.contains("9000 tokens reused"));
    assert!(text.contains("412 ms"));
    assert!(!text.contains('\u{1b}'));
    assert!(!text.contains("```"));
}

fn plan() -> EvictionPlan {
    EvictionPlan {
        session_id: "s1".into(),
        slot_id: "0".into(),
        pressure: Pressure::Compacting,
        budget: 32_768,
        threshold: 24_576,
        target: 18_000,
        live_tokens: 30_000,
        anchor_tokens: 100,
        fixed_tokens: 500,
        updates: vec![
            TierUpdate {
                episode_id: "a".into(),
                from: T::Live,
                to: T::Masked,
                tokens_before: 900,
                tokens_after: 40,
                reason: "test".into(),
            },
            TierUpdate {
                episode_id: "b".into(),
                from: T::Masked,
                to: T::Referenced,
                tokens_before: 40,
                tokens_after: 10,
                reason: "test".into(),
            },
        ],
        planned_savings: 890,
        retained_prefix_tokens: 5_000,
        coherence: Some(BoundaryPlan::full_rewrite(5_000, "test")),
        notes: vec![],
    }
}

#[test]
fn eviction_summary_counts_each_transition() {
    let s = EvictionSummary::from_plan(&plan(), true);
    assert_eq!(s.applied, 2);
    assert_eq!(s.tokens_reclaimed, 890);
    assert_eq!(s.from_tier_live_to_masked, 1);
    assert_eq!(s.from_tier_masked_to_referenced, 1);
    assert!(s.snapshot_taken);
    assert!(s.boundary.is_some());
}

#[test]
fn receipts_persist_and_aggregate() {
    let rows: Vec<(String, Option<i64>, i64)> = [
        (1, "partial-reuse"),
        (2, "partial-reuse"),
        (3, "full-re-prefill"),
        (4, "partial-reuse"),
        (5, "warm-restored"),
        (6, "partial-reuse"),
    ]
    .iter()
    .map(|(turn, status)| (status.to_string(), Some(100 * turn), 70))
    .collect();
    let stats = ReceiptStats::of_rows(&rows);
    assert_eq!(stats.turns, 6);
    assert_eq!(stats.partial_reuse, 4);
    assert_eq!(stats.warm_restored, 1);
    assert_eq!(stats.full_re_prefill, 1);
    assert_eq!(stats.total_tokens, 420);
    assert_eq!(stats.prompt_eval_ms_total, 2100);
    assert_eq!(stats.meets_g1(), Some(true));
    assert!(stats.render("83", "350").contains("meets G1"));
    assert_eq!(stats.prompt_eval_ms_p95, 600);
}

#[test]
fn g1_verdict_is_withheld_without_enough_samples() {
    let rows: Vec<(String, Option<i64>, i64)> =
        (1..=2).map(|_| ("full-re-prefill".to_string(), None, 70)).collect();
    let stats = ReceiptStats::of_rows(&rows);
    assert_eq!(stats.meets_g1(), None);
    assert!(stats.render("0", "0").contains("insufficient data"));
    assert_eq!((stats.prompt_eval_samples, stats.prompt_eval_ms_p95), (0, 0));
}

#[test]
fn figures_over_receipts_are_shown_in_one_line() {
    let mut rows: Vec<(String, Option<i64>, i64)> = Vec::new();
    for i in 0..20 {
        rows.push(("full-re-prefill".into(), Some(20 - i), 1));
    }
    rows.push(("cold".into(), None, 1));
    rows.push(("odd".into(), None, 1));
    let stats = ReceiptStats::of_rows(&rows);
    assert_eq!(stats.prompt_eval_ms_p95, 19);
    assert_eq!((stats.cold, stats.unknown), (1, 1));
    assert_eq!(stats.meets_g1(), Some(false));
    assert_eq!(
        stats.render("0", "10"),
        "turns=22 reuse=0/20 (0%) partial=0 warm=0 full-reprefill=20 cold=1 · prompt-eval \
         avg=10ms p95=19ms over 20 sample(s) · below G1 target (≥80% reuse)"
    );
}

#[test]
fn a_receipt_is_shown_line_by_line() {
    let c = counter();
    let p = PromptParts::new().with_system("abcd");
    let r = ReceiptBuilder::new("s1", None, 2, &p, &c, 100)
        .cache("cold", "", 0, 10)
        .eviction(EvictionSummary::from_plan(&plan(), false))
        .prompt_eval_ms(5)
        .backend("")
        .tokenizer_kind(TokenizerKind::Chars)
        .build();
    let shares = r
        .breakdown
        .by_size()
        .iter()
        .map(|_| Share { percent: "100.0".into(), filled: 18 })
        .collect();
    let text = r.render(&ReceiptFigures {
        full_percent: "9".into(),
        shares,
        saved_percent: "0".into(),
    });
    let lines: Vec<&str> = text.lines().collect();
    assert_eq!(lines[0], "Context Ledger Receipt · turn 2 · session s1");
    assert_eq!(
        lines[1],
        format!("  window {}/100 tokens (9% full) · tokenizer chars · backend n/a", r.total_tokens)
    );
    assert_eq!(lines[2], "  where the budget went:");
    assert!(lines[3].starts_with("    system prompt       "));
    assert!(lines[3].contains("100.0%  "));
    assert!(text.contains("  cache: cold\n    0 tokens reused / 10 prefilled (0% saved)\n"));
    assert!(text.contains("  prompt eval: 5 ms\n"));
    assert!(text.contains(
        "  eviction: 2 episode(s), 890 tokens reclaimed (live→masked 1, masked→referenced 1, \
         referenced→archived 0, archived→dropped 0)\n    "
    ));
}

#[test]
fn an_inconsistent_breakdown_is_pointed_out() {
    let c = counter();
    let mut r = Receipt::build("s1", None, 1, &parts(), &c, 0);
    r.total_tokens = r.breakdown.total() + 3;
    assert!(!r.breakdown_is_consistent());
    let f = figures(&r);
    assert!(r.render(&f).contains("beyond tolerance"));
    r.total_tokens = r.breakdown.total() + 2;
    assert!(r.breakdown_is_consistent());
}

#[test]
fn the_tolerance_is_one_percent_and_two_tokens() {
    let mut r = Receipt::build("s1", None, 1, &PromptParts::new(), &counter(), 0);
    r.breakdown = Breakdown { raw_recent_history: 1_000, ..Breakdown::default() };
    r.total_tokens = 1_012;
    assert!(r.breakdown_is_consistent());
    r.total_tokens = 1_013;
    assert!(!r.breakdown_is_consistent());
}

#[test]
fn a_blank_extra_leaves_the_breakdown_consistent() {
    let mut p = parts();
    p.extra.push(("a very long name for nothing at all".into(), "  ".into()));
    let r = Receipt::build("s1", None, 1, &p, &counter(), 0);
    assert!(r.breakdown_is_consistent());
    assert_eq!(r.breakdown.total(), Breakdown::from_parts(&parts(), &counter()).total());
}

#[test]
fn a_stored_receipt_leaves_out_what_is_not_stored() {
    let row = StoredReceipt {
        receipt_id: "rcpt_1".into(),
        session_id: "s1".into(),
        slot_id: None,
        turn: 4,
        total_tokens: 12,
        cache_status: "cold".into(),
        cache_detail: String::new(),
        prompt_eval_ms: Some(3),
        created_at: "2026-09-12T00:00:00Z".into(),
    };
    let r = Receipt::from_stored(row, Breakdown::default(), None);
    assert_eq!((r.turn, r.total_tokens, r.context_window), (4, 12, 0));
    assert_eq!(r.prompt_tokens_reused, None);
    assert_eq!(r.tokenizer, "");
}
