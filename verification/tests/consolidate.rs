//! Work that is done while nothing else runs.

use sakur4_core::consolidate::{
    auxiliary_refused, auxiliary_url, describe_fact, extractive_summary, next_step,
    truncate_words, written_reply, ConsolidationReport, Consolidator, ConsolidatorConfig,
    PassAction, PassEvent, PassSignal, Phase, Promotion, SlotActivity, Stage,
    AUXILIARY_INSTRUCTION,
};
use sakur4_core::error::Error;
use sakur4_core::ids::parse_rfc3339;
use sakur4_core::json::Json;
use sakur4_core::memory::dependency::{EdgeKind, NodeKind, ReachedNode};
use sakur4_core::memory::episodic::{EpisodeRow, EpisodeTier};
use sakur4_core::memory::symbolic::{FactKind, FactSource, SymbolicWrite};
use sakur4_core::tokens::{CharTokenizer, TokenCounter};

fn counter() -> TokenCounter {
    TokenCounter::new(CharTokenizer { chars_per_token: 4 })
}

fn idle_config() -> ConsolidatorConfig {
    ConsolidatorConfig { quiet_period_secs: 0, ..Default::default() }
}

fn episode(seq: i64, content: &str) -> EpisodeRow {
    EpisodeRow {
        episode_id: format!("ep_{seq}"),
        seq,
        session_id: "s1".into(),
        slot_id: Some("0".into()),
        role: "user".into(),
        token_count: counter().count(content).get() as i64,
        content: content.into(),
        tool_name: None,
        created_at: "2020-01-01T00:00:00.000Z".into(),
        fold_id: None,
        eviction_tier: EpisodeTier::Live,
        droppable: false,
        superseded_by: None,
        project_id: None,
    }
}

#[test]
fn skips_when_a_slot_is_generating() {
    let cfg = ConsolidatorConfig { quiet_period_secs: 3_600, ..Default::default() };
    let mut c = Consolidator::new(cfg, 1_000);
    c.note_activity(1_000);
    let report = c.maybe_run(1_010, &[SlotActivity::Idle]).unwrap_err();
    assert!(!report.ran);
    assert!(report.skipped_reason.as_deref().unwrap().contains("not idle"));
    let mut c = Consolidator::new(idle_config(), 0);
    assert!(c.maybe_run(10, &[SlotActivity::Generating]).is_err());
}

#[test]
fn an_unreadable_slot_blocks_consolidation() {
    let mut c = Consolidator::new(idle_config(), 0);
    assert!(!c.is_idle(10, &[SlotActivity::Unreadable]));
    let report = c.maybe_run(10, &[SlotActivity::Unreadable]).unwrap_err();
    assert!(!report.ran);
}

/// A turn long enough that an extractive summary is genuinely smaller.
fn substantial_turn(i: usize) -> String {
    let filler = "The eviction engine walks the dependency graph and escalates the \
                  lowest-value episodes first, never touching the Anchor Set, and it \
                  refuses to drop anything that still has unresolved dependents. ";
    let mut text = format!("Step {i}: refactor the CacheCoherenceLayer. ");
    for _ in 0..6 {
        text.push_str(filler);
    }
    text.push_str(
        "The boundary_snap_delta must stay within tolerance_tokens so that the surviving \
         prefix remains an LCP match; otherwise the next turn pays a full re-prefill.",
    );
    text
}

fn promote(c: &Consolidator, rows: &[EpisodeRow]) -> (usize, Vec<String>) {
    let mut report = ConsolidationReport::default();
    for i in c.promotion_candidates(rows) {
        let summary = c.summarise_text(&rows[i].content, None);
        match c.promotion(&rows[i], "s1", &summary, &counter()) {
            Promotion::Nothing => {}
            Promotion::TooLong(note) => report.record(PassEvent::NotWorthPromoting { note }),
            Promotion::Write(w) => {
                assert_eq!(w.anchor_id, rows[i].episode_id);
                report.record(PassEvent::Promoted);
            }
        }
    }
    (report.promoted, report.notes)
}

#[test]
fn promotes_substantial_episodes_into_the_atlas() {
    let c = Consolidator::new(idle_config(), 0);
    let rows: Vec<EpisodeRow> =
        (0..3).map(|i| episode(i as i64 + 1, &substantial_turn(i))).collect();
    let (promoted, notes) = promote(&c, &rows);
    assert_eq!(promoted, 3, "notes: {notes:?}");
}

#[test]
fn a_short_turn_is_left_alone_rather_than_grown() {
    let c = Consolidator::new(
        ConsolidatorConfig { min_episode_tokens: 1, ..idle_config() },
        0,
    );
    let rows = vec![episode(
        1,
        "Step 0: refactor CacheCoherenceLayer so boundary_snap_delta stays within \
         tolerance_tokens and the prefix survives as an LCP match.",
    )];
    let (promoted, notes) = promote(&c, &rows);
    assert_eq!(promoted, 0, "a turn whose summary would not be smaller must not be promoted");
    assert!(notes[0].contains("grow the context"));
}

#[test]
fn short_episodes_are_not_promoted() {
    let c = Consolidator::new(idle_config(), 0);
    assert!(c.promotion_candidates(&[episode(1, "ok")]).is_empty());
}

#[test]
fn regeneration_for_a_symbolic_anchor_needs_no_model() {
    let fact = SymbolicWrite::new(FactKind::Function, "m::thing")
        .signature("fn thing() -> u16")
        .body("fn thing() -> u16 { 1 }")
        .into_fact(FactSource::TreeSitter, None);
    let text = describe_fact(&fact);
    assert!(text.contains("u16"), "new summary must reflect the current truth");
    assert_eq!(text, "m::thing is declared as `fn thing() -> u16`");
    let bare = SymbolicWrite::new(FactKind::Module, "m").into_fact(FactSource::TreeSitter, None);
    assert_eq!(describe_fact(&bare), "m is defined in the project");
}

#[test]
fn archival_preserves_a_summary_of_what_it_archives() {
    let c = Consolidator::new(
        ConsolidatorConfig { archive_after_days: Some(0), ..idle_config() },
        0,
    );
    let row = episode(1, "The DeployPipeline must always run the migration_check step.");
    let cutoff = parse_rfc3339("2026-01-01T00:00:00Z").unwrap();
    assert!(c.archivable(&row, cutoff, &[]));
    assert!(!c.archivable(&row, parse_rfc3339("2019-01-01T00:00:00Z").unwrap(), &[]));
    assert!(c.needs_summary(&[]));
    let summarised = ReachedNode {
        kind: NodeKind::SemanticEntry,
        id: "atlas_1".into(),
        depth: 1,
        via: EdgeKind::DerivedFrom,
    };
    assert!(!c.needs_summary(&[summarised]));
}

#[test]
fn extractive_summary_never_invents_identifiers() {
    let text = "The CacheCoherenceLayer snaps boundaries onto checkpoints. \
                Unrelated filler sentence follows here. \
                The boundary_snap_delta must stay within tolerance_tokens.";
    let summary = extractive_summary(text, 2, 400);
    for token in summary.split(|c: char| !c.is_alphanumeric() && c != '_') {
        if token.len() >= 5 && (token.contains('_') || token.chars().any(|c| c.is_uppercase())) {
            assert!(
                text.contains(token),
                "summary invented the identifier {token:?}: {summary}"
            );
        }
    }
    assert!(summary.contains("CacheCoherenceLayer") || summary.contains("boundary_snap_delta"));
    assert!(summary.starts_with("[mentions: "));
}

#[test]
fn mentions_are_listed_as_they_stand() {
    let text = "The user_Store object keeps the users. A second sentence stands here too. \
                Nothing else in this text tells anything of note at all.";
    let summary = extractive_summary(text, 1, 400);
    assert!(summary.starts_with("[mentions: "), "{summary}");
    assert!(summary.contains("user_Store"), "{summary}");
    assert!(!summary.contains("user_store"), "{summary}");
}

#[test]
fn extractive_summary_handles_empty_and_short_input() {
    assert_eq!(extractive_summary("", 3, 100), "");
    assert_eq!(extractive_summary("   ", 3, 100), "");
    let short = extractive_summary("hi", 3, 100);
    assert_eq!(short, "hi");
}

#[test]
fn extractive_summary_respects_the_character_cap() {
    let text = "alpha_beta_gamma ".repeat(200);
    let summary = extractive_summary(&text, 3, 100);
    assert!(summary.chars().count() <= 101, "got {} chars", summary.chars().count());
}

#[test]
fn extractive_summary_is_deterministic() {
    let text = "First the AlphaService starts. Then the BetaWorker consumes a queue. \
                Finally the GammaReporter writes metrics.";
    assert_eq!(extractive_summary(text, 2, 300), extractive_summary(text, 2, 300));
}

#[test]
fn words_are_not_cut_in_two() {
    assert_eq!(truncate_words("alpha beta gamma", 12), "alpha beta…");
    assert_eq!(truncate_words("alpha", 5), "alpha");
    assert_eq!(truncate_words("alphabet", 3), "alp…");
}

#[test]
fn overlapping_passes_are_refused() {
    let mut c = Consolidator::new(idle_config(), 0);
    assert!(c.maybe_run(10, &[SlotActivity::Idle]).unwrap().ran);
    let report = c.maybe_run(10, &[SlotActivity::Idle]).unwrap_err();
    assert!(!report.ran);
    assert!(report.skipped_reason.as_deref().unwrap().contains("already running"));
    c.finish();
    assert!(c.maybe_run(10, &[SlotActivity::Idle]).is_ok());
}

#[test]
fn tracked_slots_are_deduplicated() {
    let mut c = Consolidator::new(idle_config(), 0);
    c.track_slot("1");
    c.track_slot("1");
    c.track_slot("2");
    let slots = c.tracked_slots();
    assert_eq!(slots.iter().filter(|s| *s == "1").count(), 1);
    assert!(slots.contains(&"2".to_string()));
}

#[test]
fn report_summarises_what_happened() {
    let mut c = Consolidator::new(idle_config(), 0);
    let report = c.maybe_run(10, &[SlotActivity::Idle]).unwrap();
    assert!(report.summary().contains("dream cycle"));
}

#[test]
fn activity_stops_the_later_phases() {
    let c = Consolidator::new(idle_config(), 0);
    let mut report = ConsolidationReport::default();
    report.record(PassEvent::Interrupted { phase: Phase::Archive });
    assert!(report.interrupted && report.notes.is_empty());
    report.record(PassEvent::Interrupted { phase: Phase::Regenerate });
    assert_eq!(report.notes, ["interrupted by new activity while regenerating"]);
    report.record(PassEvent::Interrupted { phase: Phase::Promote });
    assert_eq!(report.notes[1], "interrupted by new activity while promoting");
    assert_eq!(c.regenerations(100), c.config().max_regenerations_per_pass);
}

#[test]
fn every_item_waits_for_idle_slots() {
    let c = Consolidator::new(idle_config(), 0);
    let (state, action) = c.first_step();
    assert_eq!(action, PassAction::Fetch(Phase::Regenerate));
    let (state, action) = next_step(state, PassSignal::Item);
    assert_eq!(action, PassAction::Ask);
    let (state, action) = next_step(state, PassSignal::Idle);
    assert_eq!(action, PassAction::Work(Phase::Regenerate));
    let (state, action) = next_step(state, PassSignal::Done);
    assert_eq!(action, PassAction::Fetch(Phase::Regenerate));
    let (state, action) = next_step(state, PassSignal::NoMore);
    assert_eq!(action, PassAction::Fetch(Phase::Promote));
    let (state, action) = next_step(state, PassSignal::Idle);
    assert_eq!(action, PassAction::Fetch(Phase::Promote), "nothing is at hand yet");
    let (state, action) = next_step(state, PassSignal::Item);
    assert_eq!(action, PassAction::Ask);
    let (mut state, action) = next_step(state, PassSignal::Busy);
    assert_eq!(action, PassAction::Interrupt(Phase::Promote));
    assert_eq!(state.stage, Stage::Over);
    for signal in [PassSignal::Idle, PassSignal::Item, PassSignal::NoMore, PassSignal::Done] {
        let (after, action) = next_step(state, signal);
        assert_eq!(action, PassAction::Stop);
        state = after;
    }
}

#[test]
fn archiving_asks_as_well_and_phases_come_in_order() {
    let cfg = ConsolidatorConfig {
        regenerate_stale: false,
        promote_episodes: false,
        reembed: false,
        archive_after_days: Some(14),
        ..idle_config()
    };
    let (state, action) = Consolidator::new(cfg, 0).first_step();
    assert_eq!(action, PassAction::Fetch(Phase::Archive));
    let (asked, action) = next_step(state, PassSignal::Item);
    assert_eq!(action, PassAction::Ask);
    assert_eq!(next_step(asked, PassSignal::Busy).1, PassAction::Interrupt(Phase::Archive));
    assert_eq!(next_step(asked, PassSignal::Idle).1, PassAction::Work(Phase::Archive));
    let (state, action) = next_step(state, PassSignal::NoMore);
    assert_eq!(action, PassAction::Fetch(Phase::Prune));
    let (state, action) = next_step(state, PassSignal::NoMore);
    assert_eq!((state.stage, action), (Stage::Over, PassAction::Stop));
}

#[test]
fn nothing_that_something_depends_on_is_archived() {
    let c = Consolidator::new(idle_config(), 0);
    let row = episode(1, "An old turn.");
    let cutoff = parse_rfc3339("2026-01-01T00:00:00Z").unwrap();
    let dependent = ReachedNode {
        kind: NodeKind::Episode,
        id: "ep_9".into(),
        depth: 1,
        via: EdgeKind::DependsOn,
    };
    assert!(c.cold(&row, cutoff));
    assert!(!c.archivable(&row, cutoff, &[dependent]));
    let folded = EpisodeRow { fold_id: Some("fold_1".into()), ..episode(2, "A folded turn.") };
    assert!(!c.archivable(&folded, cutoff, &[]));
}

#[test]
fn a_pass_works_on_no_more_items_than_it_may() {
    let cfg = ConsolidatorConfig { max_items_per_pass: 3, ..idle_config() };
    let (mut state, mut action) = Consolidator::new(cfg, 0).first_step();
    let mut items = 0;
    let mut pruned = 0;
    for _ in 0..100 {
        let signal = match action {
            // Two items to derive anew, then any number of others.
            PassAction::Fetch(Phase::Regenerate) if items == 2 => PassSignal::NoMore,
            PassAction::Fetch(Phase::Prune) if pruned == 1 => PassSignal::NoMore,
            PassAction::Fetch(_) => PassSignal::Item,
            PassAction::Ask => PassSignal::Idle,
            PassAction::Work(Phase::Prune) => {
                pruned += 1;
                PassSignal::Done
            }
            PassAction::Work(_) => {
                items += 1;
                PassSignal::Done
            }
            PassAction::Interrupt(_) => panic!("nothing came up"),
            PassAction::Stop => break,
        };
        (state, action) = next_step(state, signal);
    }
    assert_eq!((items, pruned, state.left), (3, 1, 0));
    assert_eq!(state.stage, Stage::Over);
}

#[test]
fn a_started_pass_has_done_nothing_yet() {
    let mut c = Consolidator::new(idle_config(), 0);
    let report = c.maybe_run(10, &[SlotActivity::Idle]).unwrap();
    assert_eq!((report.pruned_vectors, report.elapsed_ms), (0, 0));
    assert!(report.ran && report.notes.is_empty());
}

#[test]
fn a_model_may_write_the_summary() {
    let c = Consolidator::new(idle_config(), 0);
    assert_eq!(c.summarise_text("some text", Some("A summary.")), "A summary.");
    assert_eq!(c.summarise_text("some text", Some("  ")), "some text");
    let doc = Json::parse(r#"{"choices":[{"message":{"content":" hello "}}]}"#).unwrap();
    assert_eq!(written_reply(&doc), "hello");
    assert_eq!(written_reply(&Json::parse("{}").unwrap()), "");
    assert_eq!(auxiliary_url("http://x//"), "http://x/v1/chat/completions");
    assert!(matches!(auxiliary_refused("500"), Error::BackendUnavailable(_)));
    assert!(AUXILIARY_INSTRUCTION.starts_with("You summarise"));
}
