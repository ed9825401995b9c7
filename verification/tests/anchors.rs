//! Pinned constraints: what they cost, how they render, and how they are noticed.

use sakur4_core::error::Error;
use sakur4_core::memory::anchor::{
    render_anchor_block, AnchorKind, AnchorRow, ConstraintDetector, PinRequest,
};
use sakur4_core::memory::episodic::Role;
use sakur4_core::tokens::{CharTokenizer, TokenCounter};

fn anchor(kind: AnchorKind, content: &str) -> AnchorRow {
    PinRequest::new(kind, content).into_row().unwrap()
}

#[test]
fn empty_anchor_is_rejected() {
    assert!(PinRequest::new(AnchorKind::TaskContract, "   ").into_row().is_err());
}

#[test]
fn priority_orders_safety_first() {
    let list = vec![
        anchor(AnchorKind::TaskContract, "keep the API stable"),
        anchor(AnchorKind::SafetyConstraint, "never force-push"),
        anchor(AnchorKind::UserCorrection, "it is validateUser, not checkUser"),
    ];
    let counter = TokenCounter::new(CharTokenizer { chars_per_token: 4 });
    let (block, used) = render_anchor_block(&list, &counter, 10_000).unwrap();
    assert!(used > 0);
    let safety = block.find("SAFETY CONSTRAINT").unwrap();
    let correction = block.find("USER CORRECTION").unwrap();
    let contract = block.find("TASK CONTRACT").unwrap();
    assert!(safety < correction && correction < contract);
}

#[test]
fn oversized_anchor_set_overflows_visibly_instead_of_dropping() {
    let list = vec![
        anchor(AnchorKind::SafetyConstraint, &"x".repeat(400)),
        anchor(AnchorKind::TaskContract, &"y".repeat(400)),
    ];
    let counter = TokenCounter::new(CharTokenizer { chars_per_token: 4 });
    let err = render_anchor_block(&list, &counter, 50).unwrap_err();
    assert!(matches!(err, Error::BudgetOverflow(_)));
    assert!(err.to_string().contains("will not silently drop"));
}

#[test]
fn empty_set_renders_nothing_and_costs_nothing() {
    let counter = TokenCounter::new(CharTokenizer::default());
    let (block, used) = render_anchor_block(&[], &counter, 100).unwrap();
    assert!(block.is_empty());
    assert_eq!(used, 0);
}

#[test]
fn an_excerpt_holds_the_phrase_in_any_script() {
    let text = format!("{} never force-push to main.", "é".repeat(300));
    let p = ConstraintDetector::detect("ep1", 7, Role::User, &text).unwrap();
    assert!(p.excerpt.contains("never force-push"), "{}", p.excerpt);
    assert!(p.excerpt.starts_with("… é"));
}

#[test]
fn the_block_is_the_same_in_any_order() {
    let row = |id: &str, kind: AnchorKind| AnchorRow {
        anchor_id: id.into(),
        created_at: "2026-09-12T00:00:00Z".into(),
        ..PinRequest::new(kind, id).into_row().unwrap()
    };
    let a = row("a", AnchorKind::TaskContract);
    let b = row("b", AnchorKind::SafetyConstraint);
    let c = row("c", AnchorKind::TaskContract);
    let counter = TokenCounter::heuristic();
    let one = render_anchor_block(&[a.clone(), b.clone(), c.clone()], &counter, 1_000).unwrap();
    let two = render_anchor_block(&[c, a, b], &counter, 1_000).unwrap();
    assert_eq!(one, two);
}

#[test]
fn detector_finds_safety_constraints_in_user_turns() {
    let p = ConstraintDetector::detect(
        "ep1",
        7,
        Role::User,
        "One rule for this repo: never force-push to main.",
    )
    .unwrap();
    assert_eq!(p.kind, AnchorKind::SafetyConstraint);
    assert_eq!(p.rule, "explicit_never");
    assert!(p.confidence >= 45);
    assert!(p.excerpt.contains("force-push"));
}

#[test]
fn detector_finds_user_corrections() {
    let p = ConstraintDetector::detect(
        "ep2",
        9,
        Role::User,
        "That's wrong — the function is validateUser(id), not checkUser(email).",
    )
    .unwrap();
    assert_eq!(p.kind, AnchorKind::UserCorrection);
}

#[test]
fn detector_ignores_assistant_and_tool_turns() {
    let text = "I must not forget to run the tests.";
    assert!(ConstraintDetector::detect("e", 1, Role::Assistant, text).is_none());
    assert!(ConstraintDetector::detect("e", 1, Role::Tool, text).is_none());
}

#[test]
fn detector_ignores_ordinary_chatter() {
    assert!(
        ConstraintDetector::detect("e", 1, Role::User, "please summarise this file").is_none()
    );
    assert!(ConstraintDetector::detect("e", 1, Role::User, "ok").is_none());
}

#[test]
fn detector_respects_min_confidence() {
    // A late-appearing rule scores 0.45; requiring 0.6 must filter it out.
    let text = format!("{} never do this", "padding ".repeat(30));
    let all = ConstraintDetector::detect_all(&[("e", 1, Role::User, text.as_str())], 0);
    assert_eq!(all.len(), 1);
    assert_eq!(all[0].confidence, 45);
    let strict = ConstraintDetector::detect_all(&[("e", 1, Role::User, text.as_str())], 60);
    assert!(strict.is_empty());
}
