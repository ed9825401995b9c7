//! Assembling a prompt and accounting for it.

use sakur4_core::prompt::{PromptParts, RenderedPart};
use sakur4_core::tokens::{CharTokenizer, TokenCounter};

fn counter() -> TokenCounter {
    TokenCounter::new(CharTokenizer { chars_per_token: 4 })
}

fn sample() -> PromptParts {
    PromptParts::new()
        .with_system("you are an agent")
        .with_anchors("[SAFETY] never force-push")
        .with_timeline("<user> do the thing\n<assistant> ok\n")
        .with_repo_map("src/lib.rs\n  fn main")
        .with_recall("recalled: the cache layer snaps boundaries")
        .with_tool_schemas("{\"name\":\"read\"}")
}

#[test]
fn anchors_render_before_everything_evictable() {
    let p = sample();
    let rendered = p.render();
    let anchors = rendered.find("pinned anchors").unwrap();
    let timeline = rendered.find("recent history").unwrap();
    assert!(anchors < timeline);
}

#[test]
fn ordering_is_by_declared_priority_not_insertion() {
    let p = PromptParts::new()
        .with_timeline("timeline")
        .with_anchors("anchors")
        .with_system("system");
    let rendered = p.render();
    assert!(rendered.find("system").unwrap() < rendered.find("anchors").unwrap());
    assert!(rendered.find("anchors").unwrap() < rendered.find("timeline").unwrap());
}

#[test]
fn empty_parts_are_omitted_entirely() {
    let p = PromptParts::new().with_timeline("only this");
    let rendered = p.render();
    assert!(!rendered.contains("pinned anchors"));
    assert!(!rendered.contains("tool schemas"));
    assert!(rendered.contains("only this"));
}

#[test]
fn breakdown_sums_to_the_measured_total() {
    let p = sample();
    let c = counter();
    let per_part: usize = p.breakdown(&c).iter().map(|(_, t)| *t).sum();
    let whole = c.count(&p.render()).get();
    let tolerance = (whole / 10).max(2);
    assert!(
        per_part.abs_diff(whole) <= tolerance,
        "category sum {per_part} drifted from measured {whole} beyond {tolerance}"
    );
}

#[test]
fn fixed_tokens_excludes_only_the_timeline() {
    let p = sample();
    let c = counter();
    let fixed = p.fixed_tokens(&c);
    let total = c.count(&p.render()).get();
    let timeline = p
        .breakdown(&c)
        .into_iter()
        .find(|(part, _)| *part == RenderedPart::Timeline)
        .map(|(_, t)| t)
        .unwrap();
    assert!(fixed + timeline <= total + 2);
    assert!(fixed > 0);
}

#[test]
fn only_the_timeline_is_evictable() {
    assert!(RenderedPart::Timeline.is_evictable());
    for p in [
        RenderedPart::System,
        RenderedPart::Anchors,
        RenderedPart::RepoMap,
        RenderedPart::Recall,
        RenderedPart::ToolSchemas,
        RenderedPart::Folds,
        RenderedPart::Extra,
    ] {
        assert!(!p.is_evictable(), "{p:?} must not be evictable");
    }
    assert!(RenderedPart::System.is_mandatory());
    assert!(RenderedPart::Anchors.is_mandatory());
}

#[test]
fn retained_prefix_keeps_anchors_and_truncates_the_timeline() {
    let p = sample();
    let retained = p.retained_prefix_text(2);
    assert!(retained.contains("never force-push"), "anchors must survive");
    assert!(retained.contains("you are an agent"));
    assert!(
        !retained.contains("do the thing"),
        "a zero-ish timeline budget must drop the timeline"
    );
}

#[test]
fn retained_prefix_is_monotonic_in_the_budget() {
    let p = sample();
    let small = p.retained_prefix_text(1);
    let medium = p.retained_prefix_text(20);
    let large = p.retained_prefix_text(1_000);
    assert!(large.len() >= medium.len());
    assert!(medium.len() >= small.len());
    assert!(large.contains(p.timeline.trim_end()));
    assert!(large.contains("never force-push"));
    assert!(!large.contains("--- recent history ---"));
}

#[test]
fn retained_prefix_never_splits_a_multibyte_character() {
    let p = PromptParts::new().with_timeline(&"日本語のテキストです".repeat(20));
    for tokens in 0..40 {
        let s = p.retained_prefix_text(tokens);
        assert!(std::str::from_utf8(s.as_bytes()).is_ok());
    }
}

#[test]
fn part_offsets_are_consistent_with_the_rendered_prompt() {
    let p = sample();
    let rendered = p.render();
    let offsets = p.part_offsets();
    assert!(!offsets.is_empty());
    for (part, start, end) in &offsets {
        assert!(*end <= rendered.len(), "{part:?} offset runs past the prompt");
        assert!(start <= end);
        assert!(rendered.is_char_boundary(*start));
        assert!(rendered.is_char_boundary(*end));
    }
}

#[test]
fn extra_sections_are_accounted_and_rendered() {
    let mut p = PromptParts::new().with_system("s");
    p.extra
        .push(("harness preamble".into(), "always answer briefly".into()));
    let rendered = p.render();
    assert!(rendered.contains("harness preamble"));
    let breakdown = p.breakdown(&counter());
    assert!(breakdown.iter().any(|(part, _)| *part == RenderedPart::Extra));
}

#[test]
fn blank_extras_are_neither_rendered_nor_counted() {
    let mut p = PromptParts::new();
    p.extra.push(("aaaaaaaaaaaaaaaaaaaa".into(), " ".into()));
    assert_eq!(p.render(), "");
    assert!(p.breakdown(&counter()).is_empty());
    assert_eq!(p.fixed_tokens(&counter()), 0);
}

#[test]
fn a_shorter_cut_retains_a_prefix_of_a_longer_one() {
    let p = sample();
    let all = p.retained_prefix_text(1_000);
    for tokens in 0..20 {
        assert!(all.starts_with(&p.retained_prefix_text(tokens)));
    }
}

#[test]
fn prefix_hash_tracks_content() {
    let a = sample();
    let mut b = sample();
    assert_eq!(a.prefix_hash(), b.prefix_hash());
    b.timeline.push_str("extra");
    assert_ne!(a.prefix_hash(), b.prefix_hash());
}

#[test]
fn empty_prompt_is_recognised() {
    assert!(PromptParts::new().is_empty());
    assert!(!sample().is_empty());
}
