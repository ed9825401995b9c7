//! What a provider's usage says about its prompt cache.

use sakur4_core::provider_cache::{
    verdict_for, ProviderCacheStats, ProviderCacheVerdict, ProviderUsage, UsageRecord,
};

fn usage_of(prompt: usize, cached: Option<usize>) -> ProviderUsage {
    ProviderUsage { prompt_tokens: prompt, cache_read_tokens: cached, ..Default::default() }
}

fn percent(u: &ProviderUsage) -> String {
    let ratio = match u.cache_read_tokens {
        Some(c) if u.prompt_tokens > 0 => (c as f64 / u.prompt_tokens as f64).min(1.0),
        _ => 0.0,
    };
    format!("{:.0}", ratio * 100.0)
}

fn verdict(
    current: &ProviderUsage,
    previous: Option<&ProviderUsage>,
) -> (ProviderCacheVerdict, String) {
    verdict_for(current, previous, &percent(current))
}

#[test]
fn a_provider_that_reports_nothing_is_not_reported_not_a_miss() {
    let (verdict, detail) = verdict(&usage_of(1000, None), None);
    assert_eq!(verdict, ProviderCacheVerdict::NotReported);
    assert!(!verdict.is_regression());
    assert!(detail.contains("no prompt-cache fields"));
    assert!(!usage_of(1000, None).reports_cache());
}

#[test]
fn append_only_growth_is_partial_reuse() {
    let first = usage_of(5000, Some(4000));
    let second = usage_of(6000, Some(5000));
    let (verdict, detail) = verdict(&second, Some(&first));
    assert_eq!(verdict, ProviderCacheVerdict::PartialReuse);
    assert!(!verdict.is_regression());
    assert!(detail.contains("5000 of 6000"), "{detail}");
}

#[test]
fn a_rewrite_that_shrinks_the_prefix_is_a_regression() {
    let before = usage_of(20000, Some(18000));
    let after = usage_of(19000, Some(2000));
    let (verdict, detail) = verdict(&after, Some(&before));
    assert_eq!(verdict, ProviderCacheVerdict::PrefixBroken);
    assert!(verdict.is_regression());
    assert!(detail.contains("18000 to 2000"), "{detail}");
    assert!(detail.contains("already been paid for"), "{detail}");
}

#[test]
fn a_smaller_request_is_not_mistaken_for_a_broken_prefix() {
    let before = usage_of(20000, Some(18000));
    let after = usage_of(5000, Some(4000));
    let (verdict, _) = verdict(&after, Some(&before));
    assert_ne!(
        verdict,
        ProviderCacheVerdict::PrefixBroken,
        "a genuinely smaller request must not be reported as a cache regression"
    );
}

#[test]
fn a_small_dip_is_noise_not_a_break() {
    let before = usage_of(20000, Some(18000));
    let after = usage_of(21000, Some(17000));
    let (verdict, _) = verdict(&after, Some(&before));
    assert_eq!(verdict, ProviderCacheVerdict::PartialReuse);
}

#[test]
fn a_cold_start_is_a_cache_miss() {
    let (verdict, detail) = verdict(&usage_of(3000, Some(0)), None);
    assert_eq!(verdict, ProviderCacheVerdict::CacheMiss);
    assert!(!verdict.is_regression());
    assert!(detail.contains("cold prefix"));
}

#[test]
fn near_total_reuse_is_recognised() {
    let (verdict, _) = verdict(&usage_of(10000, Some(9900)), None);
    assert_eq!(verdict, ProviderCacheVerdict::FullReuse);
}

#[test]
fn uncached_tokens_are_derived_consistently() {
    let u = usage_of(6000, Some(5000));
    assert_eq!(u.uncached_prompt_tokens(), Some(1000));
    let odd = usage_of(100, Some(150));
    assert_eq!(odd.uncached_prompt_tokens(), Some(0));
    assert_eq!(usage_of(100, None).uncached_prompt_tokens(), None);
}

#[test]
fn usage_records_persist_and_aggregate() {
    let first = usage_of(5000, Some(0));
    let second = usage_of(6000, Some(5000));
    let r1 = UsageRecord::of_turn(1, usage_of(5000, Some(0)), None, "0");
    assert_eq!(r1.turn, 1);
    assert_eq!(r1.verdict, ProviderCacheVerdict::CacheMiss);
    let r2 = UsageRecord::of_turn(2, usage_of(6000, Some(5000)), Some(&first), "83");
    assert_eq!(r2.turn, 2);
    assert_eq!(r2.verdict, ProviderCacheVerdict::PartialReuse);
    assert_eq!(r2.previous_cache_read_tokens, Some(0));
    let r3 = UsageRecord::of_turn(3, usage_of(6200, Some(300)), Some(&second), "5");
    assert_eq!(r3.verdict, ProviderCacheVerdict::PrefixBroken);
    assert!(r3.detail.contains("no longer cached"));

    let stats =
        ProviderCacheStats::of_turns(&[(5000, Some(0)), (6000, Some(5000)), (6200, Some(300))]);
    assert_eq!(stats.turns, 3);
    assert_eq!(stats.turns_reporting, 3);
    assert_eq!(stats.prefix_breaks, 1);
    assert_eq!(stats.total_cache_read_tokens, 5300);
    assert!(stats.render("31").contains("PREFIX BREAK"));
}

#[test]
fn a_session_with_no_reported_usage_says_so_rather_than_claiming_zero() {
    let stats = ProviderCacheStats::of_turns(&[(1000, None)]);
    assert_eq!(stats.turns, 1);
    assert_eq!(stats.turns_reporting, 0);
    assert!(stats.render("0").contains("not reported"));
}

#[test]
fn verdicts_have_names_and_headlines() {
    assert_eq!(ProviderCacheVerdict::PrefixBroken.as_str(), "PREFIX-BROKEN");
    assert!(!ProviderCacheVerdict::FullReuse.headline().is_empty());
    let u = ProviderUsage { completion_tokens: 7, ..usage_of(10, Some(4)) };
    assert_eq!(u.billed_tokens(), 17);
}
