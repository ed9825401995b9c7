//! What a hosted provider's own figures say about its prompt cache.
//!
//! A provider that cannot be asked about its cache still reports, with every answer, how much
//! of the prompt it served from there. A cached prefix that shrinks while the prompt stays
//! large is the mark of a rewrite of history that had already been sent.
//!
//! Percentages are rendered by the caller and handed in as text.

use crate::text::{digits, push_nat};
use vstd::prelude::*;
use vstd::string::*;

verus! {

/// What a provider reported for one turn.
#[derive(Debug)]
pub struct ProviderUsage {
    pub prompt_tokens: usize,
    pub completion_tokens: usize,
    /// The total, where it is reported by itself.
    pub total_tokens: Option<usize>,
    /// Prompt tokens served from the cache.
    pub cache_read_tokens: Option<usize>,
    /// Prompt tokens written into the cache.
    pub cache_write_tokens: Option<usize>,
    pub reasoning_tokens: Option<usize>,
    pub provider: Option<String>,
    pub model: Option<String>,
}

impl Default for ProviderUsage {
    fn default() -> (r: Self)
        ensures
            r == ProviderUsage::of(0, None),
    {
        ProviderUsage {
            prompt_tokens: 0,
            completion_tokens: 0,
            total_tokens: None,
            cache_read_tokens: None,
            cache_write_tokens: None,
            reasoning_tokens: None,
            provider: None,
            model: None,
        }
    }
}

/// The larger of a number and none.
pub open spec fn or_zero(n: Option<usize>) -> nat {
    match n {
        Some(n) => n as nat,
        None => 0,
    }
}

fn unwrap_or_zero(n: Option<usize>) -> (r: usize)
    ensures
        r == or_zero(n),
{
    match n {
        Some(n) => n,
        None => 0,
    }
}

impl ProviderUsage {
    /// A turn of which only the prompt and what was cached of it are known.
    pub open spec fn of(prompt_tokens: usize, cache_read_tokens: Option<usize>) -> ProviderUsage {
        ProviderUsage {
            prompt_tokens,
            completion_tokens: 0,
            total_tokens: None,
            cache_read_tokens,
            cache_write_tokens: None,
            reasoning_tokens: None,
            provider: None,
            model: None,
        }
    }

    /// Whether the provider said anything about caching.
    pub open spec fn tells(self) -> bool {
        self.cache_read_tokens is Some || self.cache_write_tokens is Some
    }

    /// Whether essentially the whole prompt came from the cache: nineteen parts in twenty.
    pub open spec fn nearly_all_cached(self) -> bool {
        self.prompt_tokens > 0 && 20 * or_zero(self.cache_read_tokens) >= 19 * self.prompt_tokens
    }

    /// Prompt tokens that were processed afresh.
    pub fn uncached_prompt_tokens(&self) -> (r: Option<usize>)
        ensures
            r == (match self.cache_read_tokens {
                Some(read) => Some(
                    if read < self.prompt_tokens {
                        (self.prompt_tokens - read) as usize
                    } else {
                        0
                    },
                ),
                None => None,
            }),
    {
        match self.cache_read_tokens {
            Some(read) => Some(self.prompt_tokens.saturating_sub(read)),
            None => None,
        }
    }

    /// Whether the provider said anything about caching.
    pub fn reports_cache(&self) -> (r: bool)
        ensures
            r == self.tells(),
    {
        self.cache_read_tokens.is_some() || self.cache_write_tokens.is_some()
    }

    /// All tokens of the turn: as reported, else those of prompt and answer together.
    pub fn billed_tokens(&self) -> (r: usize)
        requires
            self.total_tokens is None ==> self.prompt_tokens + self.completion_tokens <= usize::MAX,
        ensures
            r == (match self.total_tokens {
                Some(t) => t as int,
                None => self.prompt_tokens + self.completion_tokens,
            }),
    {
        match self.total_tokens {
            Some(t) => t,
            None => self.prompt_tokens + self.completion_tokens,
        }
    }
}

/// What changed between two turns, as the cache sees it.
#[derive(Debug, Clone, Copy, PartialEq, Eq, Structural)]
pub enum ProviderCacheVerdict {
    /// The provider said nothing.
    NotReported,
    /// Nothing came from the cache.
    CacheMiss,
    /// The prefix was reused, the new suffix was not.
    PartialReuse,
    /// Essentially everything came from the cache.
    FullReuse,
    /// The cached prefix shrank while the prompt did not.
    PrefixBroken,
}

impl ProviderCacheVerdict {
    /// The stored name.
    pub open spec fn name(self) -> Seq<char> {
        match self {
            ProviderCacheVerdict::NotReported => "not-reported"@,
            ProviderCacheVerdict::CacheMiss => "cache-miss"@,
            ProviderCacheVerdict::PartialReuse => "partial-reuse"@,
            ProviderCacheVerdict::FullReuse => "full-reuse"@,
            ProviderCacheVerdict::PrefixBroken => "PREFIX-BROKEN"@,
        }
    }

    pub fn as_str(self) -> (r: &'static str)
        ensures
            r@ == self.name(),
    {
        match self {
            ProviderCacheVerdict::NotReported => "not-reported",
            ProviderCacheVerdict::CacheMiss => "cache-miss",
            ProviderCacheVerdict::PartialReuse => "partial-reuse",
            ProviderCacheVerdict::FullReuse => "full-reuse",
            ProviderCacheVerdict::PrefixBroken => "PREFIX-BROKEN",
        }
    }

    /// The verdict in words.
    pub fn headline(self) -> (r: &'static str)
        ensures
            r@ == (match self {
                ProviderCacheVerdict::NotReported => "provider did not report prompt-cache usage for this turn"@,
                ProviderCacheVerdict::CacheMiss => "no cached prefix was used — the whole prompt was processed fresh"@,
                ProviderCacheVerdict::PartialReuse => "cached prefix reused; only the new suffix was processed fresh"@,
                ProviderCacheVerdict::FullReuse => "the whole prompt came from the provider's cache"@,
                ProviderCacheVerdict::PrefixBroken => "the cached prefix SHRANK while the prompt grew — a rewrite invalidated already-sent history, and this turn paid full price for it"@,
            }),
    {
        match self {
            ProviderCacheVerdict::NotReported => "provider did not report prompt-cache usage for this turn",
            ProviderCacheVerdict::CacheMiss => "no cached prefix was used — the whole prompt was processed fresh",
            ProviderCacheVerdict::PartialReuse => "cached prefix reused; only the new suffix was processed fresh",
            ProviderCacheVerdict::FullReuse => "the whole prompt came from the provider's cache",
            ProviderCacheVerdict::PrefixBroken => "the cached prefix SHRANK while the prompt grew — a rewrite invalidated already-sent history, and this turn paid full price for it",
        }
    }

    /// Whether the verdict describes a rewrite that cost money.
    pub fn is_regression(self) -> (r: bool)
        ensures
            r == (self is PrefixBroken),
    {
        matches!(self, ProviderCacheVerdict::PrefixBroken)
    }
}

/// Whether `now` fell by more than a quarter of `before`.
pub open spec fn fell_by_a_quarter(before: nat, now: nat) -> bool {
    now + before / 4 < before
}

/// Whether the cached prefix was broken: it fell by more than a quarter while the prompt did
/// not.
pub open spec fn broke_prefix(current: ProviderUsage, previous: ProviderUsage) -> bool {
    &&& or_zero(previous.cache_read_tokens) > 0
    &&& !fell_by_a_quarter(previous.prompt_tokens as nat, current.prompt_tokens as nat)
    &&& fell_by_a_quarter(
        or_zero(previous.cache_read_tokens),
        or_zero(current.cache_read_tokens),
    )
}

/// The verdict for a turn, given the one before it.
pub open spec fn verdict_of(current: ProviderUsage, previous: Option<ProviderUsage>) -> ProviderCacheVerdict {
    if !current.tells() {
        ProviderCacheVerdict::NotReported
    } else if previous matches Some(p) && broke_prefix(current, p) {
        ProviderCacheVerdict::PrefixBroken
    } else if or_zero(current.cache_read_tokens) == 0 {
        ProviderCacheVerdict::CacheMiss
    } else if current.nearly_all_cached() {
        ProviderCacheVerdict::FullReuse
    } else {
        ProviderCacheVerdict::PartialReuse
    }
}

/// The numbers behind a verdict, in words.
pub open spec fn detail_of(
    verdict: ProviderCacheVerdict,
    current: ProviderUsage,
    previous: Option<ProviderUsage>,
    percent: Seq<char>,
) -> Seq<char> {
    let read = or_zero(current.cache_read_tokens);
    let prompt = current.prompt_tokens as nat;
    match verdict {
        ProviderCacheVerdict::NotReported => "the provider returned no prompt-cache fields for this turn"@,
        ProviderCacheVerdict::PrefixBroken => {
            let p = previous->0;
            "the provider's cached prefix fell from "@ + digits(or_zero(p.cache_read_tokens))
                + " to "@ + digits(read) + " tokens ("@ + digits(
                (or_zero(p.cache_read_tokens) - read) as nat,
            ) + " tokens no longer cached) while the prompt went "@ + digits(
                p.prompt_tokens as nat,
            ) + " → "@ + digits(prompt)
                + "; this turn was billed for history that had already been paid for"@
        },
        ProviderCacheVerdict::CacheMiss => "0 of "@ + digits(prompt)
            + " prompt tokens were cached; either a cold prefix or a rewrite with nothing left in common with the previous request"@,
        ProviderCacheVerdict::FullReuse => digits(read) + " of "@ + digits(prompt)
            + " prompt tokens served from cache ("@ + percent + "%)"@,
        ProviderCacheVerdict::PartialReuse => digits(read) + " of "@ + digits(prompt)
            + " prompt tokens served from cache ("@ + percent + "%); the remaining "@ + digits(
            if read < prompt {
                (prompt - read) as nat
            } else {
                0
            },
        ) + " were processed fresh, which is the normal cost of the new suffix"@,
    }
}

/// A turn that reuses at least as much as the one before is never taken for a broken prefix,
/// however its prompt grew.
pub proof fn growth_never_breaks_a_prefix(current: ProviderUsage, previous: ProviderUsage)
    requires
        or_zero(current.cache_read_tokens) >= or_zero(previous.cache_read_tokens),
    ensures
        !broke_prefix(current, previous),
        verdict_of(current, Some(previous)) != ProviderCacheVerdict::PrefixBroken,
{
}

/// A request that is itself smaller by more than a quarter is never taken for a broken prefix.
pub proof fn smaller_requests_explain_themselves(current: ProviderUsage, previous: ProviderUsage)
    requires
        fell_by_a_quarter(previous.prompt_tokens as nat, current.prompt_tokens as nat),
    ensures
        verdict_of(current, Some(previous)) != ProviderCacheVerdict::PrefixBroken,
{
}

/// A provider that reports nothing is never said to have missed.
pub proof fn silence_is_not_a_miss(current: ProviderUsage, previous: Option<ProviderUsage>)
    ensures
        verdict_of(current, previous) == ProviderCacheVerdict::NotReported <==> !current.tells(),
{
}

/// Whether `now` fell by more than a quarter of `before`.
fn fell(before: usize, now: usize) -> (r: bool)
    ensures
        r == fell_by_a_quarter(before as nat, now as nat),
{
    now < before - before / 4
}

/// Starts a text with a number.
fn number(n: usize) -> (r: String)
    ensures
        r@ == digits(n as nat),
{
    let mut out = String::new();
    push_nat(&mut out, n as u64);
    assert(out@ =~= digits(n as nat));
    out
}

/// Whether nineteen parts in twenty of the prompt came from the cache.
fn nearly_all(read: usize, prompt: usize) -> (r: bool)
    ensures
        r == (prompt > 0 && 20 * read >= 19 * prompt),
{
    prompt > 0 && 20 * (read as u128) >= 19 * (prompt as u128)
}

/// The verdict for a turn, given the one before it, with the numbers behind it in words.
///
/// `percent` is the share of the prompt that came from the cache, in whole percent.
pub fn verdict_for(current: &ProviderUsage, previous: Option<&ProviderUsage>, percent: &str) -> (r:
    (ProviderCacheVerdict, String))
    ensures
        ({
            let prev = match previous {
                Some(p) => Some(*p),
                None => None,
            };
            &&& r.0 == verdict_of(*current, prev)
            &&& r.1@ == detail_of(r.0, *current, prev, percent@)
        }),
{
    if !current.reports_cache() {
        return (
            ProviderCacheVerdict::NotReported,
            "the provider returned no prompt-cache fields for this turn".to_owned(),
        );
    }
    let read: usize = unwrap_or_zero(current.cache_read_tokens);
    match previous {
        Some(prev) => {
            let prev_read: usize = unwrap_or_zero(prev.cache_read_tokens);
            if prev_read > 0 && !fell(prev.prompt_tokens, current.prompt_tokens) && fell(
                prev_read,
                read,
            ) {
                let mut out = String::from_str("the provider's cached prefix fell from ");
                push_nat(&mut out, prev_read as u64);
                out.append(" to ");
                push_nat(&mut out, read as u64);
                out.append(" tokens (");
                push_nat(&mut out, (prev_read - read) as u64);
                out.append(" tokens no longer cached) while the prompt went ");
                push_nat(&mut out, prev.prompt_tokens as u64);
                out.append(" → ");
                push_nat(&mut out, current.prompt_tokens as u64);
                out.append("; this turn was billed for history that had already been paid for");
                return (ProviderCacheVerdict::PrefixBroken, out);
            }
        },
        None => {},
    }
    if read == 0 {
        let mut out = String::from_str("0 of ");
        push_nat(&mut out, current.prompt_tokens as u64);
        out.append(
            " prompt tokens were cached; either a cold prefix or a rewrite with nothing left in common with the previous request",
        );
        return (ProviderCacheVerdict::CacheMiss, out);
    }
    let mut out = number(read);
    out.append(" of ");
    push_nat(&mut out, current.prompt_tokens as u64);
    out.append(" prompt tokens served from cache (");
    out.append(percent);
    if nearly_all(read, current.prompt_tokens) {
        out.append("%)");
        return (ProviderCacheVerdict::FullReuse, out);
    }
    out.append("%); the remaining ");
    push_nat(&mut out, current.prompt_tokens.saturating_sub(read) as u64);
    out.append(" were processed fresh, which is the normal cost of the new suffix");
    (ProviderCacheVerdict::PartialReuse, out)
}

/// A recorded turn with its verdict.
#[derive(Debug)]
pub struct UsageRecord {
    pub turn: i64,
    pub usage: ProviderUsage,
    pub verdict: ProviderCacheVerdict,
    /// What was cached on the turn before, where there was one.
    pub previous_cache_read_tokens: Option<usize>,
    pub detail: String,
}

impl UsageRecord {
    /// The record of a turn, given the one before it.
    pub fn of_turn(
        turn: i64,
        usage: ProviderUsage,
        previous: Option<&ProviderUsage>,
        percent: &str,
    ) -> (r: Self)
        ensures
            ({
                let prev = match previous {
                    Some(p) => Some(*p),
                    None => None,
                };
                &&& r.turn == turn
                &&& r.usage == usage
                &&& r.verdict == verdict_of(usage, prev)
                &&& r.detail@ == detail_of(r.verdict, usage, prev, percent@)
                &&& r.previous_cache_read_tokens == (match prev {
                    Some(p) => p.cache_read_tokens,
                    None => None,
                })
            }),
    {
        let (verdict, detail) = verdict_for(&usage, previous, percent);
        let before: Option<usize> = match previous {
            Some(p) => p.cache_read_tokens,
            None => None,
        };
        UsageRecord { turn, usage, verdict, previous_cache_read_tokens: before, detail }
    }
}

/// How the provider's cache behaved over many turns.
#[derive(Debug, Clone, Copy, PartialEq, Eq, Structural)]
pub struct ProviderCacheStats {
    pub turns: usize,
    pub turns_reporting: usize,
    pub prefix_breaks: usize,
    pub cache_misses: usize,
    pub total_prompt_tokens: usize,
    pub total_cache_read_tokens: usize,
}

impl Default for ProviderCacheStats {
    fn default() -> (r: Self)
        ensures
            r == (ProviderCacheStats {
                turns: 0,
                turns_reporting: 0,
                prefix_breaks: 0,
                cache_misses: 0,
                total_prompt_tokens: 0,
                total_cache_read_tokens: 0,
            }),
    {
        ProviderCacheStats {
            turns: 0,
            turns_reporting: 0,
            prefix_breaks: 0,
            cache_misses: 0,
            total_prompt_tokens: 0,
            total_cache_read_tokens: 0,
        }
    }
}

/// A recorded turn's prompt and what was cached of it.
pub type Turn = (usize, Option<usize>);

/// The prompts of the first `n` turns added up.
pub open spec fn prompts(rows: Seq<Turn>, n: int) -> int
    decreases n,
{
    if n <= 0 {
        0
    } else {
        prompts(rows, n - 1) + rows[n - 1].0
    }
}

/// What was cached over the first `n` turns added up.
pub open spec fn cached(rows: Seq<Turn>, n: int) -> int
    decreases n,
{
    if n <= 0 {
        0
    } else {
        cached(rows, n - 1) + or_zero(rows[n - 1].1)
    }
}

/// How many of the first `n` turns reported anything.
pub open spec fn reporting(rows: Seq<Turn>, n: int) -> nat
    decreases n,
{
    if n <= 0 {
        0
    } else {
        reporting(rows, n - 1) + (if rows[n - 1].1 is Some {
            1nat
        } else {
            0
        })
    }
}

/// The verdict for turn `i`, given the one before it.
pub open spec fn verdict_at(rows: Seq<Turn>, i: int) -> ProviderCacheVerdict {
    verdict_of(
        ProviderUsage::of(rows[i].0, rows[i].1),
        if i == 0 {
            None
        } else {
            Some(ProviderUsage::of(rows[i - 1].0, rows[i - 1].1))
        },
    )
}

/// How many of the first `n` turns got this verdict.
pub open spec fn with_verdict(rows: Seq<Turn>, verdict: ProviderCacheVerdict, n: int) -> nat
    decreases n,
{
    if n <= 0 {
        0
    } else {
        with_verdict(rows, verdict, n - 1) + (if verdict_at(rows, n - 1) == verdict {
            1nat
        } else {
            0
        })
    }
}

proof fn sums_grow(rows: Seq<Turn>, a: int, b: int)
    requires
        0 <= a <= b,
    ensures
        0 <= prompts(rows, a) <= prompts(rows, b),
        0 <= cached(rows, a) <= cached(rows, b),
    decreases b,
{
    if a < b {
        sums_grow(rows, a, b - 1);
    } else if a > 0 {
        sums_grow(rows, a - 1, b - 1);
    }
}

impl ProviderCacheStats {
    /// The figures over a list of turns, in their order.
    pub fn of_turns(rows: &[Turn]) -> (r: Self)
        requires
            prompts(rows@, rows@.len() as int) <= usize::MAX,
            cached(rows@, rows@.len() as int) <= usize::MAX,
        ensures
            r.turns == rows@.len(),
            r.turns_reporting == reporting(rows@, rows@.len() as int),
            r.prefix_breaks == with_verdict(
                rows@,
                ProviderCacheVerdict::PrefixBroken,
                rows@.len() as int,
            ),
            r.cache_misses == with_verdict(
                rows@,
                ProviderCacheVerdict::CacheMiss,
                rows@.len() as int,
            ),
            r.total_prompt_tokens == prompts(rows@, rows@.len() as int),
            r.total_cache_read_tokens == cached(rows@, rows@.len() as int),
    {
        let n: usize = rows.len();
        let mut stats = ProviderCacheStats::default();
        let mut previous: Option<ProviderUsage> = None;
        for i in 0..n
            invariant
                n == rows@.len(),
                prompts(rows@, n as int) <= usize::MAX,
                cached(rows@, n as int) <= usize::MAX,
                previous == (if i == 0 {
                    None
                } else {
                    Some(ProviderUsage::of(rows@[i - 1].0, rows@[i - 1].1))
                }),
                stats.turns == i,
                stats.turns_reporting == reporting(rows@, i as int),
                stats.turns_reporting <= i,
                stats.prefix_breaks == with_verdict(
                    rows@,
                    ProviderCacheVerdict::PrefixBroken,
                    i as int,
                ),
                stats.prefix_breaks <= i,
                stats.cache_misses == with_verdict(
                    rows@,
                    ProviderCacheVerdict::CacheMiss,
                    i as int,
                ),
                stats.cache_misses <= i,
                stats.total_prompt_tokens == prompts(rows@, i as int),
                stats.total_cache_read_tokens == cached(rows@, i as int),
        {
            proof {
                sums_grow(rows@, i as int + 1, n as int);
            }
            let (prompt, read) = rows[i];
            stats.turns = stats.turns + 1;
            if read.is_some() {
                stats.turns_reporting = stats.turns_reporting + 1;
            }
            stats.total_prompt_tokens = stats.total_prompt_tokens + prompt;
            stats.total_cache_read_tokens = stats.total_cache_read_tokens + unwrap_or_zero(read);
            let current = ProviderUsage {
                prompt_tokens: prompt,
                cache_read_tokens: read,
                ..ProviderUsage::default()
            };
            let verdict = match &previous {
                Some(p) => verdict_for(&current, Some(p), "").0,
                None => verdict_for(&current, None, "").0,
            };
            assert(verdict == verdict_at(rows@, i as int));
            match verdict {
                ProviderCacheVerdict::PrefixBroken => {
                    stats.prefix_breaks = stats.prefix_breaks + 1;
                },
                ProviderCacheVerdict::CacheMiss => {
                    stats.cache_misses = stats.cache_misses + 1;
                },
                _ => {},
            }
            previous = Some(current);
        }
        stats
    }

    /// The figures in one line; `percent` is the share of all prompts that came from the cache.
    pub open spec fn shown(self, percent: Seq<char>) -> Seq<char> {
        if self.turns_reporting == 0 {
            "provider cache: not reported over "@ + digits(self.turns as nat)
                + " turn(s) — the harness can supply it via context.record_usage"@
        } else {
            "provider cache over "@ + digits(self.turns_reporting as nat) + " of "@ + digits(
                self.turns as nat,
            ) + " turn(s): "@ + digits(self.total_cache_read_tokens as nat) + " of "@ + digits(
                self.total_prompt_tokens as nat,
            ) + " prompt tokens served from cache ("@ + percent + "%) · "@ + (
            if self.prefix_breaks == 0 {
                "no prefix breaks"@
            } else {
                digits(self.prefix_breaks as nat)
                    + " PREFIX BREAK(S) — compaction rewrote already-sent history"@
            })
        }
    }

    /// The figures in one line.
    pub fn render(&self, percent: &str) -> (r: String)
        ensures
            r@ == self.shown(percent@),
    {
        if self.turns_reporting == 0 {
            let mut out = String::from_str("provider cache: not reported over ");
            push_nat(&mut out, self.turns as u64);
            out.append(" turn(s) — the harness can supply it via context.record_usage");
            return out;
        }
        let regressions = if self.prefix_breaks == 0 {
            "no prefix breaks".to_owned()
        } else {
            let mut s = number(self.prefix_breaks);
            s.append(" PREFIX BREAK(S) — compaction rewrote already-sent history");
            s
        };
        let mut out = String::from_str("provider cache over ");
        push_nat(&mut out, self.turns_reporting as u64);
        out.append(" of ");
        push_nat(&mut out, self.turns as u64);
        out.append(" turn(s): ");
        push_nat(&mut out, self.total_cache_read_tokens as u64);
        out.append(" of ");
        push_nat(&mut out, self.total_prompt_tokens as u64);
        out.append(" prompt tokens served from cache (");
        out.append(percent);
        out.append("%) · ");
        out.append(regressions.as_str());
        out
    }
}

/// What a turn is told to have been: silent where nothing was reported; a broken prefix where
/// less than three quarters of what was cached before is cached now although the prompt keeps
/// at least three quarters of its size; a miss where nothing came from the cache; a full reuse
/// where at least 95 percent did; and else a partial one.
pub proof fn a_verdict_follows_the_numbers(
    current: &ProviderUsage,
    previous: Option<&ProviderUsage>,
    percent: &str,
    r: (ProviderCacheVerdict, String),
)
    requires
        call_ensures(verdict_for, (current, previous, percent), r),
    ensures
        ({
            let silent = current.cache_read_tokens is None && current.cache_write_tokens is None;
            let read: int = match current.cache_read_tokens {
                Some(n) => n as int,
                None => 0,
            };
            let before: int = match previous {
                Some(p) => match p.cache_read_tokens {
                    Some(n) => n as int,
                    None => 0,
                },
                None => 0,
            };
            let broken = previous matches Some(p) && 4 * read < 3 * before && 4
                * current.prompt_tokens >= 3 * p.prompt_tokens;
            &&& r.0 is NotReported <==> silent
            &&& r.0 is PrefixBroken <==> !silent && broken
            &&& r.0 is CacheMiss <==> !silent && !broken && read == 0
            &&& r.0 is FullReuse <==> !silent && !broken && read > 0 && current.prompt_tokens > 0
                && 100 * read >= 95 * current.prompt_tokens
            &&& r.0 is PartialReuse <==> !silent && !broken && read > 0 && !(current.prompt_tokens
                > 0 && 100 * read >= 95 * current.prompt_tokens)
        }),
{
}

/// One turn more adds itself to the figures: its prompt, what was cached of it, whether it
/// reported anything, and whether it missed or broke the prefix after the turn before it.
pub proof fn one_turn_more_adds_itself(
    rows: &[Turn],
    more: &[Turn],
    a: ProviderCacheStats,
    b: ProviderCacheStats,
    current: &ProviderUsage,
    previous: Option<&ProviderUsage>,
    percent: &str,
    verdict: (ProviderCacheVerdict, String),
)
    requires
        call_ensures(ProviderCacheStats::of_turns, (rows,), a),
        call_ensures(ProviderCacheStats::of_turns, (more,), b),
        more@.len() == rows@.len() + 1,
        more@.drop_last() == rows@,
        *current == ProviderUsage::of(more@.last().0, more@.last().1),
        rows@.len() == 0 ==> previous is None,
        rows@.len() > 0 ==> (previous matches Some(p) && *p == ProviderUsage::of(
            rows@.last().0,
            rows@.last().1,
        )),
        call_ensures(verdict_for, (current, previous, percent), verdict),
    ensures
        b.turns == a.turns + 1,
        b.total_prompt_tokens == a.total_prompt_tokens + more@.last().0,
        more@.last().1 matches Some(n) ==> b.total_cache_read_tokens == a.total_cache_read_tokens
            + n && b.turns_reporting == a.turns_reporting + 1,
        more@.last().1 is None ==> b.total_cache_read_tokens == a.total_cache_read_tokens
            && b.turns_reporting == a.turns_reporting,
        verdict.0 is PrefixBroken ==> b.prefix_breaks == a.prefix_breaks + 1,
        !(verdict.0 is PrefixBroken) ==> b.prefix_breaks == a.prefix_breaks,
        verdict.0 is CacheMiss ==> b.cache_misses == a.cache_misses + 1,
        !(verdict.0 is CacheMiss) ==> b.cache_misses == a.cache_misses,
{
    let n = rows@.len() as int;
    assert forall|i: int| 0 <= i < n implies rows@[i] == more@[i] by {
        assert(more@.drop_last()[i] == more@[i]);
    }
    figures_agree(rows@, more@, n);
    assert(more@[n] == more@.last());
    if n > 0 {
        assert(more@[n - 1] == rows@.last());
    }
}

proof fn figures_agree(a: Seq<Turn>, b: Seq<Turn>, n: int)
    requires
        0 <= n <= a.len() <= b.len(),
        forall|i: int| 0 <= i < a.len() ==> a[i] == b[i],
    ensures
        prompts(a, n) == prompts(b, n),
        cached(a, n) == cached(b, n),
        reporting(a, n) == reporting(b, n),
        with_verdict(a, ProviderCacheVerdict::PrefixBroken, n) == with_verdict(
            b,
            ProviderCacheVerdict::PrefixBroken,
            n,
        ),
        with_verdict(a, ProviderCacheVerdict::CacheMiss, n) == with_verdict(
            b,
            ProviderCacheVerdict::CacheMiss,
            n,
        ),
    decreases n,
{
    if n > 0 {
        figures_agree(a, b, n - 1);
        assert(a[n - 1] == b[n - 1]);
        if n > 1 {
            assert(a[n - 2] == b[n - 2]);
        }
    }
}

/// The figures over no turns are all zero.
pub proof fn no_turns_have_no_figures(rows: &[Turn], r: ProviderCacheStats)
    requires
        call_ensures(ProviderCacheStats::of_turns, (rows,), r),
        rows@.len() == 0,
    ensures
        r.turns == 0 && r.turns_reporting == 0 && r.prefix_breaks == 0 && r.cache_misses == 0
            && r.total_prompt_tokens == 0 && r.total_cache_read_tokens == 0,
{
}

/// What was processed afresh and what came from the cache make up the prompt, where no more
/// came from the cache than the prompt holds.
pub proof fn fresh_and_cached_make_up_the_prompt(usage: &ProviderUsage, fresh: Option<usize>)
    requires
        call_ensures(ProviderUsage::uncached_prompt_tokens, (usage,), fresh),
    ensures
        fresh is Some <==> usage.cache_read_tokens is Some,
        usage.cache_read_tokens matches Some(n) ==> (n <= usage.prompt_tokens ==> fresh->0 + n
            == usage.prompt_tokens),
        usage.cache_read_tokens matches Some(n) ==> (n > usage.prompt_tokens ==> fresh->0 == 0),
{
}

/// A record holds the verdict on its turn, given the turn before, and what was cached then.
pub proof fn a_record_holds_the_verdict(
    turn: i64,
    usage: ProviderUsage,
    previous: Option<&ProviderUsage>,
    percent: &str,
    r: UsageRecord,
    verdict: (ProviderCacheVerdict, String),
    billed: usize,
)
    requires
        call_ensures(UsageRecord::of_turn, (turn, usage, previous, percent), r),
        call_ensures(verdict_for, (&usage, previous, percent), verdict),
        call_ensures(ProviderUsage::billed_tokens, (&usage,), billed),
    ensures
        r.turn == turn && r.usage == usage && r.verdict == verdict.0 && r.detail@ == verdict.1@,
        previous matches Some(p) ==> r.previous_cache_read_tokens == p.cache_read_tokens,
        previous is None ==> r.previous_cache_read_tokens is None,
        usage.total_tokens matches Some(n) ==> billed == n,
        usage.total_tokens is None ==> billed == usage.prompt_tokens + usage.completion_tokens,
{
}

} // verus!
