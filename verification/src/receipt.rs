//! The receipt of a turn: where the context budget went, and why.
//!
//! Every number is measured on the prompt itself, with the counter that the rest of the
//! session is measured with. Percentages are rendered by the caller and handed in as text.

use crate::evict::{changes, Change, EvictionPlan};
use crate::ids::{new_id, now_rfc3339};
use crate::memory::episodic::EpisodeTier;
use crate::order::{stable_sort, stably_sorted, Ranked};
use crate::prompt::{
    blocks, extra_blocks, extra_tokens, header_line, section_of, tokens_but, PromptParts,
    RenderedPart, Section,
};
use crate::text::{
    char_count, comes_before, digits, is_blank, push_int, push_nat, same, signed_digits,
    text_before, text_order,
};
use crate::tokens::{TokenCounter, TokenizerKind};
use vstd::prelude::*;
use vstd::string::*;

verus! {

/// The tokens of each category.
#[derive(Debug, Clone, Copy, PartialEq, Eq, Structural)]
pub struct Breakdown {
    pub system_prompt: usize,
    pub pinned_anchors: usize,
    pub retrieved_memory: usize,
    pub repo_map: usize,
    pub raw_recent_history: usize,
    pub tool_schemas: usize,
    pub fold_summaries: usize,
    pub other: usize,
}

impl Default for Breakdown {
    fn default() -> (r: Self)
        ensures
            r.sum() == 0,
            forall|part: RenderedPart| #[trigger] r.of(part) == 0,
    {
        Breakdown {
            system_prompt: 0,
            pinned_anchors: 0,
            retrieved_memory: 0,
            repo_map: 0,
            raw_recent_history: 0,
            tool_schemas: 0,
            fold_summaries: 0,
            other: 0,
        }
    }
}

/// The tokens of one category among counted parts.
pub open spec fn tokens_of(counts: Seq<(RenderedPart, usize)>, part: RenderedPart) -> nat
    decreases counts.len(),
{
    if counts.len() == 0 {
        0
    } else {
        tokens_of(counts.drop_last(), part) + (if counts.last().0 == part {
            counts.last().1 as nat
        } else {
            0
        })
    }
}

/// The tokens of one category among sections.
pub open spec fn tokens_in(list: Seq<Section>, counter: TokenCounter, part: RenderedPart) -> nat
    decreases list.len(),
{
    if list.len() == 0 {
        0
    } else {
        tokens_in(list.drop_last(), counter, part) + (if list.last().part == part {
            counter.of(header_line(list.last()) + list.last().text)
        } else {
            0
        })
    }
}

/// The tokens of one category of a prompt.
pub open spec fn category(parts: PromptParts, counter: TokenCounter, part: RenderedPart) -> nat {
    if part is Extra {
        extra_tokens(parts.extra@, counter)
    } else {
        tokens_in(parts.section_list(), counter, part)
    }
}

proof fn tokens_of_grow(counts: Seq<(RenderedPart, usize)>, n: int, part: RenderedPart)
    requires
        0 <= n <= counts.len(),
    ensures
        tokens_of(counts.take(n), part) <= tokens_but(counts, None),
    decreases n,
{
    tokens_of_part(counts.take(n), part);
    taking_lowers(counts, n);
}

proof fn tokens_of_part(counts: Seq<(RenderedPart, usize)>, part: RenderedPart)
    ensures
        tokens_of(counts, part) <= tokens_but(counts, None),
    decreases counts.len(),
{
    if counts.len() > 0 {
        tokens_of_part(counts.drop_last(), part);
    }
}

proof fn taking_lowers(counts: Seq<(RenderedPart, usize)>, n: int)
    requires
        0 <= n <= counts.len(),
    ensures
        tokens_but(counts.take(n), None) <= tokens_but(counts, None),
    decreases counts.len() - n,
{
    if n < counts.len() {
        assert(counts.take(n + 1).drop_last() =~= counts.take(n));
        taking_lowers(counts, n + 1);
    } else {
        assert(counts.take(n) =~= counts);
    }
}

/// Counted parts give each category its tokens.
proof fn counts_give_categories(
    parts: PromptParts,
    counts: Seq<(RenderedPart, usize)>,
    counter: TokenCounter,
    part: RenderedPart,
)
    requires
        parts.is_breakdown(counts, counter),
    ensures
        tokens_of(counts, part) == category(parts, counter, part),
{
    let list = parts.section_list();
    let n = list.len() as int;
    section_counts_agree(list, counts, counter, part, n);
    no_extra_sections(parts, counter);
    assert(list.take(n) =~= list);
    if extra_tokens(parts.extra@, counter) > 0 {
        assert(counts.drop_last() =~= counts.take(n));
    } else {
        assert(counts =~= counts.take(n));
    }
}

proof fn section_counts_agree(
    list: Seq<Section>,
    counts: Seq<(RenderedPart, usize)>,
    counter: TokenCounter,
    part: RenderedPart,
    n: int,
)
    requires
        0 <= n <= list.len() <= counts.len(),
        forall|i: int|
            0 <= i < list.len() ==> (#[trigger] counts[i]).0 == list[i].part && counts[i].1
                == counter.of(header_line(list[i]) + list[i].text),
    ensures
        tokens_of(counts.take(n), part) == tokens_in(list.take(n), counter, part),
    decreases n,
{
    if n > 0 {
        section_counts_agree(list, counts, counter, part, n - 1);
        assert(counts.take(n).drop_last() =~= counts.take(n - 1));
        assert(list.take(n).drop_last() =~= list.take(n - 1));
        assert(counts.take(n).last() == counts[n - 1]);
        assert(list.take(n).last() == list[n - 1]);
    }
}

/// No section of the prompt proper is one of the caller's own.
proof fn no_extra_sections(parts: PromptParts, counter: TokenCounter)
    ensures
        tokens_in(parts.section_list(), counter, RenderedPart::Extra) == 0,
{
    crate::prompt::sections_are_in_order(parts);
    let list = parts.section_list();
    assert forall|i: int| 0 <= i < list.len() implies !((#[trigger] list[i]).part is Extra) by {}
    none_of_a_kind(list, counter, RenderedPart::Extra);
}

proof fn none_of_a_kind(list: Seq<Section>, counter: TokenCounter, part: RenderedPart)
    requires
        forall|i: int| 0 <= i < list.len() ==> (#[trigger] list[i]).part != part,
    ensures
        tokens_in(list, counter, part) == 0,
    decreases list.len(),
{
    if list.len() > 0 {
        assert(list[list.len() - 1].part != part);
        assert forall|i: int| 0 <= i < list.drop_last().len() implies (
        #[trigger] list.drop_last()[i]).part != part by {
            assert(list[i].part != part);
        }
        none_of_a_kind(list.drop_last(), counter, part);
    }
}

/// A category of a prompt is what its part counts for with its header, and nothing where the
/// part is blank.
pub proof fn categories_are_parts(parts: PromptParts, counter: TokenCounter, part: RenderedPart)
    requires
        !(part is Extra),
    ensures
        is_blank(parts.text_of(part)) ==> category(parts, counter, part) == 0,
        !is_blank(parts.text_of(part)) ==> exists|header: Seq<char>|
            category(parts, counter, part) == #[trigger] counter.of(header + parts.text_of(part)),
{
    let list = parts.section_list();
    crate::prompt::sections_are_in_order(parts);
    if is_blank(parts.text_of(part)) {
        assert forall|i: int| 0 <= i < list.len() implies (#[trigger] list[i]).part != part by {
            if list[i].part == part {
                assert(list[i].text == parts.text_of(part));
            }
        }
        none_of_a_kind(list, counter, part);
    } else {
        let i = place_of(parts, part);
        one_of_a_kind(list, counter, part, i);
        assert(list[i].text == parts.text_of(part));
    }
}

/// Where a part that is not blank stands among the sections.
proof fn place_of(parts: PromptParts, part: RenderedPart) -> (i: int)
    requires
        !(part is Extra),
        !is_blank(parts.text_of(part)),
    ensures
        0 <= i < parts.section_list().len(),
        parts.section_list()[i].part == part,
{
    let a = section_of(RenderedPart::System, ""@, parts.system@);
    let b = a + section_of(RenderedPart::Anchors, "--- pinned anchors ---"@, parts.anchors@);
    let c = b + section_of(RenderedPart::Folds, "--- folded subtasks ---"@, parts.folds@);
    let d = c + section_of(RenderedPart::Recall, "--- retrieved memory ---"@, parts.recall@);
    let e = d + section_of(RenderedPart::RepoMap, "--- repository map ---"@, parts.repo_map@);
    let f = e + section_of(RenderedPart::Timeline, "--- recent history ---"@, parts.timeline@);
    match part {
        RenderedPart::System => 0,
        RenderedPart::Anchors => a.len() as int,
        RenderedPart::Folds => b.len() as int,
        RenderedPart::Recall => c.len() as int,
        RenderedPart::RepoMap => d.len() as int,
        RenderedPart::Timeline => e.len() as int,
        _ => f.len() as int,
    }
}

proof fn one_of_a_kind(list: Seq<Section>, counter: TokenCounter, part: RenderedPart, i: int)
    requires
        0 <= i < list.len(),
        list[i].part == part,
        forall|j: int| 0 <= j < list.len() && j != i ==> (#[trigger] list[j]).part != part,
    ensures
        tokens_in(list, counter, part) == counter.of(header_line(list[i]) + list[i].text),
    decreases list.len(),
{
    let init = list.drop_last();
    if i == list.len() - 1 {
        assert forall|j: int| 0 <= j < init.len() implies (#[trigger] init[j]).part != part by {
            assert(list[j].part != part);
        }
        none_of_a_kind(init, counter, part);
    } else {
        assert forall|j: int| 0 <= j < init.len() && j != i implies (#[trigger] init[j]).part
            != part by {
            assert(list[j].part != part);
        }
        assert(list[list.len() - 1].part != part);
        one_of_a_kind(init, counter, part, i);
    }
}

impl Ranked for (&'static str, usize) {
    /// The larger first, by name among equals.
    open spec fn precedes(&self, other: &Self) -> bool {
        self.1 > other.1 || (self.1 == other.1 && text_before(self.0@, other.0@))
    }

    fn before(&self, other: &Self) -> (r: bool) {
        self.1 > other.1 || (self.1 == other.1 && comes_before(self.0, other.0))
    }

    proof fn ordering(a: Self, b: Self, c: Self) {
        text_order(a.0@, b.0@, c.0@);
        text_order(b.0@, a.0@, c.0@);
        text_order(c.0@, b.0@, a.0@);
        text_order(a.0@, c.0@, b.0@);
        text_order(b.0@, c.0@, a.0@);
        text_order(c.0@, a.0@, b.0@);
    }
}

/// The categories that hold anything, among the first `n`.
pub open spec fn filled(list: Seq<(&'static str, usize)>, n: int) -> Seq<(&'static str, usize)>
    decreases n,
{
    if n <= 0 {
        Seq::empty()
    } else if list[n - 1].1 > 0 {
        filled(list, n - 1).push(list[n - 1])
    } else {
        filled(list, n - 1)
    }
}

/// `text` with spaces after it up to `width` characters.
pub open spec fn padded_right(text: Seq<char>, width: nat) -> Seq<char>
    decreases width - text.len(),
{
    if text.len() >= width {
        text
    } else {
        padded_right(text.push(' '), width)
    }
}

/// `n` times the character `c`.
pub open spec fn times(c: char, n: nat) -> Seq<char> {
    Seq::new(n, |i: int| c)
}

/// `text` with spaces before it up to `width` characters.
pub open spec fn padded_left(text: Seq<char>, width: nat) -> Seq<char> {
    times(
        ' ',
        if text.len() < width {
            (width - text.len()) as nat
        } else {
            0
        },
    ) + text
}

fn pad_right(text: &str, width: usize) -> (r: String)
    ensures
        r@ == padded_right(text@, width as nat),
{
    let mut out = String::from_str(text);
    let mut n: usize = char_count(text);
    while n < width
        invariant
            n == out@.len(),
            padded_right(text@, width as nat) == padded_right(out@, width as nat),
        decreases width - n,
    {
        out.push(' ');
        n = n + 1;
    }
    out
}

/// Adds `n` times the character `c`.
fn push_times(out: &mut String, c: char, n: usize)
    ensures
        final(out)@ == old(out)@ + times(c, n as nat),
{
    let ghost before = out@;
    assert(before + times(c, 0) =~= before);
    for i in 0..n
        invariant
            out@ == before + times(c, i as nat),
    {
        out.push(c);
        assert(out@ =~= before + times(c, i as nat + 1));
    }
}

fn pad_left(text: &str, width: usize) -> (r: String)
    ensures
        r@ == padded_left(text@, width as nat),
{
    let n: usize = char_count(text);
    let mut out = String::new();
    push_times(&mut out, ' ', width.saturating_sub(n));
    out.append(text);
    assert(out@ =~= padded_left(text@, width as nat));
    out
}

/// A bar of `width` cells, the first `filled` of them full.
pub open spec fn bar_text(filled: nat, width: nat) -> Seq<char> {
    times(
        '█',
        if filled < width {
            filled
        } else {
            width
        },
    ) + times(
        '·',
        if filled < width {
            (width - filled) as nat
        } else {
            0
        },
    )
}

/// A bar of `width` cells, the first `filled` of them full.
fn bar(filled: usize, width: usize) -> (r: String)
    ensures
        r@ == bar_text(filled as nat, width as nat),
{
    let mut out = String::new();
    push_times(
        &mut out,
        '█',
        if filled < width {
            filled
        } else {
            width
        },
    );
    push_times(&mut out, '·', width.saturating_sub(filled));
    assert(out@ =~= bar_text(filled as nat, width as nat));
    out
}

impl Breakdown {
    /// The tokens of one category.
    pub open spec fn of(self, part: RenderedPart) -> usize {
        match part {
            RenderedPart::System => self.system_prompt,
            RenderedPart::Anchors => self.pinned_anchors,
            RenderedPart::Recall => self.retrieved_memory,
            RenderedPart::RepoMap => self.repo_map,
            RenderedPart::Timeline => self.raw_recent_history,
            RenderedPart::ToolSchemas => self.tool_schemas,
            RenderedPart::Folds => self.fold_summaries,
            RenderedPart::Extra => self.other,
        }
    }

    /// All categories together.
    pub open spec fn sum(self) -> int {
        self.system_prompt + self.pinned_anchors + self.retrieved_memory + self.repo_map
            + self.raw_recent_history + self.tool_schemas + self.fold_summaries + self.other
    }

    /// The categories and their names.
    pub open spec fn named(self) -> Seq<(&'static str, usize)> {
        seq![
            ("system prompt", self.system_prompt),
            ("pinned anchors", self.pinned_anchors),
            ("retrieved memory", self.retrieved_memory),
            ("repo map", self.repo_map),
            ("raw recent history", self.raw_recent_history),
            ("tool schemas", self.tool_schemas),
            ("fold summaries", self.fold_summaries),
            ("other", self.other),
        ]
    }

    /// The categories that hold anything, the largest first.
    pub open spec fn ranked(self) -> Seq<(&'static str, usize)> {
        stably_sorted(filled(self.named(), 8))
    }

    /// The breakdown with so many more tokens in one category.
    fn with(self, part: RenderedPart, n: usize) -> (r: Self)
        requires
            self.of(part) + n <= usize::MAX,
        ensures
            forall|p: RenderedPart| #[trigger]
                r.of(p) == self.of(p) + (if p == part {
                    n as int
                } else {
                    0
                }),
            r.sum() == self.sum() + n,
    {
        let mut b = self;
        match part {
            RenderedPart::System => {
                b.system_prompt = b.system_prompt + n;
            },
            RenderedPart::Anchors => {
                b.pinned_anchors = b.pinned_anchors + n;
            },
            RenderedPart::Recall => {
                b.retrieved_memory = b.retrieved_memory + n;
            },
            RenderedPart::RepoMap => {
                b.repo_map = b.repo_map + n;
            },
            RenderedPart::Timeline => {
                b.raw_recent_history = b.raw_recent_history + n;
            },
            RenderedPart::ToolSchemas => {
                b.tool_schemas = b.tool_schemas + n;
            },
            RenderedPart::Folds => {
                b.fold_summaries = b.fold_summaries + n;
            },
            RenderedPart::Extra => {
                b.other = b.other + n;
            },
        }
        b
    }

    /// The breakdown of an assembled prompt.
    pub fn from_parts(parts: &PromptParts, counter: &TokenCounter) -> (r: Self)
        requires
            parts.countable(*counter),
        ensures
            forall|part: RenderedPart| #[trigger] r.of(part) == category(*parts, *counter, part),
            r.sum() == parts.tokens_without(*counter, None),
    {
        let counts = parts.breakdown(counter);
        let mut b = Breakdown::default();
        proof {
            crate::prompt::breakdown_adds_up(*parts, counts@, *counter, None);
            assert(counts@.take(0) =~= Seq::empty());
        }
        for i in 0..counts.len()
            invariant
                tokens_but(counts@, None) <= usize::MAX,
                forall|part: RenderedPart|
                    #[trigger] b.of(part) == tokens_of(counts@.take(i as int), part),
                b.sum() == tokens_but(counts@.take(i as int), None),
        {
            let (part, n) = counts[i];
            let ghost before = b;
            proof {
                assert(counts@.take(i as int + 1).drop_last() =~= counts@.take(i as int));
                assert(counts@.take(i as int + 1).last() == (part, n));
                tokens_of_grow(counts@, i as int + 1, part);
                assert(b.of(part) == tokens_of(counts@.take(i as int), part));
            }
            b = b.with(part, n);
            assert forall|p: RenderedPart| #[trigger]
                b.of(p) == tokens_of(counts@.take(i as int + 1), p) by {
                assert(before.of(p) == tokens_of(counts@.take(i as int), p));
            }
        }
        proof {
            assert(counts@.take(counts@.len() as int) =~= counts@);
            assert forall|p: RenderedPart| #[trigger] b.of(p) == category(*parts, *counter, p) by {
                counts_give_categories(*parts, counts@, *counter, p);
            }
        }
        b
    }

    pub fn total(&self) -> (r: usize)
        requires
            self.sum() <= usize::MAX,
        ensures
            r == self.sum(),
    {
        self.system_prompt + self.pinned_anchors + self.retrieved_memory + self.repo_map
            + self.raw_recent_history + self.tool_schemas + self.fold_summaries + self.other
    }

    /// The categories that hold anything, the largest first.
    pub fn by_size(&self) -> (r: Vec<(&'static str, usize)>)
        ensures
            r@ == self.ranked(),
    {
        let all: [(&'static str, usize); 8] = [
            ("system prompt", self.system_prompt),
            ("pinned anchors", self.pinned_anchors),
            ("retrieved memory", self.retrieved_memory),
            ("repo map", self.repo_map),
            ("raw recent history", self.raw_recent_history),
            ("tool schemas", self.tool_schemas),
            ("fold summaries", self.fold_summaries),
            ("other", self.other),
        ];
        assert(all@ =~= self.named());
        let mut kept: Vec<(&'static str, usize)> = Vec::new();
        for i in 0..8
            invariant
                all@ == self.named(),
                all@.len() == 8,
                kept@ == filled(self.named(), i as int),
        {
            if all[i].1 > 0 {
                kept.push(all[i]);
            }
        }
        stable_sort(kept)
    }
}

/// The categories of a receipt come in order of size, the largest first.
pub proof fn the_largest_category_comes_first(b: Breakdown, i: int, j: int)
    requires
        0 <= i < j < b.ranked().len(),
    ensures
        b.ranked()[i].1 >= b.ranked()[j].1,
        b.ranked()[j].1 > 0,
{
    let list = filled(b.named(), 8);
    filled_is_filled(b.named(), 8);
    let order = crate::order::sorting_rearranges(list);
    crate::order::a_stable_order_sorts(list, order);
    assert(!b.ranked()[j].precedes(&b.ranked()[i]));
    assert(b.ranked()[j] == list[order[j] as int]);
}

proof fn filled_is_filled(list: Seq<(&'static str, usize)>, n: int)
    requires
        0 <= n <= list.len(),
    ensures
        filled(list, n).len() <= n,
        forall|i: int| 0 <= i < filled(list, n).len() ==> (#[trigger] filled(list, n)[i]).1 > 0,
    decreases n,
{
    if n > 0 {
        filled_is_filled(list, n - 1);
        let before = filled(list, n - 1);
        assert forall|i: int| 0 <= i < filled(list, n).len() implies (#[trigger] filled(
            list,
            n,
        )[i]).1 > 0 by {
            if i < before.len() {
                assert(filled(list, n)[i] == before[i]);
            }
        }
    }
}

/// How far the categories may lie from the measured prompt: each section is rounded up by
/// itself, and its last line end is counted with the whole only.
pub proof fn breakdown_agrees_with_the_measure(parts: PromptParts, counter: TokenCounter)
    ensures
        ({
            let sum = parts.tokens_without(counter, None);
            let measured = counter.of(parts.rendered());
            let sections = parts.section_list().len() + parts.extra@.len();
            &&& measured <= sum + sections
            &&& sum <= measured + sections
        }),
{
    let p: int = if counter.per() == 0 {
        1
    } else {
        counter.per() as int
    };
    let list = parts.section_list();
    let k1 = list.len() as int;
    let k2 = parts.extra@.len() as int;
    let t1 = PromptParts::section_tokens(list, counter, None) as int;
    let t2 = extra_tokens(parts.extra@, counter) as int;
    let b1 = blocks(list).len() as int;
    let b2 = extra_blocks(parts.extra@).len() as int;
    sections_are_rounded(list, counter, p);
    extras_are_rounded(parts.extra@, counter, p);
    let m = counter.of(parts.rendered()) as int;
    rounding_up(b1 + b2, p);
    assert(parts.rendered().len() == b1 + b2);
    assert(p * (t1 + t2) == p * t1 + p * t2) by (nonlinear_arith);
    assert((k1 + k2) * (p - 1) == k1 * (p - 1) + k2 * (p - 1)) by (nonlinear_arith);
    sums_stay_close(p, k1 + k2, t1 + t2, m, b1 + b2);
}

/// Rounding a quotient up: less than one group is added.
proof fn rounding_up(n: int, p: int)
    requires
        0 <= n,
        1 <= p,
    ensures
        n <= p * ((n + p - 1) / p) <= n + p - 1,
{
    let q = (n + p - 1) / p;
    let r = (n + p - 1) % p;
    vstd::arithmetic::div_mod::lemma_fundamental_div_mod(n + p - 1, p);
    assert(n + p - 1 == p * q + r);
    vstd::arithmetic::div_mod::lemma_mod_bound(n + p - 1, p);
}

proof fn sums_stay_close(p: int, k: int, t: int, m: int, b: int)
    by (nonlinear_arith)
    requires
        1 <= p,
        0 <= k,
        0 <= b,
        b - k <= p * t <= b + k * (p - 1),
        b <= p * m <= b + p - 1,
    ensures
        m <= t + k,
        t <= m + k,
{
    assert(p * m <= p * t + k + p - 1);
    assert(p * (m - t) <= k + p - 1);
    if m > t + k {
        assert(p * (m - t) >= p * (k + 1));
        assert(p * (k + 1) == p * k + p);
        assert(p * k >= k);
    }
    assert(p * t <= p * m + k * (p - 1));
    if t > m + k {
        assert(p * (t - m) >= p * (k + 1));
        assert(p * (k + 1) > k * (p - 1));
    }
}

/// The tokens of sections lie close to what their blocks would count for together.
proof fn sections_are_rounded(list: Seq<Section>, counter: TokenCounter, p: int)
    requires
        p == (if counter.per() == 0 {
            1
        } else {
            counter.per() as int
        }),
    ensures
        ({
            let t = PromptParts::section_tokens(list, counter, None) as int;
            let b = blocks(list).len() as int;
            let k = list.len() as int;
            b - k <= p * t <= b + k * (p - 1)
        }),
    decreases list.len(),
{
    if list.len() > 0 {
        let init = list.drop_last();
        let s = list.last();
        sections_are_rounded(init, counter, p);
        let a = (header_line(s) + s.text).len() as int;
        rounding_up(a, p);
        let c = counter.of(header_line(s) + s.text) as int;
        let t0 = PromptParts::section_tokens(init, counter, None) as int;
        let k0 = init.len() as int;
        assert(p * (t0 + c) == p * t0 + p * c) by (nonlinear_arith);
        assert((k0 + 1) * (p - 1) == k0 * (p - 1) + (p - 1)) by (nonlinear_arith);
    } else {
        assert(p * 0 == 0) by (nonlinear_arith);
        assert(0 * (p - 1) == 0) by (nonlinear_arith);
    }
}

proof fn extras_are_rounded(extra: Seq<(String, String)>, counter: TokenCounter, p: int)
    requires
        p == (if counter.per() == 0 {
            1
        } else {
            counter.per() as int
        }),
    ensures
        ({
            let t = extra_tokens(extra, counter) as int;
            let b = extra_blocks(extra).len() as int;
            let k = extra.len() as int;
            b - k <= p * t <= b + k * (p - 1)
        }),
    decreases extra.len(),
{
    if extra.len() > 0 {
        let init = extra.drop_last();
        let last = extra.last();
        extras_are_rounded(init, counter, p);
        let block = crate::prompt::extra_block(last.0@, last.1@);
        rounding_up(block.len() as int, p);
        let c = counter.of(block) as int;
        let t0 = extra_tokens(init, counter) as int;
        let k0 = init.len() as int;
        assert(p * (t0 + c) == p * t0 + p * c) by (nonlinear_arith);
        assert((k0 + 1) * (p - 1) == k0 * (p - 1) + (p - 1)) by (nonlinear_arith);
    } else {
        assert(p * 0 == 0) by (nonlinear_arith);
        assert(0 * (p - 1) == 0) by (nonlinear_arith);
    }
}

/// What an eviction did.
#[derive(Debug)]
pub struct EvictionSummary {
    pub applied: usize,
    pub tokens_reclaimed: usize,
    pub from_tier_live_to_masked: usize,
    pub from_tier_masked_to_referenced: usize,
    pub from_tier_referenced_to_archived: usize,
    pub from_tier_archived_to_dropped: usize,
    pub snapshot_taken: bool,
    pub boundary: Option<String>,
}

/// How many of the first `n` changes go from one tier to another.
pub open spec fn steps(list: Seq<Change>, from: EpisodeTier, to: EpisodeTier, n: int) -> nat
    decreases n,
{
    if n <= 0 {
        0
    } else {
        steps(list, from, to, n - 1) + (if list[n - 1].from == from && list[n - 1].to == to {
            1nat
        } else {
            0
        })
    }
}

impl EvictionSummary {
    /// The changes of a plan, counted by the step they make.
    pub fn from_plan(plan: &EvictionPlan, snapshot_taken: bool) -> (r: Self)
        requires
            plan.coherence matches Some(c) ==> c.aligned_cut matches Some(a)
                ==> crate::cache::plan::difference_fits(c.requested_cut, a),
        ensures
            r.applied == plan.updates@.len(),
            r.tokens_reclaimed == plan.planned_savings,
            ({
                let list = changes(plan.updates@);
                let n = list.len() as int;
                &&& r.from_tier_live_to_masked == steps(
                    list,
                    EpisodeTier::Live,
                    EpisodeTier::Masked,
                    n,
                )
                &&& r.from_tier_masked_to_referenced == steps(
                    list,
                    EpisodeTier::Masked,
                    EpisodeTier::Referenced,
                    n,
                )
                &&& r.from_tier_referenced_to_archived == steps(
                    list,
                    EpisodeTier::Referenced,
                    EpisodeTier::Archived,
                    n,
                )
                &&& r.from_tier_archived_to_dropped == steps(
                    list,
                    EpisodeTier::Archived,
                    EpisodeTier::Dropped,
                    n,
                )
            }),
            r.snapshot_taken == snapshot_taken,
            match plan.coherence {
                Some(c) => r.boundary matches Some(b) && b@ == c.summary_text(),
                None => r.boundary is None,
            },
    {
        let boundary: Option<String> = match &plan.coherence {
            Some(c) => Some(c.summary()),
            None => None,
        };
        let n: usize = plan.updates.len();
        let mut masked: usize = 0;
        let mut referenced: usize = 0;
        let mut archived: usize = 0;
        let mut dropped: usize = 0;
        let ghost list = changes(plan.updates@);
        for i in 0..n
            invariant
                n == plan.updates@.len(),
                list == changes(plan.updates@),
                masked <= i && referenced <= i && archived <= i && dropped <= i,
                masked == steps(list, EpisodeTier::Live, EpisodeTier::Masked, i as int),
                referenced == steps(
                    list,
                    EpisodeTier::Masked,
                    EpisodeTier::Referenced,
                    i as int,
                ),
                archived == steps(
                    list,
                    EpisodeTier::Referenced,
                    EpisodeTier::Archived,
                    i as int,
                ),
                dropped == steps(list, EpisodeTier::Archived, EpisodeTier::Dropped, i as int),
        {
            let u = &plan.updates[i];
            assert(list[i as int] == u.change());
            match (u.from, u.to) {
                (EpisodeTier::Live, EpisodeTier::Masked) => {
                    masked = masked + 1;
                },
                (EpisodeTier::Masked, EpisodeTier::Referenced) => {
                    referenced = referenced + 1;
                },
                (EpisodeTier::Referenced, EpisodeTier::Archived) => {
                    archived = archived + 1;
                },
                (EpisodeTier::Archived, EpisodeTier::Dropped) => {
                    dropped = dropped + 1;
                },
                _ => {},
            }
        }
        EvictionSummary {
            applied: n,
            tokens_reclaimed: plan.planned_savings,
            from_tier_live_to_masked: masked,
            from_tier_masked_to_referenced: referenced,
            from_tier_referenced_to_archived: archived,
            from_tier_archived_to_dropped: dropped,
            snapshot_taken,
            boundary,
        }
    }

    /// The line of a receipt.
    pub open spec fn shown(self) -> Seq<char> {
        "  eviction: "@ + digits(self.applied as nat) + " episode(s), "@ + digits(
            self.tokens_reclaimed as nat,
        ) + " tokens reclaimed"@ + (if self.snapshot_taken {
            ", pre-rewrite snapshot taken"@
        } else {
            ""@
        }) + " (live→masked "@ + digits(self.from_tier_live_to_masked as nat)
            + ", masked→referenced "@ + digits(self.from_tier_masked_to_referenced as nat)
            + ", referenced→archived "@ + digits(self.from_tier_referenced_to_archived as nat)
            + ", archived→dropped "@ + digits(self.from_tier_archived_to_dropped as nat) + ")\n"@
            + (match self.boundary {
            Some(b) => "    "@ + b@ + "\n"@,
            None => ""@,
        })
    }

    fn line(&self) -> (r: String)
        ensures
            r@ == self.shown(),
    {
        let mut out = String::from_str("  eviction: ");
        push_nat(&mut out, self.applied as u64);
        out.append(" episode(s), ");
        push_nat(&mut out, self.tokens_reclaimed as u64);
        out.append(" tokens reclaimed");
        if self.snapshot_taken {
            out.append(", pre-rewrite snapshot taken");
        } else {
            out.append("");
        }
        out.append(" (live→masked ");
        push_nat(&mut out, self.from_tier_live_to_masked as u64);
        out.append(", masked→referenced ");
        push_nat(&mut out, self.from_tier_masked_to_referenced as u64);
        out.append(", referenced→archived ");
        push_nat(&mut out, self.from_tier_referenced_to_archived as u64);
        out.append(", archived→dropped ");
        push_nat(&mut out, self.from_tier_archived_to_dropped as u64);
        out.append(")\n");
        let boundary = match &self.boundary {
            Some(b) => {
                let mut s = String::from_str("    ");
                s.append(b.as_str());
                s.append("\n");
                s
            },
            None => String::from_str(""),
        };
        out.append(boundary.as_str());
        out
    }
}

/// A plan's steps are counted completely: where every change is one step down, the four counts
/// add up to the changes.
pub proof fn every_step_is_counted(list: Seq<Change>, n: int)
    requires
        0 <= n <= list.len(),
        forall|i: int|
            0 <= i < list.len() ==> (#[trigger] list[i]).from.next() == Some(list[i].to),
    ensures
        steps(list, EpisodeTier::Live, EpisodeTier::Masked, n) + steps(
            list,
            EpisodeTier::Masked,
            EpisodeTier::Referenced,
            n,
        ) + steps(list, EpisodeTier::Referenced, EpisodeTier::Archived, n) + steps(
            list,
            EpisodeTier::Archived,
            EpisodeTier::Dropped,
            n,
        ) == n,
    decreases n,
{
    if n > 0 {
        every_step_is_counted(list, n - 1);
        assert(list[n - 1].from.next() == Some(list[n - 1].to));
    }
}

/// The receipt of one turn.
#[derive(Debug)]
pub struct Receipt {
    pub receipt_id: String,
    pub session_id: String,
    pub slot_id: Option<String>,
    pub turn: i64,
    pub breakdown: Breakdown,
    /// The tokens of the assembled prompt, measured.
    pub total_tokens: usize,
    /// The window that the prompt was planned for.
    pub context_window: usize,
    pub cache_status: String,
    pub cache_detail: String,
    pub prompt_eval_ms: Option<i64>,
    pub prompt_tokens_reused: Option<usize>,
    pub prompt_tokens_prefilled: Option<usize>,
    pub eviction: Option<EvictionSummary>,
    pub tokenizer: String,
    pub backend: String,
    pub created_at: String,
}

/// The share of one category, as the caller renders it.
#[derive(Debug)]
pub struct Share {
    /// Its part of the prompt in percent, with one decimal.
    pub percent: String,
    /// How many of the bar's cells it fills.
    pub filled: usize,
}

/// The ratios of a receipt, as the caller renders them.
#[derive(Debug)]
pub struct ReceiptFigures {
    /// How full the window is, in whole percent.
    pub full_percent: String,
    /// One share for each category that holds anything, the largest first.
    pub shares: Vec<Share>,
    /// How much of the prompt was reused, in whole percent.
    pub saved_percent: String,
}

/// How many cells a bar has.
pub const BAR_WIDTH: usize = 18;

/// The line of one category.
pub open spec fn category_line(entry: (&'static str, usize), share: Share) -> Seq<char> {
    "    "@ + padded_right(entry.0@, 20) + " "@ + padded_left(digits(entry.1 as nat), 7) + "  "@
        + padded_left(share.percent@, 5) + "%  "@ + bar_text(
        share.filled as nat,
        BAR_WIDTH as nat,
    ) + "\n"@
}

/// The lines of the first `n` categories.
pub open spec fn category_lines(
    list: Seq<(&'static str, usize)>,
    shares: Seq<Share>,
    n: int,
) -> Seq<char>
    decreases n,
{
    if n <= 0 {
        Seq::empty()
    } else {
        category_lines(list, shares, n - 1) + category_line(list[n - 1], shares[n - 1])
    }
}

impl Receipt {
    /// Whether this is the bare receipt of a prompt.
    pub open spec fn measures(
        self,
        session_id: Seq<char>,
        slot_id: Option<&str>,
        turn: i64,
        parts: PromptParts,
        counter: TokenCounter,
        context_window: usize,
    ) -> bool {
        &&& self.receipt_id@.len() == 37 && self.receipt_id@.take(4) == "rcpt"@
            && self.receipt_id@[4] == '_'
        &&& self.session_id@ == session_id
        &&& match slot_id {
            Some(s) => self.slot_id matches Some(t) && t@ == s@,
            None => self.slot_id is None,
        }
        &&& self.turn == turn
        &&& forall|part: RenderedPart|
            #[trigger] self.breakdown.of(part) == category(parts, counter, part)
        &&& self.breakdown.sum() == parts.tokens_without(counter, None)
        &&& self.total_tokens == counter.of(parts.rendered())
        &&& self.context_window == context_window
        &&& self.cache_status@ == "unknown"@ && self.cache_detail@.len() == 0
        &&& self.prompt_eval_ms is None && self.prompt_tokens_reused is None
        &&& self.prompt_tokens_prefilled is None && self.eviction is None
        &&& self.tokenizer@ == counter.spec_kind().name()
        &&& self.backend@.len() == 0
        &&& self.created_at@.len() >= 24 && self.created_at@.last() == 'Z'
    }

    /// The receipt of the prompt that is about to be sent.
    pub fn build(
        session_id: &str,
        slot_id: Option<&str>,
        turn: i64,
        parts: &PromptParts,
        counter: &TokenCounter,
        context_window: usize,
    ) -> (r: Self)
        requires
            parts.countable(*counter),
        ensures
            r.measures(session_id@, slot_id, turn, *parts, *counter, context_window),
    {
        let breakdown = Breakdown::from_parts(parts, counter);
        let measured: usize = parts.total_tokens(counter);
        proof {
            reveal_strlit("rcpt");
            assert("rcpt"@.len() == 4);
        }
        Receipt {
            receipt_id: new_id("rcpt"),
            session_id: session_id.to_owned(),
            slot_id: match slot_id {
                Some(s) => Some(s.to_owned()),
                None => None,
            },
            turn,
            breakdown,
            total_tokens: measured,
            context_window,
            cache_status: "unknown".to_owned(),
            cache_detail: String::new(),
            prompt_eval_ms: None,
            prompt_tokens_reused: None,
            prompt_tokens_prefilled: None,
            eviction: None,
            tokenizer: counter.kind().as_str().to_owned(),
            backend: String::new(),
            created_at: now_rfc3339(),
        }
    }

    pub fn with_cache(self, status: &str, detail: &str) -> (r: Self)
        ensures
            r.cache_status@ == status@,
            r.cache_detail@ == detail@,
            r == (Receipt {
                cache_status: r.cache_status,
                cache_detail: r.cache_detail,
                ..self
            }),
    {
        Receipt { cache_status: status.to_owned(), cache_detail: detail.to_owned(), ..self }
    }

    pub fn with_cache_numbers(self, reused: usize, prefilled: usize) -> (r: Self)
        ensures
            r == (Receipt {
                prompt_tokens_reused: Some(reused),
                prompt_tokens_prefilled: Some(prefilled),
                ..self
            }),
    {
        Receipt {
            prompt_tokens_reused: Some(reused),
            prompt_tokens_prefilled: Some(prefilled),
            ..self
        }
    }

    pub fn with_prompt_eval_ms(self, ms: i64) -> (r: Self)
        ensures
            r == (Receipt { prompt_eval_ms: Some(ms), ..self }),
    {
        Receipt { prompt_eval_ms: Some(ms), ..self }
    }

    pub fn with_eviction(self, summary: EvictionSummary) -> (r: Self)
        ensures
            r == (Receipt { eviction: Some(summary), ..self }),
    {
        Receipt { eviction: Some(summary), ..self }
    }

    pub fn with_backend(self, name: &str) -> (r: Self)
        ensures
            r.backend@ == name@,
            r == (Receipt { backend: r.backend, ..self }),
    {
        Receipt { backend: name.to_owned(), ..self }
    }

    /// Whether the categories agree with the measured prompt, within one percent plus two
    /// tokens.
    pub open spec fn consistent(self) -> bool {
        let tolerance = self.total_tokens as int / 100 + 2;
        &&& self.breakdown.sum() - self.total_tokens <= tolerance
        &&& self.total_tokens - self.breakdown.sum() <= tolerance
    }

    /// Whether the categories agree with the measured prompt.
    pub fn breakdown_is_consistent(&self) -> (r: bool)
        requires
            self.breakdown.sum() <= usize::MAX,
        ensures
            r == self.consistent(),
    {
        let sum: usize = self.breakdown.total();
        let tolerance: usize = self.total_tokens / 100 + 2;
        if sum > self.total_tokens {
            sum - self.total_tokens <= tolerance
        } else {
            self.total_tokens - sum <= tolerance
        }
    }

    /// The receipt as text.
    pub open spec fn shown(self, figures: ReceiptFigures) -> Seq<char> {
        let list = self.breakdown.ranked();
        "Context Ledger Receipt · turn "@ + signed_digits(self.turn as int) + " · session "@
            + self.session_id@ + "\n  window "@ + digits(self.total_tokens as nat) + "/"@ + digits(
            self.context_window as nat,
        ) + " tokens ("@ + figures.full_percent@ + "% full) · tokenizer "@ + self.tokenizer@
            + " · backend "@ + (if self.backend@.len() == 0 {
            "n/a"@
        } else {
            self.backend@
        }) + "\n  where the budget went:\n"@ + category_lines(
            list,
            figures.shares@,
            list.len() as int,
        ) + (if self.consistent() {
            ""@
        } else {
            "    NOTE: category sum "@ + digits(self.breakdown.sum() as nat)
                + " differs from measured total "@ + digits(self.total_tokens as nat)
                + " beyond tolerance\n"@
        }) + "  cache: "@ + self.cache_status@ + "\n"@ + (if self.cache_detail@.len() == 0 {
            ""@
        } else {
            "    "@ + self.cache_detail@ + "\n"@
        }) + (match (self.prompt_tokens_reused, self.prompt_tokens_prefilled) {
            (Some(reused), Some(prefilled)) => "    "@ + digits(reused as nat)
                + " tokens reused / "@ + digits(prefilled as nat) + " prefilled ("@
                + figures.saved_percent@ + "% saved)\n"@,
            _ => ""@,
        }) + (match self.prompt_eval_ms {
            Some(ms) => "  prompt eval: "@ + signed_digits(ms as int) + " ms\n"@,
            None => ""@,
        }) + (match self.eviction {
            Some(e) => e.shown(),
            None => ""@,
        })
    }

    /// The receipt as text, for a person to read as it is.
    pub fn render(&self, figures: &ReceiptFigures) -> (r: String)
        requires
            self.breakdown.sum() <= usize::MAX,
            figures.shares@.len() == self.breakdown.ranked().len(),
        ensures
            r@ == self.shown(*figures),
    {
        let mut out = String::from_str("Context Ledger Receipt · turn ");
        push_int(&mut out, self.turn);
        out.append(" · session ");
        out.append(self.session_id.as_str());
        out.append("\n  window ");
        push_nat(&mut out, self.total_tokens as u64);
        out.append("/");
        push_nat(&mut out, self.context_window as u64);
        out.append(" tokens (");
        out.append(figures.full_percent.as_str());
        out.append("% full) · tokenizer ");
        out.append(self.tokenizer.as_str());
        out.append(" · backend ");
        if self.backend.as_str().is_empty() {
            out.append("n/a");
        } else {
            out.append(self.backend.as_str());
        }
        out.append("\n  where the budget went:\n");
        let lines = self.category_text(figures);
        out.append(lines.as_str());
        let note = if self.breakdown_is_consistent() {
            String::from_str("")
        } else {
            let mut s = String::from_str("    NOTE: category sum ");
            push_nat(&mut s, self.breakdown.total() as u64);
            s.append(" differs from measured total ");
            push_nat(&mut s, self.total_tokens as u64);
            s.append(" beyond tolerance\n");
            s
        };
        out.append(note.as_str());
        out.append("  cache: ");
        out.append(self.cache_status.as_str());
        out.append("\n");
        let detail = if self.cache_detail.as_str().is_empty() {
            String::from_str("")
        } else {
            let mut s = String::from_str("    ");
            s.append(self.cache_detail.as_str());
            s.append("\n");
            s
        };
        out.append(detail.as_str());
        let reuse = match (self.prompt_tokens_reused, self.prompt_tokens_prefilled) {
            (Some(reused), Some(prefilled)) => {
                let mut s = String::from_str("    ");
                push_nat(&mut s, reused as u64);
                s.append(" tokens reused / ");
                push_nat(&mut s, prefilled as u64);
                s.append(" prefilled (");
                s.append(figures.saved_percent.as_str());
                s.append("% saved)\n");
                s
            },
            _ => String::from_str(""),
        };
        out.append(reuse.as_str());
        let eval = match self.prompt_eval_ms {
            Some(ms) => {
                let mut s = String::from_str("  prompt eval: ");
                push_int(&mut s, ms);
                s.append(" ms\n");
                s
            },
            None => String::from_str(""),
        };
        out.append(eval.as_str());
        let eviction = match &self.eviction {
            Some(e) => e.line(),
            None => String::from_str(""),
        };
        out.append(eviction.as_str());
        out
    }

    fn category_text(&self, figures: &ReceiptFigures) -> (r: String)
        requires
            figures.shares@.len() == self.breakdown.ranked().len(),
        ensures
            r@ == category_lines(
                self.breakdown.ranked(),
                figures.shares@,
                self.breakdown.ranked().len() as int,
            ),
    {
        let list = self.breakdown.by_size();
        let mut out = String::new();
        for i in 0..list.len()
            invariant
                list@ == self.breakdown.ranked(),
                figures.shares@.len() == list@.len(),
                out@ == category_lines(list@, figures.shares@, i as int),
        {
            let (name, tokens) = list[i];
            let share = &figures.shares[i];
            let mut line = String::from_str("    ");
            line.append(pad_right(name, 20).as_str());
            line.append(" ");
            let mut number = String::new();
            push_nat(&mut number, tokens as u64);
            assert(number@ =~= digits(tokens as nat));
            line.append(pad_left(number.as_str(), 7).as_str());
            line.append("  ");
            line.append(pad_left(share.percent.as_str(), 5).as_str());
            line.append("%  ");
            line.append(bar(share.filled, BAR_WIDTH).as_str());
            line.append("\n");
            out.append(line.as_str());
        }
        out
    }

    /// A receipt as it was stored: what is not stored is unknown.
    pub fn from_stored(row: StoredReceipt, breakdown: Breakdown, eviction: Option<EvictionSummary>) -> (r:
        Self)
        requires
            0 <= row.total_tokens <= usize::MAX,
        ensures
            r.receipt_id == row.receipt_id,
            r.session_id == row.session_id,
            r.slot_id == row.slot_id,
            r.turn == row.turn,
            r.total_tokens == row.total_tokens,
            r.breakdown == breakdown,
            r.cache_status == row.cache_status,
            r.cache_detail == row.cache_detail,
            r.prompt_eval_ms == row.prompt_eval_ms,
            r.eviction == eviction,
            r.created_at == row.created_at,
            r.context_window == 0,
            r.prompt_tokens_reused is None && r.prompt_tokens_prefilled is None,
            r.tokenizer@.len() == 0 && r.backend@.len() == 0,
    {
        Receipt {
            receipt_id: row.receipt_id,
            session_id: row.session_id,
            slot_id: row.slot_id,
            turn: row.turn,
            total_tokens: row.total_tokens as usize,
            breakdown,
            cache_status: row.cache_status,
            cache_detail: row.cache_detail,
            prompt_eval_ms: row.prompt_eval_ms,
            eviction,
            created_at: row.created_at,
            context_window: 0,
            prompt_tokens_reused: None,
            prompt_tokens_prefilled: None,
            tokenizer: String::new(),
            backend: String::new(),
        }
    }
}

/// The columns of a stored receipt, but for what is stored as JSON.
#[derive(Debug)]
pub struct StoredReceipt {
    pub receipt_id: String,
    pub session_id: String,
    pub slot_id: Option<String>,
    pub turn: i64,
    pub total_tokens: i64,
    pub cache_status: String,
    pub cache_detail: String,
    pub prompt_eval_ms: Option<i64>,
    pub created_at: String,
}

/// Builds a receipt and what goes with it.
#[derive(Debug)]
pub struct ReceiptBuilder {
    receipt: Receipt,
}

impl ReceiptBuilder {
    /// The receipt so far.
    pub closed spec fn so_far(self) -> Receipt {
        self.receipt
    }

    pub fn new(
        session_id: &str,
        slot_id: Option<&str>,
        turn: i64,
        parts: &PromptParts,
        counter: &TokenCounter,
        context_window: usize,
    ) -> (r: Self)
        requires
            parts.countable(*counter),
        ensures
            r.so_far().measures(session_id@, slot_id, turn, *parts, *counter, context_window),
    {
        ReceiptBuilder {
            receipt: Receipt::build(session_id, slot_id, turn, parts, counter, context_window),
        }
    }

    pub fn cache(self, status: &str, detail: &str, reused: usize, prefilled: usize) -> (r: Self)
        ensures
            r.so_far().cache_status@ == status@,
            r.so_far().cache_detail@ == detail@,
            r.so_far() == (Receipt {
                cache_status: r.so_far().cache_status,
                cache_detail: r.so_far().cache_detail,
                prompt_tokens_reused: Some(reused),
                prompt_tokens_prefilled: Some(prefilled),
                ..self.so_far()
            }),
    {
        ReceiptBuilder {
            receipt: self.receipt.with_cache(status, detail).with_cache_numbers(reused, prefilled),
        }
    }

    pub fn eviction(self, summary: EvictionSummary) -> (r: Self)
        ensures
            r.so_far() == (Receipt { eviction: Some(summary), ..self.so_far() }),
    {
        ReceiptBuilder { receipt: self.receipt.with_eviction(summary) }
    }

    pub fn prompt_eval_ms(self, ms: i64) -> (r: Self)
        ensures
            r.so_far() == (Receipt { prompt_eval_ms: Some(ms), ..self.so_far() }),
    {
        ReceiptBuilder { receipt: self.receipt.with_prompt_eval_ms(ms) }
    }

    pub fn backend(self, name: &str) -> (r: Self)
        ensures
            r.so_far().backend@ == name@,
            r.so_far() == (Receipt { backend: r.so_far().backend, ..self.so_far() }),
    {
        ReceiptBuilder { receipt: self.receipt.with_backend(name) }
    }

    pub fn tokenizer_kind(self, kind: TokenizerKind) -> (r: Self)
        ensures
            r.so_far().tokenizer@ == kind.name(),
            r.so_far() == (Receipt { tokenizer: r.so_far().tokenizer, ..self.so_far() }),
    {
        ReceiptBuilder {
            receipt: Receipt { tokenizer: kind.as_str().to_owned(), ..self.receipt },
        }
    }

    pub fn build(self) -> (r: Receipt)
        ensures
            r == self.so_far(),
    {
        self.receipt
    }
}

/// What a receipt contributes to the figures over many: its cache status, its evaluation time
/// where it was measured, and its tokens.
pub type StatRow = (String, Option<i64>, i64);

/// Figures over many receipts.
#[derive(Debug, Clone, Copy, PartialEq, Eq, Structural)]
pub struct ReceiptStats {
    pub turns: usize,
    pub partial_reuse: usize,
    pub warm_restored: usize,
    pub full_re_prefill: usize,
    pub cold: usize,
    pub unknown: usize,
    pub total_tokens: usize,
    pub prompt_eval_samples: usize,
    /// All measured evaluation times together; their average is this over the samples.
    pub prompt_eval_ms_total: i64,
    pub prompt_eval_ms_p95: i64,
}

impl Default for ReceiptStats {
    fn default() -> (r: Self)
        ensures
            r.turns == 0 && r.partial_reuse == 0 && r.warm_restored == 0,
            r.full_re_prefill == 0 && r.cold == 0 && r.unknown == 0,
            r.total_tokens == 0 && r.prompt_eval_samples == 0,
            r.prompt_eval_ms_total == 0 && r.prompt_eval_ms_p95 == 0,
    {
        ReceiptStats {
            turns: 0,
            partial_reuse: 0,
            warm_restored: 0,
            full_re_prefill: 0,
            cold: 0,
            unknown: 0,
            total_tokens: 0,
            prompt_eval_samples: 0,
            prompt_eval_ms_total: 0,
            prompt_eval_ms_p95: 0,
        }
    }
}

impl Ranked for i64 {
    open spec fn precedes(&self, other: &Self) -> bool {
        *self < *other
    }

    fn before(&self, other: &Self) -> (r: bool) {
        *self < *other
    }

    proof fn ordering(a: Self, b: Self, c: Self) {
    }
}

/// How many of the first `n` receipts have this cache status.
pub open spec fn with_status(rows: Seq<StatRow>, status: Seq<char>, n: int) -> nat
    decreases n,
{
    if n <= 0 {
        0
    } else {
        with_status(rows, status, n - 1) + (if rows[n - 1].0@ == status {
            1nat
        } else {
            0
        })
    }
}

/// The tokens of the first `n` receipts.
pub open spec fn tokens_over(rows: Seq<StatRow>, n: int) -> int
    decreases n,
{
    if n <= 0 {
        0
    } else {
        tokens_over(rows, n - 1) + rows[n - 1].2
    }
}

/// The evaluation times among the first `n` receipts.
pub open spec fn samples(rows: Seq<StatRow>, n: int) -> Seq<i64>
    decreases n,
{
    if n <= 0 {
        Seq::empty()
    } else {
        match rows[n - 1].1 {
            Some(ms) => samples(rows, n - 1).push(ms),
            None => samples(rows, n - 1),
        }
    }
}

/// The first `n` times added up.
pub open spec fn time_sum(times: Seq<i64>, n: int) -> int
    decreases n,
{
    if n <= 0 {
        0
    } else {
        time_sum(times, n - 1) + times[n - 1]
    }
}

/// The time that nineteen in twenty stay within: the one at that place in order.
pub open spec fn p95(times: Seq<i64>) -> i64 {
    if times.len() == 0 {
        0
    } else {
        stably_sorted(times)[(times.len() * 95 + 99) as int / 100 - 1]
    }
}

/// Whether the figures over these receipts can be added up: no negative sizes, no overflow on
/// the way.
pub open spec fn addable(rows: Seq<StatRow>) -> bool {
    &&& forall|i: int| 0 <= i < rows.len() ==> (#[trigger] rows[i]).2 >= 0
    &&& forall|n: int|
        0 <= n <= rows.len() ==> #[trigger] tokens_over(rows, n) <= usize::MAX
    &&& forall|n: int|
        0 <= n <= samples(rows, rows.len() as int).len() ==> i64::MIN <= #[trigger] time_sum(
            samples(rows, rows.len() as int),
            n,
        ) <= i64::MAX
}

impl ReceiptStats {
    /// The figures over a list of receipts.
    pub fn of_rows(rows: &Vec<StatRow>) -> (r: Self)
        requires
            addable(rows@),
        ensures
            ({
                let n = rows@.len() as int;
                let times = samples(rows@, n);
                &&& r.turns == n
                &&& r.partial_reuse == with_status(rows@, "partial-reuse"@, n)
                &&& r.warm_restored == with_status(rows@, "warm-restored"@, n)
                &&& r.full_re_prefill == with_status(rows@, "full-re-prefill"@, n)
                &&& r.cold == with_status(rows@, "cold"@, n)
                &&& r.partial_reuse + r.warm_restored + r.full_re_prefill + r.cold + r.unknown == n
                &&& r.total_tokens == tokens_over(rows@, n)
                &&& r.prompt_eval_samples == times.len()
                &&& r.prompt_eval_ms_total == time_sum(times, times.len() as int)
                &&& r.prompt_eval_ms_p95 == p95(times)
            }),
    {
        let n: usize = rows.len();
        let mut s = ReceiptStats::default();
        let mut times: Vec<i64> = Vec::new();
        proof {
            statuses_differ();
        }
        for i in 0..n
            invariant
                n == rows@.len(),
                addable(rows@),
                "partial-reuse"@ != "warm-restored"@ && "partial-reuse"@ != "full-re-prefill"@
                    && "partial-reuse"@ != "cold"@,
                "warm-restored"@ != "full-re-prefill"@ && "warm-restored"@ != "cold"@,
                "full-re-prefill"@ != "cold"@,
                s.turns == i,
                s.partial_reuse == with_status(rows@, "partial-reuse"@, i as int),
                s.warm_restored == with_status(rows@, "warm-restored"@, i as int),
                s.full_re_prefill == with_status(rows@, "full-re-prefill"@, i as int),
                s.cold == with_status(rows@, "cold"@, i as int),
                s.partial_reuse + s.warm_restored + s.full_re_prefill + s.cold + s.unknown == i,
                s.total_tokens == tokens_over(rows@, i as int),
                s.prompt_eval_samples == 0 && s.prompt_eval_ms_total == 0 && s.prompt_eval_ms_p95
                    == 0,
                times@ == samples(rows@, i as int),
        {
            assert(rows@[i as int].2 >= 0);
            assert(tokens_over(rows@, i as int + 1) <= usize::MAX);
            assert(tokens_over(rows@, i as int) >= 0) by {
                tokens_over_is_positive(rows@, i as int);
            }
            s.turns = s.turns + 1;
            s.total_tokens = s.total_tokens + rows[i].2 as usize;
            let status = rows[i].0.as_str();
            if same(status, "partial-reuse") {
                s.partial_reuse = s.partial_reuse + 1;
            } else if same(status, "warm-restored") {
                s.warm_restored = s.warm_restored + 1;
            } else if same(status, "full-re-prefill") {
                s.full_re_prefill = s.full_re_prefill + 1;
            } else if same(status, "cold") {
                s.cold = s.cold + 1;
            } else {
                s.unknown = s.unknown + 1;
            }
            match rows[i].1 {
                Some(ms) => {
                    times.push(ms);
                },
                None => {},
            }
        }
        let count: usize = times.len();
        proof {
            samples_are_no_more(rows@, n as int);
        }
        let mut sum: i64 = 0;
        for i in 0..count
            invariant
                count == times@.len(),
                times@ == samples(rows@, rows@.len() as int),
                addable(rows@),
                sum == time_sum(times@, i as int),
        {
            assert(i64::MIN <= time_sum(times@, i as int + 1) <= i64::MAX);
            sum = sum + times[i];
        }
        s.prompt_eval_samples = count;
        s.prompt_eval_ms_total = sum;
        if count > 0 {
            let at: usize = ((count as u128 * 95 + 99) / 100) as usize;
            let sorted = stable_sort(times);
            s.prompt_eval_ms_p95 = sorted[at - 1];
        }
        s
    }

    /// How many turns say something about reuse.
    pub open spec fn considered(self) -> int {
        self.partial_reuse + self.warm_restored + self.full_re_prefill
    }

    /// Whether four turns in five reuse a prefix; not known for fewer than five turns.
    pub open spec fn on_target(self) -> Option<bool> {
        if self.considered() < 5 {
            None
        } else {
            Some(5 * (self.partial_reuse + self.warm_restored) >= 4 * self.considered())
        }
    }

    /// Whether the goal of four turns in five is met, over a meaningful sample.
    pub fn meets_g1(&self) -> (r: Option<bool>)
        requires
            self.considered() <= usize::MAX,
        ensures
            r == self.on_target(),
    {
        let reused: usize = self.partial_reuse + self.warm_restored;
        let considered: usize = reused + self.full_re_prefill;
        if considered < 5 {
            None
        } else {
            Some(5 * (reused as u128) >= 4 * (considered as u128))
        }
    }

    /// The figures in one line; `percent` is the share of turns that reused a prefix, and
    /// `average` the average evaluation time.
    pub open spec fn shown(self, percent: Seq<char>, average: Seq<char>) -> Seq<char> {
        "turns="@ + digits(self.turns as nat) + " reuse="@ + digits(
            (self.partial_reuse + self.warm_restored) as nat,
        ) + "/"@ + digits(self.considered() as nat) + " ("@ + percent + "%) partial="@ + digits(
            self.partial_reuse as nat,
        ) + " warm="@ + digits(self.warm_restored as nat) + " full-reprefill="@ + digits(
            self.full_re_prefill as nat,
        ) + " cold="@ + digits(self.cold as nat) + " · prompt-eval avg="@ + average + "ms p95="@
            + signed_digits(self.prompt_eval_ms_p95 as int) + "ms over "@ + digits(
            self.prompt_eval_samples as nat,
        ) + " sample(s) · "@ + (match self.on_target() {
            Some(true) => "meets G1 (≥80% reuse)"@,
            Some(false) => "below G1 target (≥80% reuse)"@,
            None => "insufficient data for G1 (needs ≥5 compaction events)"@,
        })
    }

    /// The figures in one line.
    pub fn render(&self, percent: &str, average: &str) -> (r: String)
        requires
            self.considered() <= usize::MAX,
        ensures
            r@ == self.shown(percent@, average@),
    {
        let g1: &'static str = match self.meets_g1() {
            Some(true) => "meets G1 (≥80% reuse)",
            Some(false) => "below G1 target (≥80% reuse)",
            None => "insufficient data for G1 (needs ≥5 compaction events)",
        };
        let mut out = String::from_str("turns=");
        push_nat(&mut out, self.turns as u64);
        out.append(" reuse=");
        push_nat(&mut out, (self.partial_reuse + self.warm_restored) as u64);
        out.append("/");
        push_nat(
            &mut out,
            (self.partial_reuse + self.warm_restored + self.full_re_prefill) as u64,
        );
        out.append(" (");
        out.append(percent);
        out.append("%) partial=");
        push_nat(&mut out, self.partial_reuse as u64);
        out.append(" warm=");
        push_nat(&mut out, self.warm_restored as u64);
        out.append(" full-reprefill=");
        push_nat(&mut out, self.full_re_prefill as u64);
        out.append(" cold=");
        push_nat(&mut out, self.cold as u64);
        out.append(" · prompt-eval avg=");
        out.append(average);
        out.append("ms p95=");
        push_int(&mut out, self.prompt_eval_ms_p95);
        out.append("ms over ");
        push_nat(&mut out, self.prompt_eval_samples as u64);
        out.append(" sample(s) · ");
        out.append(g1);
        out
    }
}

proof fn tokens_over_is_positive(rows: Seq<StatRow>, n: int)
    requires
        0 <= n <= rows.len(),
        forall|i: int| 0 <= i < rows.len() ==> (#[trigger] rows[i]).2 >= 0,
    ensures
        tokens_over(rows, n) >= 0,
    decreases n,
{
    if n > 0 {
        tokens_over_is_positive(rows, n - 1);
        assert(rows[n - 1].2 >= 0);
    }
}

proof fn samples_are_no_more(rows: Seq<StatRow>, n: int)
    requires
        0 <= n <= rows.len(),
    ensures
        samples(rows, n).len() <= n,
    decreases n,
{
    if n > 0 {
        samples_are_no_more(rows, n - 1);
    }
}

/// The statuses that are counted are told apart by their names.
proof fn statuses_differ()
    ensures
        "partial-reuse"@ != "warm-restored"@ && "partial-reuse"@ != "full-re-prefill"@
            && "partial-reuse"@ != "cold"@,
        "warm-restored"@ != "full-re-prefill"@ && "warm-restored"@ != "cold"@,
        "full-re-prefill"@ != "cold"@,
{
    reveal_strlit("partial-reuse");
    reveal_strlit("warm-restored");
    reveal_strlit("full-re-prefill");
    reveal_strlit("cold");
    assert("partial-reuse"@.len() == 13 && "warm-restored"@.len() == 13);
    assert("full-re-prefill"@.len() == 15 && "cold"@.len() == 4);
    assert("partial-reuse"@[0] == 'p');
    assert("warm-restored"@[0] == 'w');
}

/// One receipt more adds itself to the figures: to the turns, the tokens, its own status and no
/// other, and to the evaluation times where one was measured.
pub proof fn one_receipt_more_adds_itself(
    rows: &Vec<StatRow>,
    more: &Vec<StatRow>,
    a: ReceiptStats,
    b: ReceiptStats,
)
    requires
        call_ensures(ReceiptStats::of_rows, (rows,), a),
        call_ensures(ReceiptStats::of_rows, (more,), b),
        more@.len() == rows@.len() + 1,
        more@.drop_last() == rows@,
    ensures
        b.turns == a.turns + 1,
        b.total_tokens == a.total_tokens + more@.last().2,
        ({
            let status = more@.last().0@;
            &&& b.partial_reuse - a.partial_reuse == (if status == "partial-reuse"@ {
                1int
            } else {
                0
            })
            &&& b.warm_restored - a.warm_restored == (if status == "warm-restored"@ {
                1int
            } else {
                0
            })
            &&& b.full_re_prefill - a.full_re_prefill == (if status == "full-re-prefill"@ {
                1int
            } else {
                0
            })
            &&& b.cold - a.cold == (if status == "cold"@ {
                1int
            } else {
                0
            })
        }),
        b.partial_reuse + b.warm_restored + b.full_re_prefill + b.cold + b.unknown == b.turns,
        more@.last().1 matches Some(ms) ==> b.prompt_eval_samples == a.prompt_eval_samples + 1
            && b.prompt_eval_ms_total == a.prompt_eval_ms_total + ms,
        more@.last().1 is None ==> b.prompt_eval_samples == a.prompt_eval_samples
            && b.prompt_eval_ms_total == a.prompt_eval_ms_total && b.prompt_eval_ms_p95
            == a.prompt_eval_ms_p95,
{
    let n = rows@.len() as int;
    assert forall|i: int| 0 <= i < n implies rows@[i] == more@[i] by {
        assert(more@.drop_last()[i] == more@[i]);
    }
    rows_agree(rows@, more@, n);
    assert(more@[n] == more@.last());
    let before = samples(rows@, n);
    match more@.last().1 {
        Some(ms) => {
            let after = before.push(ms);
            assert(samples(more@, n + 1) == after);
            times_agree(before, after, before.len() as int);
        },
        None => {},
    }
}

proof fn rows_agree(a: Seq<StatRow>, b: Seq<StatRow>, n: int)
    requires
        0 <= n <= a.len() <= b.len(),
        forall|i: int| 0 <= i < a.len() ==> a[i] == b[i],
    ensures
        forall|s: Seq<char>| #[trigger] with_status(a, s, n) == with_status(b, s, n),
        tokens_over(a, n) == tokens_over(b, n),
        samples(a, n) == samples(b, n),
    decreases n,
{
    if n > 0 {
        rows_agree(a, b, n - 1);
        assert(a[n - 1] == b[n - 1]);
        assert forall|s: Seq<char>| #[trigger] with_status(a, s, n) == with_status(b, s, n) by {
            assert(with_status(a, s, n - 1) == with_status(b, s, n - 1));
        }
    }
}

proof fn times_agree(a: Seq<i64>, b: Seq<i64>, n: int)
    requires
        0 <= n <= a.len() <= b.len(),
        forall|i: int| 0 <= i < a.len() ==> a[i] == b[i],
    ensures
        time_sum(a, n) == time_sum(b, n),
    decreases n,
{
    if n > 0 {
        times_agree(a, b, n - 1);
        assert(a[n - 1] == b[n - 1]);
    }
}

/// Which receipts the first samples come from: rising places, each with its time.
proof fn samples_come_from(rows: Seq<StatRow>, n: int) -> (at: Seq<int>)
    requires
        0 <= n <= rows.len(),
    ensures
        at.len() == samples(rows, n).len(),
        forall|k: int|
            0 <= k < at.len() ==> 0 <= #[trigger] at[k] < n && rows[at[k]].1 == Some(
                samples(rows, n)[k],
            ),
        forall|j: int, k: int| 0 <= j < k < at.len() ==> #[trigger] at[j] < #[trigger] at[k],
    decreases n,
{
    if n == 0 {
        Seq::empty()
    } else {
        let before = samples_come_from(rows, n - 1);
        match rows[n - 1].1 {
            Some(ms) => before.push(n - 1),
            None => before,
        }
    }
}

/// The time at the 95th percentile is one that was measured, by nearest rank: at least 95 in a
/// hundred of the measured times are no longer, and more than 5 in a hundred are no shorter.
/// The receipts in question are returned, each listed once.
pub proof fn nineteen_in_twenty_stay_within(rows: &Vec<StatRow>, r: ReceiptStats) -> (found: (
    Seq<int>,
    Seq<int>,
))
    requires
        call_ensures(ReceiptStats::of_rows, (rows,), r),
        r.prompt_eval_samples > 0,
    ensures
        found.0.no_duplicates() && found.1.no_duplicates(),
        forall|k: int|
            0 <= k < found.0.len() ==> 0 <= #[trigger] found.0[k] < rows@.len() && (
            rows@[found.0[k]].1 matches Some(ms) && ms <= r.prompt_eval_ms_p95),
        forall|k: int|
            0 <= k < found.1.len() ==> 0 <= #[trigger] found.1[k] < rows@.len() && (
            rows@[found.1[k]].1 matches Some(ms) && ms >= r.prompt_eval_ms_p95),
        100 * found.0.len() >= 95 * r.prompt_eval_samples,
        100 * found.1.len() > 5 * r.prompt_eval_samples,
        exists|k: int| 0 <= k < rows@.len() && (#[trigger] rows@[k]).1 == Some(r.prompt_eval_ms_p95),
{
    let n = rows@.len() as int;
    let times = samples(rows@, n);
    let places = samples_come_from(rows@, n);
    samples_are_no_more(rows@, n);
    assert(rows.len() == rows@.len());
    let order = crate::order::sorting_rearranges(times);
    crate::order::a_stable_order_sorts(times, order);
    let sorted = stably_sorted(times);
    let c = times.len() as int;
    let at = (times.len() * 95 + 99) as int / 100;
    assert(1 <= at <= c && 100 * at >= 95 * c && 100 * (c - at + 1) > 5 * c);
    let within = Seq::new(at as nat, |k: int| places[order[k] as int]);
    let beyond = Seq::new((c - at + 1) as nat, |k: int| places[order[at - 1 + k] as int]);
    assert forall|k: int| 0 <= k < c implies {
        let p = places[order[k] as int];
        &&& 0 <= p < n
        &&& rows@[p].1 == Some(#[trigger] sorted[k])
        &&& k <= at - 1 ==> sorted[k] <= sorted[at - 1]
        &&& k >= at - 1 ==> sorted[k] >= sorted[at - 1]
    } by {
        assert(sorted[k] == times[order[k] as int]);
        if k < at - 1 {
            assert(!sorted[at - 1].precedes(&sorted[k]));
        } else if k > at - 1 {
            assert(!sorted[k].precedes(&sorted[at - 1]));
        }
    }
    assert forall|k: int| 0 <= k < within.len() implies 0 <= #[trigger] within[k] < n && (
    rows@[within[k]].1 matches Some(ms) && ms <= r.prompt_eval_ms_p95) by {
        assert(sorted[k] <= sorted[at - 1]);
    }
    assert forall|k: int| 0 <= k < beyond.len() implies 0 <= #[trigger] beyond[k] < n && (
    rows@[beyond[k]].1 matches Some(ms) && ms >= r.prompt_eval_ms_p95) by {
        assert(sorted[at - 1 + k] >= sorted[at - 1]);
    }
    assert(rows@[places[order[at - 1] as int]].1 == Some(sorted[at - 1]));
    (within, beyond)
}

/// The goal of four turns in five is judged over the turns that tell, five of them at least.
pub proof fn four_in_five_must_reuse(stats: &ReceiptStats, r: Option<bool>)
    requires
        call_ensures(ReceiptStats::meets_g1, (stats,), r),
    ensures
        ({
            let reused = stats.partial_reuse + stats.warm_restored;
            let all = reused + stats.full_re_prefill;
            &&& r is Some <==> all >= 5
            &&& r == Some(true) <==> all >= 5 && 100 * reused >= 80 * all
        }),
{
}

/// One change more adds itself to the summary of a plan: to the episodes, and to the step it
/// makes and no other.
pub proof fn one_change_more_adds_itself(
    plan: &EvictionPlan,
    more: &EvictionPlan,
    saved: bool,
    a: EvictionSummary,
    b: EvictionSummary,
)
    requires
        call_ensures(EvictionSummary::from_plan, (plan, saved), a),
        call_ensures(EvictionSummary::from_plan, (more, saved), b),
        more.updates@.len() == plan.updates@.len() + 1,
        more.updates@.drop_last() == plan.updates@,
    ensures
        b.applied == a.applied + 1,
        b.tokens_reclaimed == more.planned_savings && b.snapshot_taken == saved,
        b.boundary is Some <==> more.coherence is Some,
        ({
            let u = more.updates@.last();
            &&& b.from_tier_live_to_masked - a.from_tier_live_to_masked == (if u.from is Live
                && u.to is Masked {
                1int
            } else {
                0
            })
            &&& b.from_tier_masked_to_referenced - a.from_tier_masked_to_referenced == (
            if u.from is Masked && u.to is Referenced {
                1int
            } else {
                0
            })
            &&& b.from_tier_referenced_to_archived - a.from_tier_referenced_to_archived == (
            if u.from is Referenced && u.to is Archived {
                1int
            } else {
                0
            })
            &&& b.from_tier_archived_to_dropped - a.from_tier_archived_to_dropped == (
            if u.from is Archived && u.to is Dropped {
                1int
            } else {
                0
            })
        }),
{
    let n = plan.updates@.len() as int;
    let fewer = changes(plan.updates@);
    let list = changes(more.updates@);
    assert forall|i: int| 0 <= i < n implies fewer[i] == list[i] by {
        assert(more.updates@.drop_last()[i] == more.updates@[i]);
        assert(fewer[i] == plan.updates@[i].change());
        assert(list[i] == more.updates@[i].change());
    }
    steps_agree(fewer, list, n);
    assert(list[n] == more.updates@.last().change());
}

proof fn steps_agree(a: Seq<Change>, b: Seq<Change>, n: int)
    requires
        0 <= n <= a.len() <= b.len(),
        forall|i: int| 0 <= i < a.len() ==> a[i] == b[i],
    ensures
        forall|f: EpisodeTier, t: EpisodeTier| #[trigger] steps(a, f, t, n) == steps(b, f, t, n),
    decreases n,
{
    if n > 0 {
        steps_agree(a, b, n - 1);
        assert(a[n - 1] == b[n - 1]);
        assert forall|f: EpisodeTier, t: EpisodeTier| #[trigger]
            steps(a, f, t, n) == steps(b, f, t, n) by {
            assert(steps(a, f, t, n - 1) == steps(b, f, t, n - 1));
        }
    }
}

/// The ranking of a breakdown names every category that holds anything, with its tokens, and
/// nothing empty; no category stands before a larger one.
pub proof fn every_category_that_holds_anything_is_ranked(
    b: &Breakdown,
    r: Vec<(&'static str, usize)>,
    i: int,
    j: int,
)
    requires
        call_ensures(Breakdown::by_size, (b,), r),
        0 <= i <= j < r@.len(),
    ensures
        r@[i].1 >= r@[j].1 > 0,
        b.system_prompt > 0 ==> r@.contains(("system prompt", b.system_prompt)),
        b.pinned_anchors > 0 ==> r@.contains(("pinned anchors", b.pinned_anchors)),
        b.retrieved_memory > 0 ==> r@.contains(("retrieved memory", b.retrieved_memory)),
        b.repo_map > 0 ==> r@.contains(("repo map", b.repo_map)),
        b.raw_recent_history > 0 ==> r@.contains(("raw recent history", b.raw_recent_history)),
        b.tool_schemas > 0 ==> r@.contains(("tool schemas", b.tool_schemas)),
        b.fold_summaries > 0 ==> r@.contains(("fold summaries", b.fold_summaries)),
        b.other > 0 ==> r@.contains(("other", b.other)),
{
    let named = b.named();
    let list = filled(named, 8);
    filled_is_filled(named, 8);
    let order = crate::order::sorting_rearranges(list);
    crate::order::a_stable_order_sorts(list, order);
    if i < j {
        the_largest_category_comes_first(*b, i, j);
    } else {
        assert(r@[j] == list[order[j] as int]);
    }
    assert forall|k: int| 0 <= k < 8 && (#[trigger] named[k]).1 > 0 implies r@.contains(
        named[k],
    ) by {
        let at = filled_keeps(named, 8, k);
        let m = crate::order::every_position_occurs(order, list.len(), at as usize);
        assert(r@[m] == list[order[m] as int]);
    }
    assert(named[0] == ("system prompt", b.system_prompt));
    assert(named[1] == ("pinned anchors", b.pinned_anchors));
    assert(named[2] == ("retrieved memory", b.retrieved_memory));
    assert(named[3] == ("repo map", b.repo_map));
    assert(named[4] == ("raw recent history", b.raw_recent_history));
    assert(named[5] == ("tool schemas", b.tool_schemas));
    assert(named[6] == ("fold summaries", b.fold_summaries));
    assert(named[7] == ("other", b.other));
}

proof fn filled_keeps(list: Seq<(&'static str, usize)>, n: int, k: int) -> (at: int)
    requires
        0 <= k < n <= list.len(),
        list[k].1 > 0,
    ensures
        0 <= at < filled(list, n).len(),
        filled(list, n)[at] == list[k],
    decreases n,
{
    if k == n - 1 {
        filled(list, n - 1).len() as int
    } else {
        let at = filled_keeps(list, n - 1, k);
        assert(filled(list, n)[at] == filled(list, n - 1)[at]);
        at
    }
}

/// A receipt is consistent exactly where its categories lie within one percent, rounded down,
/// and two tokens of what was measured; and the total of a breakdown is all of its categories.
pub proof fn a_receipt_within_tolerance_is_consistent(receipt: &Receipt, r: bool, total: usize)
    requires
        call_ensures(Receipt::breakdown_is_consistent, (receipt,), r),
        call_ensures(Breakdown::total, (&receipt.breakdown,), total),
    ensures
        ({
            let off = if total > receipt.total_tokens {
                total - receipt.total_tokens
            } else {
                receipt.total_tokens - total
            };
            r <==> 100 * (off - 2) <= receipt.total_tokens
        }),
        total == receipt.breakdown.system_prompt + receipt.breakdown.pinned_anchors
            + receipt.breakdown.retrieved_memory + receipt.breakdown.repo_map
            + receipt.breakdown.raw_recent_history + receipt.breakdown.tool_schemas
            + receipt.breakdown.fold_summaries + receipt.breakdown.other,
{
}

} // verus!
