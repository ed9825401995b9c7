//! Recall: what the retrievers found, put into one ranked list, with summaries that went stale
//! superseded by what they were made from.
//!
//! Scores are weighed by the caller; here a score is the integer by which it compares and the
//! text by which it is shown.

use crate::lines::{line_list, lines_of, lowered};
use crate::memory::dependency::EdgeKind;
use crate::memory::episodic::{copy_opt, EpisodeRow};
use crate::memory::semantic::{AnchorType, SemanticEntry};
use crate::memory::symbolic::SymbolicFact;
use crate::order::{
    a_stable_order_sorts, arranged, every_position_occurs, sorting_rearranges, stable_sort,
    stably_sorted, Ranked,
};
use crate::recall::candidates::{distinct, Accum};
use crate::recall::terms::{overlap, present};
use crate::text::{
    char_count, comes_before, contains_text, digits, first_chars, push_nat, same, stands_at,
    take_chars, text_before, text_order, texts,
};
use crate::tokens::TokenCounter;
use vstd::prelude::*;
use vstd::string::*;

pub mod candidates;
pub mod terms;

verus! {

/// How recall searches and what it shows.
#[derive(Debug, Clone, Copy, PartialEq, Eq, Structural)]
pub struct RecallPolicy {
    /// How much each retriever brings before merging.
    pub candidates_per_retriever: usize,
    /// How many hits are returned where the caller does not say.
    pub default_k: usize,
    /// Whether a search reaches episodes outside the window.
    pub include_archived: bool,
    /// How large one recalled item may be shown.
    pub max_item_tokens: usize,
}

impl Default for RecallPolicy {
    fn default() -> (r: Self)
        ensures
            r.candidates_per_retriever == 30,
            r.default_k == 8,
            r.include_archived,
            r.max_item_tokens == 2_000,
    {
        RecallPolicy {
            candidates_per_retriever: 30,
            default_k: 8,
            include_archived: true,
            max_item_tokens: 2_000,
        }
    }
}

/// Where a hit came from.
#[derive(Debug, Clone, Copy, PartialEq, Eq, Hash, Structural)]
pub enum Retriever {
    Bm25,
    Vector,
    Graph,
}

impl Retriever {
    /// The name shown in results.
    pub open spec fn name(self) -> Seq<char> {
        match self {
            Retriever::Bm25 => "bm25"@,
            Retriever::Vector => "vector"@,
            Retriever::Graph => "graph"@,
        }
    }

    /// The name shown in results.
    pub fn as_str(self) -> (r: &'static str)
        ensures
            r@ == self.name(),
    {
        match self {
            Retriever::Bm25 => "bm25",
            Retriever::Vector => "vector",
            Retriever::Graph => "graph",
        }
    }
}

/// What kind of thing a hit is.
#[derive(Debug, Clone, Copy, PartialEq, Eq, Hash, Structural)]
pub enum HitKind {
    /// A raw episode of the stream.
    Episode,
    /// A deterministic fact.
    SymbolicFact,
    /// A derived summary.
    SemanticEntry,
}

impl HitKind {
    /// The name shown in results.
    pub open spec fn name(self) -> Seq<char> {
        match self {
            HitKind::Episode => "episode"@,
            HitKind::SymbolicFact => "symbolic_fact"@,
            HitKind::SemanticEntry => "semantic_entry"@,
        }
    }

    /// The name shown in results.
    pub fn as_str(self) -> (r: &'static str)
        ensures
            r@ == self.name(),
    {
        match self {
            HitKind::Episode => "episode",
            HitKind::SymbolicFact => "symbolic_fact",
            HitKind::SemanticEntry => "semantic_entry",
        }
    }
}

/// A score, comparable within one result.
#[derive(Debug)]
pub struct Score {
    /// The larger, the better.
    pub key: i64,
    /// The score with three decimals.
    pub text: String,
}

/// A recalled item.
#[derive(Debug)]
pub struct RecallHit {
    pub kind: HitKind,
    pub id: String,
    pub score: Score,
    /// Which retrievers named it.
    pub retrievers: Vec<Retriever>,
    /// The text for the prompt.
    pub rendered: String,
    /// Whether this is a summary whose anchor changed.
    pub stale: bool,
    /// For a stale hit what the anchor holds now.
    pub stale_replacement: Option<String>,
    pub anchor: Option<(AnchorType, String)>,
    pub file_path: Option<String>,
    pub line: Option<i64>,
    /// Why the hit stands where it does.
    pub reasons: Vec<String>,
    pub token_cost: usize,
}

/// The hits of a query.
#[derive(Debug)]
pub struct RecallResult {
    pub query: String,
    pub hits: Vec<RecallHit>,
    /// The hits that are superseded because their anchor changed.
    pub stale_superseded: Vec<String>,
    pub backends: Vec<String>,
    pub notes: Vec<String>,
}

/// Which hits a query asks for.
#[derive(Debug)]
pub struct RecallFilters {
    pub session_id: Option<String>,
    pub project_id: Option<String>,
    pub file_path: Option<String>,
    /// Only these kinds.
    pub kinds: Option<Vec<HitKind>>,
    /// Episodes outside the window too.
    pub include_archived: Option<bool>,
    /// The traces of folded subtasks too.
    pub include_folded: Option<bool>,
}

impl Default for RecallFilters {
    fn default() -> (r: Self)
        ensures
            r.session_id is None,
            r.project_id is None,
            r.file_path is None,
            r.kinds is None,
            r.include_archived is None,
            r.include_folded is None,
    {
        RecallFilters {
            session_id: None,
            project_id: None,
            file_path: None,
            kinds: None,
            include_archived: None,
            include_folded: None,
        }
    }
}

/// Whether a text is the one asked for, where one is.
pub open spec fn allows(asked: Option<String>, given: Seq<char>) -> bool {
    match asked {
        Some(a) => a@ == given,
        None => true,
    }
}

/// Whether a text is there and is the one asked for, where one is.
pub open spec fn allows_some(asked: Option<String>, given: Option<String>) -> bool {
    match asked {
        Some(a) => match given {
            Some(g) => g@ == a@,
            None => false,
        },
        None => true,
    }
}

fn allowed_some(asked: &Option<String>, given: &Option<String>) -> (r: bool)
    ensures
        r == allows_some(*asked, *given),
{
    match asked {
        Some(a) => match given {
            Some(g) => same(g.as_str(), a.as_str()),
            None => false,
        },
        None => true,
    }
}

impl RecallFilters {
    /// Whether hits of this kind are asked for.
    pub open spec fn asks_for(self, kind: HitKind) -> bool {
        match self.kinds {
            Some(list) => list@.contains(kind),
            None => true,
        }
    }

    /// Whether hits of this kind are asked for.
    pub fn wants(&self, kind: HitKind) -> (r: bool)
        ensures
            r == self.asks_for(kind),
    {
        match &self.kinds {
            Some(list) => {
                for i in 0..list.len()
                    invariant
                        self.kinds == Some(*list),
                        forall|k: int| 0 <= k < i ==> #[trigger] list@[k] != kind,
                {
                    if list[i] == kind {
                        assert(list@[i as int] == kind);
                        return true;
                    }
                }
                false
            },
            None => true,
        }
    }

    /// Whether folded traces are asked for.
    pub open spec fn folded(self) -> bool {
        self.include_folded == Some(true)
    }

    /// Whether folded traces are asked for.
    pub fn wants_folded(&self) -> (r: bool)
        ensures
            r == self.folded(),
    {
        match self.include_folded {
            Some(b) => b,
            None => false,
        }
    }

    /// Whether an episode passes: of the session and the project asked for, not in a fold and
    /// not outside the window unless that is asked for. One that belongs to no known project
    /// passes only where no project is asked for.
    pub open spec fn admits_episode(self, ep: EpisodeRow, policy: RecallPolicy) -> bool {
        &&& allows(self.session_id, ep.session_id@)
        &&& allows_some(self.project_id, ep.project_id)
        &&& ep.fold_id is None || self.folded()
        &&& !ep.eviction_tier.outside() || (match self.include_archived {
            Some(b) => b,
            None => policy.include_archived,
        })
    }
}

/// How many hits are returned: what is asked for or the usual number, from one to a hundred.
pub open spec fn hit_count(k: Option<usize>, policy: RecallPolicy) -> int {
    let asked = match k {
        Some(n) => n as int,
        None => policy.default_k as int,
    };
    if asked < 1 {
        1
    } else if asked > 100 {
        100
    } else {
        asked
    }
}

/// How many characters of one item are shown.
pub open spec fn shown_limit(policy: RecallPolicy) -> int {
    policy.max_item_tokens * 4
}

/// A text, cut to so many characters with a note where it has more.
pub open spec fn capped(text: Seq<char>, limit: int, note: Seq<char>) -> Seq<char> {
    if text.len() > limit {
        text.take(limit) + note
    } else {
        text
    }
}

/// What is shown of an episode.
pub open spec fn episode_text(content: Seq<char>, limit: int) -> Seq<char> {
    capped(content, limit, "\n… [truncated; recall by id for the full episode]"@)
}

/// What is shown of a fact in a search.
pub open spec fn fact_item(fact: SymbolicFact, limit: int) -> Seq<char> {
    capped(fact_text(fact), limit, "\n… [truncated; recall by id for the full fact]"@)
}

/// What is shown of the text of a summary.
pub open spec fn entry_text(content: Seq<char>, limit: int) -> Seq<char> {
    capped(content, limit, "\n… [truncated; recall by id for the full summary]"@)
}

/// No item shows more of its text than the cap allows.
pub proof fn every_item_is_capped(text: Seq<char>, limit: int, note: Seq<char>)
    requires
        limit >= 0,
    ensures
        capped(text, limit, note).len() <= limit + note.len(),
        text.len() <= limit ==> capped(text, limit, note) == text,
        text.len() > limit ==> text.take(limit).is_prefix_of(capped(text, limit, note)),
{
    if text.len() > limit {
        assert(text.take(limit) =~= capped(text, limit, note).subrange(0, limit));
    }
}

/// What is shown of a fact.
pub open spec fn fact_text(fact: SymbolicFact) -> Seq<char> {
    match fact.signature {
        Some(sig) => fact.qualified_name@ + " — "@ + sig@,
        None => fact.qualified_name@,
    }
}

fn fact_line(fact: &SymbolicFact) -> (r: String)
    ensures
        r@ == fact_text(*fact),
{
    let mut out = fact.qualified_name.clone();
    match &fact.signature {
        Some(sig) => {
            out.append(" — ");
            out.append(sig.as_str());
        },
        None => {},
    }
    out
}

/// Why an episode is a hit.
pub open spec fn episode_reasons(ep: EpisodeRow) -> Seq<Seq<char>> {
    let first = "verbatim episode (tier "@ + ep.eviction_tier.name() + ")"@;
    if ep.eviction_tier.outside() {
        seq![first, "was evicted from the live window; restored verbatim"@]
    } else {
        seq![first]
    }
}

/// Why a fact is a hit.
pub open spec fn fact_reason() -> Seq<char> {
    "deterministic parser output — ground truth, cannot have been hallucinated (FR-2)"@
}

/// Why a summary is a hit, and what is wrong with it where it is stale.
pub open spec fn entry_reasons(entry: SemanticEntry, replaced: bool) -> Seq<Seq<char>> {
    let first = "LLM-derived interpretation, anchored to its source"@;
    let second = "anchor "@ + entry.anchor_id@
        + " changed since this summary was written — summary is not authoritative"@;
    if !entry.is_stale {
        seq![first]
    } else if replaced {
        seq![first, second]
    } else {
        seq![first, second, "the anchor no longer exists at all"@]
    }
}

/// How many characters of an episode replace a stale summary.
pub const PREVIEW_CHARS: usize = 600;

impl RecallHit {
    /// Whether this is a hit that has not been weighed yet.
    pub open spec fn bare(self, kind: HitKind, id: Seq<char>, rendered: Seq<char>) -> bool {
        &&& self.kind == kind
        &&& self.id@ == id
        &&& self.rendered@ == rendered
        &&& self.score.key == 0 && self.score.text@ == "0.000"@
        &&& self.retrievers@.len() == 0
        &&& self.token_cost == 0
    }

    /// Whether nothing is said of staleness, anchor, file or line.
    pub open spec fn unplaced(self) -> bool {
        &&& !self.stale && self.stale_replacement is None
        &&& self.anchor is None && self.file_path is None && self.line is None
    }

    fn start(kind: HitKind, id: String, rendered: String, reasons: Vec<String>) -> (r: Self)
        ensures
            r.bare(kind, id@, rendered@),
            r.unplaced(),
            r.reasons == reasons,
    {
        RecallHit {
            kind,
            id,
            score: Score { key: 0, text: String::from_str("0.000") },
            retrievers: Vec::new(),
            rendered,
            stale: false,
            stale_replacement: None,
            anchor: None,
            file_path: None,
            line: None,
            reasons,
            token_cost: 0,
        }
    }
}

/// The better hit comes first, and of equals the one with the smaller id.
impl Ranked for RecallHit {
    open spec fn precedes(&self, other: &Self) -> bool {
        self.score.key > other.score.key || (self.score.key == other.score.key && text_before(
            self.id@,
            other.id@,
        ))
    }

    fn before(&self, other: &Self) -> (r: bool) {
        if self.score.key == other.score.key {
            comes_before(self.id.as_str(), other.id.as_str())
        } else {
            self.score.key > other.score.key
        }
    }

    proof fn ordering(a: Self, b: Self, c: Self) {
        text_order(a.id@, b.id@, c.id@);
        text_order(b.id@, a.id@, c.id@);
        text_order(c.id@, b.id@, a.id@);
        text_order(a.id@, c.id@, b.id@);
    }
}

/// The first `k` of a list, or all of it.
pub open spec fn first_of<T>(list: Seq<T>, k: int) -> Seq<T> {
    if list.len() <= k {
        list
    } else {
        list.take(k)
    }
}

/// The ids of the stale hits among the first `n`.
pub open spec fn stale_ids(hits: Seq<RecallHit>, n: int) -> Seq<Seq<char>>
    decreases n,
{
    if n <= 0 {
        Seq::empty()
    } else if hits[n - 1].stale {
        stale_ids(hits, n - 1).push(hits[n - 1].id@)
    } else {
        stale_ids(hits, n - 1)
    }
}

/// The note on stale hits.
pub open spec fn stale_note(count: nat) -> Seq<char> {
    digits(count)
        + " hit(s) were stale and are presented with their anchor's current content instead of the summary"@
}

/// The note on a search without embeddings.
pub open spec fn lexical_only(error: Seq<char>) -> Seq<char> {
    "dense retrieval unavailable ("@ + error + "); results are lexical-only"@
}

/// The note on a search without embeddings.
pub fn lexical_only_note(error: &str) -> (r: String)
    ensures
        r@ == lexical_only(error@),
{
    let mut out = String::from_str("dense retrieval unavailable (");
    out.append(error);
    out.append("); results are lexical-only");
    out
}

/// What speaks for a hit beside its ranks, as whole numbers.
#[derive(Debug, Clone, Copy, PartialEq, Eq, Structural)]
pub struct RerankFeatures {
    /// How many retrievers named it.
    pub agreeing: usize,
    /// How many words of the query stand in it.
    pub overlap: usize,
    /// How many words the query has, at least one.
    pub words: usize,
    pub kind: HitKind,
}

/// What the agreement of so many retrievers adds, with two decimals.
pub open spec fn agreement_bonus(agreeing: nat) -> Seq<char> {
    if agreeing <= 2 {
        "0.25"@
    } else {
        "0.50"@
    }
}

impl RerankFeatures {
    /// The reasons that the features give, where the caller renders what the overlap adds.
    pub open spec fn reasons(self, overlap_bonus: Seq<char>) -> Seq<Seq<char>> {
        (if self.agreeing > 1 {
            seq![
                digits(self.agreeing as nat) + " retrievers agree (+"@ + agreement_bonus(
                    self.agreeing as nat,
                ) + ")"@,
            ]
        } else {
            Seq::empty()
        }) + (if self.overlap > 0 {
            seq![digits(self.overlap as nat) + " query term(s) present (+"@ + overlap_bonus + ")"@]
        } else {
            Seq::empty()
        }) + (match self.kind {
            HitKind::SymbolicFact => seq![
                "deterministic fact preferred over interpretation (+0.20)"@,
            ],
            HitKind::SemanticEntry => seq!["interpretation, not ground truth (−0.10)"@],
            HitKind::Episode => Seq::empty(),
        })
    }
}

/// What the caller made of a hit's features.
#[derive(Debug)]
pub struct RerankFigures {
    /// What the overlap adds, with two decimals.
    pub overlap_bonus: String,
    /// What a stale hit's score is multiplied by, with two decimals.
    pub stale_penalty: String,
    pub score: Score,
}

/// The reason for a stale hit's lower score.
pub open spec fn penalty_reason(penalty: Seq<char>) -> Seq<char> {
    "penalised ×"@ + penalty + ": the summary is stale, so it is not authoritative"@
}

/// Decides what of the found is shown, how and in which order.
#[derive(Debug, Clone, Copy)]
pub struct RecallEngine {
    policy: RecallPolicy,
    counter: TokenCounter,
}

impl RecallEngine {
    /// The policy.
    pub closed spec fn rules(self) -> RecallPolicy {
        self.policy
    }

    /// The counter that items are measured with.
    pub closed spec fn measure(self) -> TokenCounter {
        self.counter
    }

    pub fn new(policy: RecallPolicy, counter: TokenCounter) -> (r: Self)
        ensures
            r.rules() == policy,
            r.measure() == counter,
    {
        RecallEngine { policy, counter }
    }

    pub fn policy(&self) -> (r: &RecallPolicy)
        ensures
            *r == self.rules(),
    {
        &self.policy
    }

    /// Which retrievers work, and with which embedding model.
    pub fn active_backends(&self, model_id: &str, is_semantic: bool) -> (r: Vec<String>)
        ensures
            texts(r@) == backend_names(model_id@, is_semantic),
    {
        let mut vector = String::from_str("vector(");
        vector.append(model_id);
        if is_semantic {
            vector.append("");
        } else {
            vector.append(", deterministic");
        }
        vector.append(")");
        let mut out: Vec<String> = Vec::new();
        out.push("bm25".to_owned());
        out.push(vector);
        out.push("graph".to_owned());
        assert(texts(out@) =~= backend_names(model_id@, is_semantic));
        out
    }

    /// How many hits are returned.
    pub fn result_count(&self, k: Option<usize>) -> (r: usize)
        ensures
            r == hit_count(k, self.rules()),
            1 <= r <= 100,
    {
        let asked: usize = match k {
            Some(n) => n,
            None => self.policy.default_k,
        };
        if asked < 1 {
            1
        } else if asked > 100 {
            100
        } else {
            asked
        }
    }

    /// A text, cut with a note where it has more characters than one item may show.
    fn cap(&self, text: &str, note: &str) -> (r: String)
        ensures
            r@ == capped(text@, shown_limit(self.rules()), note@),
    {
        let size: usize = char_count(text);
        if self.policy.max_item_tokens > usize::MAX / 4 || size <= self.policy.max_item_tokens * 4 {
            return text.to_owned();
        }
        let limit: usize = self.policy.max_item_tokens * 4;
        let mut s = take_chars(text, limit);
        assert(s@ =~= text@.take(limit as int));
        s.append(note);
        s
    }

    /// The hit of an episode, where it passes the filters.
    pub fn episode_hit(&self, ep: &EpisodeRow, filters: &RecallFilters) -> (r: Option<RecallHit>)
        ensures
            r is Some <==> filters.admits_episode(*ep, self.rules()),
            r matches Some(h) ==> h.bare(
                HitKind::Episode,
                ep.episode_id@,
                episode_text(ep.content@, shown_limit(self.rules())),
            ) && h.unplaced() && texts(h.reasons@) == episode_reasons(*ep),
    {
        match &filters.session_id {
            Some(session) => {
                if !same(ep.session_id.as_str(), session.as_str()) {
                    return None;
                }
            },
            None => {},
        }
        if !allowed_some(&filters.project_id, &ep.project_id) {
            return None;
        }
        if ep.fold_id.is_some() && !filters.wants_folded() {
            return None;
        }
        let archived: bool = match filters.include_archived {
            Some(b) => b,
            None => self.policy.include_archived,
        };
        let outside: bool = ep.eviction_tier.is_out_of_window();
        if outside && !archived {
            return None;
        }
        let rendered = self.cap(
            ep.content.as_str(),
            "\n… [truncated; recall by id for the full episode]",
        );
        let mut reason = String::from_str("verbatim episode (tier ");
        reason.append(ep.eviction_tier.as_str());
        reason.append(")");
        let mut reasons: Vec<String> = Vec::new();
        reasons.push(reason);
        if outside {
            reasons.push("was evicted from the live window; restored verbatim".to_owned());
        }
        assert(texts(reasons@) =~= episode_reasons(*ep));
        Some(RecallHit::start(HitKind::Episode, ep.episode_id.clone(), rendered, reasons))
    }

    /// The hit of a fact, where it passes the filters.
    pub fn fact_hit(&self, fact: &SymbolicFact, filters: &RecallFilters) -> (r: Option<RecallHit>)
        ensures
            r is Some <==> allows_some(filters.file_path, fact.file_path),
            r matches Some(h) ==> h.bare(
                HitKind::SymbolicFact,
                fact.fact_id@,
                fact_item(*fact, shown_limit(self.rules())),
            ) && !h.stale && h.stale_replacement is None && h.anchor is None && h.file_path
                == fact.file_path && h.line == fact.line_start && texts(h.reasons@) == seq![
                fact_reason(),
            ],
    {
        if !allowed_some(&filters.file_path, &fact.file_path) {
            return None;
        }
        let mut reasons: Vec<String> = Vec::new();
        reasons.push(
            "deterministic parser output — ground truth, cannot have been hallucinated (FR-2)".to_owned(),
        );
        assert(texts(reasons@) =~= seq![fact_reason()]);
        let hit = RecallHit::start(
            HitKind::SymbolicFact,
            fact.fact_id.clone(),
            self.cap(
                fact_line(fact).as_str(),
                "\n… [truncated; recall by id for the full fact]",
            ),
            reasons,
        );
        Some(RecallHit { file_path: copy_opt(&fact.file_path), line: fact.line_start, ..hit })
    }

    /// The hit of a summary, where it passes the filters. `replacement` is what its anchor
    /// holds now, where the anchor still exists.
    pub fn entry_hit(
        &self,
        entry: &SemanticEntry,
        filters: &RecallFilters,
        replacement: Option<String>,
    ) -> (r: Option<RecallHit>)
        ensures
            r is Some <==> allows_some(filters.project_id, entry.project_id),
            r matches Some(h) ==> h.of_entry(*entry, replacement, shown_limit(self.rules())),
    {
        if !allowed_some(&filters.project_id, &entry.project_id) {
            return None;
        }
        Some(self.hit_from_semantic(entry, replacement))
    }

    /// The hit of a summary: with a warning in place of its authority where it is stale, and
    /// with what its anchor holds now.
    pub fn hit_from_semantic(&self, entry: &SemanticEntry, replacement: Option<String>) -> (r:
        RecallHit)
        ensures
            r.of_entry(*entry, replacement, shown_limit(self.rules())),
    {
        let text = self.cap(
            entry.content.as_str(),
            "\n… [truncated; recall by id for the full summary]",
        );
        let mut reasons: Vec<String> = Vec::new();
        reasons.push("LLM-derived interpretation, anchored to its source".to_owned());
        let current: Option<String> = if entry.is_stale {
            replacement
        } else {
            None
        };
        if entry.is_stale {
            let mut reason = String::from_str("anchor ");
            reason.append(entry.anchor_id.as_str());
            reason.append(" changed since this summary was written — summary is not authoritative");
            reasons.push(reason);
            if current.is_none() {
                reasons.push("the anchor no longer exists at all".to_owned());
            }
        }
        assert(texts(reasons@) =~= entry_reasons(*entry, current is Some));
        let hit = RecallHit::start(
            HitKind::SemanticEntry,
            entry.atlas_id.clone(),
            entry.render_as(text.as_str()),
            reasons,
        );
        RecallHit {
            stale: entry.is_stale,
            stale_replacement: current,
            anchor: Some((entry.anchor_type, entry.anchor_id.clone())),
            ..hit
        }
    }

    /// What the anchor of a summary holds now.
    pub fn current_anchor_content(
        &self,
        entry: &SemanticEntry,
        fact: Option<&SymbolicFact>,
        episode: Option<&EpisodeRow>,
    ) -> (r: Option<String>)
        ensures
            match (entry.anchor_type, fact, episode) {
                (AnchorType::SymbolicFact, Some(f), _) => r matches Some(t) && t@ == fact_text(*f),
                (AnchorType::EpisodicStream, _, Some(e)) => r matches Some(t) && t@ == first_chars(
                    e.content@,
                    PREVIEW_CHARS as nat,
                ),
                _ => r is None,
            },
    {
        match entry.anchor_type {
            AnchorType::SymbolicFact => match fact {
                Some(f) => Some(fact_line(f)),
                None => None,
            },
            AnchorType::EpisodicStream => match episode {
                Some(e) => Some(take_chars(e.content.as_str(), PREVIEW_CHARS)),
                None => None,
            },
        }
    }

    /// What speaks for a hit beside its ranks.
    pub fn rerank_features(
        &self,
        query_terms: &Vec<String>,
        hit: &RecallHit,
        found: &Accum,
    ) -> (r: RerankFeatures)
        ensures
            r.agreeing == distinct(found.evidence@).len(),
            r.agreeing <= 3,
            r.overlap == present(
                texts(query_terms@),
                lowered(hit.rendered@),
                query_terms@.len() as int,
            ),
            r.overlap <= r.words,
            r.words == (if query_terms@.len() == 0 {
                1
            } else {
                query_terms@.len()
            }),
            r.kind == hit.kind,
    {
        let named = found.retrievers();
        RerankFeatures {
            agreeing: named.len(),
            overlap: overlap(query_terms, hit.rendered.as_str()),
            words: if query_terms.len() == 0 {
                1
            } else {
                query_terms.len()
            },
            kind: hit.kind,
        }
    }

    /// The hit with its score, its retrievers, its size, and the reasons for where it stands.
    pub fn rerank(
        &self,
        hit: RecallHit,
        found: &Accum,
        features: RerankFeatures,
        figures: RerankFigures,
    ) -> (r: RecallHit)
        requires
            features.agreeing <= 3,
        ensures
            texts(r.reasons@) == texts(hit.reasons@) + features.reasons(figures.overlap_bonus@) + (
            if hit.stale {
                seq![penalty_reason(figures.stale_penalty@)]
            } else {
                Seq::empty()
            }),
            r.retrievers@ == distinct(found.evidence@),
            r.token_cost == self.measure().of(hit.rendered@),
            r == (RecallHit {
                score: figures.score,
                retrievers: r.retrievers,
                reasons: r.reasons,
                token_cost: r.token_cost,
                ..hit
            }),
    {
        let ghost before = texts(hit.reasons@);
        let stale: bool = hit.stale;
        let cost: usize = self.counter.count(hit.rendered.as_str()).get();
        let mut reasons: Vec<String> = Vec::new();
        for i in 0..hit.reasons.len()
            invariant
                texts(reasons@) == texts(hit.reasons@).take(i as int),
        {
            let ghost so_far = texts(reasons@);
            let s = hit.reasons[i].clone();
            reasons.push(s);
            assert(texts(reasons@) =~= so_far.push(s@));
            assert(texts(reasons@) =~= texts(hit.reasons@).take(i as int + 1));
        }
        assert(texts(reasons@) =~= before);
        if features.agreeing > 1 {
            let mut s = String::new();
            push_nat(&mut s, features.agreeing as u64);
            assert(s@ =~= digits(features.agreeing as nat));
            s.append(" retrievers agree (+");
            if features.agreeing <= 2 {
                s.append("0.25");
            } else {
                s.append("0.50");
            }
            s.append(")");
            reasons.push(s);
        }
        if features.overlap > 0 {
            let mut s = String::new();
            push_nat(&mut s, features.overlap as u64);
            assert(s@ =~= digits(features.overlap as nat));
            s.append(" query term(s) present (+");
            s.append(figures.overlap_bonus.as_str());
            s.append(")");
            reasons.push(s);
        }
        match features.kind {
            HitKind::SymbolicFact => {
                reasons.push("deterministic fact preferred over interpretation (+0.20)".to_owned());
            },
            HitKind::SemanticEntry => {
                reasons.push("interpretation, not ground truth (−0.10)".to_owned());
            },
            HitKind::Episode => {},
        }
        assert(texts(reasons@) =~= before + features.reasons(figures.overlap_bonus@));
        if stale {
            let mut s = String::from_str("penalised ×");
            s.append(figures.stale_penalty.as_str());
            s.append(": the summary is stale, so it is not authoritative");
            reasons.push(s);
        }
        assert(texts(reasons@) =~= before + features.reasons(figures.overlap_bonus@) + (if stale {
            seq![penalty_reason(figures.stale_penalty@)]
        } else {
            Seq::empty()
        }));
        RecallHit {
            score: figures.score,
            retrievers: found.retrievers(),
            reasons,
            token_cost: cost,
            ..hit
        }
    }

    /// The best `k` hits, the best first.
    pub fn rank(&self, hits: Vec<RecallHit>, k: usize) -> (r: Vec<RecallHit>)
        ensures
            r@ == first_of(stably_sorted(hits@), k as int),
    {
        let mut sorted = stable_sort(hits);
        sorted.truncate(k);
        assert(sorted@ =~= first_of(stably_sorted(hits@), k as int));
        sorted
    }

    /// The result of a query: the ranked hits, with a note where some are stale.
    fn result(
        &self,
        query: &str,
        hits: Vec<RecallHit>,
        backends: Vec<String>,
        notes: Vec<String>,
    ) -> (r: RecallResult)
        ensures
            r.query@ == query@,
            r.hits == hits,
            r.backends == backends,
            texts(r.stale_superseded@) == stale_ids(hits@, hits@.len() as int),
            texts(r.notes@) == texts(notes@) + (if r.stale_superseded@.len() > 0 {
                seq![stale_note(r.stale_superseded@.len())]
            } else {
                Seq::empty()
            }),
    {
        let mut stale: Vec<String> = Vec::new();
        assert(texts(stale@) =~= Seq::empty());
        for i in 0..hits.len()
            invariant
                texts(stale@) == stale_ids(hits@, i as int),
                stale@.len() <= i,
        {
            let ghost before = texts(stale@);
            if hits[i].stale {
                let id = hits[i].id.clone();
                stale.push(id);
                assert(texts(stale@) =~= before.push(id@));
            }
        }
        let ghost given = texts(notes@);
        let mut all = notes;
        if stale.len() > 0 {
            let mut s = String::new();
            push_nat(&mut s, stale.len() as u64);
            assert(s@ =~= digits(stale@.len()));
            s.append(
                " hit(s) were stale and are presented with their anchor's current content instead of the summary",
            );
            all.push(s);
            assert(texts(all@) =~= given + seq![s@]);
        } else {
            assert(texts(all@) =~= given + Seq::empty());
        }
        RecallResult {
            query: query.to_owned(),
            hits,
            stale_superseded: stale,
            backends,
            notes: all,
        }
    }

    /// What a query comes to, given the scored hits: the best of them, the best first, with a
    /// note where some are stale.
    pub fn recall(
        &self,
        query: &str,
        k: Option<usize>,
        hits: Vec<RecallHit>,
        backends: Vec<String>,
        notes: Vec<String>,
    ) -> (r: RecallResult)
        ensures
            r.query@ == query@,
            r.hits@ == first_of(stably_sorted(hits@), hit_count(k, self.rules()) as int),
            r.backends == backends,
            texts(r.stale_superseded@) == stale_ids(r.hits@, r.hits@.len() as int),
            texts(r.notes@) == texts(notes@) + (if r.stale_superseded@.len() > 0 {
                seq![stale_note(r.stale_superseded@.len())]
            } else {
                Seq::empty()
            }),
    {
        let count: usize = self.result_count(k);
        let best = self.rank(hits, count);
        self.result(query, best, backends, notes)
    }

    /// An episode by its id: the original text, whatever its tier.
    pub fn recall_episode(&self, ep: &EpisodeRow) -> (r: RecallHit)
        ensures
            r.kind == HitKind::Episode,
            r.id@ == ep.episode_id@,
            r.rendered@ == ep.content@,
            r.score.key == 1 && r.score.text@ == "1.000"@,
            r.retrievers@.len() == 0,
            r.unplaced(),
            r.token_cost == self.measure().of(ep.content@),
            texts(r.reasons@) == seq![
                "direct retrieval; stored tier is "@ + ep.eviction_tier.name()
                    + " — content is the original bytes (FR-5)"@,
            ],
    {
        let mut reason = String::from_str("direct retrieval; stored tier is ");
        reason.append(ep.eviction_tier.as_str());
        reason.append(" — content is the original bytes (FR-5)");
        let ghost said = reason@;
        let mut reasons: Vec<String> = Vec::new();
        reasons.push(reason);
        assert(texts(reasons@) =~= seq![said]);
        let cost: usize = self.counter.count(ep.content.as_str()).get();
        let hit = RecallHit::start(
            HitKind::Episode,
            ep.episode_id.clone(),
            ep.content.clone(),
            reasons,
        );
        RecallHit {
            score: Score { key: 1, text: String::from_str("1.000") },
            token_cost: cost,
            ..hit
        }
    }
}

/// The names of the retrievers that work.
pub open spec fn backend_names(model_id: Seq<char>, is_semantic: bool) -> Seq<Seq<char>> {
    seq![
        "bm25"@,
        "vector("@ + model_id + (if is_semantic {
            ""@
        } else {
            ", deterministic"@
        }) + ")"@,
        "graph"@,
    ]
}

impl RecallHit {
    /// Whether this is the hit of a summary, of which at most `limit` characters are shown:
    /// fresh, it stands for itself; stale, it carries a warning and what its anchor holds now.
    pub open spec fn of_entry(
        self,
        entry: SemanticEntry,
        replacement: Option<String>,
        limit: int,
    ) -> bool {
        &&& self.bare(
            HitKind::SemanticEntry,
            entry.atlas_id@,
            entry.shown_as(entry_text(entry.content@, limit)),
        )
        &&& self.stale == entry.is_stale
        &&& self.stale_replacement == (if entry.is_stale {
            replacement
        } else {
            None
        })
        &&& self.anchor matches Some((t, id)) && t == entry.anchor_type && id@ == entry.anchor_id@
        &&& self.file_path is None && self.line is None
        &&& texts(self.reasons@) == entry_reasons(entry, replacement is Some)
    }

    /// The hit in a prompt, at place `i` from zero.
    pub open spec fn shown(self, i: nat) -> Seq<char> {
        "["@ + digits(i + 1) + "] ("@ + self.kind.name() + " · score "@ + self.score.text@ + (
        if self.stale {
            " · STALE"@
        } else {
            ""@
        }) + ")\n"@ + indented(line_list(self.rendered@), line_list(self.rendered@).len() as int) + (
        match self.stale_replacement {
            Some(rep) => "    ↳ CURRENT VALUE: "@ + rep@ + "\n"@,
            None => ""@,
        })
    }

    fn block(&self, i: usize) -> (r: String)
        requires
            i < usize::MAX,
        ensures
            r@ == self.shown(i as nat),
    {
        let mut out = String::from_str("[");
        push_nat(&mut out, (i + 1) as u64);
        out.append("] (");
        out.append(self.kind.as_str());
        out.append(" · score ");
        out.append(self.score.text.as_str());
        if self.stale {
            out.append(" · STALE");
        } else {
            out.append("");
        }
        out.append(")\n");
        let lines = lines_of(self.rendered.as_str());
        let body = indent(&lines);
        out.append(body.as_str());
        let current = match &self.stale_replacement {
            Some(rep) => {
                let mut s = String::from_str("    ↳ CURRENT VALUE: ");
                s.append(rep.as_str());
                s.append("\n");
                s
            },
            None => String::from_str(""),
        };
        out.append(current.as_str());
        out
    }
}

/// The first `n` lines, indented.
pub open spec fn indented(lines: Seq<Seq<char>>, n: int) -> Seq<char>
    decreases n,
{
    if n <= 0 {
        Seq::empty()
    } else {
        indented(lines, n - 1) + ("    "@ + lines[n - 1] + "\n"@)
    }
}

fn indent(lines: &Vec<String>) -> (r: String)
    ensures
        r@ == indented(texts(lines@), lines@.len() as int),
{
    let mut out = String::new();
    for i in 0..lines.len()
        invariant
            out@ == indented(texts(lines@), i as int),
    {
        let mut line = String::from_str("    ");
        line.append(lines[i].as_str());
        line.append("\n");
        out.append(line.as_str());
    }
    out
}

/// The first `n` hits in a prompt.
pub open spec fn shown_hits(hits: Seq<RecallHit>, n: int) -> Seq<char>
    decreases n,
{
    if n <= 0 {
        Seq::empty()
    } else {
        shown_hits(hits, n - 1) + hits[n - 1].shown((n - 1) as nat)
    }
}

/// The tokens of the first `n` hits.
pub open spec fn hit_tokens(hits: Seq<RecallHit>, n: int) -> nat
    decreases n,
{
    if n <= 0 {
        0
    } else {
        hit_tokens(hits, n - 1) + hits[n - 1].token_cost as nat
    }
}

proof fn hit_tokens_grow(hits: Seq<RecallHit>, m: int, n: int)
    requires
        0 <= m <= n <= hits.len(),
    ensures
        hit_tokens(hits, m) <= hit_tokens(hits, n),
    decreases n,
{
    if m < n {
        hit_tokens_grow(hits, m, n - 1);
    }
}

impl RecallResult {
    /// The result as a block of a prompt: nothing where there are no hits.
    pub open spec fn shown(self) -> Seq<char> {
        if self.hits@.len() == 0 {
            Seq::empty()
        } else {
            "=== RECALLED MEMORY ===\n"@ + shown_hits(self.hits@, self.hits@.len() as int)
        }
    }

    /// The result as a block of a prompt. A stale hit shows its warning and what its anchor
    /// holds now.
    pub fn render(&self) -> (r: String)
        ensures
            r@ == self.shown(),
    {
        if self.hits.len() == 0 {
            return String::new();
        }
        let mut list = String::new();
        for i in 0..self.hits.len()
            invariant
                list@ == shown_hits(self.hits@, i as int),
        {
            let block = self.hits[i].block(i);
            list.append(block.as_str());
        }
        let mut out = String::from_str("=== RECALLED MEMORY ===\n");
        out.append(list.as_str());
        out
    }

    /// The tokens of all hits.
    pub fn token_cost(&self) -> (r: usize)
        requires
            hit_tokens(self.hits@, self.hits@.len() as int) <= usize::MAX,
        ensures
            r == hit_tokens(self.hits@, self.hits@.len() as int),
    {
        let mut sum: usize = 0;
        for i in 0..self.hits.len()
            invariant
                hit_tokens(self.hits@, self.hits@.len() as int) <= usize::MAX,
                sum == hit_tokens(self.hits@, i as int),
        {
            proof {
                hit_tokens_grow(self.hits@, i as int + 1, self.hits@.len() as int);
            }
            sum = sum + self.hits[i].token_cost;
        }
        sum
    }
}

/// The edges that recall follows.
pub open spec fn recall_edges() -> Seq<EdgeKind> {
    seq![EdgeKind::DerivedFrom, EdgeKind::DependsOn, EdgeKind::Calls, EdgeKind::Imports]
}

/// The edges that recall follows.
pub fn recall_edge_kinds() -> (r: Vec<EdgeKind>)
    ensures
        r@ == recall_edges(),
{
    let mut out: Vec<EdgeKind> = Vec::new();
    out.push(EdgeKind::DerivedFrom);
    out.push(EdgeKind::DependsOn);
    out.push(EdgeKind::Calls);
    out.push(EdgeKind::Imports);
    assert(out@ =~= recall_edges());
    out
}

/// The hits that a ranking keeps are no worse than those it leaves out.
pub proof fn the_best_are_kept(hits: Seq<RecallHit>, k: int, kept: int, left: int)
    requires
        hits.len() <= usize::MAX,
        0 <= kept < k <= left < hits.len(),
    ensures
        stably_sorted(hits).len() == hits.len(),
        first_of(stably_sorted(hits), k)[kept] == stably_sorted(hits)[kept],
        !stably_sorted(hits)[left].precedes(&first_of(stably_sorted(hits), k)[kept]),
{
    let order = sorting_rearranges(hits);
    a_stable_order_sorts(hits, order);
    let sorted = arranged(hits, order);
    assert(sorted == stably_sorted(hits));
    assert(!sorted[left].precedes(&sorted[kept]));
}

/// A stale summary is never shown bare: its hit warns, names the anchor, and carries what the
/// anchor holds now, where it still exists.
pub proof fn stale_summaries_are_superseded(
    hit: RecallHit,
    entry: SemanticEntry,
    replacement: Option<String>,
    limit: int,
    hits: Seq<RecallHit>,
    at: int,
)
    requires
        hit.of_entry(entry, replacement, limit),
        entry.is_stale,
        0 <= at < hits.len(),
        hits[at] == hit,
    ensures
        "[STALE SUMMARY — do not trust] "@.is_prefix_of(hit.rendered@),
        hit.rendered@ != entry_text(entry.content@, limit),
        hit.stale_replacement == replacement,
        stale_ids(hits, hits.len() as int).contains(entry.atlas_id@),
{
    crate::memory::semantic::stale_entries_carry_a_warning(
        entry,
        entry_text(entry.content@, limit),
    );
    stale_hits_are_listed(hits, at, hits.len() as int);
}

proof fn stale_hits_are_listed(hits: Seq<RecallHit>, at: int, n: int)
    requires
        0 <= at < n <= hits.len(),
        hits[at].stale,
    ensures
        stale_ids(hits, n).contains(hits[at].id@),
    decreases n,
{
    let list = stale_ids(hits, n);
    if at == n - 1 {
        assert(list[list.len() - 1] == hits[at].id@);
    } else {
        stale_hits_are_listed(hits, at, n - 1);
        let before = stale_ids(hits, n - 1);
        let k = choose|k: int| 0 <= k < before.len() && before[k] == hits[at].id@;
        assert(list[k] == hits[at].id@);
    }
}

/// A query is answered by as many hits as were asked for: by every hit there is where there
/// are fewer, by at least one and at most a hundred in any case, and by the usual number where
/// the caller does not say.
pub proof fn a_query_gets_as_many_hits_as_it_asks_for(
    engine: &RecallEngine,
    query: &str,
    k: Option<usize>,
    hits: Vec<RecallHit>,
    backends: Vec<String>,
    notes: Vec<String>,
    r: RecallResult,
)
    requires
        call_ensures(RecallEngine::recall, (engine, query, k, hits, backends, notes), r),
    ensures
        r.hits@.len() <= hits@.len(),
        r.hits@.len() <= 100,
        hits@.len() > 0 ==> r.hits@.len() > 0,
        k matches Some(n) ==> {
            &&& 1 <= n <= 100 && n <= hits@.len() ==> r.hits@.len() == n
            &&& 1 <= n <= 100 && n > hits@.len() ==> r.hits@.len() == hits@.len()
            &&& n < 1 && hits@.len() >= 1 ==> r.hits@.len() == 1
            &&& n > 100 && hits@.len() >= 100 ==> r.hits@.len() == 100
            &&& n > 100 && hits@.len() < 100 ==> r.hits@.len() == hits@.len()
        },
        k is None ==> {
            let n = engine.rules().default_k;
            &&& 1 <= n <= 100 && n <= hits@.len() ==> r.hits@.len() == n
            &&& 1 <= n <= 100 && n > hits@.len() ==> r.hits@.len() == hits@.len()
            &&& n < 1 && hits@.len() >= 1 ==> r.hits@.len() == 1
            &&& n > 100 && hits@.len() >= 100 ==> r.hits@.len() == 100
            &&& n > 100 && hits@.len() < 100 ==> r.hits@.len() == hits@.len()
        },
{
    assert(hits.len() == hits@.len());
    let _ = sorting_rearranges(hits@);
}

/// What answers a query are hits that were found, each once, the best first, and no hit that
/// is left out is better than one that is shown: `places` tells where each of them was found.
pub proof fn a_query_gets_the_best_first(
    engine: &RecallEngine,
    query: &str,
    k: Option<usize>,
    hits: Vec<RecallHit>,
    backends: Vec<String>,
    notes: Vec<String>,
    r: RecallResult,
) -> (places: Seq<int>)
    requires
        call_ensures(RecallEngine::recall, (engine, query, k, hits, backends, notes), r),
    ensures
        places.len() == r.hits@.len(),
        places.no_duplicates(),
        forall|i: int|
            0 <= i < places.len() ==> 0 <= #[trigger] places[i] < hits@.len() && r.hits@[i]
                == hits@[places[i]],
        forall|i: int, j: int|
            #![trigger r.hits@[i], r.hits@[j]]
            0 <= i < j < r.hits@.len() ==> r.hits@[i].score.key >= r.hits@[j].score.key && (
            r.hits@[i].score.key == r.hits@[j].score.key ==> !text_before(
                r.hits@[j].id@,
                r.hits@[i].id@,
            )),
        forall|q: int, i: int|
            #![trigger hits@[q], r.hits@[i]]
            0 <= q < hits@.len() && !places.contains(q) && 0 <= i < r.hits@.len()
                ==> hits@[q].score.key <= r.hits@[i].score.key && (hits@[q].score.key
                == r.hits@[i].score.key ==> !text_before(hits@[q].id@, r.hits@[i].id@)),
{
    assert(hits.len() == hits@.len());
    let order = sorting_rearranges(hits@);
    a_stable_order_sorts(hits@, order);
    let sorted = arranged(hits@, order);
    let n = r.hits@.len() as int;
    let places = Seq::new(n as nat, |i: int| order[i] as int);
    assert forall|i: int| 0 <= i < n implies 0 <= #[trigger] places[i] < hits@.len()
        && r.hits@[i] == hits@[places[i]] by {
        assert(r.hits@[i] == sorted[i]);
    }
    assert forall|i: int, j: int|
        #![trigger r.hits@[i], r.hits@[j]]
        0 <= i < j < n implies !r.hits@[j].precedes(&r.hits@[i]) by {
        assert(r.hits@[i] == sorted[i] && r.hits@[j] == sorted[j]);
    }
    assert forall|q: int, i: int|
        #![trigger hits@[q], r.hits@[i]]
        0 <= q < hits@.len() && !places.contains(q) && 0 <= i < n implies !hits@[q].precedes(
        &r.hits@[i],
    ) by {
        let at = every_position_occurs(order, hits@.len(), q as usize);
        if at < n {
            assert(places[at] == q);
        }
        assert(sorted[at] == hits@[q] && sorted[i] == r.hits@[i]);
    }
    places
}

/// An episode is a hit exactly where it is of the session and the project asked for, where any
/// is, is in no fold unless folds are asked for, and is in the window unless what left it is
/// asked for. Its text is shown whole up to four characters for each token that an item may
/// take, and its beginning otherwise.
pub proof fn episodes_pass_their_filters(
    engine: &RecallEngine,
    ep: &EpisodeRow,
    filters: &RecallFilters,
    r: Option<RecallHit>,
)
    requires
        call_ensures(RecallEngine::episode_hit, (engine, ep, filters), r),
    ensures
        filters.session_id matches Some(s) ==> s@ != ep.session_id@ ==> r is None,
        filters.project_id matches Some(p) ==> (ep.project_id matches Some(q) ==> q@ != p@)
            ==> r is None,
        ep.fold_id is Some && filters.include_folded != Some(true) ==> r is None,
        ep.eviction_tier.outside() && filters.include_archived == Some(false) ==> r is None,
        ep.eviction_tier.outside() && filters.include_archived is None
            && !engine.rules().include_archived ==> r is None,
        (filters.session_id matches Some(s) ==> s@ == ep.session_id@) && (
        filters.project_id matches Some(p) ==> ep.project_id matches Some(q) && q@ == p@) && (
        ep.fold_id is None || filters.include_folded == Some(true)) && (
        !ep.eviction_tier.outside() || filters.include_archived == Some(true) || (
        filters.include_archived is None && engine.rules().include_archived)) ==> r is Some,
        r matches Some(h) ==> {
            let limit = 4 * engine.rules().max_item_tokens;
            &&& h.kind is Episode
            &&& h.id@ == ep.episode_id@
            &&& !h.stale
            &&& ep.content@.len() <= limit ==> h.rendered@ == ep.content@
            &&& ep.content@.len() > limit ==> ep.content@.take(limit).is_prefix_of(h.rendered@)
        },
{
    if r is Some {
        let limit = 4 * engine.rules().max_item_tokens;
        let text = r->0.rendered@;
        if ep.content@.len() > limit {
            assert(text.take(limit) =~= ep.content@.take(limit));
        }
    }
}

/// A fact is a hit where it stands in the file asked for, where one is; a summary where it is of
/// the project asked for. What belongs to none passes only where none is asked for.
pub proof fn facts_and_summaries_pass_their_filters(
    engine: &RecallEngine,
    fact: &SymbolicFact,
    entry: &SemanticEntry,
    filters: &RecallFilters,
    replacement: Option<String>,
    f: Option<RecallHit>,
    e: Option<RecallHit>,
)
    requires
        call_ensures(RecallEngine::fact_hit, (engine, fact, filters), f),
        call_ensures(RecallEngine::entry_hit, (engine, entry, filters, replacement), e),
    ensures
        filters.file_path is None ==> f is Some,
        filters.file_path matches Some(p) ==> (f is Some <==> (fact.file_path matches Some(q) && q@
            == p@)),
        filters.project_id is None ==> e is Some,
        filters.project_id matches Some(p) ==> (e is Some <==> (entry.project_id matches Some(q)
            && q@ == p@)),
        f matches Some(h) ==> h.kind is SymbolicFact && h.id@ == fact.fact_id@ && !h.stale
            && h.file_path == fact.file_path && h.line == fact.line_start,
        e matches Some(h) ==> {
            &&& h.kind is SemanticEntry
            &&& h.id@ == entry.atlas_id@
            &&& h.stale == entry.is_stale
            &&& entry.is_stale ==> h.stale_replacement == replacement
            &&& !entry.is_stale ==> h.stale_replacement is None
            &&& h.anchor matches Some((t, id)) && t == entry.anchor_type && id@
                == entry.anchor_id@
        },
{
}

/// A stale summary is replaced by what its anchor holds now: the current fact, or the beginning
/// of the episode; by nothing where that is gone.
pub proof fn what_is_stale_is_replaced_by_its_anchor(
    engine: &RecallEngine,
    entry: &SemanticEntry,
    fact: Option<&SymbolicFact>,
    episode: Option<&EpisodeRow>,
    r: Option<String>,
)
    requires
        call_ensures(RecallEngine::current_anchor_content, (engine, entry, fact, episode), r),
    ensures
        entry.anchor_type is SymbolicFact ==> (r is Some <==> fact is Some),
        entry.anchor_type is EpisodicStream ==> (r is Some <==> episode is Some),
        entry.anchor_type is SymbolicFact ==> (r matches Some(t) ==> t@ == (
        match fact->0.signature {
            Some(sig) => fact->0.qualified_name@ + " — "@ + sig@,
            None => fact->0.qualified_name@,
        })),
        entry.anchor_type is EpisodicStream ==> (r matches Some(t) ==> t@.is_prefix_of(
            episode->0.content@,
        ) && (t@.len() == 600 || t@ == episode->0.content@)),
{
    if entry.anchor_type is EpisodicStream && r is Some {
        let t = r->0@;
        let whole = episode->0.content@;
        assert(t =~= whole.take(t.len() as int));
    }
}

/// The stale ones among the hits of a result are listed, in their order, and no others: `at`
/// tells where they stand.
pub proof fn stale_hits_are_listed_as_superseded(
    engine: &RecallEngine,
    query: &str,
    k: Option<usize>,
    hits: Vec<RecallHit>,
    backends: Vec<String>,
    notes: Vec<String>,
    r: RecallResult,
) -> (at: Seq<int>)
    requires
        call_ensures(RecallEngine::recall, (engine, query, k, hits, backends, notes), r),
    ensures
        at.len() == r.stale_superseded@.len(),
        forall|i: int|
            0 <= i < at.len() ==> 0 <= #[trigger] at[i] < r.hits@.len() && r.hits@[at[i]].stale
                && r.stale_superseded@[i]@ == r.hits@[at[i]].id@,
        forall|i: int, j: int|
            #![trigger at[i], at[j]]
            0 <= i < j < at.len() ==> at[i] < at[j],
        forall|p: int| 0 <= p < r.hits@.len() && (#[trigger] r.hits@[p]).stale ==> at.contains(p),
        r.query@ == query@,
        r.backends == backends,
        at.len() == 0 ==> texts(r.notes@) == texts(notes@),
        at.len() > 0 ==> r.notes@.len() == notes@.len() + 1,
{
    let at = stale_places(r.hits@, r.hits@.len() as int);
    assert forall|i: int| 0 <= i < at.len() implies 0 <= #[trigger] at[i] < r.hits@.len()
        && r.hits@[at[i]].stale && r.stale_superseded@[i]@ == r.hits@[at[i]].id@ by {
        assert(texts(r.stale_superseded@)[i] == r.stale_superseded@[i]@);
    }
    assert(texts(r.stale_superseded@).len() == r.stale_superseded@.len());
    assert(texts(r.notes@).len() == r.notes@.len());
    assert(texts(notes@) + Seq::empty() =~= texts(notes@));
    at
}

proof fn stale_places(hits: Seq<RecallHit>, n: int) -> (at: Seq<int>)
    requires
        0 <= n <= hits.len(),
    ensures
        at.len() == stale_ids(hits, n).len(),
        forall|i: int|
            0 <= i < at.len() ==> 0 <= #[trigger] at[i] < n && hits[at[i]].stale && stale_ids(
                hits,
                n,
            )[i] == hits[at[i]].id@,
        forall|i: int, j: int|
            #![trigger at[i], at[j]]
            0 <= i < j < at.len() ==> at[i] < at[j],
        forall|p: int| 0 <= p < n && (#[trigger] hits[p]).stale ==> at.contains(p),
    decreases n,
{
    if n <= 0 {
        Seq::empty()
    } else {
        let before = stale_places(hits, n - 1);
        if hits[n - 1].stale {
            let at = before.push(n - 1);
            assert forall|p: int| 0 <= p < n && (#[trigger] hits[p]).stale implies at.contains(
                p,
            ) by {
                if p < n - 1 {
                    let i = choose|i: int| 0 <= i < before.len() && before[i] == p;
                    assert(at[i] == p);
                } else {
                    assert(at[at.len() - 1] == p);
                }
            }
            at
        } else {
            before
        }
    }
}

/// What speaks for a hit are the retrievers that named it, each counted once, and the words of
/// the query that stand in it; weighing it changes neither what it is nor what it shows.
pub proof fn weighing_keeps_what_is_shown(
    engine: &RecallEngine,
    words: &Vec<String>,
    hit: RecallHit,
    found: &Accum,
    features: RerankFeatures,
    figures: RerankFigures,
    r: RecallHit,
)
    requires
        call_ensures(RecallEngine::rerank_features, (engine, words, &hit, found), features),
        call_ensures(RecallEngine::rerank, (engine, hit, found, features, figures), r),
    ensures
        features.kind == hit.kind,
        features.overlap <= words@.len(),
        features.words >= 1,
        words@.len() > 0 ==> features.words == words@.len(),
        found.evidence@.len() > 0 ==> features.agreeing >= 1,
        features.agreeing == r.retrievers@.len(),
        r.retrievers@.no_duplicates(),
        forall|x: Retriever|
            r.retrievers@.contains(x) <==> exists|i: int|
                0 <= i < found.evidence@.len() && (#[trigger] found.evidence@[i]).retriever == x,
        r.score == figures.score,
        r.kind == hit.kind && r.id == hit.id && r.rendered == hit.rendered && r.stale == hit.stale
            && r.stale_replacement == hit.stale_replacement,
        r.token_cost == engine.measure().of(hit.rendered@),
        texts(hit.reasons@).is_prefix_of(texts(r.reasons@)),
{
    crate::recall::candidates::agreement_counts_each_retriever_once(found.evidence@);
    if found.evidence@.len() > 0 {
        assert(found.evidence@[0].retriever == found.evidence@[0].retriever);
        assert(distinct(found.evidence@).contains(found.evidence@[0].retriever));
    }
    let a = texts(hit.reasons@);
    let b = texts(r.reasons@);
    assert(b.take(a.len() as int) =~= a);
}

/// An episode fetched by its id comes back as it was stored, whatever its tier and however long
/// it is.
pub proof fn a_fetched_episode_is_verbatim(engine: &RecallEngine, ep: &EpisodeRow, r: RecallHit)
    requires
        call_ensures(RecallEngine::recall_episode, (engine, ep), r),
    ensures
        r.rendered@ == ep.content@,
        r.id@ == ep.episode_id@,
        r.kind is Episode,
        !r.stale,
        r.token_cost == engine.measure().of(ep.content@),
{
}

/// What a result costs is what its hits cost together: one hit more adds its own cost.
pub proof fn hits_add_up(hits: Seq<RecallHit>, hit: RecallHit)
    ensures
        hit_tokens(Seq::<RecallHit>::empty(), 0) == 0,
        hit_tokens(hits.push(hit), hits.len() as int + 1) == hit_tokens(hits, hits.len() as int)
            + hit.token_cost,
{
    hit_tokens_of_a_beginning(hits, hits.push(hit), hits.len() as int);
}

proof fn hit_tokens_of_a_beginning(a: Seq<RecallHit>, b: Seq<RecallHit>, n: int)
    requires
        0 <= n <= a.len() <= b.len(),
        forall|i: int| 0 <= i < n ==> a[i] == #[trigger] b[i],
    ensures
        hit_tokens(a, n) == hit_tokens(b, n),
    decreases n,
{
    if n > 0 {
        hit_tokens_of_a_beginning(a, b, n - 1);
        assert(b[n - 1] == a[n - 1]);
    }
}

/// Every hit of a result stands in its rendering, under its number, and a stale one is marked
/// and followed by what its anchor holds now.
pub proof fn every_hit_is_rendered(result: &RecallResult, r: String, i: int) -> (at: int)
    requires
        call_ensures(RecallResult::render, (result,), r),
        0 <= i < result.hits@.len(),
    ensures
        ({
            let h = result.hits@[i];
            let head = "["@ + digits(i as nat + 1) + "] ("@ + h.kind.name() + " · score "@
                + h.score.text@ + (if h.stale {
                " · STALE"@
            } else {
                ""@
            }) + ")\n"@;
            &&& stands_at(r@, head, at)
            &&& h.stale_replacement matches Some(now) ==> contains_text(
                r@,
                "    ↳ CURRENT VALUE: "@ + now@ + "\n"@,
            )
        }),
{
    let n = result.hits@.len() as int;
    let list = shown_hits(result.hits@, n);
    let at = a_hit_stands_in_the_list(result.hits@, i, n);
    let title = "=== RECALLED MEMORY ===\n"@;
    let h = result.hits@[i];
    let whole = h.shown(i as nat);
    let head = "["@ + digits(i as nat + 1) + "] ("@ + h.kind.name() + " · score "@ + h.score.text@ + (
    if h.stale {
        " · STALE"@
    } else {
        ""@
    }) + ")\n"@;
    let body = indented(line_list(h.rendered@), line_list(h.rendered@).len() as int);
    let tail = match h.stale_replacement {
        Some(rep) => "    ↳ CURRENT VALUE: "@ + rep@ + "\n"@,
        None => ""@,
    };
    assert(whole =~= head + body + tail);
    let p = title.len() + at;
    assert(r@.subrange(p, p + whole.len()) =~= list.subrange(at, at + whole.len()));
    assert(r@.subrange(p, p + head.len()) =~= r@.subrange(p, p + whole.len()).take(
        head.len() as int,
    ));
    assert(whole.take(head.len() as int) =~= head);
    if h.stale_replacement is Some {
        let q = p + head.len() + body.len();
        assert(r@.subrange(q, q + tail.len()) =~= r@.subrange(p, p + whole.len()).subrange(
            (head.len() + body.len()) as int,
            whole.len() as int,
        ));
        assert(whole.subrange((head.len() + body.len()) as int, whole.len() as int) =~= tail);
        assert(stands_at(r@, tail, q));
    }
    p
}

proof fn a_hit_stands_in_the_list(hits: Seq<RecallHit>, i: int, n: int) -> (at: int)
    requires
        0 <= i < n <= hits.len(),
    ensures
        stands_at(shown_hits(hits, n), hits[i].shown(i as nat), at),
    decreases n,
{
    let list = shown_hits(hits, n);
    let before = shown_hits(hits, n - 1);
    let last = hits[n - 1].shown((n - 1) as nat);
    assert(list =~= before + last);
    let wanted = hits[i].shown(i as nat);
    if i == n - 1 {
        let at = before.len() as int;
        assert(list.subrange(at, at + wanted.len()) =~= wanted);
        at
    } else {
        let at = a_hit_stands_in_the_list(hits, i, n - 1);
        assert(list.subrange(at, at + wanted.len()) =~= before.subrange(at, at + wanted.len()));
        at
    }
}

/// Without a choice every kind of hit is wanted, and with one exactly the kinds it names.
pub proof fn only_the_kinds_named_are_wanted(query: &RecallFilters, kind: HitKind, r: bool, i: int)
    requires
        call_ensures(RecallFilters::wants, (query, kind), r),
    ensures
        query.kinds is None ==> r,
        query.kinds matches Some(list) ==> (0 <= i < list@.len() && list@[i] == kind ==> r),
        query.kinds matches Some(list) ==> (r ==> list@.contains(kind)),
{
}

/// Weighing a hit gives one reason for each thing that speaks for or against it: that several
/// retrievers agree, that words of the query stand in it, that it is a fact or a summary, and
/// that it is stale. The words counted are those that stand in what it shows.
pub proof fn each_thing_that_counts_is_a_reason(
    engine: &RecallEngine,
    words: &Vec<String>,
    hit: RecallHit,
    text: &str,
    found: &Accum,
    features: RerankFeatures,
    standing: usize,
    figures: RerankFigures,
    r: RecallHit,
)
    requires
        call_ensures(RecallEngine::rerank_features, (engine, words, &hit, found), features),
        text@ == hit.rendered@,
        call_ensures(overlap, (words, text), standing),
        call_ensures(RecallEngine::rerank, (engine, hit, found, features, figures), r),
    ensures
        features.overlap == standing,
        r.reasons@.len() == hit.reasons@.len() + (if features.agreeing > 1 {
            1int
        } else {
            0
        }) + (if standing > 0 {
            1int
        } else {
            0
        }) + (if hit.kind is Episode {
            0int
        } else {
            1
        }) + (if hit.stale {
            1int
        } else {
            0
        }),
{
    assert(texts(r.reasons@).len() == r.reasons@.len());
    assert(texts(hit.reasons@).len() == hit.reasons@.len());
}

} // verus!
