//! What is known of an inference server, and where a cut may fall in its cache.
//!
//! Nothing about a server is assumed: it is probed, the result is a
//! [`CapabilitySet`] whose every field defaults to `false`, and every decision about
//! the cache goes through that set. A missing capability costs a re-prefill, which is
//! always correct and sometimes slow.

pub mod embedded;
pub mod llama_cpp;

use crate::order::Ranked;
use crate::text::{join, joined, push_int, same, signed_digits, strip_back, texts, trim, trim_end_char, trimmed};
use vstd::prelude::*;
use vstd::string::*;

verus! {

/// Where to look for an inference server.
#[derive(Debug, Clone, PartialEq, Eq)]
pub enum BackendSpec {
    /// Probe, and fall back to the embedded backend.
    Auto,
    /// Use the in-process backend without probing anything.
    Embedded,
    /// No backend: every cache operation degrades to a no-op.
    Disabled,
    /// An explicit base URL.
    Url(String),
}

impl Default for BackendSpec {
    fn default() -> (r: Self)
        ensures
            r == BackendSpec::Auto,
    {
        BackendSpec::Auto
    }
}

impl BackendSpec {
    /// What an option's text asks for: a keyword, or else a URL without trailing slashes.
    pub open spec fn denotes(self, option: Seq<char>) -> bool {
        let t = trimmed(option);
        match self {
            BackendSpec::Auto => t == ""@ || t == "auto"@,
            BackendSpec::Embedded => t == "embedded"@ || t == "sakur4://embedded"@ || t == "mock"@,
            BackendSpec::Disabled => t == "none"@ || t == "off"@ || t == "disabled"@,
            BackendSpec::Url(u) => {
                &&& t != ""@ && t != "auto"@
                &&& t != "embedded"@ && t != "sakur4://embedded"@ && t != "mock"@
                &&& t != "none"@ && t != "off"@ && t != "disabled"@
                &&& u@ == strip_back(t, '/')
            },
        }
    }

    /// The text that shows the choice.
    pub open spec fn shown(self) -> Seq<char> {
        match self {
            BackendSpec::Auto => "auto"@,
            BackendSpec::Embedded => "embedded"@,
            BackendSpec::Disabled => "none"@,
            BackendSpec::Url(u) => u@,
        }
    }

    /// Reads the option's text.
    pub fn parse(raw: &str) -> (r: Self)
        ensures
            r.denotes(raw@),
    {
        let t = trim(raw);
        if same(t.as_str(), "") || same(t.as_str(), "auto") {
            BackendSpec::Auto
        } else if same(t.as_str(), "embedded") || same(t.as_str(), "sakur4://embedded") || same(
            t.as_str(),
            "mock",
        ) {
            BackendSpec::Embedded
        } else if same(t.as_str(), "none") || same(t.as_str(), "off") || same(
            t.as_str(),
            "disabled",
        ) {
            BackendSpec::Disabled
        } else {
            BackendSpec::Url(trim_end_char(t.as_str(), '/'))
        }
    }

    /// The text that shows the choice.
    pub fn to_string(&self) -> (r: String)
        ensures
            r@ == self.shown(),
    {
        match self {
            BackendSpec::Auto => "auto".to_owned(),
            BackendSpec::Embedded => "embedded".to_owned(),
            BackendSpec::Disabled => "none".to_owned(),
            BackendSpec::Url(u) => u.clone(),
        }
    }
}

/// No text asks for two different things.
pub proof fn an_option_denotes_one_choice(a: BackendSpec, b: BackendSpec, option: Seq<char>)
    requires
        a.denotes(option),
        b.denotes(option),
    ensures
        a.shown() == b.shown(),
        a is Auto <==> b is Auto,
        a is Embedded <==> b is Embedded,
        a is Disabled <==> b is Disabled,
{
    reveal_strlit("");
    reveal_strlit("auto");
    reveal_strlit("embedded");
    reveal_strlit("sakur4://embedded");
    reveal_strlit("mock");
    reveal_strlit("none");
    reveal_strlit("off");
    reveal_strlit("disabled");
    assert(""@.len() == 0 && "off"@.len() == 3 && "sakur4://embedded"@.len() == 17);
    assert("auto"@.len() == 4 && "mock"@.len() == 4 && "none"@.len() == 4);
    assert("embedded"@.len() == 8 && "disabled"@.len() == 8);
    assert("auto"@[0] == 'a' && "mock"@[0] == 'm' && "none"@[0] == 'n');
    assert("embedded"@[0] == 'e' && "disabled"@[0] == 'd');
}

/// What a server can do, found out by probing.
#[derive(Debug, Clone, Copy, PartialEq, Eq, Structural)]
pub struct CapabilitySet {
    /// The server answered at all.
    pub reachable: bool,
    /// The slot list is available.
    pub slots: bool,
    /// A slot's state can be saved to disk.
    pub slot_save: bool,
    /// A saved slot can be loaded again.
    pub slot_restore: bool,
    /// A slot's state can be dropped.
    pub slot_erase: bool,
    /// The server reports its ring of in-memory checkpoints.
    pub checkpoint_ring: bool,
    /// The server counts tokens exactly.
    pub tokenize: bool,
    /// The server reports its window and model name.
    pub props: bool,
    /// The server reports prompt-evaluation timings.
    pub metrics: bool,
    /// The model's checkpoints capture only part of its state.
    pub partial_state_only: bool,
    /// A prefix mismatch may reset the whole slot.
    pub context_shift: bool,
}

impl Default for CapabilitySet {
    fn default() -> (r: Self)
        ensures
            r == CapabilitySet::nothing(),
    {
        CapabilitySet {
            reachable: false,
            slots: false,
            slot_save: false,
            slot_restore: false,
            slot_erase: false,
            checkpoint_ring: false,
            tokenize: false,
            props: false,
            metrics: false,
            partial_state_only: false,
            context_shift: false,
        }
    }
}

/// The one-element list of `s` when `b` holds, else the empty list.
pub open spec fn listed(b: bool, s: Seq<char>) -> Seq<Seq<char>> {
    if b {
        seq![s]
    } else {
        Seq::empty()
    }
}

impl CapabilitySet {
    /// The set of a server that did not answer.
    pub open spec fn nothing() -> CapabilitySet {
        CapabilitySet {
            reachable: false,
            slots: false,
            slot_save: false,
            slot_restore: false,
            slot_erase: false,
            checkpoint_ring: false,
            tokenize: false,
            props: false,
            metrics: false,
            partial_state_only: false,
            context_shift: false,
        }
    }

    /// The names of the capabilities that a summary mentions, in their fixed order.
    pub open spec fn mentioned(self) -> Seq<Seq<char>> {
        listed(self.slots, "slots"@) + listed(self.slot_save, "save"@) + listed(
            self.slot_restore,
            "restore"@,
        ) + listed(self.checkpoint_ring, "checkpoint-ring"@) + listed(self.tokenize, "tokenize"@)
            + listed(self.metrics, "metrics"@) + listed(
            self.partial_state_only,
            "PARTIAL-STATE-ONLY"@,
        )
    }

    /// The one-line summary.
    pub open spec fn summary_text(self) -> Seq<char> {
        if !self.reachable {
            "unreachable"@
        } else if self.mentioned().len() == 0 {
            "reachable, no coherence endpoints"@
        } else {
            joined(self.mentioned(), "+"@)
        }
    }

    /// The one-line summary shown in receipts.
    pub fn summary(&self) -> (r: String)
        ensures
            r@ == self.summary_text(),
    {
        if !self.reachable {
            return "unreachable".to_owned();
        }
        let mut bits: Vec<String> = Vec::new();
        push_if(&mut bits, self.slots, "slots");
        push_if(&mut bits, self.slot_save, "save");
        push_if(&mut bits, self.slot_restore, "restore");
        push_if(&mut bits, self.checkpoint_ring, "checkpoint-ring");
        push_if(&mut bits, self.tokenize, "tokenize");
        push_if(&mut bits, self.metrics, "metrics");
        push_if(&mut bits, self.partial_state_only, "PARTIAL-STATE-ONLY");
        assert(texts(bits@) =~= self.mentioned());
        if bits.len() == 0 {
            "reachable, no coherence endpoints".to_owned()
        } else {
            join(&bits, "+")
        }
    }

    /// Whether a cut can be aligned onto a checkpoint at all.
    pub fn can_align_boundaries(&self) -> (r: bool)
        ensures
            r == (self.reachable && self.slots && (self.checkpoint_ring || self.slot_save)),
    {
        self.reachable && self.slots && (self.checkpoint_ring || self.slot_save)
    }

    /// Whether a warm restore is possible.
    pub fn can_restore(&self) -> (r: bool)
        ensures
            r == (self.reachable && (self.slot_restore || self.slot_save)),
    {
        self.reachable && (self.slot_restore || self.slot_save)
    }

    /// Whether tokens can be counted exactly.
    pub fn can_tokenize(&self) -> (r: bool)
        ensures
            r == (self.reachable && self.tokenize),
    {
        self.reachable && self.tokenize
    }
}

/// Adds `name` to the list when `b` holds.
fn push_if(list: &mut Vec<String>, b: bool, name: &str)
    ensures
        texts(final(list)@) == texts(old(list)@) + listed(b, name@),
{
    if b {
        list.push(name.to_owned());
    }
    assert(texts(list@) =~= texts(old(list)@) + listed(b, name@));
}

/// The mechanism behind a checkpoint.
#[derive(Debug, Clone, Copy, PartialEq, Eq, Structural)]
pub enum CheckpointKind {
    /// An entry of the in-memory ring: cheap to rewind to, gone when the ring wraps.
    Internal,
    /// A file: survives restarts, costs disk.
    SlotSaveFile,
    /// A marker written when a fold was opened.
    FoldMarker,
    /// A save taken right before an unavoidable rewrite.
    PreRewrite,
}

/// A checkpoint, placed in the token domain.
#[derive(Debug, PartialEq, Eq)]
pub struct CheckpointRef {
    /// The server's own identifier: a ring index or a file name.
    pub id: String,
    pub token_position: i64,
    pub kind: CheckpointKind,
    pub size_bytes: Option<u64>,
}

impl Clone for CheckpointRef {
    fn clone(&self) -> (r: Self)
        ensures
            r == *self,
    {
        CheckpointRef {
            id: self.id.clone(),
            token_position: self.token_position,
            kind: self.kind,
            size_bytes: self.size_bytes,
        }
    }
}

impl Ranked for CheckpointRef {
    open spec fn precedes(&self, other: &Self) -> bool {
        self.token_position < other.token_position
    }

    fn before(&self, other: &Self) -> (r: bool) {
        self.token_position < other.token_position
    }

    proof fn ordering(a: Self, b: Self, c: Self) {
    }
}

/// The latest checkpoint of `cs` whose position lies within `lo..=hi`; among equals, the last.
pub open spec fn latest_within(cs: Seq<CheckpointRef>, lo: int, hi: int) -> Option<CheckpointRef>
    decreases cs.len(),
{
    if cs.len() == 0 {
        None
    } else {
        let c = cs.last();
        match latest_within(cs.drop_last(), lo, hi) {
            Some(p) => if lo <= c.token_position <= hi && p.token_position <= c.token_position {
                Some(c)
            } else {
                Some(p)
            },
            None => if lo <= c.token_position <= hi {
                Some(c)
            } else {
                None
            },
        }
    }
}

/// What [`latest_within`] finds is a member of the list inside the range, no member inside
/// the range lies later, and it finds nothing only where there is nothing.
pub proof fn latest_within_is_the_maximum(cs: Seq<CheckpointRef>, lo: int, hi: int)
    ensures
        match latest_within(cs, lo, hi) {
            Some(b) => {
                &&& cs.contains(b)
                &&& lo <= b.token_position <= hi
                &&& forall|i: int|
                    0 <= i < cs.len() && lo <= (#[trigger] cs[i]).token_position <= hi
                        ==> cs[i].token_position <= b.token_position
            },
            None => forall|i: int|
                0 <= i < cs.len() ==> !(lo <= (#[trigger] cs[i]).token_position <= hi),
        },
    decreases cs.len(),
{
    if cs.len() > 0 {
        let rest = cs.drop_last();
        latest_within_is_the_maximum(rest, lo, hi);
        assert forall|i: int| 0 <= i < rest.len() implies rest[i] == cs[i] by {}
        match latest_within(rest, lo, hi) {
            Some(p) => {
                let k = choose|k: int| 0 <= k < rest.len() && rest[k] == p;
                assert(cs[k] == p);
                assert(cs.contains(p));
            },
            None => {},
        }
        assert(cs.contains(cs[cs.len() - 1]));
        assert forall|i: int|
            0 <= i < cs.len() && lo <= (#[trigger] cs[i]).token_position <= hi implies {
            &&& latest_within(cs, lo, hi) is Some
            &&& cs[i].token_position <= latest_within(cs, lo, hi)->0.token_position
        } by {
            if i < rest.len() {
                assert(rest[i] == cs[i]);
            }
        }
    }
}

/// The index of the latest checkpoint within `lo..=hi`, the last among equals.
pub(crate) fn find_latest(cs: &[CheckpointRef], lo: i64, hi: i64) -> (r: Option<usize>)
    ensures
        match r {
            Some(i) => i < cs@.len() && latest_within(cs@, lo as int, hi as int) == Some(
                cs@[i as int],
            ),
            None => latest_within(cs@, lo as int, hi as int) is None,
        },
{
    let mut best: Option<usize> = None;
    for i in 0..cs.len()
        invariant
            match best {
                Some(b) => b < i && latest_within(cs@.take(i as int), lo as int, hi as int) == Some(
                    cs@[b as int],
                ),
                None => latest_within(cs@.take(i as int), lo as int, hi as int) is None,
            },
    {
        assert(cs@.take(i as int + 1).drop_last() =~= cs@.take(i as int));
        assert(cs@.take(i as int + 1).last() == cs@[i as int]);
        let p: i64 = cs[i].token_position;
        if lo <= p && p <= hi {
            match best {
                Some(b) => {
                    if cs[b].token_position <= p {
                        best = Some(i);
                    }
                },
                None => {
                    best = Some(i);
                },
            }
        }
    }
    assert(cs@.take(cs@.len() as int) =~= cs@);
    best
}

/// Live state of one inference slot.
#[derive(Debug, Clone)]
pub struct SlotState {
    pub slot_id: String,
    /// Tokens resident in the slot's cache.
    pub n_past: i64,
    /// Tokens the slot can hold.
    pub n_ctx: i64,
    /// The slot is generating.
    pub is_processing: bool,
    /// The checkpoint ring, oldest first; empty when the server does not report it.
    pub checkpoints: Vec<CheckpointRef>,
    /// How long the last prompt evaluation took, when reported.
    pub prompt_eval_ms: Option<i64>,
}

impl Default for SlotState {
    fn default() -> (r: Self)
        ensures
            r.slot_id@.len() == 0,
            r.n_past == 0,
            r.n_ctx == 0,
            !r.is_processing,
            r.checkpoints@.len() == 0,
            r.prompt_eval_ms is None,
    {
        SlotState {
            slot_id: String::new(),
            n_past: 0,
            n_ctx: 0,
            is_processing: false,
            checkpoints: Vec::new(),
            prompt_eval_ms: None,
        }
    }
}

impl SlotState {
    /// The checkpoint at or before `position` that lies closest to it.
    pub fn nearest_checkpoint_at_or_before(&self, position: i64) -> (r: Option<&CheckpointRef>)
        ensures
            match r {
                Some(c) => latest_within(self.checkpoints@, i64::MIN as int, position as int)
                    == Some(*c),
                None => latest_within(
                    self.checkpoints@,
                    i64::MIN as int,
                    position as int,
                ) is None,
            },
    {
        match find_latest(self.checkpoints.as_slice(), i64::MIN, position) {
            Some(i) => Some(&self.checkpoints[i]),
            None => None,
        }
    }
}

/// Result of a save request.
#[derive(Debug, Clone)]
pub struct SnapshotOutcome {
    pub snapshot_id: String,
    pub file_path: Option<String>,
    pub size_bytes: Option<u64>,
    pub elapsed_ms: i64,
}

/// Result of a restore request.
#[derive(Debug, Clone)]
pub struct RestoreOutcome {
    pub restored: bool,
    pub restore_time_ms: i64,
    pub detail: String,
}

/// A server's health in one record.
#[derive(Debug, Clone)]
pub struct BackendHealth {
    pub name: String,
    pub spec: String,
    pub capabilities: CapabilitySet,
    pub detail: String,
}

/// Why a cut moved, and by how many tokens.
#[derive(Debug, Clone, Copy, PartialEq, Eq, Structural)]
pub enum SnapReason {
    /// Onto an entry of the in-memory ring.
    InternalCheckpoint { delta: i64 },
    /// Onto a file.
    SlotSaveFile { delta: i64 },
    /// Onto the marker of an opened fold.
    FoldMarker { delta: i64 },
    /// Onto a save taken before a rewrite.
    PreRewrite { delta: i64 },
}

impl SnapReason {
    /// The reason for a move of `delta` tokens onto a checkpoint of this kind.
    pub open spec fn onto(kind: CheckpointKind, delta: i64) -> SnapReason {
        match kind {
            CheckpointKind::Internal => SnapReason::InternalCheckpoint { delta },
            CheckpointKind::SlotSaveFile => SnapReason::SlotSaveFile { delta },
            CheckpointKind::FoldMarker => SnapReason::FoldMarker { delta },
            CheckpointKind::PreRewrite => SnapReason::PreRewrite { delta },
        }
    }

    /// The tokens the cut moved by.
    pub open spec fn moved(self) -> i64 {
        match self {
            SnapReason::InternalCheckpoint { delta } => delta,
            SnapReason::SlotSaveFile { delta } => delta,
            SnapReason::FoldMarker { delta } => delta,
            SnapReason::PreRewrite { delta } => delta,
        }
    }

    /// The kind of checkpoint, in words.
    pub open spec fn landing(self) -> Seq<char> {
        match self {
            SnapReason::InternalCheckpoint { delta } => " tokens back onto an in-memory checkpoint"@,
            SnapReason::SlotSaveFile { delta } => " tokens back onto a saved slot file"@,
            SnapReason::FoldMarker { delta } => " tokens back onto a fold marker"@,
            SnapReason::PreRewrite { delta } => " tokens back onto a pre-rewrite save"@,
        }
    }

    /// The move in words.
    pub open spec fn description(self) -> Seq<char> {
        "snapped "@ + signed_digits(self.moved() as int) + self.landing()
    }

    /// Builds the reason for a move onto a checkpoint of this kind.
    pub(crate) fn for_kind(kind: CheckpointKind, delta: i64) -> (r: SnapReason)
        ensures
            r == SnapReason::onto(kind, delta),
    {
        match kind {
            CheckpointKind::Internal => SnapReason::InternalCheckpoint { delta },
            CheckpointKind::SlotSaveFile => SnapReason::SlotSaveFile { delta },
            CheckpointKind::FoldMarker => SnapReason::FoldMarker { delta },
            CheckpointKind::PreRewrite => SnapReason::PreRewrite { delta },
        }
    }

    /// The tokens the cut moved by.
    pub fn delta(&self) -> (r: i64)
        ensures
            r == self.moved(),
    {
        match self {
            SnapReason::InternalCheckpoint { delta } => *delta,
            SnapReason::SlotSaveFile { delta } => *delta,
            SnapReason::FoldMarker { delta } => *delta,
            SnapReason::PreRewrite { delta } => *delta,
        }
    }

    /// The move in words.
    pub fn describe(&self) -> (r: String)
        ensures
            r@ == self.description(),
    {
        let mut out = String::from_str("snapped ");
        push_int(&mut out, self.delta());
        match self {
            SnapReason::InternalCheckpoint { .. } => out.append(
                " tokens back onto an in-memory checkpoint",
            ),
            SnapReason::SlotSaveFile { .. } => out.append(" tokens back onto a saved slot file"),
            SnapReason::FoldMarker { .. } => out.append(" tokens back onto a fold marker"),
            SnapReason::PreRewrite { .. } => out.append(" tokens back onto a pre-rewrite save"),
        }
        out
    }
}

/// Where a cut at `requested` snaps to: the latest positive checkpoint position at or before
/// it, if that is no further away than `tolerance` (a negative one counts as zero).
pub open spec fn snap(requested: i64, cs: Seq<CheckpointRef>, tolerance: i64) -> Option<
    (i64, SnapReason),
> {
    match latest_within(cs, 1, requested as int) {
        Some(c) => if requested - c.token_position <= (if tolerance > 0 {
            tolerance as int
        } else {
            0
        }) {
            Some(
                (
                    c.token_position,
                    SnapReason::onto(c.kind, (requested - c.token_position) as i64),
                ),
            )
        } else {
            None
        },
        None => None,
    }
}

/// Snaps a proposed cut onto a checkpoint at or before it.
///
/// The surviving prefix must still be a prefix of what the cache holds, so that the next
/// turn matches it. A checkpoint after the cut would mean evaluating the difference anyway.
pub fn snap_to_checkpoint(requested_cut: i64, checkpoints: &[CheckpointRef], tolerance: i64) -> (r:
    Option<(i64, SnapReason)>)
    ensures
        r == snap(requested_cut, checkpoints@, tolerance),
{
    proof {
        latest_within_is_the_maximum(checkpoints@, 1, requested_cut as int);
    }
    match find_latest(checkpoints, 1, requested_cut) {
        Some(i) => {
            let position: i64 = checkpoints[i].token_position;
            let delta: i64 = requested_cut - position;
            let allowed: i64 = if tolerance > 0 {
                tolerance
            } else {
                0
            };
            if delta > allowed {
                None
            } else {
                Some((position, SnapReason::for_kind(checkpoints[i].kind, delta)))
            }
        },
        None => None,
    }
}

/// A snap lands on the latest positive checkpoint at or before the cut, never after it, at
/// most the tolerance away, and the reported move is the distance. No snap is refused while
/// a checkpoint at or before the cut lies within the tolerance.
pub proof fn snapping_lands_on_the_latest_checkpoint_before_the_cut(
    requested: i64,
    cs: Seq<CheckpointRef>,
    tolerance: i64,
)
    requires
        tolerance >= 0,
    ensures
        match snap(requested, cs, tolerance) {
            Some((position, reason)) => {
                &&& 0 < position <= requested
                &&& requested - position <= tolerance
                &&& reason.moved() == requested - position
                &&& exists|i: int| 0 <= i < cs.len() && (#[trigger] cs[i]).token_position == position
                &&& forall|i: int|
                    0 <= i < cs.len() && (#[trigger] cs[i]).token_position <= requested
                        ==> cs[i].token_position <= position
            },
            None => forall|i: int|
                0 <= i < cs.len() && 0 < (#[trigger] cs[i]).token_position <= requested ==> requested
                    - cs[i].token_position > tolerance,
        },
{
    latest_within_is_the_maximum(cs, 1, requested as int);
    match latest_within(cs, 1, requested as int) {
        Some(b) => {
            let k = choose|k: int| 0 <= k < cs.len() && cs[k] == b;
            assert(cs[k].token_position == b.token_position);
        },
        None => {},
    }
}

/// What to do first about a backend choice.
#[derive(Debug, Clone)]
pub enum ResolutionStep {
    /// Run without a backend.
    Disabled,
    /// Run on the embedded backend.
    Embedded,
    /// Try to connect to this base URL.
    Connect(String),
}

/// The backend a session ends up with.
#[derive(Debug, Clone, Copy, PartialEq, Eq, Structural)]
pub enum ChosenBackend {
    Null,
    Embedded,
    Server,
}

/// The base URL that `auto` probes: the configured one unless it is blank.
pub open spec fn auto_candidate(configured: Option<Seq<char>>) -> Seq<char> {
    match configured {
        Some(u) => if crate::text::is_blank(u) {
            "http://127.0.0.1:8080"@
        } else {
            u
        },
        None => "http://127.0.0.1:8080"@,
    }
}

/// The first step for a choice, given the URL configured for `auto`.
pub fn resolution_step(spec: &BackendSpec, configured: Option<&str>) -> (r: ResolutionStep)
    ensures
        match *spec {
            BackendSpec::Disabled => r is Disabled,
            BackendSpec::Embedded => r is Embedded,
            BackendSpec::Url(u) => r matches ResolutionStep::Connect(c) && c@ == u@,
            BackendSpec::Auto => r matches ResolutionStep::Connect(c) && c@ == auto_candidate(
                match configured {
                    Some(u) => Some(u@),
                    None => None,
                },
            ),
        },
{
    match spec {
        BackendSpec::Disabled => ResolutionStep::Disabled,
        BackendSpec::Embedded => ResolutionStep::Embedded,
        BackendSpec::Url(u) => ResolutionStep::Connect(u.clone()),
        BackendSpec::Auto => {
            match configured {
                Some(u) => {
                    if crate::text::blank(u) {
                        ResolutionStep::Connect("http://127.0.0.1:8080".to_owned())
                    } else {
                        ResolutionStep::Connect(u.to_owned())
                    }
                },
                None => ResolutionStep::Connect("http://127.0.0.1:8080".to_owned()),
            }
        },
    }
}

/// How a choice was resolved when no connection was tried.
pub fn resolve_without_server(spec: &BackendSpec) -> (r: Option<(ChosenBackend, String)>)
    ensures
        match *spec {
            BackendSpec::Disabled => r matches Some((ChosenBackend::Null, note)) && note@
                == "cache coherence disabled by configuration; every compaction takes the full-re-prefill path (NFR-7)"@,
            BackendSpec::Embedded => r matches Some((ChosenBackend::Embedded, note)) && note@
                == "using the embedded backend (no external server required)"@,
            _ => r is None,
        },
{
    match spec {
        BackendSpec::Disabled => Some(
            (
                ChosenBackend::Null,
                "cache coherence disabled by configuration; every compaction takes the full-re-prefill path (NFR-7)".to_owned(),
            ),
        ),
        BackendSpec::Embedded => Some(
            (
                ChosenBackend::Embedded,
                "using the embedded backend (no external server required)".to_owned(),
            ),
        ),
        _ => None,
    }
}

/// The note on a connection attempt to `url`.
pub open spec fn connection_note(
    auto: bool,
    url: Seq<char>,
    outcome: Result<CapabilitySet, Seq<char>>,
) -> Seq<char> {
    match outcome {
        Ok(caps) => (if auto {
            "auto-detected llama.cpp at "@
        } else {
            "connected to "@
        }) + url + " ("@ + caps.summary_text() + ")"@,
        Err(e) => if auto {
            "no llama.cpp server at "@ + url + " ("@ + e + "); using the embedded backend"@
        } else {
            "requested "@ + url + " was unreachable ("@ + e
                + "); degraded to the embedded backend"@
        },
    }
}

/// How a choice was resolved after a connection attempt: the server when it answered, else
/// the embedded backend, with a note that says so.
pub fn resolve_after_connect(
    spec: &BackendSpec,
    url: &str,
    outcome: Result<CapabilitySet, String>,
) -> (r: (ChosenBackend, String))
    ensures
        r.0 == (if outcome is Ok {
            ChosenBackend::Server
        } else {
            ChosenBackend::Embedded
        }),
        r.1@ == connection_note(
            *spec is Auto,
            url@,
            match outcome {
                Ok(caps) => Ok(caps),
                Err(e) => Err(e@),
            },
        ),
{
    let auto: bool = matches!(spec, BackendSpec::Auto);
    match outcome {
        Ok(caps) => {
            let mut note = if auto {
                String::from_str("auto-detected llama.cpp at ")
            } else {
                String::from_str("connected to ")
            };
            note.append(url);
            note.append(" (");
            let s = caps.summary();
            note.append(s.as_str());
            note.append(")");
            (ChosenBackend::Server, note)
        },
        Err(e) => {
            let mut note = if auto {
                String::from_str("no llama.cpp server at ")
            } else {
                String::from_str("requested ")
            };
            note.append(url);
            if auto {
                note.append(" (");
            } else {
                note.append(" was unreachable (");
            }
            note.append(e.as_str());
            if auto {
                note.append("); using the embedded backend");
            } else {
                note.append("); degraded to the embedded backend");
            }
            (ChosenBackend::Embedded, note)
        },
    }
}

/// A cut is moved onto the latest positive checkpoint at or before it, by as many tokens as are
/// said, where that is within the tolerance; and it stays where every checkpoint before it is
/// farther away. A negative tolerance counts as none.
pub proof fn a_cut_moves_back_onto_the_latest_checkpoint(
    requested: i64,
    checkpoints: &[CheckpointRef],
    tolerance: i64,
    r: Option<(i64, SnapReason)>,
    i: int,
)
    requires
        call_ensures(snap_to_checkpoint, (requested, checkpoints, tolerance), r),
        0 <= i < checkpoints@.len(),
    ensures
        r matches Some((at, why)) ==> 0 < at <= requested && why.moved() == requested - at && (
        requested - at <= tolerance || at == requested),
        r matches Some((at, why)) ==> (checkpoints@[i].token_position <= requested
            ==> checkpoints@[i].token_position <= at),
        r matches Some((at, why)) ==> exists|k: int|
            0 <= k < checkpoints@.len() && (#[trigger] checkpoints@[k]).token_position == at && why
                == SnapReason::onto(checkpoints@[k].kind, why.moved()),
        r is None && 0 < checkpoints@[i].token_position <= requested ==> requested
            - checkpoints@[i].token_position > tolerance && checkpoints@[i].token_position
            != requested,
{
    let cs = checkpoints@;
    latest_within_is_the_maximum(cs, 1, requested as int);
    match latest_within(cs, 1, requested as int) {
        Some(b) => {
            let k = choose|k: int| 0 <= k < cs.len() && cs[k] == b;
            assert(cs[k].token_position == b.token_position);
        },
        None => {},
    }
}

/// The checkpoint nearest before a position is one of the slot's, not after the position, and
/// no other of them lies between; and one is found wherever there is one.
pub proof fn the_nearest_checkpoint_before_a_position_is_found(
    slot: &SlotState,
    position: i64,
    r: Option<&CheckpointRef>,
    i: int,
)
    requires
        call_ensures(SlotState::nearest_checkpoint_at_or_before, (slot, position), r),
        0 <= i < slot.checkpoints@.len(),
    ensures
        r matches Some(c) ==> slot.checkpoints@.contains(*c) && c.token_position <= position,
        r matches Some(c) ==> (slot.checkpoints@[i].token_position <= position
            ==> slot.checkpoints@[i].token_position <= c.token_position),
        slot.checkpoints@[i].token_position <= position ==> r is Some,
{
    latest_within_is_the_maximum(slot.checkpoints@, i64::MIN as int, position as int);
}

/// What a choice shows reads back as that choice.
pub proof fn a_shown_choice_reads_back(
    choice: &BackendSpec,
    shown: String,
    option: &str,
    read: BackendSpec,
)
    requires
        call_ensures(BackendSpec::to_string, (choice,), shown),
        option@ == shown@,
        call_ensures(BackendSpec::parse, (option,), read),
    ensures
        *choice is Auto ==> read is Auto,
        *choice is Embedded ==> read is Embedded,
        *choice is Disabled ==> read is Disabled,
{
    reveal_strlit("");
    reveal_strlit("auto");
    reveal_strlit("embedded");
    reveal_strlit("none");
    assert("auto"@[0] == 'a' && "auto"@.last() == 'o');
    assert("embedded"@[0] == 'e' && "embedded"@.last() == 'd');
    assert("none"@[0] == 'n' && "none"@.last() == 'e');
    let own = match *choice {
        BackendSpec::Auto => BackendSpec::Auto,
        BackendSpec::Embedded => BackendSpec::Embedded,
        _ => BackendSpec::Disabled,
    };
    if !(*choice is Url) {
        assert(trimmed(option@) == option@);
        assert(own.denotes(option@));
        an_option_denotes_one_choice(own, read, option@);
    }
}

/// Without a server there is a backend exactly for the choices that need none; else an address
/// is tried, and the server is used exactly where it answers.
pub proof fn a_server_is_used_where_it_answers(
    choice: &BackendSpec,
    configured: Option<&str>,
    step: ResolutionStep,
    at_once: Option<(ChosenBackend, String)>,
    url: &str,
    outcome: Result<CapabilitySet, String>,
    after: (ChosenBackend, String),
)
    requires
        call_ensures(resolution_step, (choice, configured), step),
        call_ensures(resolve_without_server, (choice,), at_once),
        call_ensures(resolve_after_connect, (choice, url, outcome), after),
    ensures
        at_once is None <==> step is Connect,
        step is Disabled ==> (at_once matches Some((b, n)) && b is Null),
        step is Embedded ==> (at_once matches Some((b, n)) && b is Embedded),
        *choice matches BackendSpec::Url(u) ==> (step matches ResolutionStep::Connect(c) && c@
            == u@),
        *choice is Auto ==> (configured matches Some(u) ==> (!crate::text::is_blank(u@)
            ==> step->Connect_0@ == u@)),
        outcome is Ok <==> after.0 is Server,
        outcome is Err <==> after.0 is Embedded,
{
}

/// Boundaries can be aligned, a slot restored and tokens counted only on a server that can be
/// reached.
pub proof fn nothing_is_possible_without_a_server(
    caps: &CapabilitySet,
    align: bool,
    restore: bool,
    count: bool,
    text: String,
)
    requires
        call_ensures(CapabilitySet::can_align_boundaries, (caps,), align),
        call_ensures(CapabilitySet::can_restore, (caps,), restore),
        call_ensures(CapabilitySet::can_tokenize, (caps,), count),
        call_ensures(CapabilitySet::summary, (caps,), text),
    ensures
        !caps.reachable ==> !align && !restore && !count && text@ == "unreachable"@,
        align ==> caps.slots && (caps.checkpoint_ring || caps.slot_save),
        caps.reachable && caps.slots && caps.checkpoint_ring ==> align,
        caps.reachable && caps.slots && caps.slot_save ==> align,
        caps.reachable && caps.slot_save ==> restore,
        caps.reachable && caps.slot_restore ==> restore,
        restore ==> caps.slot_restore || caps.slot_save,
        caps.reachable ==> (count <==> caps.tokenize),
{
}

} // verus!
