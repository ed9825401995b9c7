//! What an engine is configured with and how its parts are chosen.

use crate::cache::CoherenceConfig;
use crate::evict::EvictionPolicy;
use crate::ids::{short_hash_of_text, short_hash_str};
use crate::llama::{BackendSpec, CapabilitySet, SlotState};
use crate::recall::RecallPolicy;
use crate::text::{blank, is_blank, same};
use crate::tokens::TokenCounter;
use vstd::prelude::*;
use vstd::string::*;

verus! {

/// Everything an engine needs to run.
#[derive(Debug)]
pub struct EngineConfig {
    /// Where the store lives; `:memory:` for one that is not kept.
    pub db_path: String,
    /// Which inference server to use.
    pub backend: String,
    /// How long to wait for a server at the start.
    pub probe_timeout_ms: u64,
    /// Where texts are embedded, where that is configured.
    pub embed_url: Option<String>,
    pub embed_model: Option<String>,
    /// The root of the repository, where there is one.
    pub project_root: Option<String>,
    /// The project; named after the root where it is absent.
    pub project_id: Option<String>,
    /// The window to plan for where the server does not report one.
    pub default_n_ctx: usize,
    pub eviction: EvictionPolicy,
    pub coherence: CoherenceConfig,
    pub recall: RecallPolicy,
}

impl Default for EngineConfig {
    fn default() -> (r: Self)
        ensures
            r.db_path@ == "sakur4.db"@,
            r.backend@ == "auto"@,
            r.probe_timeout_ms == 1500,
            r.embed_url is None && r.embed_model is None,
            r.project_root is None && r.project_id is None,
            r.default_n_ctx == 32_768,
            r.eviction.keep_prefix_tokens == 0,
            r.eviction.cache_prefix_reserve_tokens == 4096,
            r.eviction.keep_recent_tokens == 4096,
            r.eviction.cache_prefix_max_tokens == 8192,
            !r.eviction.allow_drop,
            r.eviction.max_tier_step == 1,
            r.eviction.cache_align,
            r.coherence.snap_tolerance_tokens == 512,
            r.coherence.snapshot_before_rewrite,
            !r.coherence.snapshot_even_when_aligned,
            r.coherence.snapshot_retention_per_slot == 4,
            r.coherence.min_free_disk_bytes == 2 * 1024 * 1024 * 1024,
            r.recall.candidates_per_retriever == 30,
            r.recall.default_k == 8,
            r.recall.include_archived,
            r.recall.max_item_tokens == 2_000,
    {
        EngineConfig {
            db_path: "sakur4.db".to_owned(),
            backend: "auto".to_owned(),
            probe_timeout_ms: 1500,
            embed_url: None,
            embed_model: None,
            project_root: None,
            project_id: None,
            default_n_ctx: 32_768,
            eviction: EvictionPolicy::default(),
            coherence: CoherenceConfig::default(),
            recall: RecallPolicy::default(),
        }
    }
}

/// What the environment sets.
#[derive(Debug)]
pub struct Overrides {
    pub db: Option<String>,
    pub backend: Option<String>,
    pub project_root: Option<String>,
    pub embed_url: Option<String>,
    pub embed_model: Option<String>,
}

/// What a setting is after an override: a blank one changes nothing.
pub open spec fn overridden(old_value: Option<Seq<char>>, set: Option<String>) -> Option<
    Seq<char>,
> {
    match set {
        Some(s) => if is_blank(s@) {
            old_value
        } else {
            Some(s@)
        },
        None => old_value,
    }
}

/// The text of an optional setting.
pub open spec fn text_in(s: Option<String>) -> Option<Seq<char>> {
    match s {
        Some(t) => Some(t@),
        None => None,
    }
}

fn override_text(value: String, set: &Option<String>) -> (r: String)
    ensures
        Some(r@) == overridden(Some(value@), *set),
{
    match set {
        Some(s) => if blank(s.as_str()) {
            value
        } else {
            s.clone()
        },
        None => value,
    }
}

fn override_option(value: Option<String>, set: &Option<String>) -> (r: Option<String>)
    ensures
        text_in(r) == overridden(text_in(value), *set),
{
    match set {
        Some(s) => if blank(s.as_str()) {
            value
        } else {
            Some(s.clone())
        },
        None => value,
    }
}

impl EngineConfig {
    /// The configuration with what the environment sets.
    pub fn with_env(self, env: &Overrides) -> (r: Self)
        ensures
            Some(r.db_path@) == overridden(Some(self.db_path@), env.db),
            Some(r.backend@) == overridden(Some(self.backend@), env.backend),
            text_in(r.project_root) == overridden(text_in(self.project_root), env.project_root),
            text_in(r.embed_url) == overridden(text_in(self.embed_url), env.embed_url),
            text_in(r.embed_model) == overridden(text_in(self.embed_model), env.embed_model),
            r == (EngineConfig {
                db_path: r.db_path,
                backend: r.backend,
                project_root: r.project_root,
                embed_url: r.embed_url,
                embed_model: r.embed_model,
                ..self
            }),
    {
        EngineConfig {
            db_path: override_text(self.db_path, &env.db),
            backend: override_text(self.backend, &env.backend),
            probe_timeout_ms: self.probe_timeout_ms,
            embed_url: override_option(self.embed_url, &env.embed_url),
            embed_model: override_option(self.embed_model, &env.embed_model),
            project_root: override_option(self.project_root, &env.project_root),
            project_id: self.project_id,
            default_n_ctx: self.default_n_ctx,
            eviction: self.eviction,
            coherence: self.coherence,
            recall: self.recall,
        }
    }

    /// The project: the one that is named, or one named after the root.
    pub open spec fn project(self) -> Seq<char> {
        match self.project_id {
            Some(id) => id@,
            None => match self.project_root {
                Some(root) => "proj_"@ + short_hash_of_text(root@),
                None => "proj_default"@,
            },
        }
    }

    /// The project.
    pub fn resolved_project_id(&self) -> (r: String)
        ensures
            r@ == self.project(),
    {
        match &self.project_id {
            Some(id) => id.clone(),
            None => match &self.project_root {
                Some(root) => {
                    let hash = short_hash_str(root.as_str());
                    String::from_str("proj_").concat(hash.as_str())
                },
                None => "proj_default".to_owned(),
            },
        }
    }

    /// Whether the store is not kept.
    pub fn in_memory(&self) -> (r: bool)
        ensures
            r == (self.db_path@ == ":memory:"@ || self.db_path@.len() == 0),
    {
        same(self.db_path.as_str(), ":memory:") || self.db_path.as_str().is_empty()
    }
}

/// How much the store holds.
#[derive(Debug, Clone, Copy, PartialEq, Eq, Structural)]
pub struct DbStats {
    pub episodes: i64,
    pub symbolic_facts: i64,
    pub semantic_entries: i64,
    pub anchors: i64,
}

/// The state of the parts, for a person.
#[derive(Debug)]
pub struct EngineStatus {
    pub project_id: String,
    pub db: DbStats,
    pub backend_name: String,
    pub backend_spec: String,
    pub backend_note: String,
    pub capabilities: CapabilitySet,
    pub cache_summary: String,
    pub tokenizer: String,
    pub embedder: String,
    pub repo_files: i64,
    pub symbolic_facts: i64,
    pub recall_backends: Vec<String>,
}

/// What the parts report of themselves.
#[derive(Debug)]
pub struct PartReports {
    pub backend_name: String,
    pub backend_spec: String,
    pub capabilities: CapabilitySet,
    pub embedder: String,
    pub repo_files: i64,
    pub db: DbStats,
    pub recall_backends: Vec<String>,
}

/// A configured engine.
#[derive(Debug)]
pub struct Engine {
    config: EngineConfig,
    counter: TokenCounter,
    backend_note: String,
    requested_backend: BackendSpec,
    project_id: String,
}

impl Engine {
    /// What the engine is configured with.
    pub closed spec fn settings(self) -> EngineConfig {
        self.config
    }

    /// The counter that everything is measured with.
    pub closed spec fn measure(self) -> TokenCounter {
        self.counter
    }

    /// How the server was chosen.
    pub closed spec fn note(self) -> Seq<char> {
        self.backend_note@
    }

    /// Which server was asked for.
    pub closed spec fn asked(self) -> BackendSpec {
        self.requested_backend
    }

    /// The project.
    pub closed spec fn project(self) -> Seq<char> {
        self.project_id@
    }

    /// An engine with this configuration, once its server is chosen.
    pub fn open(config: EngineConfig, counter: TokenCounter, backend_note: &str) -> (r: Self)
        ensures
            r.settings() == config,
            r.measure() == counter,
            r.note() == backend_note@,
            r.asked().denotes(config.backend@),
            r.project() == config.project(),
    {
        let requested_backend = BackendSpec::parse(config.backend.as_str());
        let project_id = config.resolved_project_id();
        Engine {
            config,
            counter,
            backend_note: backend_note.to_owned(),
            requested_backend,
            project_id,
        }
    }

    pub fn config(&self) -> (r: &EngineConfig)
        ensures
            *r == self.settings(),
    {
        &self.config
    }

    pub fn tokens(&self) -> (r: &TokenCounter)
        ensures
            *r == self.measure(),
    {
        &self.counter
    }

    pub fn project_id(&self) -> (r: &str)
        ensures
            r@ == self.project(),
    {
        self.project_id.as_str()
    }

    pub fn backend_note(&self) -> (r: &str)
        ensures
            r@ == self.note(),
    {
        self.backend_note.as_str()
    }

    pub fn requested_backend(&self) -> (r: &BackendSpec)
        ensures
            *r == self.asked(),
    {
        &self.requested_backend
    }

    /// The window to plan for: what a reachable server's first slot reports, or else what is
    /// configured.
    pub fn context_window(&self, caps: &CapabilitySet, slot: Option<&SlotState>) -> (r: usize)
        requires
            slot matches Some(s) ==> s.n_ctx <= usize::MAX,
        ensures
            r == (match slot {
                Some(s) => if caps.reachable && s.n_ctx > 0 {
                    s.n_ctx as int
                } else {
                    self.settings().default_n_ctx as int
                },
                None => self.settings().default_n_ctx as int,
            }),
    {
        match slot {
            Some(s) => if caps.reachable && s.n_ctx > 0 {
                s.n_ctx as usize
            } else {
                self.config.default_n_ctx
            },
            None => self.config.default_n_ctx,
        }
    }

    /// The state of the parts.
    pub fn status(&self, parts: PartReports) -> (r: EngineStatus)
        ensures
            r.project_id@ == self.project(),
            r.backend_note@ == self.note(),
            r.backend_name == parts.backend_name,
            r.backend_spec == parts.backend_spec,
            r.capabilities == parts.capabilities,
            r.cache_summary@ == parts.capabilities.summary_text(),
            r.tokenizer@ == self.measure().spec_kind().name(),
            r.embedder == parts.embedder,
            r.repo_files == parts.repo_files,
            r.db == parts.db,
            r.symbolic_facts == parts.db.symbolic_facts,
            r.recall_backends == parts.recall_backends,
    {
        EngineStatus {
            project_id: self.project_id.clone(),
            backend_note: self.backend_note.clone(),
            cache_summary: parts.capabilities.summary(),
            tokenizer: self.counter.kind().as_str().to_owned(),
            backend_name: parts.backend_name,
            backend_spec: parts.backend_spec,
            capabilities: parts.capabilities,
            embedder: parts.embedder,
            repo_files: parts.repo_files,
            db: parts.db,
            symbolic_facts: parts.db.symbolic_facts,
            recall_backends: parts.recall_backends,
        }
    }
}

/// What the environment sets replaces what was configured, unless it is blank; what it leaves
/// unset stays, and nothing else changes.
pub proof fn the_environment_comes_first(config: EngineConfig, env: &Overrides, r: EngineConfig)
    requires
        call_ensures(EngineConfig::with_env, (config, env), r),
    ensures
        env.db matches Some(s) ==> (!is_blank(s@) ==> r.db_path@ == s@),
        env.backend matches Some(s) ==> (!is_blank(s@) ==> r.backend@ == s@),
        env.project_root matches Some(s) ==> (!is_blank(s@) ==> r.project_root is Some
            && r.project_root->0@ == s@),
        env.embed_url matches Some(s) ==> (!is_blank(s@) ==> r.embed_url is Some
            && r.embed_url->0@ == s@),
        env.embed_model matches Some(s) ==> (!is_blank(s@) ==> r.embed_model is Some
            && r.embed_model->0@ == s@),
        (env.db matches Some(s) ==> is_blank(s@)) ==> r.db_path@ == config.db_path@,
        (env.backend matches Some(s) ==> is_blank(s@)) ==> r.backend@ == config.backend@,
        (env.project_root matches Some(s) ==> is_blank(s@)) ==> (r.project_root is Some
            <==> config.project_root is Some) && (config.project_root matches Some(t)
            ==> r.project_root->0@ == t@),
        (env.embed_url matches Some(s) ==> is_blank(s@)) ==> (r.embed_url is Some
            <==> config.embed_url is Some) && (config.embed_url matches Some(t)
            ==> r.embed_url->0@ == t@),
        (env.embed_model matches Some(s) ==> is_blank(s@)) ==> (r.embed_model is Some
            <==> config.embed_model is Some) && (config.embed_model matches Some(t)
            ==> r.embed_model->0@ == t@),
        r.project_id == config.project_id && r.default_n_ctx == config.default_n_ctx,
{
}

/// The window planned for is what a reachable server's slot reports, and else what is
/// configured.
pub proof fn a_reported_window_comes_first(
    engine: &Engine,
    caps: &CapabilitySet,
    slot: &SlotState,
    seen: usize,
    unseen: usize,
)
    requires
        call_ensures(Engine::context_window, (engine, caps, Some(slot)), seen),
        call_ensures(Engine::context_window, (engine, caps, None::<&SlotState>), unseen),
    ensures
        unseen == engine.settings().default_n_ctx,
        caps.reachable && slot.n_ctx > 0 ==> seen == slot.n_ctx,
        !caps.reachable || slot.n_ctx <= 0 ==> seen == unseen,
{
}

} // verus!
