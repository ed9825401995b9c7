//! The Semantic Atlas: interpretations, each anchored to what it was derived from.
//!
//! An entry records the hash of its anchor as of the moment it was written. It is stale as
//! soon as the anchor's hash differs, or the anchor is gone, and a stale entry never shows as
//! a bare statement.

use super::dependency::{EdgeKind, EdgeRow, NodeKind, NodeRef};
use super::episodic::copy_opt;
use crate::error::Error;
use crate::ids::{
    all_hex, hex_text, new_id, now_rfc3339, short_hash_of_text, short_hash_str,
};
use crate::text::{blank, byte_count, bytes_of, digits, is_blank, push_nat, same};
use vstd::prelude::*;
use vstd::string::*;

verus! {

/// Which store an entry is anchored in.
#[derive(Debug, Clone, Copy, PartialEq, Eq, Structural)]
pub enum AnchorType {
    SymbolicFact,
    EpisodicStream,
}

impl AnchorType {
    /// The stored name.
    pub open spec fn name(self) -> Seq<char> {
        match self {
            AnchorType::SymbolicFact => "symbolic_fact"@,
            AnchorType::EpisodicStream => "episodic_stream"@,
        }
    }

    /// The stored name.
    pub fn as_str(self) -> (r: &'static str)
        ensures
            r@ == self.name(),
    {
        match self {
            AnchorType::SymbolicFact => "symbolic_fact",
            AnchorType::EpisodicStream => "episodic_stream",
        }
    }

    /// Reads a stored name.
    pub fn parse(s: &str) -> (r: Result<Self, Error>)
        ensures
            match r {
                Ok(t) => s@ == t.name(),
                Err(e) => {
                    &&& s@ != AnchorType::SymbolicFact.name()
                    &&& s@ != AnchorType::EpisodicStream.name()
                    &&& e matches Error::Invalid(m) && m@ == "unknown anchor type: "@ + s@
                },
            },
    {
        if same(s, "symbolic_fact") {
            Ok(AnchorType::SymbolicFact)
        } else if same(s, "episodic_stream") {
            Ok(AnchorType::EpisodicStream)
        } else {
            Err(Error::Invalid(String::from_str("unknown anchor type: ").concat(s)))
        }
    }

    /// The stored name, or a symbolic fact where it is not known.
    pub fn from_stored(s: &str) -> (r: Self)
        ensures
            r == (if s@ == AnchorType::EpisodicStream.name() {
                AnchorType::EpisodicStream
            } else {
                AnchorType::SymbolicFact
            }),
    {
        if same(s, "episodic_stream") {
            AnchorType::EpisodicStream
        } else {
            AnchorType::SymbolicFact
        }
    }

    /// The prefix of the ids of such anchors.
    pub fn id_prefix(self) -> (r: &'static str)
        ensures
            r@ == (match self {
                AnchorType::SymbolicFact => "sym"@,
                AnchorType::EpisodicStream => "ep"@,
            }),
    {
        match self {
            AnchorType::SymbolicFact => "sym",
            AnchorType::EpisodicStream => "ep",
        }
    }

    /// The kind of node that such an anchor is.
    pub open spec fn node_kind(self) -> NodeKind {
        match self {
            AnchorType::SymbolicFact => NodeKind::SymbolicFact,
            AnchorType::EpisodicStream => NodeKind::Episode,
        }
    }

    /// The node that an anchor is.
    pub fn node(self, id: &str) -> (r: NodeRef)
        ensures
            r.node() == (self.node_kind(), id@),
    {
        match self {
            AnchorType::SymbolicFact => NodeRef::fact(id),
            AnchorType::EpisodicStream => NodeRef::episode(id),
        }
    }
}

/// The names of the stores differ, so a stored name is read back as what was written.
pub proof fn anchor_type_names_are_distinct(a: AnchorType, b: AnchorType)
    ensures
        a.name() == b.name() ==> a == b,
{
    reveal_strlit("symbolic_fact");
    reveal_strlit("episodic_stream");
    assert("symbolic_fact"@.len() == 13 && "episodic_stream"@.len() == 15);
}

/// A request to write an entry.
#[derive(Debug)]
pub struct SemanticWrite {
    pub content: String,
    pub anchor_type: AnchorType,
    pub anchor_id: String,
    /// The anchor's hash, where the caller knows it better than the store.
    pub anchor_hash_at_write: Option<String>,
    /// Further anchors. All of them take part in telling whether the entry is stale.
    pub extra_anchors: Vec<(AnchorType, String)>,
    pub model: Option<String>,
    pub project_id: Option<String>,
    pub session_id: Option<String>,
}

/// The most bytes that an entry may take.
pub const MAX_ENTRY_BYTES: usize = 32000;

impl SemanticWrite {
    /// Whether this is a bare entry of this content on this anchor.
    pub open spec fn bare(
        self,
        content: Seq<char>,
        anchor_type: AnchorType,
        anchor_id: Seq<char>,
    ) -> bool {
        &&& self.content@ == content
        &&& self.anchor_type == anchor_type
        &&& self.anchor_id@ == anchor_id
        &&& self.anchor_hash_at_write is None
        &&& self.extra_anchors@.len() == 0
        &&& self.model is None && self.project_id is None && self.session_id is None
    }

    pub fn new(content: &str, anchor_type: AnchorType, anchor_id: &str) -> (r: Self)
        ensures
            r.bare(content@, anchor_type, anchor_id@),
    {
        SemanticWrite {
            content: content.to_owned(),
            anchor_type,
            anchor_id: anchor_id.to_owned(),
            anchor_hash_at_write: None,
            extra_anchors: Vec::new(),
            model: None,
            project_id: None,
            session_id: None,
        }
    }

    /// Anchors an entry to a symbolic fact.
    pub fn on_fact(content: &str, fact_id: &str) -> (r: Self)
        ensures
            r.bare(content@, AnchorType::SymbolicFact, fact_id@),
    {
        Self::new(content, AnchorType::SymbolicFact, fact_id)
    }

    /// Anchors an entry to an episode.
    pub fn on_episode(content: &str, episode_id: &str) -> (r: Self)
        ensures
            r.bare(content@, AnchorType::EpisodicStream, episode_id@),
    {
        Self::new(content, AnchorType::EpisodicStream, episode_id)
    }

    pub fn by_model(self, model: &str) -> (r: Self)
        ensures
            r.model matches Some(m) && m@ == model@,
            r == (SemanticWrite { model: r.model, ..self }),
    {
        SemanticWrite { model: Some(model.to_owned()), ..self }
    }

    pub fn in_project(self, project_id: &str) -> (r: Self)
        ensures
            r.project_id matches Some(p) && p@ == project_id@,
            r == (SemanticWrite { project_id: r.project_id, ..self }),
    {
        SemanticWrite { project_id: Some(project_id.to_owned()), ..self }
    }

    pub fn in_session(self, session_id: &str) -> (r: Self)
        ensures
            r.session_id matches Some(s) && s@ == session_id@,
            r == (SemanticWrite { session_id: r.session_id, ..self }),
    {
        SemanticWrite { session_id: Some(session_id.to_owned()), ..self }
    }

    /// Adds a further anchor.
    pub fn also_anchored_to(self, anchor_type: AnchorType, anchor_id: &str) -> (r: Self)
        ensures
            r.extra_anchors@.len() == self.extra_anchors@.len() + 1,
            r.extra_anchors@.drop_last() == self.extra_anchors@,
            r.extra_anchors@.last().0 == anchor_type,
            r.extra_anchors@.last().1@ == anchor_id@,
            r == (SemanticWrite { extra_anchors: r.extra_anchors, ..self }),
    {
        let mut extra = self.extra_anchors;
        let ghost before = extra@;
        extra.push((anchor_type, anchor_id.to_owned()));
        assert(extra@.drop_last() =~= before);
        SemanticWrite { extra_anchors: extra, ..self }
    }

    /// It has content, an anchor, and the size of a summary.
    pub open spec fn acceptable(self) -> bool {
        !is_blank(self.content@) && !is_blank(self.anchor_id@) && bytes_of(self.content@)
            <= MAX_ENTRY_BYTES
    }

    /// Whether the error says what the entry lacks.
    pub open spec fn refused_with(self, e: Error) -> bool {
        if is_blank(self.content@) {
            e matches Error::Invalid(m) && m@ == "a Semantic Atlas entry must have content"@
        } else if is_blank(self.anchor_id@) {
            e matches Error::Integrity(m) && m@
                == "a Semantic Atlas entry must be anchored: anchor_id is empty (FR-3)"@
        } else {
            &&& bytes_of(self.content@) > MAX_ENTRY_BYTES
            &&& e matches Error::Invalid(m) && m@ == "Semantic Atlas entries are summaries; "@
                + digits(bytes_of(self.content@)) + " characters is beyond the supported size"@
        }
    }

    /// Whether the entry may be written, as far as it shows by itself.
    pub fn validate(&self) -> (r: Result<(), Error>)
        ensures
            match r {
                Ok(_) => self.acceptable(),
                Err(e) => self.refused_with(e),
            },
    {
        if blank(self.content.as_str()) {
            return Err(Error::Invalid("a Semantic Atlas entry must have content".to_owned()));
        }
        if blank(self.anchor_id.as_str()) {
            return Err(
                Error::Integrity(
                    "a Semantic Atlas entry must be anchored: anchor_id is empty (FR-3)".to_owned(),
                ),
            );
        }
        let size: usize = byte_count(self.content.as_str());
        if size > MAX_ENTRY_BYTES {
            let mut m = String::from_str("Semantic Atlas entries are summaries; ");
            push_nat(&mut m, size as u64);
            m.append(" characters is beyond the supported size");
            return Err(Error::Invalid(m));
        }
        Ok(())
    }

    /// The index of the first further anchor from `k` on that has no hash.
    pub open spec fn missing_from(hashes: Seq<Option<String>>, k: int) -> Option<int>
        decreases hashes.len() - k,
    {
        if k >= hashes.len() {
            None
        } else if hashes[k] is None {
            Some(k)
        } else {
            Self::missing_from(hashes, k + 1)
        }
    }

    /// Whether this is what writing the entry comes to: an error where an anchor has no hash,
    /// the first of them named, and what goes into the store otherwise.
    pub open spec fn resolved_as(
        self,
        current: Option<Seq<char>>,
        extra: Seq<Option<String>>,
        r: Result<ResolvedWrite, Error>,
    ) -> bool {
        match (current, Self::missing_from(extra, 0)) {
            (None, _) => r matches Err(Error::Integrity(m)) && m@
                == "cannot anchor a Semantic Atlas entry to a non-existent "@
                + self.anchor_type.name() + " ("@ + self.anchor_id@ + ") — FR-3"@,
            (Some(_), Some(k)) => r matches Err(Error::Integrity(m)) && m@
                == "cannot anchor to a non-existent "@ + self.extra_anchors@[k].0.name() + " ("@
                + self.extra_anchors@[k].1@ + ") — FR-3"@,
            (Some(h), None) => r matches Ok(w) && w.records(self, h, extra),
        }
    }

    /// What goes into the store for this entry, given the current hashes of its anchors.
    ///
    /// An anchor that does not exist has no hash, and then nothing is written.
    pub fn resolve(&self, current: Option<&str>, extra: &[Option<String>]) -> (r: Result<
        ResolvedWrite,
        Error,
    >)
        requires
            extra@.len() == self.extra_anchors@.len(),
        ensures
            self.resolved_as(
                match current {
                    Some(h) => Some(h@),
                    None => None,
                },
                extra@,
                r,
            ),
    {
        let hash_now: &str = match current {
            Some(h) => h,
            None => {
                let mut m = String::from_str(
                    "cannot anchor a Semantic Atlas entry to a non-existent ",
                );
                m.append(self.anchor_type.as_str());
                m.append(" (");
                m.append(self.anchor_id.as_str());
                m.append(") — FR-3");
                return Err(Error::Integrity(m));
            },
        };
        for k in 0..extra.len()
            invariant
                extra@.len() == self.extra_anchors@.len(),
                current is Some,
                Self::missing_from(extra@, 0) == Self::missing_from(extra@, k as int),
        {
            if extra[k].is_none() {
                let mut m = String::from_str("cannot anchor to a non-existent ");
                m.append(self.extra_anchors[k].0.as_str());
                m.append(" (");
                m.append(self.extra_anchors[k].1.as_str());
                m.append(") — FR-3");
                return Err(Error::Integrity(m));
            }
        }
        let atlas_id = new_id("atlas");
        proof {
            reveal_strlit("atlas");
            assert("atlas"@.len() == 5);
        }
        let source = NodeRef::atlas(atlas_id.as_str());
        let mut edges: Vec<EdgeRow> = Vec::new();
        edges.push(
            EdgeRow::new(
                &source,
                &self.anchor_type.node(self.anchor_id.as_str()),
                EdgeKind::DerivedFrom,
            ),
        );
        for k in 0..self.extra_anchors.len()
            invariant
                source.node() == (NodeKind::SemanticEntry, atlas_id@),
                edges@.len() == k + 1,
                extra@.len() == self.extra_anchors@.len(),
                derives(edges@[0], atlas_id@, self.anchor_type, self.anchor_id@, None),
                forall|i: int|
                    0 <= i < k ==> derives(
                        #[trigger] edges@[i + 1],
                        atlas_id@,
                        self.extra_anchors@[i].0,
                        self.extra_anchors@[i].1@,
                        extra@[i],
                    ),
        {
            let ghost before = edges@;
            let (kind, id) = &self.extra_anchors[k];
            edges.push(
                EdgeRow::new(
                    &source,
                    &kind.node(id.as_str()),
                    EdgeKind::DerivedFrom,
                ).with_target_hash_opt(copy_opt(&extra[k])),
            );
            assert forall|i: int| 0 <= i < k + 1 implies derives(
                #[trigger] edges@[i + 1],
                atlas_id@,
                self.extra_anchors@[i].0,
                self.extra_anchors@[i].1@,
                extra@[i],
            ) by {
                if i < k {
                    assert(edges@[i + 1] == before[i + 1]);
                }
            }
        }
        let hash = match &self.anchor_hash_at_write {
            Some(h) => h.clone(),
            None => hash_now.to_owned(),
        };
        Ok(ResolvedWrite { atlas_id, recorded_hash: hash, edges })
    }
}

/// What goes into the store for an entry besides what the request says.
#[derive(Debug)]
pub struct ResolvedWrite {
    pub atlas_id: String,
    /// The anchor's hash that staleness is measured against.
    pub recorded_hash: String,
    /// One edge to each anchor. Those to further anchors hold the hash these have now.
    pub edges: Vec<EdgeRow>,
}

/// Whether an edge says that an entry was derived from an anchor, and which hash it records.
pub open spec fn derives(
    edge: EdgeRow,
    atlas_id: Seq<char>,
    anchor_type: AnchorType,
    anchor_id: Seq<char>,
    hash: Option<String>,
) -> bool {
    &&& edge.src_type@ == NodeKind::SemanticEntry.name()
    &&& edge.src_id@ == atlas_id
    &&& edge.dst_type@ == anchor_type.node_kind().name()
    &&& edge.dst_id@ == anchor_id
    &&& edge.edge_kind == EdgeKind::DerivedFrom
    &&& edge.target_hash == hash
}

impl ResolvedWrite {
    /// Whether this is what the store holds for the request, given the hashes its anchors have.
    pub open spec fn records(
        self,
        write: SemanticWrite,
        current: Seq<char>,
        extra: Seq<Option<String>>,
    ) -> bool {
        &&& self.atlas_id@.len() == 38 && self.atlas_id@.take(5) == "atlas"@ && self.atlas_id@[5]
            == '_'
        &&& self.recorded_hash@ == (match write.anchor_hash_at_write {
            Some(h) => h@,
            None => current,
        })
        &&& self.edges@.len() == write.extra_anchors@.len() + 1
        &&& derives(self.edges@[0], self.atlas_id@, write.anchor_type, write.anchor_id@, None)
        &&& forall|i: int|
            0 <= i < write.extra_anchors@.len() ==> derives(
                #[trigger] self.edges@[i + 1],
                self.atlas_id@,
                write.extra_anchors@[i].0,
                write.extra_anchors@[i].1@,
                extra[i],
            )
    }
}

/// What is known of an anchor of an entry: the hash that was recorded when the entry was
/// written, where one was, and the hash it has now, where it still exists.
#[derive(Debug)]
pub struct AnchorReading {
    pub anchor_type: AnchorType,
    pub anchor_id: String,
    pub recorded: Option<String>,
    pub current: Option<String>,
}

impl AnchorReading {
    /// Whether the anchor is gone or no longer has the hash that was recorded.
    pub open spec fn has_drifted(self) -> bool {
        match self.current {
            Some(now) => self.recorded matches Some(then) && then@ != now@,
            None => true,
        }
    }

    /// Whether the anchor is gone or no longer has the hash that was recorded.
    pub fn drifted(&self) -> (r: bool)
        ensures
            r == self.has_drifted(),
    {
        match &self.current {
            Some(now) => match &self.recorded {
                Some(before) => !same(before.as_str(), now.as_str()),
                None => false,
            },
            None => true,
        }
    }

    /// The reading after the entry was written anew: what the anchor has now is recorded.
    pub fn refreshed(self) -> (r: Self)
        ensures
            r.anchor_type == self.anchor_type,
            r.anchor_id == self.anchor_id,
            r.current == self.current,
            r.recorded == (if self.current is Some {
                self.current
            } else {
                self.recorded
            }),
            r.has_drifted() <==> self.current is None,
    {
        let recorded: Option<String> = if self.current.is_some() {
            copy_opt(&self.current)
        } else {
            self.recorded
        };
        AnchorReading {
            anchor_type: self.anchor_type,
            anchor_id: self.anchor_id,
            recorded,
            current: self.current,
        }
    }

    /// Whether this is the anchor of that kind and id.
    pub open spec fn is_anchor(self, kind: Seq<char>, id: Seq<char>) -> bool {
        self.anchor_type.name() == kind && self.anchor_id@ == id
    }

    fn names(&self, kind: &str, id: &str) -> (r: bool)
        ensures
            r == self.is_anchor(kind@, id@),
    {
        same(self.anchor_type.as_str(), kind) && same(self.anchor_id.as_str(), id)
    }
}

/// The index of the first anchor from `k` on that has drifted, other than an entry's own.
pub open spec fn drift_from(
    anchors: Seq<AnchorReading>,
    kind: Seq<char>,
    id: Seq<char>,
    k: int,
) -> Option<int>
    decreases anchors.len() - k,
{
    if k >= anchors.len() {
        None
    } else if !anchors[k].is_anchor(kind, id) && anchors[k].has_drifted() {
        Some(k)
    } else {
        drift_from(anchors, kind, id, k + 1)
    }
}

/// The index is that of an anchor that has drifted, and there is one where any has.
proof fn drift_is_found(
    anchors: Seq<AnchorReading>,
    kind: Seq<char>,
    id: Seq<char>,
    k: int,
)
    requires
        0 <= k,
    ensures
        match drift_from(anchors, kind, id, k) {
            Some(i) => k <= i < anchors.len() && anchors[i].has_drifted() && !anchors[i].is_anchor(
                kind,
                id,
            ),
            None => forall|i: int|
                k <= i < anchors.len() && !(#[trigger] anchors[i]).is_anchor(kind, id)
                    ==> !anchors[i].has_drifted(),
        },
    decreases anchors.len() - k,
{
    if k < anchors.len() && (anchors[k].is_anchor(kind, id) || !anchors[k].has_drifted()) {
        drift_is_found(anchors, kind, id, k + 1);
    }
}

fn first_drift(anchors: &Vec<AnchorReading>, kind: &str, id: &str) -> (r: Option<usize>)
    ensures
        match r {
            Some(i) => drift_from(anchors@, kind@, id@, 0) == Some(i as int) && i < anchors@.len(),
            None => drift_from(anchors@, kind@, id@, 0) is None,
        },
{
    for i in 0..anchors.len()
        invariant
            drift_from(anchors@, kind@, id@, 0) == drift_from(anchors@, kind@, id@, i as int),
    {
        if !anchors[i].names(kind, id) && anchors[i].drifted() {
            return Some(i);
        }
    }
    None
}

/// Those of the first `n` anchors that are not an entry's own.
pub open spec fn further(
    anchors: Seq<AnchorReading>,
    kind: Seq<char>,
    id: Seq<char>,
    n: int,
) -> Seq<(AnchorType, Seq<char>)>
    decreases n,
{
    if n <= 0 {
        Seq::empty()
    } else if anchors[n - 1].is_anchor(kind, id) {
        further(anchors, kind, id, n - 1)
    } else {
        further(anchors, kind, id, n - 1).push((anchors[n - 1].anchor_type, anchors[n - 1].anchor_id@))
    }
}

/// A list of anchors as plain values.
pub open spec fn anchor_list(list: Seq<(AnchorType, String)>) -> Seq<(AnchorType, Seq<char>)> {
    Seq::new(list.len(), |i: int| (list[i].0, list[i].1@))
}

/// An entry with its staleness resolved.
#[derive(Debug)]
pub struct SemanticEntry {
    pub atlas_id: String,
    pub content: String,
    pub anchor_type: AnchorType,
    pub anchor_id: String,
    pub anchor_hash_at_write: String,
    /// The anchor's hash now, where the anchor still exists.
    pub current_anchor_hash: Option<String>,
    pub is_stale: bool,
    pub model: Option<String>,
    pub project_id: Option<String>,
    pub session_id: Option<String>,
    pub created_at: String,
    /// Every anchor, the primary one first.
    pub anchors: Vec<(AnchorType, String)>,
}

/// Whether an entry is stale: its anchor is gone or no longer has the hash it had.
pub open spec fn is_outdated(recorded: Seq<char>, current: Option<String>) -> bool {
    match current {
        Some(h) => h@ != recorded,
        None => true,
    }
}

/// Whether an entry is stale.
fn outdated(recorded: &str, current: &Option<String>) -> (r: bool)
    ensures
        r == is_outdated(recorded@, *current),
{
    match current {
        Some(h) => !same(h.as_str(), recorded),
        None => true,
    }
}

impl SemanticEntry {
    /// An entry as stored, with the current hash of its anchor.
    pub fn from_row(
        atlas_id: String,
        content: String,
        anchor_type: AnchorType,
        anchor_id: String,
        anchor_hash_at_write: String,
        current_anchor_hash: Option<String>,
        model: Option<String>,
        project_id: Option<String>,
        session_id: Option<String>,
        created_at: String,
    ) -> (r: Self)
        ensures
            r.atlas_id == atlas_id,
            r.content == content,
            r.anchor_type == anchor_type,
            r.anchor_id == anchor_id,
            r.anchor_hash_at_write == anchor_hash_at_write,
            r.current_anchor_hash == current_anchor_hash,
            r.is_stale == is_outdated(anchor_hash_at_write@, current_anchor_hash),
            r.model == model,
            r.project_id == project_id,
            r.session_id == session_id,
            r.created_at == created_at,
            r.anchors@.len() == 1,
            r.anchors@[0].0 == anchor_type,
            r.anchors@[0].1@ == anchor_id@,
    {
        let is_stale: bool = outdated(anchor_hash_at_write.as_str(), &current_anchor_hash);
        let mut anchors: Vec<(AnchorType, String)> = Vec::new();
        anchors.push((anchor_type, anchor_id.clone()));
        SemanticEntry {
            atlas_id,
            content,
            anchor_type,
            anchor_id,
            anchor_hash_at_write,
            current_anchor_hash,
            is_stale,
            model,
            project_id,
            session_id,
            created_at,
            anchors,
        }
    }

    /// The entry with everything that it is anchored to: its own anchor first, the further ones
    /// behind it. It is stale where any of them has drifted.
    pub fn with_anchors(self, anchors: &Vec<AnchorReading>) -> (r: Self)
        ensures
            anchor_list(r.anchors@) == seq![(self.anchor_type, self.anchor_id@)] + further(
                anchors@,
                self.anchor_type.name(),
                self.anchor_id@,
                anchors@.len() as int,
            ),
            r.is_stale == (self.is_stale || exists|i: int|
                0 <= i < anchors@.len() && !(#[trigger] anchors@[i]).is_anchor(
                    self.anchor_type.name(),
                    self.anchor_id@,
                ) && anchors@[i].has_drifted()),
            r == (SemanticEntry { anchors: r.anchors, is_stale: r.is_stale, ..self }),
    {
        let kind: &str = self.anchor_type.as_str();
        let mut list: Vec<(AnchorType, String)> = Vec::new();
        list.push((self.anchor_type, self.anchor_id.clone()));
        let ghost own = seq![(self.anchor_type, self.anchor_id@)];
        assert(anchor_list(list@) =~= own + further(anchors@, kind@, self.anchor_id@, 0));
        for i in 0..anchors.len()
            invariant
                kind@ == self.anchor_type.name(),
                anchor_list(list@) == own + further(anchors@, kind@, self.anchor_id@, i as int),
        {
            if !anchors[i].names(kind, self.anchor_id.as_str()) {
                let ghost before = list@;
                list.push((anchors[i].anchor_type, anchors[i].anchor_id.clone()));
                assert(anchor_list(list@) =~= anchor_list(before).push(
                    (anchors@[i as int].anchor_type, anchors@[i as int].anchor_id@),
                ));
                assert(anchor_list(list@) =~= own + further(
                    anchors@,
                    kind@,
                    self.anchor_id@,
                    i as int + 1,
                ));
            }
        }
        let is_stale: bool = self.is_stale || first_drift(
            anchors,
            kind,
            self.anchor_id.as_str(),
        ).is_some();
        proof {
            drift_is_found(anchors@, kind@, self.anchor_id@, 0);
        }
        SemanticEntry { anchors: list, is_stale, ..self }
    }

    /// The text that a prompt may carry where this much of the summary is shown: that alone
    /// where the entry is fresh, else with a warning that names the drift and points at the
    /// truth.
    pub open spec fn shown_as(self, content: Seq<char>) -> Seq<char> {
        if self.is_stale {
            "[STALE SUMMARY — do not trust] "@ + content
                + " \n  ↳ the anchor it was derived from ("@ + self.anchor_type.name() + "("@
                + self.anchor_id@
                + ")) has changed since this summary was written; re-read the source or call code.query_symbol to get the current truth."@
        } else {
            content
        }
    }

    /// The text that a prompt may carry.
    pub open spec fn shown(self) -> Seq<char> {
        self.shown_as(self.content@)
    }

    /// The text that a prompt may carry.
    pub fn render_for_prompt(&self) -> (r: String)
        ensures
            r@ == self.shown(),
    {
        self.render_as(self.content.as_str())
    }

    /// The text that a prompt may carry where this much of the summary is shown.
    pub fn render_as(&self, content: &str) -> (r: String)
        ensures
            r@ == self.shown_as(content@),
    {
        if self.is_stale {
            let mut out = String::from_str("[STALE SUMMARY — do not trust] ");
            out.append(content);
            out.append(" \n  ↳ the anchor it was derived from (");
            out.append(self.anchor_type.as_str());
            out.append("(");
            out.append(self.anchor_id.as_str());
            out.append(
                ")) has changed since this summary was written; re-read the source or call code.query_symbol to get the current truth.",
            );
            out
        } else {
            content.to_owned()
        }
    }

    /// The marker in result lists.
    pub fn staleness_marker(&self) -> (r: &'static str)
        ensures
            r@ == (if self.is_stale {
                "[STALE]"@
            } else {
                ""@
            }),
    {
        if self.is_stale {
            "[STALE]"
        } else {
            ""
        }
    }

    /// The hash of the entry's own content.
    pub fn content_hash(&self) -> (r: String)
        ensures
            r@ == short_hash_of_text(self.content@),
            r@.len() == 16,
            all_hex(r@),
    {
        short_hash_str(self.content.as_str())
    }

    /// The hash to record when the entry is written anew from its anchor.
    pub fn refresh(&self, current: Option<&str>) -> (r: Result<String, Error>)
        ensures
            match current {
                Some(h) => r matches Ok(s) && s@ == h@,
                None => r matches Err(Error::Integrity(m)) && m@ == "cannot refresh "@
                    + self.atlas_id@ + ": its anchor "@ + self.anchor_id@ + " no longer exists"@,
            },
    {
        match current {
            Some(h) => Ok(h.to_owned()),
            None => {
                let mut m = String::from_str("cannot refresh ");
                m.append(self.atlas_id.as_str());
                m.append(": its anchor ");
                m.append(self.anchor_id.as_str());
                m.append(" no longer exists");
                Err(Error::Integrity(m))
            },
        }
    }
}

/// A stale entry never shows as the bare summary, however much of it is shown, and a fresh one
/// shows as nothing else.
pub proof fn stale_entries_carry_a_warning(entry: SemanticEntry, content: Seq<char>)
    ensures
        entry.is_stale ==> {
            let shown = entry.shown_as(content);
            &&& shown.len() > content.len()
            &&& "[STALE SUMMARY — do not trust] "@.is_prefix_of(shown)
        },
        !entry.is_stale ==> entry.shown_as(content) == content,
        entry.shown() == entry.shown_as(entry.content@),
{
    if entry.is_stale {
        reveal_strlit("[STALE SUMMARY — do not trust] ");
        let head = "[STALE SUMMARY — do not trust] "@;
        let shown = entry.shown_as(content);
        assert(head.len() > 0);
        assert(head =~= shown.subrange(0, head.len() as int));
    }
}

/// An entry is fresh exactly as long as its anchor exists with the hash it was written at.
pub proof fn freshness_is_agreement(recorded: Seq<char>, current: Option<String>)
    ensures
        !is_outdated(recorded, current) <==> (current matches Some(h) && h@ == recorded),
{
}

/// An entry written at its anchor's hash is fresh as long as the anchor has that hash, and
/// stale as soon as it has another or is gone; written anew, it is fresh again.
pub proof fn an_entry_is_fresh_until_its_anchor_changes(
    write: SemanticWrite,
    written: ResolvedWrite,
    hash: Seq<char>,
    extra: Seq<Option<String>>,
    now: Option<String>,
)
    requires
        written.records(write, hash, extra),
        write.anchor_hash_at_write is None,
    ensures
        is_outdated(written.recorded_hash@, now) <==> !(now matches Some(h) && h@ == hash),
        now matches Some(h) ==> !is_outdated(h@, now),
{
}

/// A further anchor is told to have drifted exactly where it is gone or its hash is no longer
/// the one that the entry's edge to it recorded.
pub proof fn a_further_anchor_is_measured_by_its_edge(
    write: SemanticWrite,
    written: ResolvedWrite,
    hash: Seq<char>,
    extra: Seq<Option<String>>,
    i: int,
    reading: AnchorReading,
)
    requires
        written.records(write, hash, extra),
        0 <= i < write.extra_anchors@.len(),
        extra.len() == write.extra_anchors@.len(),
        extra[i] is Some,
        reading.recorded == written.edges@[i + 1].target_hash,
    ensures
        reading.has_drifted() <==> !(reading.current matches Some(now) && now@ == extra[i]->0@),
{
}

/// A stale entry with what is needed to derive it anew: the first of its anchors that has
/// drifted, its own where that has.
#[derive(Debug)]
pub struct StaleEntry {
    pub atlas_id: String,
    pub anchor_type: AnchorType,
    pub anchor_id: String,
    pub recorded_hash: String,
    pub current_hash: Option<String>,
    pub reason: StaleReason,
}

/// Why an entry went stale.
#[derive(Debug, Clone, Copy, PartialEq, Eq, Structural)]
pub enum StaleReason {
    /// The anchor's content changed.
    AnchorChanged,
    /// The anchor no longer exists.
    AnchorDeleted,
}

/// An entry of the atlas, with the hash its own anchor had when it was written, the hash that
/// anchor has now, where it still exists, and what is known of everything it is anchored to.
#[derive(Debug)]
pub struct AtlasRow {
    pub atlas_id: String,
    pub anchor_type: String,
    pub anchor_id: String,
    pub recorded_hash: String,
    pub current_hash: Option<String>,
    pub anchors: Vec<AnchorReading>,
}

impl AtlasRow {
    /// Whether the entry's own anchor has drifted.
    pub open spec fn own_drifted(self) -> bool {
        is_outdated(self.recorded_hash@, self.current_hash)
    }

    /// The index of the first further anchor that has drifted.
    pub open spec fn other_drifted(self) -> Option<int> {
        drift_from(self.anchors@, self.anchor_type@, self.anchor_id@, 0)
    }

    /// Whether the entry is stale: its own anchor or a further one has drifted.
    pub open spec fn is_stale(self) -> bool {
        self.own_drifted() || self.other_drifted() is Some
    }

    /// Whether the entry is stale because an anchor is gone.
    pub open spec fn has_lost_its_anchor(self) -> bool {
        if self.own_drifted() {
            self.current_hash is None
        } else {
            self.other_drifted() matches Some(k) && self.anchors@[k].current is None
        }
    }

    fn stale(&self) -> (r: bool)
        ensures
            r == self.is_stale(),
    {
        outdated(self.recorded_hash.as_str(), &self.current_hash) || first_drift(
            &self.anchors,
            self.anchor_type.as_str(),
            self.anchor_id.as_str(),
        ).is_some()
    }

    fn lost(&self) -> (r: bool)
        ensures
            r == self.has_lost_its_anchor(),
    {
        if outdated(self.recorded_hash.as_str(), &self.current_hash) {
            return self.current_hash.is_none();
        }
        match first_drift(&self.anchors, self.anchor_type.as_str(), self.anchor_id.as_str()) {
            Some(k) => self.anchors[k].current.is_none(),
            None => false,
        }
    }

    /// The report on a stale entry.
    fn into_stale(self, anchor_type: AnchorType) -> (r: StaleEntry)
        requires
            self.is_stale(),
            anchor_type.name() == self.anchor_type@,
        ensures
            reports(r, self),
    {
        if outdated(self.recorded_hash.as_str(), &self.current_hash) {
            let reason: StaleReason = if self.current_hash.is_none() {
                StaleReason::AnchorDeleted
            } else {
                StaleReason::AnchorChanged
            };
            return StaleEntry {
                atlas_id: self.atlas_id,
                anchor_type,
                anchor_id: self.anchor_id,
                recorded_hash: self.recorded_hash,
                current_hash: self.current_hash,
                reason,
            };
        }
        let found = first_drift(&self.anchors, self.anchor_type.as_str(), self.anchor_id.as_str());
        let at: usize = match found {
            Some(k) => k,
            None => 0,
        };
        assert(found is Some);
        let anchor = &self.anchors[at];
        let recorded_hash = match &anchor.recorded {
            Some(h) => h.clone(),
            None => String::new(),
        };
        let reason: StaleReason = if anchor.current.is_none() {
            StaleReason::AnchorDeleted
        } else {
            StaleReason::AnchorChanged
        };
        let kind: AnchorType = anchor.anchor_type;
        let anchor_id = anchor.anchor_id.clone();
        let current_hash = copy_opt(&anchor.current);
        StaleEntry {
            atlas_id: self.atlas_id,
            anchor_type: kind,
            anchor_id,
            recorded_hash,
            current_hash,
            reason,
        }
    }
}

/// How much of the atlas is stale.
#[derive(Debug)]
pub struct StalenessReport {
    pub total: usize,
    pub stale: usize,
    pub deleted_anchors: usize,
    pub entries: Vec<StaleEntry>,
}

/// The stale ones among the first `n` rows, in their order.
pub open spec fn drifted(rows: Seq<AtlasRow>, n: int) -> Seq<AtlasRow>
    decreases n,
{
    if n <= 0 {
        Seq::empty()
    } else if rows[n - 1].is_stale() {
        drifted(rows, n - 1).push(rows[n - 1])
    } else {
        drifted(rows, n - 1)
    }
}

/// How many of the first `n` rows are stale because an anchor is gone.
pub open spec fn lost_anchors(rows: Seq<AtlasRow>, n: int) -> nat
    decreases n,
{
    if n <= 0 {
        0
    } else {
        lost_anchors(rows, n - 1) + (if rows[n - 1].has_lost_its_anchor() {
            1nat
        } else {
            0
        })
    }
}

/// Whether a stored name names a store.
pub open spec fn names_a_store(s: Seq<char>) -> bool {
    s == AnchorType::SymbolicFact.name() || s == AnchorType::EpisodicStream.name()
}

/// The index of the first row from `k` on whose store is not known.
pub open spec fn unknown_store_from(rows: Seq<AtlasRow>, k: int) -> Option<int>
    decreases rows.len() - k,
{
    if k >= rows.len() {
        None
    } else if !names_a_store(rows[k].anchor_type@) {
        Some(k)
    } else {
        unknown_store_from(rows, k + 1)
    }
}

/// Whether an entry of a report stands for a row.
pub open spec fn reports(entry: StaleEntry, row: AtlasRow) -> bool {
    &&& entry.atlas_id == row.atlas_id
    &&& entry.reason == (if entry.current_hash is None {
        StaleReason::AnchorDeleted
    } else {
        StaleReason::AnchorChanged
    })
    &&& if row.own_drifted() {
        &&& entry.anchor_type.name() == row.anchor_type@
        &&& entry.anchor_id == row.anchor_id
        &&& entry.recorded_hash == row.recorded_hash
        &&& entry.current_hash == row.current_hash
    } else {
        &&& row.other_drifted() matches Some(k) && {
            let anchor = row.anchors@[k];
            &&& entry.anchor_type == anchor.anchor_type
            &&& entry.anchor_id@ == anchor.anchor_id@
            &&& entry.recorded_hash@ == (match anchor.recorded {
                Some(h) => h@,
                None => Seq::empty(),
            })
            &&& entry.current_hash == anchor.current
        }
    }
}

/// The first rows of a list, at most so many.
pub open spec fn listed(rows: Seq<AtlasRow>, limit: int) -> Seq<AtlasRow> {
    if rows.len() <= limit {
        rows
    } else {
        rows.take(limit)
    }
}

/// The rows found stale among the first ones come first among all of them.
proof fn drifted_grow(rows: Seq<AtlasRow>, a: int, b: int)
    requires
        0 <= a <= b <= rows.len(),
    ensures
        drifted(rows, a).len() <= a,
        drifted(rows, a).len() <= drifted(rows, b).len(),
        drifted(rows, a) == drifted(rows, b).take(drifted(rows, a).len() as int),
    decreases b,
{
    if a < b {
        drifted_grow(rows, a, b - 1);
        assert(drifted(rows, a) =~= drifted(rows, b).take(drifted(rows, a).len() as int));
    } else {
        if a > 0 {
            drifted_grow(rows, a - 1, a - 1);
        }
        assert(drifted(rows, a) =~= drifted(rows, a).take(drifted(rows, a).len() as int));
    }
}

impl StalenessReport {
    /// Whether this is the report on an atlas that holds these entries: all stale ones are
    /// counted, and the first `limit` of them are listed.
    pub open spec fn tells_of(self, rows: Seq<AtlasRow>, limit: int) -> bool {
        let stale = drifted(rows, rows.len() as int);
        let shown = listed(stale, limit);
        &&& self.total == rows.len()
        &&& self.stale == stale.len()
        &&& self.deleted_anchors == lost_anchors(rows, rows.len() as int)
        &&& self.entries@.len() == shown.len()
        &&& forall|i: int|
            0 <= i < shown.len() ==> reports(#[trigger] self.entries@[i], shown[i])
    }

    /// The report on an atlas that holds these entries.
    pub(crate) fn of_rows(rows: Vec<AtlasRow>, limit: usize) -> (r: Result<Self, Error>)
        ensures
            ({
                let shown = listed(drifted(rows@, rows@.len() as int), limit as int);
                match unknown_store_from(shown, 0) {
                    Some(k) => r matches Err(Error::Invalid(m)) && m@ == "unknown anchor type: "@
                        + shown[k].anchor_type@,
                    None => r matches Ok(report) && report.tells_of(rows@, limit as int),
                }
            }),
    {
        let ghost all = rows@;
        let ghost stale_rows = drifted(all, all.len() as int);
        let ghost shown = listed(stale_rows, limit as int);
        let total: usize = rows.len();
        let mut entries: Vec<StaleEntry> = Vec::new();
        let mut stale: usize = 0;
        let mut deleted: usize = 0;
        for row in it: rows
            invariant
                it.seq() == all,
                total == all.len(),
                stale_rows == drifted(all, all.len() as int),
                shown == listed(stale_rows, limit as int),
                stale == drifted(all, it.index() as int).len(),
                stale <= it.index(),
                entries@.len() == (if stale < limit {
                    stale as int
                } else {
                    limit as int
                }),
                deleted <= it.index(),
                deleted == lost_anchors(all, it.index() as int),
                unknown_store_from(shown, 0) == unknown_store_from(shown, entries@.len() as int),
                forall|i: int|
                    0 <= i < entries@.len() ==> reports(#[trigger] entries@[i], shown[i]),
        {
            let ghost k = it.index() as int;
            proof {
                drifted_grow(all, k, k);
                drifted_grow(all, k + 1, all.len() as int);
            }
            if row.lost() {
                deleted = deleted + 1;
            }
            if row.stale() {
                stale = stale + 1;
                if entries.len() < limit {
                    assert(drifted(all, k + 1)[stale - 1] == row);
                    assert(stale_rows[stale - 1] == row);
                    assert(shown[stale - 1] == row);
                    let anchor_type = match AnchorType::parse(row.anchor_type.as_str()) {
                        Ok(t) => t,
                        Err(e) => {
                            return Err(e);
                        },
                    };
                    entries.push(row.into_stale(anchor_type));
                }
            }
        }
        Ok(StalenessReport { total, stale, deleted_anchors: deleted, entries })
    }

    pub fn is_clean(&self) -> (r: bool)
        ensures
            r == (self.stale == 0),
    {
        self.stale == 0
    }
}

/// The id for a new entry.
pub fn new_atlas_id() -> (r: String)
    ensures
        r@.len() == 38 && r@.take(5) == "atlas"@ && r@[5] == '_',
        exists|bytes: Seq<u8>|
            bytes.len() == 16 && bytes[6] / 16 == 7 && bytes[8] / 64 == 2 && r@.skip(6)
                == #[trigger] hex_text(bytes),
{
    proof {
        reveal_strlit("atlas");
        assert("atlas"@.len() == 5);
    }
    new_id("atlas")
}

/// The moment to stamp an entry with.
pub fn stamped_now() -> (r: String)
    ensures
        r@.len() >= 24,
        r@.last() == 'Z',
{
    now_rfc3339()
}

/// Whether an anchor is no longer what it was: it is gone, or it has another hash than the one
/// that was recorded.
pub open spec fn is_no_longer(recorded: Option<Seq<char>>, current: Option<Seq<char>>) -> bool {
    ||| current is None
    ||| recorded is Some && recorded != current
}

/// The text of an optional string.
pub open spec fn text_in(s: Option<String>) -> Option<Seq<char>> {
    match s {
        Some(t) => Some(t@),
        None => None,
    }
}

/// A summary is accepted where it says something, names an anchor, and is no longer than a
/// summary may be; what it lacks first is what it is refused for.
pub proof fn a_summary_needs_content_and_an_anchor(write: &SemanticWrite, r: Result<(), Error>)
    requires
        call_ensures(SemanticWrite::validate, (write,), r),
    ensures
        r is Ok <==> !is_blank(write.content@) && !is_blank(write.anchor_id@) && bytes_of(
            write.content@,
        ) <= 32_000,
        r matches Err(e) ==> (e is Integrity <==> !is_blank(write.content@) && is_blank(
            write.anchor_id@,
        )),
        r matches Err(e) ==> e is Integrity || e is Invalid,
{
}

/// A summary is written where everything it is anchored to exists, and then at the hash its
/// anchor was read at, or has now where none was given; it is linked to its anchor and to each
/// further one.
pub proof fn a_summary_is_written_at_its_anchor(
    write: &SemanticWrite,
    current: Option<&str>,
    extra: &[Option<String>],
    r: Result<ResolvedWrite, Error>,
    i: int,
)
    requires
        extra@.len() == write.extra_anchors@.len(),
        call_ensures(SemanticWrite::resolve, (write, current, extra), r),
    ensures
        r is Ok <==> current is Some && forall|k: int|
            0 <= k < extra@.len() ==> (#[trigger] extra@[k]) is Some,
        r matches Err(e) ==> e is Integrity,
        r matches Ok(w) ==> {
            &&& write.anchor_hash_at_write matches Some(h) ==> w.recorded_hash@ == h@
            &&& write.anchor_hash_at_write is None ==> w.recorded_hash@ == current->0@
            &&& w.edges@.len() == 1 + write.extra_anchors@.len()
            &&& w.edges@[0].src_id@ == w.atlas_id@ && w.edges@[0].dst_id@ == write.anchor_id@
                && w.edges@[0].edge_kind is DerivedFrom
            &&& 0 <= i < write.extra_anchors@.len() ==> w.edges@[i + 1].src_id@ == w.atlas_id@
                && w.edges@[i + 1].dst_id@ == write.extra_anchors@[i].1@ && w.edges@[i
                + 1].target_hash == extra@[i] && w.edges@[i + 1].edge_kind is DerivedFrom
        },
{
    missing_is_found(extra@, 0);
}

proof fn missing_is_found(hashes: Seq<Option<String>>, k: int)
    requires
        0 <= k <= hashes.len(),
    ensures
        match SemanticWrite::missing_from(hashes, k) {
            Some(i) => k <= i < hashes.len() && hashes[i] is None && forall|j: int|
                k <= j < i ==> (#[trigger] hashes[j]) is Some,
            None => forall|j: int| k <= j < hashes.len() ==> (#[trigger] hashes[j]) is Some,
        },
    decreases hashes.len() - k,
{
    if k < hashes.len() && hashes[k] is Some {
        missing_is_found(hashes, k + 1);
    }
}

/// An entry read from the store is stale exactly where its anchor is gone or has another hash
/// than it was written at, and it stands with its own anchor.
pub proof fn an_entry_is_stale_once_its_anchor_differs(
    atlas_id: String,
    content: String,
    anchor_type: AnchorType,
    anchor_id: String,
    written_at: String,
    now: Option<String>,
    model: Option<String>,
    project_id: Option<String>,
    session_id: Option<String>,
    created_at: String,
    r: SemanticEntry,
)
    requires
        call_ensures(
            SemanticEntry::from_row,
            (
                atlas_id,
                content,
                anchor_type,
                anchor_id,
                written_at,
                now,
                model,
                project_id,
                session_id,
                created_at,
            ),
            r,
        ),
    ensures
        now is None ==> r.is_stale,
        now matches Some(h) ==> (r.is_stale <==> h@ != written_at@),
        r.atlas_id == atlas_id && r.content == content && r.anchor_id == anchor_id && r.anchor_type
            == anchor_type && r.project_id == project_id,
{
}

/// With everything it is anchored to, an entry is stale where its own anchor or any further one
/// is no longer what it was, and its own anchor is named first.
pub proof fn an_entry_is_stale_once_any_anchor_differs(
    entry: SemanticEntry,
    anchors: &Vec<AnchorReading>,
    r: SemanticEntry,
    i: int,
)
    requires
        call_ensures(SemanticEntry::with_anchors, (entry, anchors), r),
        0 <= i < anchors@.len(),
    ensures
        entry.is_stale ==> r.is_stale,
        ({
            let a = anchors@[i];
            let own = a.anchor_type == entry.anchor_type && a.anchor_id@ == entry.anchor_id@;
            &&& !own && is_no_longer(text_in(a.recorded), text_in(a.current)) ==> r.is_stale
            &&& !own ==> exists|k: int|
                1 <= k < r.anchors@.len() && (#[trigger] r.anchors@[k]).0 == a.anchor_type
                    && r.anchors@[k].1@ == a.anchor_id@
        }),
        !entry.is_stale && (forall|k: int|
            0 <= k < anchors@.len() && !((#[trigger] anchors@[k]).anchor_type == entry.anchor_type
                && anchors@[k].anchor_id@ == entry.anchor_id@) ==> !is_no_longer(
                text_in(anchors@[k].recorded),
                text_in(anchors@[k].current),
            )) ==> !r.is_stale,
        r.anchors@.len() >= 1,
        r.anchors@[0].0 == entry.anchor_type && r.anchors@[0].1@ == entry.anchor_id@,
        r.content == entry.content && r.atlas_id == entry.atlas_id,
{
    let kind = entry.anchor_type.name();
    let list = further(anchors@, kind, entry.anchor_id@, anchors@.len() as int);
    let all = anchor_list(r.anchors@);
    assert(all.len() == r.anchors@.len());
    assert(all[0] == (r.anchors@[0].0, r.anchors@[0].1@));
    assert forall|k: int| 0 <= k < anchors@.len() implies ((#[trigger] anchors@[k]).is_anchor(
        kind,
        entry.anchor_id@,
    ) <==> anchors@[k].anchor_type == entry.anchor_type && anchors@[k].anchor_id@
        == entry.anchor_id@) by {
        if anchors@[k].anchor_type.name() == kind {
            anchor_type_names_are_distinct(anchors@[k].anchor_type, entry.anchor_type);
        }
    }
    let a = anchors@[i];
    if !a.is_anchor(kind, entry.anchor_id@) {
        let k = further_ones_are_listed(anchors@, kind, entry.anchor_id@, anchors@.len() as int, i);
        assert(all[k + 1] == list[k]);
        assert(r.anchors@[k + 1].0 == a.anchor_type);
    }
}

proof fn further_ones_are_listed(
    anchors: Seq<AnchorReading>,
    kind: Seq<char>,
    id: Seq<char>,
    n: int,
    i: int,
) -> (k: int)
    requires
        0 <= i < n <= anchors.len(),
        !anchors[i].is_anchor(kind, id),
    ensures
        0 <= k < further(anchors, kind, id, n).len(),
        further(anchors, kind, id, n)[k] == (anchors[i].anchor_type, anchors[i].anchor_id@),
    decreases n,
{
    if i == n - 1 {
        further(anchors, kind, id, n).len() - 1
    } else {
        further_ones_are_listed(anchors, kind, id, n - 1, i)
    }
}

/// An anchor has drifted where it is no longer what it was, and written anew it has not, unless
/// it is gone.
pub proof fn drift_is_a_difference(
    a: &AnchorReading,
    b: AnchorReading,
    r: bool,
    fresh: AnchorReading,
    again: bool,
)
    requires
        call_ensures(AnchorReading::drifted, (a,), r),
        call_ensures(AnchorReading::refreshed, (b,), fresh),
        call_ensures(AnchorReading::drifted, (&fresh,), again),
    ensures
        r <==> is_no_longer(text_in(a.recorded), text_in(a.current)),
        again <==> b.current is None,
        fresh.anchor_id == b.anchor_id && fresh.anchor_type == b.anchor_type && fresh.current
            == b.current,
{
}

/// What is shown of an entry holds the summary; of a stale one it warns first and names the
/// anchor that changed.
pub proof fn a_stale_summary_warns(entry: &SemanticEntry, content: &str, r: String, whole: String)
    requires
        call_ensures(SemanticEntry::render_as, (entry, content), r),
        call_ensures(SemanticEntry::render_for_prompt, (entry,), whole),
    ensures
        !entry.is_stale ==> r@ == content@ && whole@ == entry.content@,
        entry.is_stale ==> {
            &&& "[STALE SUMMARY — do not trust] "@.is_prefix_of(r@)
            &&& crate::text::contains_text(r@, content@)
            &&& crate::text::contains_text(r@, entry.anchor_id@)
            &&& r@.len() > content@.len()
        },
        content@ == entry.content@ ==> r@ == whole@,
{
    stale_entries_carry_a_warning(*entry, content@);
    if entry.is_stale {
        let head = "[STALE SUMMARY — do not trust] "@;
        let a = head.len() as int;
        assert(r@.subrange(a, a + content@.len()) =~= content@);
        assert(crate::text::stands_at(r@, content@, a));
        let before = head + content@ + " \n  ↳ the anchor it was derived from ("@
            + entry.anchor_type.name() + "("@;
        let b = before.len() as int;
        let tail =
            ")) has changed since this summary was written; re-read the source or call code.query_symbol to get the current truth."@;
        assert(r@ =~= before + entry.anchor_id@ + tail);
        assert(r@.subrange(b, b + entry.anchor_id@.len()) =~= entry.anchor_id@);
        assert(crate::text::stands_at(r@, entry.anchor_id@, b));
    }
}

/// Whether an entry of the atlas is out of date: its own anchor is no longer what it was, or a
/// further one is.
pub open spec fn row_is_out_of_date(row: AtlasRow) -> bool {
    ||| is_no_longer(Some(row.recorded_hash@), text_in(row.current_hash))
    ||| exists|i: int|
        0 <= i < row.anchors@.len() && !((#[trigger] row.anchors@[i]).anchor_type.name()
            == row.anchor_type@ && row.anchors@[i].anchor_id@ == row.anchor_id@) && is_no_longer(
            text_in(row.anchors@[i].recorded),
            text_in(row.anchors@[i].current),
        )
}

proof fn staleness_agrees(row: AtlasRow)
    ensures
        row.is_stale() <==> row_is_out_of_date(row),
{
    drift_is_found(row.anchors@, row.anchor_type@, row.anchor_id@, 0);
    if row.other_drifted() is Some {
        let i = row.other_drifted()->0;
        assert(row.anchors@[i].has_drifted());
    }
}

/// A report on the atlas counts every entry and every one that is out of date, and lists those,
/// in their order and as many as are asked for: `at` tells where they stand.
pub proof fn a_report_lists_what_is_out_of_date(
    fabric: &crate::memory::fabric::MemoryFabric,
    rows: Vec<AtlasRow>,
    limit: usize,
    report: StalenessReport,
) -> (at: Seq<int>)
    requires
        call_ensures(
            crate::memory::fabric::MemoryFabric::staleness_report,
            (fabric, rows, limit),
            Ok(report),
        ),
    ensures
        report.total == rows@.len(),
        report.stale == at.len(),
        forall|k: int|
            0 <= k < at.len() ==> 0 <= #[trigger] at[k] < rows@.len() && row_is_out_of_date(
                rows@[at[k]],
            ),
        forall|j: int, k: int|
            #![trigger at[j], at[k]]
            0 <= j < k < at.len() ==> at[j] < at[k],
        forall|i: int|
            0 <= i < rows@.len() && row_is_out_of_date(#[trigger] rows@[i]) ==> at.contains(i),
        at.len() <= limit ==> report.entries@.len() == at.len(),
        at.len() > limit ==> report.entries@.len() == limit,
        forall|k: int|
            0 <= k < report.entries@.len() ==> {
                let e = #[trigger] report.entries@[k];
                let row = rows@[at[k]];
                &&& e.atlas_id == row.atlas_id
                &&& e.reason is AnchorDeleted <==> e.current_hash is None
                &&& is_no_longer(Some(row.recorded_hash@), text_in(row.current_hash))
                    ==> e.anchor_id == row.anchor_id && e.recorded_hash == row.recorded_hash
                    && e.current_hash == row.current_hash
            },
{
    let at = drifted_places(rows@, rows@.len() as int);
    let stale = drifted(rows@, rows@.len() as int);
    let shown = listed(stale, limit as int);
    assert forall|k: int| 0 <= k < at.len() implies 0 <= #[trigger] at[k] < rows@.len()
        && row_is_out_of_date(rows@[at[k]]) by {
        staleness_agrees(rows@[at[k]]);
    }
    assert forall|i: int| 0 <= i < rows@.len() && row_is_out_of_date(#[trigger] rows@[i]) implies
        at.contains(i) by {
        staleness_agrees(rows@[i]);
    }
    assert forall|k: int| 0 <= k < report.entries@.len() implies {
        let e = #[trigger] report.entries@[k];
        let row = rows@[at[k]];
        &&& e.atlas_id == row.atlas_id
        &&& e.reason is AnchorDeleted <==> e.current_hash is None
        &&& is_no_longer(Some(row.recorded_hash@), text_in(row.current_hash)) ==> e.anchor_id
            == row.anchor_id && e.recorded_hash == row.recorded_hash && e.current_hash
            == row.current_hash
    } by {
        assert(reports(report.entries@[k], shown[k]));
        assert(shown[k] == stale[k]);
        assert(at[k] == at[k]);
    }
    at
}

proof fn drifted_places(rows: Seq<AtlasRow>, n: int) -> (at: Seq<int>)
    requires
        0 <= n <= rows.len(),
    ensures
        at.len() == drifted(rows, n).len(),
        forall|k: int|
            0 <= k < at.len() ==> 0 <= #[trigger] at[k] < n && rows[at[k]].is_stale() && drifted(
                rows,
                n,
            )[k] == rows[at[k]],
        forall|j: int, k: int|
            #![trigger at[j], at[k]]
            0 <= j < k < at.len() ==> at[j] < at[k],
        forall|i: int| 0 <= i < n && (#[trigger] rows[i]).is_stale() ==> at.contains(i),
    decreases n,
{
    if n <= 0 {
        Seq::empty()
    } else {
        let before = drifted_places(rows, n - 1);
        if rows[n - 1].is_stale() {
            let at = before.push(n - 1);
            assert forall|i: int| 0 <= i < n && (#[trigger] rows[i]).is_stale() implies at.contains(
                i,
            ) by {
                if i < n - 1 {
                    let k = choose|k: int| 0 <= k < before.len() && before[k] == i;
                    assert(at[k] == i);
                } else {
                    assert(at[at.len() - 1] == i);
                }
            }
            at
        } else {
            before
        }
    }
}

} // verus!
