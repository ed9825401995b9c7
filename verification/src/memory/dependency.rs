//! The dependency graph: what was derived from what, and what would be lost with it.

use crate::error::Error;
use crate::memory::episodic::copy_opt;
use crate::text::same;
use vstd::prelude::*;
use vstd::string::*;

verus! {

/// What kind of thing a node is.
#[derive(Debug, Clone, Copy, PartialEq, Eq, Hash, Structural)]
pub enum NodeKind {
    Episode,
    SymbolicFact,
    SemanticEntry,
    Anchor,
    Fold,
    RepoFile,
    Project,
}

impl NodeKind {
    /// The stored name.
    pub open spec fn name(self) -> Seq<char> {
        match self {
            NodeKind::Episode => "episode"@,
            NodeKind::SymbolicFact => "symbolic_fact"@,
            NodeKind::SemanticEntry => "semantic_entry"@,
            NodeKind::Anchor => "anchor"@,
            NodeKind::Fold => "fold"@,
            NodeKind::RepoFile => "repo_file"@,
            NodeKind::Project => "project"@,
        }
    }

    /// The stored name.
    pub fn as_str(self) -> (r: &'static str)
        ensures
            r@ == self.name(),
    {
        match self {
            NodeKind::Episode => "episode",
            NodeKind::SymbolicFact => "symbolic_fact",
            NodeKind::SemanticEntry => "semantic_entry",
            NodeKind::Anchor => "anchor",
            NodeKind::Fold => "fold",
            NodeKind::RepoFile => "repo_file",
            NodeKind::Project => "project",
        }
    }

    /// Reads a stored name; any other text is invalid.
    pub fn parse(s: &str) -> (r: Result<Self, Error>)
        ensures
            match r {
                Ok(v) => v.name() == s@,
                Err(e) => {
                    &&& forall|v: NodeKind| #[trigger] v.name() != s@
                    &&& e matches Error::Invalid(m) && m@ == "unknown node kind: "@ + s@
                },
            },
    {
        if same(s, "episode") {
            Ok(NodeKind::Episode)
        } else if same(s, "symbolic_fact") {
            Ok(NodeKind::SymbolicFact)
        } else if same(s, "semantic_entry") {
            Ok(NodeKind::SemanticEntry)
        } else if same(s, "anchor") {
            Ok(NodeKind::Anchor)
        } else if same(s, "fold") {
            Ok(NodeKind::Fold)
        } else if same(s, "repo_file") {
            Ok(NodeKind::RepoFile)
        } else if same(s, "project") {
            Ok(NodeKind::Project)
        } else {
            assert forall|v: NodeKind| #[trigger] v.name() != s@ by {
                match v {
                    NodeKind::Episode => {},
                    NodeKind::SymbolicFact => {},
                    NodeKind::SemanticEntry => {},
                    NodeKind::Anchor => {},
                    NodeKind::Fold => {},
                    NodeKind::RepoFile => {},
                    NodeKind::Project => {},
                }
            }
            Err(Error::Invalid(String::from_str("unknown node kind: ").concat(s)))
        }
    }
}

/// No two of them share a stored name, so a stored one reads back as itself.
pub proof fn node_kind_names_are_distinct(a: NodeKind, b: NodeKind)
    requires
        a.name() == b.name(),
    ensures
        a == b,
{
    reveal_strlit("episode");
    reveal_strlit("symbolic_fact");
    reveal_strlit("semantic_entry");
    reveal_strlit("anchor");
    reveal_strlit("fold");
    reveal_strlit("repo_file");
    reveal_strlit("project");
    assert("episode"@.len() == 7);
    assert("symbolic_fact"@.len() == 13);
    assert("semantic_entry"@.len() == 14);
    assert("anchor"@.len() == 6);
    assert("fold"@.len() == 4);
    assert("repo_file"@.len() == 9);
    assert("project"@.len() == 7);
    assert("episode"@[0] == 'e');
    assert("project"@[0] == 'p');
}

/// A node as a plain value: its kind and its id.
pub type Node = (NodeKind, Seq<char>);

/// A reference to a node.
#[derive(Debug, PartialEq, Eq, Hash)]
pub struct NodeRef {
    pub kind: NodeKind,
    pub id: String,
}

impl Clone for NodeRef {
    fn clone(&self) -> (r: Self)
        ensures
            r == *self,
    {
        NodeRef { kind: self.kind, id: self.id.clone() }
    }
}

impl NodeRef {
    /// The node referred to.
    pub open spec fn node(self) -> Node {
        (self.kind, self.id@)
    }

    pub fn new(kind: NodeKind, id: &str) -> (r: Self)
        ensures
            r.node() == (kind, id@),
    {
        NodeRef { kind, id: id.to_owned() }
    }

    pub fn episode(id: &str) -> (r: Self)
        ensures
            r.node() == (NodeKind::Episode, id@),
    {
        Self::new(NodeKind::Episode, id)
    }

    pub fn fact(id: &str) -> (r: Self)
        ensures
            r.node() == (NodeKind::SymbolicFact, id@),
    {
        Self::new(NodeKind::SymbolicFact, id)
    }

    pub fn atlas(id: &str) -> (r: Self)
        ensures
            r.node() == (NodeKind::SemanticEntry, id@),
    {
        Self::new(NodeKind::SemanticEntry, id)
    }

    pub fn file(path: &str) -> (r: Self)
        ensures
            r.node() == (NodeKind::RepoFile, path@),
    {
        Self::new(NodeKind::RepoFile, path)
    }

    /// The node's key: its kind and its id with a colon between.
    pub open spec fn key_text(self) -> Seq<char> {
        self.kind.name().push(':') + self.id@
    }

    /// The node's key.
    pub fn key(&self) -> (r: String)
        ensures
            r@ == self.key_text(),
    {
        let mut out = String::from_str(self.kind.as_str());
        out.push(':');
        out.append(self.id.as_str());
        out
    }

    /// Whether both refer to the same node.
    pub fn is(&self, other: &NodeRef) -> (r: bool)
        ensures
            r == (self.node() == other.node()),
    {
        self.kind == other.kind && same(self.id.as_str(), other.id.as_str())
    }
}

/// No kind's name holds a colon.
proof fn kind_names_hold_no_colon(kind: NodeKind)
    ensures
        !kind.name().contains(':'),
{
    reveal_strlit("episode");
    reveal_strlit("symbolic_fact");
    reveal_strlit("semantic_entry");
    reveal_strlit("anchor");
    reveal_strlit("fold");
    reveal_strlit("repo_file");
    reveal_strlit("project");
}

/// Two references have the same key exactly when they refer to the same node.
pub proof fn keys_identify_nodes(a: NodeRef, b: NodeRef)
    ensures
        a.key_text() == b.key_text() <==> a.node() == b.node(),
{
    if a.key_text() == b.key_text() {
        let x = a.kind.name();
        let y = b.kind.name();
        let k = a.key_text();
        kind_names_hold_no_colon(a.kind);
        kind_names_hold_no_colon(b.kind);
        assert(k[x.len() as int] == ':');
        assert(b.key_text()[y.len() as int] == ':');
        if x.len() < y.len() {
            assert(b.key_text()[x.len() as int] == y[x.len() as int]);
            assert(y.contains(':'));
        } else if y.len() < x.len() {
            assert(k[y.len() as int] == x[y.len() as int]);
            assert(x.contains(':'));
        }
        assert(x =~= k.take(x.len() as int));
        assert(y =~= b.key_text().take(y.len() as int));
        node_kind_names_are_distinct(a.kind, b.kind);
        assert(a.id@ =~= k.skip(x.len() as int + 1));
        assert(b.id@ =~= b.key_text().skip(y.len() as int + 1));
    }
}

/// How one node relates to another.
#[derive(Debug, Clone, Copy, PartialEq, Eq, Hash, Structural)]
pub enum EdgeKind {
    /// A call between symbols.
    Calls,
    /// An import between modules.
    Imports,
    /// The source was derived from the destination.
    DerivedFrom,
    /// A dependency of no particular kind.
    DependsOn,
    /// The source replaces the destination.
    Supersedes,
    /// The source corrects the destination.
    Corrects,
    /// The source belongs to a fold.
    FoldedFrom,
}

impl EdgeKind {
    /// The stored name.
    pub open spec fn name(self) -> Seq<char> {
        match self {
            EdgeKind::Calls => "calls"@,
            EdgeKind::Imports => "imports"@,
            EdgeKind::DerivedFrom => "derived_from"@,
            EdgeKind::DependsOn => "depends_on"@,
            EdgeKind::Supersedes => "supersedes"@,
            EdgeKind::Corrects => "corrects"@,
            EdgeKind::FoldedFrom => "folded_from"@,
        }
    }

    /// The stored name.
    pub fn as_str(self) -> (r: &'static str)
        ensures
            r@ == self.name(),
    {
        match self {
            EdgeKind::Calls => "calls",
            EdgeKind::Imports => "imports",
            EdgeKind::DerivedFrom => "derived_from",
            EdgeKind::DependsOn => "depends_on",
            EdgeKind::Supersedes => "supersedes",
            EdgeKind::Corrects => "corrects",
            EdgeKind::FoldedFrom => "folded_from",
        }
    }

    /// Reads a stored name; any other text is invalid.
    pub fn parse(s: &str) -> (r: Result<Self, Error>)
        ensures
            match r {
                Ok(v) => v.name() == s@,
                Err(e) => {
                    &&& forall|v: EdgeKind| #[trigger] v.name() != s@
                    &&& e matches Error::Invalid(m) && m@ == "unknown edge kind: "@ + s@
                },
            },
    {
        if same(s, "calls") {
            Ok(EdgeKind::Calls)
        } else if same(s, "imports") {
            Ok(EdgeKind::Imports)
        } else if same(s, "derived_from") {
            Ok(EdgeKind::DerivedFrom)
        } else if same(s, "depends_on") {
            Ok(EdgeKind::DependsOn)
        } else if same(s, "supersedes") {
            Ok(EdgeKind::Supersedes)
        } else if same(s, "corrects") {
            Ok(EdgeKind::Corrects)
        } else if same(s, "folded_from") {
            Ok(EdgeKind::FoldedFrom)
        } else {
            assert forall|v: EdgeKind| #[trigger] v.name() != s@ by {
                match v {
                    EdgeKind::Calls => {},
                    EdgeKind::Imports => {},
                    EdgeKind::DerivedFrom => {},
                    EdgeKind::DependsOn => {},
                    EdgeKind::Supersedes => {},
                    EdgeKind::Corrects => {},
                    EdgeKind::FoldedFrom => {},
                }
            }
            Err(Error::Invalid(String::from_str("unknown edge kind: ").concat(s)))
        }
    }

    /// Whether an edge of this kind makes one end depend on the other. No kind is exempt:
    /// which relations carry information is left to whoever writes the edge.
    pub fn creates_dependency(self) -> (r: bool)
        ensures
            r,
    {
        true
    }
}

/// No two of them share a stored name, so a stored one reads back as itself.
pub proof fn edge_kind_names_are_distinct(a: EdgeKind, b: EdgeKind)
    requires
        a.name() == b.name(),
    ensures
        a == b,
{
    reveal_strlit("calls");
    reveal_strlit("imports");
    reveal_strlit("derived_from");
    reveal_strlit("depends_on");
    reveal_strlit("supersedes");
    reveal_strlit("corrects");
    reveal_strlit("folded_from");
    assert("calls"@.len() == 5);
    assert("imports"@.len() == 7);
    assert("derived_from"@.len() == 12);
    assert("depends_on"@.len() == 10);
    assert("supersedes"@.len() == 10);
    assert("corrects"@.len() == 8);
    assert("folded_from"@.len() == 11);
    assert("depends_on"@[0] == 'd');
    assert("supersedes"@[0] == 's');
}

/// A stored edge.
#[derive(Debug, Clone)]
pub struct EdgeRow {
    pub src_type: String,
    pub src_id: String,
    pub dst_type: String,
    pub dst_id: String,
    pub edge_kind: EdgeKind,
    /// The destination's hash as the source saw it, where it was known.
    pub target_hash: Option<String>,
}

impl EdgeRow {
    pub fn new(src: &NodeRef, dst: &NodeRef, kind: EdgeKind) -> (r: Self)
        ensures
            r.src_type@ == src.kind.name(),
            r.src_id@ == src.id@,
            r.dst_type@ == dst.kind.name(),
            r.dst_id@ == dst.id@,
            r.edge_kind == kind,
            r.target_hash is None,
    {
        EdgeRow {
            src_type: src.kind.as_str().to_owned(),
            src_id: src.id.clone(),
            dst_type: dst.kind.as_str().to_owned(),
            dst_id: dst.id.clone(),
            edge_kind: kind,
            target_hash: None,
        }
    }

    /// Records the destination's hash as the source saw it.
    pub fn with_target_hash(self, hash: &str) -> (r: Self)
        ensures
            r.target_hash matches Some(h) && h@ == hash@,
            r == (EdgeRow { target_hash: r.target_hash, ..self }),
    {
        EdgeRow { target_hash: Some(hash.to_owned()), ..self }
    }

    /// The same for a hash that may not be known.
    pub fn with_target_hash_opt(self, hash: Option<String>) -> (r: Self)
        ensures
            r == (EdgeRow { target_hash: hash, ..self }),
    {
        EdgeRow { target_hash: hash, ..self }
    }
}

/// An edge as seen from one of its ends: the neighbour's key, the kind, the neighbour, and
/// the neighbour's hash where the edge recorded it.
pub type GraphEdge = (String, EdgeKind, NodeRef, Option<String>);

/// An edge of the graph.
#[derive(Debug)]
pub struct Link {
    pub src: NodeRef,
    pub dst: NodeRef,
    pub kind: EdgeKind,
    pub target_hash: Option<String>,
}

/// A view of the graph held in memory: its edges, in the order in which they were added.
#[derive(Debug)]
pub struct DependencyGraph {
    edges: Vec<Link>,
}

/// A node that a walk reached, and how many steps away it is.
#[derive(Debug, Clone)]
pub struct ReachedNode {
    pub kind: NodeKind,
    pub id: String,
    pub depth: usize,
    /// The kind of the edge it was reached by.
    pub via: EdgeKind,
}

/// A step of a walk as a plain value.
pub struct Found {
    pub node: Node,
    pub depth: nat,
    pub via: EdgeKind,
}

/// Which way a walk follows the edges.
#[derive(Debug, Clone, Copy, PartialEq, Eq, Structural)]
pub enum Direction {
    /// From source to destination.
    Out,
    /// From destination to source.
    In,
}

/// The node an edge is followed from.
pub open spec fn tail(e: Link, dir: Direction) -> Node {
    match dir {
        Direction::Out => e.src.node(),
        Direction::In => e.dst.node(),
    }
}

/// The node an edge is followed to.
pub open spec fn head(e: Link, dir: Direction) -> Node {
    match dir {
        Direction::Out => e.dst.node(),
        Direction::In => e.src.node(),
    }
}

/// Whether edges of a kind are followed.
pub open spec fn followed(kinds: Option<Seq<EdgeKind>>, kind: EdgeKind) -> bool {
    match kinds {
        Some(list) => list.contains(kind),
        None => true,
    }
}

/// Whether the node is among those found.
pub open spec fn is_found(found: Seq<Found>, node: Node) -> bool {
    exists|i: int| 0 <= i < found.len() && (#[trigger] found[i]).node == node
}

/// A walk through a graph.
pub struct Walk {
    pub edges: Seq<Link>,
    pub start: Node,
    pub max_depth: nat,
    pub kinds: Option<Seq<EdgeKind>>,
    pub dir: Direction,
}

impl Walk {
    /// Whether an edge leads on from `from`.
    pub open spec fn leads(self, e: Link, from: Node) -> bool {
        tail(e, self.dir) == from && followed(self.kinds, e.kind)
    }

    /// The nodes found once the first `n` edges out of `from` have been looked at: those that
    /// lead to a node not found before are added, in order.
    pub open spec fn scan(self, from: Node, depth: nat, found: Seq<Found>, n: int) -> Seq<Found>
        decreases n,
    {
        if n <= 0 {
            found
        } else {
            let so_far = self.scan(from, depth, found, n - 1);
            let e = self.edges[n - 1];
            let to = head(e, self.dir);
            if self.leads(e, from) && to != self.start && !is_found(so_far, to) {
                so_far.push(Found { node: to, depth, via: e.kind })
            } else {
                so_far
            }
        }
    }

    /// The nodes found once the start and the first `i` nodes of `list` have been expanded.
    /// Nodes at the greatest depth are not expanded.
    pub open spec fn after(self, list: Seq<Found>, i: int) -> Seq<Found>
        decreases i,
    {
        let n = self.edges.len() as int;
        if i <= 0 {
            self.scan(self.start, 1, Seq::empty(), n)
        } else {
            let so_far = self.after(list, i - 1);
            if list[i - 1].depth < self.max_depth {
                self.scan(list[i - 1].node, list[i - 1].depth + 1, so_far, n)
            } else {
                so_far
            }
        }
    }

    /// Whether `list` is what a breadth-first walk finds: every node in it was found before
    /// its turn to be expanded came, and expanding all of them finds nothing else.
    pub open spec fn is_breadth_first(self, list: Seq<Found>) -> bool {
        &&& list == self.after(list, list.len() as int)
        &&& forall|i: int|
            0 <= i < list.len() ==> i < #[trigger] self.after(list, i).len() <= list.len()
                && self.after(list, i) == list.take(self.after(list, i).len() as int)
    }

    /// Whether some path of exactly `d` edges leads from the start to `node`.
    pub open spec fn reaches(self, node: Node, d: nat) -> bool
        decreases d,
    {
        if d == 0 {
            node == self.start
        } else {
            exists|k: int|
                0 <= k < self.edges.len() && head(#[trigger] self.edges[k], self.dir) == node
                    && followed(self.kinds, self.edges[k].kind) && self.reaches(
                    tail(self.edges[k], self.dir),
                    (d - 1) as nat,
                )
        }
    }
}

/// The reached nodes as plain values.
pub open spec fn found_view(v: Seq<ReachedNode>) -> Seq<Found> {
    Seq::new(
        v.len(),
        |i: int| Found { node: (v[i].kind, v[i].id@), depth: v[i].depth as nat, via: v[i].via },
    )
}

fn kind_followed(kinds: Option<&[EdgeKind]>, kind: EdgeKind) -> (r: bool)
    ensures
        r == followed(
            match kinds {
                Some(list) => Some(list@),
                None => None,
            },
            kind,
        ),
{
    match kinds {
        Some(list) => {
            for i in 0..list.len()
                invariant
                    kinds == Some(list),
                    forall|j: int| 0 <= j < i ==> list@[j] != kind,
            {
                if list[i] == kind {
                    assert(list@[i as int] == kind);
                    return true;
                }
            }
            false
        },
        None => true,
    }
}

fn already_found(found: &Vec<ReachedNode>, node: &NodeRef) -> (r: bool)
    ensures
        r == is_found(found_view(found@), node.node()),
{
    for i in 0..found.len()
        invariant
            forall|j: int| 0 <= j < i ==> (#[trigger] found_view(found@)[j]).node != node.node(),
    {
        if found[i].kind == node.kind && same(found[i].id.as_str(), node.id.as_str()) {
            assert(found_view(found@)[i as int].node == node.node());
            return true;
        }
    }
    false
}

/// Scanning only adds nodes at the end: none that was found before or is the start, all at
/// the given depth, each led to from `from`; and afterwards everything led to is found.
proof fn scan_extends(w: Walk, from: Node, depth: nat, found: Seq<Found>, n: int)
    requires
        0 <= n <= w.edges.len(),
    ensures
        ({
            let r = w.scan(from, depth, found, n);
            &&& r.len() >= found.len()
            &&& r.take(found.len() as int) == found
            &&& forall|i: int|
                found.len() <= i < r.len() ==> {
                    &&& (#[trigger] r[i]).depth == depth
                    &&& r[i].node != w.start
                    &&& !is_found(found, r[i].node)
                    &&& exists|k: int|
                        0 <= k < n && w.leads(#[trigger] w.edges[k], from) && head(w.edges[k], w.dir)
                            == r[i].node && w.edges[k].kind == r[i].via
                }
            &&& forall|i: int, j: int|
                found.len() <= i < j < r.len() ==> (#[trigger] r[i]).node != (#[trigger] r[j]).node
            &&& forall|k: int|
                0 <= k < n && w.leads(#[trigger] w.edges[k], from) ==> head(w.edges[k], w.dir)
                    == w.start || is_found(r, head(w.edges[k], w.dir))
        }),
    decreases n,
{
    let r = w.scan(from, depth, found, n);
    if n > 0 {
        scan_extends(w, from, depth, found, n - 1);
        let p = w.scan(from, depth, found, n - 1);
        let e = w.edges[n - 1];
        let to = head(e, w.dir);
        assert(p.take(found.len() as int) == found);
        assert forall|x: Node| is_found(p, x) implies #[trigger] is_found(r, x) by {
            let i = choose|i: int| 0 <= i < p.len() && (#[trigger] p[i]).node == x;
            assert(r[i] == p[i]);
        }
        if w.leads(e, from) && to != w.start && !is_found(p, to) {
            assert(r == p.push(Found { node: to, depth, via: e.kind }));
            assert(r.take(found.len() as int) =~= found);
            assert(!is_found(found, to)) by {
                if is_found(found, to) {
                    let i = choose|i: int| 0 <= i < found.len() && (#[trigger] found[i]).node == to;
                    assert(p.take(found.len() as int)[i] == found[i]);
                    assert(p[i].node == to);
                }
            }
            assert(r[r.len() - 1].node == to);
            assert(w.leads(w.edges[n - 1], from));
            assert forall|i: int| found.len() <= i < r.len() implies {
                &&& (#[trigger] r[i]).depth == depth
                &&& r[i].node != w.start
                &&& !is_found(found, r[i].node)
                &&& exists|k: int|
                    0 <= k < n && w.leads(#[trigger] w.edges[k], from) && head(w.edges[k], w.dir)
                        == r[i].node && w.edges[k].kind == r[i].via
            } by {
                if i < p.len() {
                    assert(r[i] == p[i]);
                    let k = choose|k: int|
                        0 <= k < n - 1 && w.leads(#[trigger] w.edges[k], from) && head(
                            w.edges[k],
                            w.dir,
                        ) == p[i].node && w.edges[k].kind == p[i].via;
                    assert(w.leads(w.edges[k], from));
                }
            }
            assert forall|i: int, j: int|
                found.len() <= i < j < r.len() implies (#[trigger] r[i]).node != (
            #[trigger] r[j]).node by {
                assert(r[i] == p[i]);
                if j < p.len() {
                    assert(r[j] == p[j]);
                }
            }
        } else {
            assert(r == p);
            assert forall|i: int| found.len() <= i < r.len() implies {
                exists|k: int|
                    0 <= k < n && w.leads(#[trigger] w.edges[k], from) && head(w.edges[k], w.dir)
                        == (#[trigger] r[i]).node && w.edges[k].kind == r[i].via
            } by {
                let k = choose|k: int|
                    0 <= k < n - 1 && w.leads(#[trigger] w.edges[k], from) && head(
                        w.edges[k],
                        w.dir,
                    ) == p[i].node && w.edges[k].kind == p[i].via;
                assert(w.leads(w.edges[k], from));
            }
        }
    } else {
        assert(r.take(found.len() as int) =~= found);
    }
}

/// What has been found depends only on the nodes expanded so far.
proof fn after_looks_at_the_expanded_only(w: Walk, a: Seq<Found>, b: Seq<Found>, i: int)
    requires
        0 <= i <= a.len(),
        i <= b.len(),
        forall|k: int| 0 <= k < i ==> a[k] == b[k],
    ensures
        w.after(a, i) == w.after(b, i),
    decreases i,
{
    if i > 0 {
        after_looks_at_the_expanded_only(w, a, b, i - 1);
    }
}

/// Whether the nodes are distinct, none is the start, and each is led to by an edge.
spec fn sound(w: Walk, found: Seq<Found>) -> bool {
    &&& forall|i: int, j: int|
        0 <= i < j < found.len() ==> (#[trigger] found[i]).node != (#[trigger] found[j]).node
    &&& forall|i: int|
        0 <= i < found.len() ==> {
            &&& (#[trigger] found[i]).node != w.start
            &&& exists|k: int|
                0 <= k < w.edges.len() && head(#[trigger] w.edges[k], w.dir) == found[i].node
        }
}

/// Scanning keeps the found nodes sound.
proof fn scan_stays_sound(w: Walk, from: Node, depth: nat, found: Seq<Found>)
    requires
        sound(w, found),
    ensures
        sound(w, w.scan(from, depth, found, w.edges.len() as int)),
{
    let n = w.edges.len() as int;
    scan_extends(w, from, depth, found, n);
    let r = w.scan(from, depth, found, n);
    assert forall|i: int| 0 <= i < found.len() implies #[trigger] r[i] == found[i] by {
        assert(r.take(found.len() as int)[i] == found[i]);
    }
    assert forall|i: int, j: int| 0 <= i < j < r.len() implies (#[trigger] r[i]).node != (
    #[trigger] r[j]).node by {
        if i < found.len() && j >= found.len() {
            assert(found[i].node == r[i].node);
            assert(!is_found(found, r[j].node));
        } else if j < found.len() {
            assert(found[i].node != found[j].node);
        }
    }
    assert forall|i: int| 0 <= i < r.len() implies {
        &&& (#[trigger] r[i]).node != w.start
        &&& exists|k: int|
            0 <= k < w.edges.len() && head(#[trigger] w.edges[k], w.dir) == r[i].node
    } by {
        if i < found.len() {
            assert(r[i] == found[i]);
        } else {
            let k = choose|k: int|
                0 <= k < n && w.leads(#[trigger] w.edges[k], from) && head(w.edges[k], w.dir)
                    == r[i].node && w.edges[k].kind == r[i].via;
            assert(head(w.edges[k], w.dir) == r[i].node);
        }
    }
}

/// No more nodes can be found than there are edges.
proof fn no_more_nodes_than_edges(w: Walk, found: Seq<Found>)
    requires
        sound(w, found),
    ensures
        found.len() <= w.edges.len(),
{
    let nodes = Seq::new(found.len(), |i: int| found[i].node);
    let heads = Seq::new(w.edges.len(), |k: int| head(w.edges[k], w.dir));
    assert(nodes.no_duplicates()) by {
        assert forall|i: int, j: int|
            0 <= i < nodes.len() && 0 <= j < nodes.len() && i != j implies nodes[i] != nodes[j] by {
            if i < j {
                assert(found[i].node != found[j].node);
            } else {
                assert(found[j].node != found[i].node);
            }
        }
    }
    nodes.unique_seq_to_set();
    heads.lemma_cardinality_of_set();
    assert(nodes.to_set().subset_of(heads.to_set())) by {
        assert forall|x: Node| nodes.to_set().contains(x) implies heads.to_set().contains(x) by {
            let i = choose|i: int| 0 <= i < nodes.len() && nodes[i] == x;
            let k = choose|k: int|
                0 <= k < w.edges.len() && head(#[trigger] w.edges[k], w.dir) == found[i].node;
            assert(heads[k] == x);
        }
    }
    vstd::set_lib::lemma_len_subset(nodes.to_set(), heads.to_set());
}

/// Whether what was found after expanding the first `i` nodes is in order: every node within
/// the depth allowed and reached in as many steps as it says, depths never falling, and none
/// more than one below the node expanded last.
spec fn in_order(w: Walk, list: Seq<Found>, i: int) -> bool {
    let found = w.after(list, i);
    &&& sound(w, found)
    &&& forall|k: int|
        0 <= k < found.len() ==> {
            &&& 1 <= (#[trigger] found[k]).depth
            &&& found[k].depth <= 1 || found[k].depth <= w.max_depth
            &&& w.reaches(found[k].node, found[k].depth)
            &&& found[k].depth <= (if i <= 0 {
                1
            } else {
                list[i - 1].depth + 1
            })
            &&& followed(w.kinds, found[k].via)
        }
    &&& forall|j: int, k: int|
        0 <= j < k < found.len() ==> (#[trigger] found[j]).depth <= (#[trigger] found[k]).depth
}

proof fn walk_stays_in_order(w: Walk, list: Seq<Found>, i: int)
    requires
        w.is_breadth_first(list),
        0 <= i <= list.len(),
    ensures
        in_order(w, list, i),
    decreases i,
{
    let n = w.edges.len() as int;
    let found = w.after(list, i);
    if i == 0 {
        scan_extends(w, w.start, 1, Seq::empty(), n);
        assert(sound(w, Seq::<Found>::empty()));
        scan_stays_sound(w, w.start, 1, Seq::empty());
        assert forall|k: int| 0 <= k < found.len() implies w.reaches((#[trigger] found[k]).node, 1)
            && followed(w.kinds, found[k].via) by {
            let e = choose|e: int|
                0 <= e < n && w.leads(#[trigger] w.edges[e], w.start) && head(w.edges[e], w.dir)
                    == found[k].node && w.edges[e].kind == found[k].via;
            assert(w.reaches(tail(w.edges[e], w.dir), 0));
        }
    } else {
        walk_stays_in_order(w, list, i - 1);
        let before = w.after(list, i - 1);
        let at = list[i - 1];
        assert(i - 1 < before.len() && before == list.take(before.len() as int));
        assert(before[i - 1] == at);
        if i - 1 > 0 {
            assert(before[i - 2] == list[i - 2]);
            assert(before[i - 2].depth <= before[i - 1].depth);
        }
        if at.depth < w.max_depth {
            scan_extends(w, at.node, at.depth + 1, before, n);
            scan_stays_sound(w, at.node, at.depth + 1, before);
            assert forall|k: int| 0 <= k < before.len() implies #[trigger] found[k] == before[k] by {
                assert(found.take(before.len() as int)[k] == before[k]);
            }
            assert forall|k: int| before.len() <= k < found.len() implies {
                &&& w.reaches((#[trigger] found[k]).node, found[k].depth)
                &&& followed(w.kinds, found[k].via)
            } by {
                let e = choose|e: int|
                    0 <= e < n && w.leads(#[trigger] w.edges[e], at.node) && head(
                        w.edges[e],
                        w.dir,
                    ) == found[k].node && w.edges[e].kind == found[k].via;
                assert(w.reaches(tail(w.edges[e], w.dir), (found[k].depth - 1) as nat));
            }
            assert forall|k: int| 0 <= k < found.len() implies (#[trigger] found[k]).depth
                <= at.depth + 1 by {
                if k < before.len() {
                    assert(found[k] == before[k]);
                }
            }
        }
    }
}

/// A walk reports each node once and never its start, within the depth allowed, in order of
/// depth, and by edges of the kinds that it follows.
pub proof fn a_walk_reports_each_node_once(w: Walk, list: Seq<Found>)
    requires
        w.is_breadth_first(list),
    ensures
        forall|i: int, j: int|
            0 <= i < j < list.len() ==> {
                &&& (#[trigger] list[i]).node != (#[trigger] list[j]).node
                &&& list[i].depth <= list[j].depth
            },
        forall|i: int|
            0 <= i < list.len() ==> {
                &&& (#[trigger] list[i]).node != w.start
                &&& 1 <= list[i].depth
                &&& list[i].depth <= 1 || list[i].depth <= w.max_depth
                &&& followed(w.kinds, list[i].via)
            },
        list.len() <= w.edges.len(),
{
    walk_stays_in_order(w, list, list.len() as int);
    no_more_nodes_than_edges(w, list);
}

/// What was found once is found for good.
proof fn found_stays_found(w: Walk, list: Seq<Found>, i: int, node: Node)
    requires
        w.is_breadth_first(list),
        0 <= i <= list.len(),
        is_found(w.after(list, i), node),
    ensures
        exists|j: int| 0 <= j < list.len() && (#[trigger] list[j]).node == node && (i > 0
            ==> list[j].depth <= list[i - 1].depth + 1) && (i == 0 ==> list[j].depth <= 1),
{
    walk_stays_in_order(w, list, i);
    let found = w.after(list, i);
    let k = choose|k: int| 0 <= k < found.len() && (#[trigger] found[k]).node == node;
    if i < list.len() {
        assert(found == list.take(found.len() as int));
        assert(list[k] == found[k]);
    } else {
        assert(list == found);
    }
    assert(list[k].node == node);
}

/// Every node within the depth allowed is reported, no later than at the length of any path
/// that leads to it.
pub proof fn a_walk_finds_everything_in_range(w: Walk, list: Seq<Found>, node: Node, d: nat)
    requires
        w.is_breadth_first(list),
        w.reaches(node, d),
        node != w.start,
        d <= 1 || d <= w.max_depth,
    ensures
        exists|j: int| 0 <= j < list.len() && (#[trigger] list[j]).node == node && list[j].depth <= d,
    decreases d,
{
    let n = w.edges.len() as int;
    let e = choose|k: int|
        0 <= k < w.edges.len() && head(#[trigger] w.edges[k], w.dir) == node && followed(
            w.kinds,
            w.edges[k].kind,
        ) && w.reaches(tail(w.edges[k], w.dir), (d - 1) as nat);
    let from = tail(w.edges[e], w.dir);
    assert(w.leads(w.edges[e], from));
    if from == w.start {
        scan_extends(w, w.start, 1, Seq::empty(), n);
        found_stays_found(w, list, 0, node);
    } else {
        a_walk_finds_everything_in_range(w, list, from, (d - 1) as nat);
        let j = choose|j: int|
            0 <= j < list.len() && (#[trigger] list[j]).node == from && list[j].depth <= d - 1;
        scan_extends(w, from, list[j].depth + 1, w.after(list, j), n);
        found_stays_found(w, list, j + 1, node);
    }
}

/// Each node is reported at the length of the shortest path that leads to it.
pub proof fn a_walk_reports_the_shortest_depth(w: Walk, list: Seq<Found>, i: int, d: nat)
    requires
        w.is_breadth_first(list),
        0 <= i < list.len(),
    ensures
        w.reaches(list[i].node, list[i].depth),
        d < list[i].depth ==> !w.reaches(list[i].node, d),
{
    walk_stays_in_order(w, list, list.len() as int);
    a_walk_reports_each_node_once(w, list);
    if d < list[i].depth && w.reaches(list[i].node, d) {
        a_walk_finds_everything_in_range(w, list, list[i].node, d);
        let j = choose|j: int|
            0 <= j < list.len() && (#[trigger] list[j]).node == list[i].node && list[j].depth <= d;
        if j < i {
            assert(list[j].node != list[i].node);
        } else if i < j {
            assert(list[i].node != list[j].node);
        }
    }
}

/// A walk has one outcome only.
pub proof fn a_walk_has_one_outcome(w: Walk, a: Seq<Found>, b: Seq<Found>)
    requires
        w.is_breadth_first(a),
        w.is_breadth_first(b),
    ensures
        a == b,
{
    if a.len() <= b.len() {
        outcomes_agree(w, a, b, a.len() as int);
    } else {
        outcomes_agree(w, b, a, b.len() as int);
    }
}

proof fn outcomes_agree(w: Walk, a: Seq<Found>, b: Seq<Found>, n: int)
    requires
        w.is_breadth_first(a),
        w.is_breadth_first(b),
        0 <= n <= a.len() <= b.len(),
    ensures
        forall|k: int| 0 <= k < n ==> a[k] == b[k],
        n == a.len() ==> a == b,
    decreases n,
{
    if n > 0 {
        outcomes_agree(w, a, b, n - 1);
        after_looks_at_the_expanded_only(w, a, b, n - 1);
        let x = w.after(a, n - 1);
        assert(x == a.take(x.len() as int));
        assert(x == b.take(x.len() as int));
        assert(a[n - 1] == x[n - 1]);
        assert(b[n - 1] == x[n - 1]);
    }
    if n == a.len() {
        after_looks_at_the_expanded_only(w, a, b, n);
        let x = w.after(a, n);
        if n < b.len() {
            assert(n < w.after(b, n).len());
        }
    }
}

impl Direction {
    /// The other direction.
    pub open spec fn turned(self) -> Direction {
        match self {
            Direction::Out => Direction::In,
            Direction::In => Direction::Out,
        }
    }
}

impl Walk {
    /// The walk from `node` against the edges.
    pub open spec fn back_from(self, node: Node) -> Walk {
        Walk { start: node, dir: self.dir.turned(), ..self }
    }
}

/// A path that begins with an edge is one longer than the rest of it.
proof fn one_edge_more(w: Walk, k: int, node: Node, d: nat)
    requires
        0 <= k < w.edges.len(),
        w.leads(w.edges[k], w.start),
        (Walk { start: head(w.edges[k], w.dir), ..w }).reaches(node, d),
    ensures
        w.reaches(node, d + 1),
    decreases d,
{
    let rest = Walk { start: head(w.edges[k], w.dir), ..w };
    if d == 0 {
        assert(w.reaches(tail(w.edges[k], w.dir), 0));
    } else {
        let e = choose|e: int|
            0 <= e < rest.edges.len() && head(#[trigger] rest.edges[e], rest.dir) == node
                && followed(rest.kinds, rest.edges[e].kind) && rest.reaches(
                tail(rest.edges[e], rest.dir),
                (d - 1) as nat,
            );
        one_edge_more(w, k, tail(w.edges[e], w.dir), (d - 1) as nat);
        assert(head(w.edges[e], w.dir) == node);
    }
}

/// A path leads back as far as it leads on.
proof fn paths_turn_round(w: Walk, node: Node, d: nat)
    requires
        w.reaches(node, d),
    ensures
        w.back_from(node).reaches(w.start, d),
    decreases d,
{
    let back = w.back_from(node);
    if d > 0 {
        let e = choose|e: int|
            0 <= e < w.edges.len() && head(#[trigger] w.edges[e], w.dir) == node && followed(
                w.kinds,
                w.edges[e].kind,
            ) && w.reaches(tail(w.edges[e], w.dir), (d - 1) as nat);
        let before = tail(w.edges[e], w.dir);
        paths_turn_round(w, before, (d - 1) as nat);
        assert(head(back.edges[e], back.dir) == before && tail(back.edges[e], back.dir) == node);
        assert(w.back_from(before) == (Walk { start: before, ..back }));
        one_edge_more(back, e, w.start, (d - 1) as nat);
    }
}

/// What is found from one end is found from the other, no deeper.
proof fn found_from_the_other_end(
    w: Walk,
    on: Seq<Found>,
    i: int,
    back: Seq<Found>,
) -> (j: int)
    requires
        w.is_breadth_first(on),
        0 <= i < on.len(),
        w.back_from(on[i].node).is_breadth_first(back),
        on[i].node != w.start,
    ensures
        0 <= j < back.len(),
        back[j].node == w.start,
        back[j].depth <= on[i].depth,
{
    let turned = w.back_from(on[i].node);
    walk_stays_in_order(w, on, on.len() as int);
    paths_turn_round(w, on[i].node, on[i].depth);
    a_walk_finds_everything_in_range(turned, back, w.start, on[i].depth);
    choose|j: int|
        0 <= j < back.len() && (#[trigger] back[j]).node == w.start && back[j].depth
            <= on[i].depth
}

/// A walk reports a node in one place only.
proof fn found_once(w: Walk, list: Seq<Found>, i: int, j: int)
    requires
        w.is_breadth_first(list),
        0 <= i < list.len(),
        0 <= j < list.len(),
        list[i].node == list[j].node,
    ensures
        i == j,
{
    walk_stays_in_order(w, list, list.len() as int);
    if i < j {
        assert(list[i].node != list[j].node);
    } else if j < i {
        assert(list[j].node != list[i].node);
    }
}

/// The two walks mirror each other: a node is found from another exactly where the other is
/// found from it against the edges.
pub proof fn walks_mirror_each_other(w: Walk, on: Seq<Found>, node: Node, back: Seq<Found>)
    requires
        w.is_breadth_first(on),
        w.back_from(node).is_breadth_first(back),
        node != w.start,
    ensures
        is_found(on, node) <==> is_found(back, w.start),
{
    assert(w.back_from(node).back_from(w.start) == w);
    if is_found(on, node) {
        let i = choose|i: int| 0 <= i < on.len() && (#[trigger] on[i]).node == node;
        let j = found_from_the_other_end(w, on, i, back);
        assert(back[j].node == w.start);
    }
    if is_found(back, w.start) {
        let j = choose|j: int| 0 <= j < back.len() && (#[trigger] back[j]).node == w.start;
        let i = found_from_the_other_end(w.back_from(node), back, j, on);
        assert(on[i].node == node);
    }
}

/// Two nodes that are found from each other are found at the same depth.
pub proof fn mirrored_walks_agree_on_depth(
    w: Walk,
    on: Seq<Found>,
    i: int,
    back: Seq<Found>,
    j: int,
)
    requires
        w.is_breadth_first(on),
        0 <= i < on.len(),
        w.back_from(on[i].node).is_breadth_first(back),
        0 <= j < back.len(),
        back[j].node == w.start,
        on[i].node != w.start,
    ensures
        on[i].depth == back[j].depth,
{
    let turned = w.back_from(on[i].node);
    assert(turned.back_from(w.start) == w);
    let k = found_from_the_other_end(w, on, i, back);
    found_once(turned, back, j, k);
    let m = found_from_the_other_end(turned, back, j, on);
    found_once(w, on, i, m);
}

impl Default for DependencyGraph {
    fn default() -> (r: Self)
        ensures
            r.links().len() == 0,
    {
        DependencyGraph { edges: Vec::new() }
    }
}

/// The kind a stored name stands for; an unknown name stands for an episode.
pub open spec fn kind_or_episode(name: Seq<char>, kind: NodeKind) -> bool {
    kind.name() == name || (kind is Episode && forall|k: NodeKind| #[trigger] k.name() != name)
}

fn node_kind_or_episode(name: &str) -> (r: NodeKind)
    ensures
        kind_or_episode(name@, r),
{
    match NodeKind::parse(name) {
        Ok(k) => k,
        Err(_) => NodeKind::Episode,
    }
}

impl DependencyGraph {
    /// The edges, in the order in which they were added.
    pub closed spec fn links(self) -> Seq<Link> {
        self.edges@
    }

    /// A walk through this graph.
    pub open spec fn walk_of(
        self,
        start: NodeRef,
        max_depth: usize,
        kinds: Option<&[EdgeKind]>,
        dir: Direction,
    ) -> Walk {
        Walk {
            edges: self.links(),
            start: start.node(),
            max_depth: max_depth as nat,
            kinds: match kinds {
                Some(list) => Some(list@),
                None => None,
            },
            dir,
        }
    }

    /// A graph without edges.
    pub fn new() -> (r: Self)
        ensures
            r.links().len() == 0,
    {
        Self::default()
    }

    /// Builds the graph from stored edges. An unknown kind of node counts as an episode.
    pub fn from_edges(edges: Vec<EdgeRow>) -> (r: Self)
        ensures
            r.links().len() == edges@.len(),
            forall|i: int|
                0 <= i < edges@.len() ==> {
                    let link = #[trigger] r.links()[i];
                    &&& kind_or_episode(edges@[i].src_type@, link.src.kind)
                    &&& link.src.id@ == edges@[i].src_id@
                    &&& kind_or_episode(edges@[i].dst_type@, link.dst.kind)
                    &&& link.dst.id@ == edges@[i].dst_id@
                    &&& link.kind == edges@[i].edge_kind
                    &&& link.target_hash == edges@[i].target_hash
                },
    {
        let mut links: Vec<Link> = Vec::new();
        for i in 0..edges.len()
            invariant
                links@.len() == i,
                forall|k: int|
                    0 <= k < i ==> {
                        let link = #[trigger] links@[k];
                        &&& kind_or_episode(edges@[k].src_type@, link.src.kind)
                        &&& link.src.id@ == edges@[k].src_id@
                        &&& kind_or_episode(edges@[k].dst_type@, link.dst.kind)
                        &&& link.dst.id@ == edges@[k].dst_id@
                        &&& link.kind == edges@[k].edge_kind
                        &&& link.target_hash == edges@[k].target_hash
                    },
        {
            let e = &edges[i];
            links.push(
                Link {
                    src: NodeRef {
                        kind: node_kind_or_episode(e.src_type.as_str()),
                        id: e.src_id.clone(),
                    },
                    dst: NodeRef {
                        kind: node_kind_or_episode(e.dst_type.as_str()),
                        id: e.dst_id.clone(),
                    },
                    kind: e.edge_kind,
                    target_hash: copy_opt(&e.target_hash),
                },
            );
        }
        DependencyGraph { edges: links }
    }

    /// Adds an edge.
    pub fn add_edge(&mut self, src: &NodeRef, dst: &NodeRef, kind: EdgeKind)
        ensures
            final(self).links() == old(self).links().push(
                (Link { src: *src, dst: *dst, kind, target_hash: None }),
            ),
    {
        self.edges.push(Link { src: src.clone(), dst: dst.clone(), kind, target_hash: None });
    }

    /// The nodes that `start` depends on, directly or not.
    pub fn dependents_of(
        &self,
        start: &NodeRef,
        max_depth: usize,
        kinds: Option<&[EdgeKind]>,
    ) -> (r: Vec<ReachedNode>)
        ensures
            self.walk_of(*start, max_depth, kinds, Direction::Out).is_breadth_first(
                found_view(r@),
            ),
    {
        self.walk(start, max_depth, kinds, Direction::Out)
    }

    /// The nodes that depend on `start`, directly or not.
    pub fn dependents_on(
        &self,
        start: &NodeRef,
        max_depth: usize,
        kinds: Option<&[EdgeKind]>,
    ) -> (r: Vec<ReachedNode>)
        ensures
            self.walk_of(*start, max_depth, kinds, Direction::In).is_breadth_first(found_view(r@)),
    {
        self.walk(start, max_depth, kinds, Direction::In)
    }

    /// Whether an edge says that something other than `node` depends on it.
    pub open spec fn held_by(link: Link, node: Node) -> bool {
        link.dst.node() == node && link.src.node() != node
    }

    /// Whether anything else depends on `node`.
    pub fn has_dependents(&self, node: &NodeRef) -> (r: bool)
        ensures
            r == (exists|i: int|
                0 <= i < self.links().len() && Self::held_by(
                    #[trigger] self.links()[i],
                    node.node(),
                )),
            r ==> exists|i: int|
                0 <= i < self.links().len() && points_at(#[trigger] self.links()[i], *node),
            !r ==> forall|i: int|
                0 <= i < self.links().len() ==> !points_at(#[trigger] self.links()[i], *node),
    {
        proof {
            assert forall|link: Link| #[trigger] points_at(link, *node) == Self::held_by(
                link,
                node.node(),
            ) by {
                assert(link.dst.node() == (link.dst.kind, link.dst.id@));
                assert(link.src.node() == (link.src.kind, link.src.id@));
                assert(node.node() == (node.kind, node.id@));
            }
        }
        for i in 0..self.edges.len()
            invariant
                forall|link: Link| #[trigger]
                    points_at(link, *node) == Self::held_by(link, node.node()),
                forall|j: int|
                    0 <= j < i ==> !Self::held_by(#[trigger] self.links()[j], node.node()),
        {
            if self.edges[i].dst.is(node) && !self.edges[i].src.is(node) {
                assert(Self::held_by(self.links()[i as int], node.node()));
                assert(points_at(self.links()[i as int], *node));
                return true;
            }
        }
        false
    }

    /// Whether `list` shows exactly the first `n` edges that leave `node`, in order.
    pub open spec fn shows_out_edges(self, list: Seq<GraphEdge>, node: Node, n: int) -> bool
        decreases n,
    {
        if n <= 0 {
            list.len() == 0
        } else {
            let e = self.links()[n - 1];
            if e.src.node() == node {
                &&& list.len() > 0
                &&& list.last().0@ == e.dst.key_text()
                &&& list.last().1 == e.kind
                &&& list.last().2 == e.dst
                &&& list.last().3 == e.target_hash
                &&& self.shows_out_edges(list.drop_last(), node, n - 1)
            } else {
                self.shows_out_edges(list, node, n - 1)
            }
        }
    }

    /// The edges that leave `node`.
    pub fn out_edges(&self, node: &NodeRef) -> (r: Vec<GraphEdge>)
        ensures
            self.shows_out_edges(r@, node.node(), self.links().len() as int),
    {
        let mut out: Vec<GraphEdge> = Vec::new();
        for i in 0..self.edges.len()
            invariant
                self.shows_out_edges(out@, node.node(), i as int),
        {
            let e = &self.edges[i];
            assert(self.links()[i as int] == *e);
            let ghost before = out@;
            if e.src.is(node) {
                out.push((e.dst.key(), e.kind, e.dst.clone(), copy_opt(&e.target_hash)));
                assert(out@.drop_last() =~= before);
            }
        }
        out
    }

    /// The first edge from one node to another, if there is one.
    pub open spec fn first_edge(self, src: Node, dst: Node, n: int) -> Option<int>
        decreases n,
    {
        if n <= 0 {
            None
        } else {
            match self.first_edge(src, dst, n - 1) {
                Some(i) => Some(i),
                None => if self.links()[n - 1].src.node() == src && self.links()[n - 1].dst.node()
                    == dst {
                    Some(n - 1)
                } else {
                    None
                },
            }
        }
    }

    /// The hash of `dst` as `src` saw it, by the first edge between them. `None` where that
    /// edge recorded nothing or where there is no edge.
    pub fn target_hash(&self, src: &NodeRef, dst: &NodeRef) -> (r: Option<&str>)
        ensures
            match self.first_edge(src.node(), dst.node(), self.links().len() as int) {
                Some(i) => match self.links()[i].target_hash {
                    Some(h) => r matches Some(t) && t@ == h@,
                    None => r is None,
                },
                None => r is None,
            },
    {
        let mut found: Option<usize> = None;
        for i in 0..self.edges.len()
            invariant
                match found {
                    Some(f) => f < i && self.first_edge(src.node(), dst.node(), i as int) == Some(
                        f as int,
                    ),
                    None => self.first_edge(src.node(), dst.node(), i as int) is None,
                },
        {
            let e = &self.edges[i];
            assert(self.links()[i as int] == *e);
            if found.is_none() && e.src.is(src) && e.dst.is(dst) {
                found = Some(i);
            }
        }
        match found {
            Some(f) => match &self.edges[f].target_hash {
                Some(h) => Some(h.as_str()),
                None => None,
            },
            None => None,
        }
    }

    /// How many edges the graph holds.
    pub fn len(&self) -> (r: usize)
        ensures
            r == self.links().len(),
    {
        self.edges.len()
    }

    /// Whether the graph holds no edge.
    pub fn is_empty(&self) -> (r: bool)
        ensures
            r == (self.links().len() == 0),
    {
        self.edges.len() == 0
    }

    /// Adds to `found` every node that an edge leads to from `from` and that is new.
    fn expand(
        &self,
        from: &NodeRef,
        depth: usize,
        start: &NodeRef,
        kinds: Option<&[EdgeKind]>,
        dir: Direction,
        found: &mut Vec<ReachedNode>,
        Ghost(max_depth): Ghost<usize>,
    )
        ensures
            found_view(final(found)@) == self.walk_of(*start, max_depth, kinds, dir).scan(
                from.node(),
                depth as nat,
                found_view(old(found)@),
                self.links().len() as int,
            ),
    {
        let ghost w = self.walk_of(*start, max_depth, kinds, dir);
        let ghost before = found_view(found@);
        for i in 0..self.edges.len()
            invariant
                w == self.walk_of(*start, max_depth, kinds, dir),
                found_view(found@) == w.scan(from.node(), depth as nat, before, i as int),
        {
            let e = &self.edges[i];
            assert(w.edges[i as int] == *e);
            let (near, far) = match dir {
                Direction::Out => (&e.src, &e.dst),
                Direction::In => (&e.dst, &e.src),
            };
            let ghost so_far = found_view(found@);
            if near.is(from) && kind_followed(kinds, e.kind) && !far.is(start) && !already_found(
                found,
                far,
            ) {
                found.push(ReachedNode { kind: far.kind, id: far.id.clone(), depth, via: e.kind });
                assert(found_view(found@) =~= so_far.push(
                    Found { node: far.node(), depth: depth as nat, via: e.kind },
                ));
            }
        }
    }

    /// A breadth-first walk from `start`.
    fn walk(
        &self,
        start: &NodeRef,
        max_depth: usize,
        kinds: Option<&[EdgeKind]>,
        dir: Direction,
    ) -> (r: Vec<ReachedNode>)
        ensures
            self.walk_of(*start, max_depth, kinds, dir).is_breadth_first(found_view(r@)),
    {
        let ghost w = self.walk_of(*start, max_depth, kinds, dir);
        let ghost n = self.links().len() as int;
        let mut found: Vec<ReachedNode> = Vec::new();
        assert(found_view(found@) =~= Seq::empty());
        self.expand(start, 1, start, kinds, dir, &mut found, Ghost(max_depth));
        proof {
            assert(sound(w, Seq::<Found>::empty()));
            scan_stays_sound(w, w.start, 1, Seq::empty());
            no_more_nodes_than_edges(w, found_view(found@));
        }
        let mut i: usize = 0;
        while i < found.len()
            invariant
                w == self.walk_of(*start, max_depth, kinds, dir),
                n == self.links().len() == w.edges.len(),
                i <= found@.len() <= n,
                sound(w, found_view(found@)),
                found_view(found@) == w.after(found_view(found@), i as int),
                forall|j: int|
                    0 <= j < i ==> j < #[trigger] w.after(found_view(found@), j).len()
                        <= found@.len() && w.after(found_view(found@), j) == found_view(found@).take(
                        w.after(found_view(found@), j).len() as int,
                    ),
            decreases n - i,
        {
            let ghost before = found_view(found@);
            let depth: usize = found[i].depth;
            if depth < max_depth {
                let from = NodeRef { kind: found[i].kind, id: found[i].id.clone() };
                self.expand(&from, depth + 1, start, kinds, dir, &mut found, Ghost(max_depth));
                proof {
                    scan_extends(w, before[i as int].node, (depth + 1) as nat, before, n);
                    scan_stays_sound(w, before[i as int].node, (depth + 1) as nat, before);
                    no_more_nodes_than_edges(w, found_view(found@));
                }
            }
            proof {
                let now = found_view(found@);
                assert(now.take(before.len() as int) =~= before);
                assert forall|k: int| 0 <= k < before.len() implies #[trigger] now[k] == before[k] by {
                    assert(now.take(before.len() as int)[k] == before[k]);
                }
                assert forall|j: int| 0 <= j <= i implies j < #[trigger] w.after(now, j).len()
                    <= now.len() && w.after(now, j) == now.take(w.after(now, j).len() as int) by {
                    after_looks_at_the_expanded_only(w, now, before, j);
                    let a = w.after(before, j);
                    if j < i {
                        assert(a == before.take(a.len() as int));
                    }
                    assert(a =~= now.take(a.len() as int));
                }
                after_looks_at_the_expanded_only(w, now, before, i as int);
            }
            i = i + 1;
        }
        found
    }
}

/// Whether edges of this kind are among those asked for, where any are.
pub open spec fn is_asked_for(kinds: Option<&[EdgeKind]>, kind: EdgeKind) -> bool {
    kinds matches Some(list) ==> list@.contains(kind)
}

/// What a node depends on at the first step are the targets of the edges that leave it, and of
/// what depends on it the sources of those that lead to it: edge `i` is found from either end,
/// unless it is a loop or of a kind that was not asked for.
pub proof fn an_edge_is_found_from_either_end(
    graph: &DependencyGraph,
    src: &NodeRef,
    dst: &NodeRef,
    depth: usize,
    kinds: Option<&[EdgeKind]>,
    on: Vec<ReachedNode>,
    back: Vec<ReachedNode>,
    i: int,
)
    requires
        call_ensures(DependencyGraph::dependents_of, (graph, src, depth, kinds), on),
        call_ensures(DependencyGraph::dependents_on, (graph, dst, depth, kinds), back),
        0 <= i < graph.links().len(),
        graph.links()[i].src.node() == src.node(),
        graph.links()[i].dst.node() == dst.node(),
        src.node() != dst.node(),
        is_asked_for(kinds, graph.links()[i].kind),
    ensures
        exists|k: int|
            0 <= k < on@.len() && (#[trigger] on@[k]).kind == dst.kind && on@[k].id@ == dst.id@
                && on@[k].depth == 1,
        exists|k: int|
            0 <= k < back@.len() && (#[trigger] back@[k]).kind == src.kind && back@[k].id@
                == src.id@ && back@[k].depth == 1,
{
    let w = graph.walk_of(*src, depth, kinds, Direction::Out);
    let v = graph.walk_of(*dst, depth, kinds, Direction::In);
    let a = found_view(on@);
    let b = found_view(back@);
    assert(head(w.edges[i], w.dir) == dst.node());
    assert(w.reaches(src.node(), 0));
    assert(w.reaches(dst.node(), 1));
    a_walk_finds_everything_in_range(w, a, dst.node(), 1);
    a_walk_reports_each_node_once(w, a);
    let k = choose|k: int| 0 <= k < a.len() && (#[trigger] a[k]).node == dst.node() && a[k].depth
        <= 1;
    assert(a[k].depth == on@[k].depth);
    assert(a[k].node == (on@[k].kind, on@[k].id@));
    assert(head(v.edges[i], v.dir) == src.node());
    assert(v.reaches(dst.node(), 0));
    assert(v.reaches(src.node(), 1));
    a_walk_finds_everything_in_range(v, b, src.node(), 1);
    a_walk_reports_each_node_once(v, b);
    let m = choose|m: int| 0 <= m < b.len() && (#[trigger] b[m]).node == src.node() && b[m].depth
        <= 1;
    assert(b[m].depth == back@[m].depth);
    assert(b[m].node == (back@[m].kind, back@[m].id@));
}

/// Nothing is found that no edge leads to: what a node is found to depend on at the first step
/// is the target of an edge that leaves it, at a further step of one that leaves a node found one
/// step earlier; and what depends on it likewise against the edges.
pub proof fn everything_found_is_led_to(
    graph: &DependencyGraph,
    node: &NodeRef,
    depth: usize,
    kinds: Option<&[EdgeKind]>,
    on: Vec<ReachedNode>,
    back: Vec<ReachedNode>,
    i: int,
    j: int,
)
    requires
        call_ensures(DependencyGraph::dependents_of, (graph, node, depth, kinds), on),
        call_ensures(DependencyGraph::dependents_on, (graph, node, depth, kinds), back),
        0 <= i < on@.len(),
        0 <= j < back@.len(),
    ensures
        on@[i].depth >= 1 && (on@[i].depth == 1 || on@[i].depth <= depth),
        back@[j].depth >= 1 && (back@[j].depth == 1 || back@[j].depth <= depth),
        exists|e: int|
            0 <= e < graph.links().len() && (#[trigger] graph.links()[e]).dst.kind == on@[i].kind
                && graph.links()[e].dst.id@ == on@[i].id@ && is_asked_for(
                kinds,
                graph.links()[e].kind,
            ) && (on@[i].depth == 1 ==> graph.links()[e].src.node() == node.node()),
        exists|e: int|
            0 <= e < graph.links().len() && (#[trigger] graph.links()[e]).src.kind == back@[j].kind
                && graph.links()[e].src.id@ == back@[j].id@ && is_asked_for(
                kinds,
                graph.links()[e].kind,
            ) && (back@[j].depth == 1 ==> graph.links()[e].dst.node() == node.node()),
{
    let w = graph.walk_of(*node, depth, kinds, Direction::Out);
    let v = graph.walk_of(*node, depth, kinds, Direction::In);
    let a = found_view(on@);
    let b = found_view(back@);
    a_walk_reports_each_node_once(w, a);
    a_walk_reports_each_node_once(v, b);
    a_walk_reports_the_shortest_depth(w, a, i, 0);
    a_walk_reports_the_shortest_depth(v, b, j, 0);
    assert(a[i].node == (on@[i].kind, on@[i].id@) && a[i].depth == on@[i].depth);
    assert(b[j].node == (back@[j].kind, back@[j].id@) && b[j].depth == back@[j].depth);
    let e = choose|k: int|
        0 <= k < w.edges.len() && head(#[trigger] w.edges[k], w.dir) == a[i].node && followed(
            w.kinds,
            w.edges[k].kind,
        ) && w.reaches(tail(w.edges[k], w.dir), (a[i].depth - 1) as nat);
    assert(graph.links()[e].dst.node() == a[i].node);
    let f = choose|k: int|
        0 <= k < v.edges.len() && head(#[trigger] v.edges[k], v.dir) == b[j].node && followed(
            v.kinds,
            v.edges[k].kind,
        ) && v.reaches(tail(v.edges[k], v.dir), (b[j].depth - 1) as nat);
    assert(graph.links()[f].src.node() == b[j].node);
}

/// Whether an edge leads to a node, and from another one.
pub open spec fn points_at(link: Link, node: NodeRef) -> bool {
    &&& link.dst.kind == node.kind && link.dst.id@ == node.id@
    &&& link.src.kind != node.kind || link.src.id@ != node.id@
}

/// The edges that leave a node are listed, all of them and in their order: `at` tells which.
pub proof fn every_edge_that_leaves_is_listed(
    graph: &DependencyGraph,
    node: &NodeRef,
    r: Vec<GraphEdge>,
) -> (at: Seq<int>)
    requires
        call_ensures(DependencyGraph::out_edges, (graph, node), r),
    ensures
        at.len() == r@.len(),
        forall|k: int|
            0 <= k < at.len() ==> 0 <= #[trigger] at[k] < graph.links().len()
                && graph.links()[at[k]].src.node() == node.node() && r@[k].1
                == graph.links()[at[k]].kind && r@[k].2 == graph.links()[at[k]].dst && r@[k].3
                == graph.links()[at[k]].target_hash,
        forall|j: int, k: int|
            #![trigger at[j], at[k]]
            0 <= j < k < at.len() ==> at[j] < at[k],
        forall|i: int|
            0 <= i < graph.links().len() && (#[trigger] graph.links()[i]).src.node() == node.node()
                ==> at.contains(i),
{
    out_edge_places(*graph, r@, node.node(), graph.links().len() as int)
}

proof fn out_edge_places(graph: DependencyGraph, list: Seq<GraphEdge>, node: Node, n: int) -> (at:
    Seq<int>)
    requires
        0 <= n <= graph.links().len(),
        graph.shows_out_edges(list, node, n),
    ensures
        at.len() == list.len(),
        forall|k: int|
            0 <= k < at.len() ==> 0 <= #[trigger] at[k] < n && graph.links()[at[k]].src.node()
                == node && list[k].1 == graph.links()[at[k]].kind && list[k].2
                == graph.links()[at[k]].dst && list[k].3 == graph.links()[at[k]].target_hash,
        forall|j: int, k: int|
            #![trigger at[j], at[k]]
            0 <= j < k < at.len() ==> at[j] < at[k],
        forall|i: int|
            0 <= i < n && (#[trigger] graph.links()[i]).src.node() == node ==> at.contains(i),
    decreases n,
{
    if n <= 0 {
        Seq::empty()
    } else if graph.links()[n - 1].src.node() == node {
        let before = out_edge_places(graph, list.drop_last(), node, n - 1);
        let at = before.push(n - 1);
        assert forall|k: int| 0 <= k < at.len() implies 0 <= #[trigger] at[k] < n
            && graph.links()[at[k]].src.node() == node && list[k].1 == graph.links()[at[k]].kind
            && list[k].2 == graph.links()[at[k]].dst && list[k].3
            == graph.links()[at[k]].target_hash by {
            if k < before.len() {
                assert(at[k] == before[k]);
                assert(list.drop_last()[k] == list[k]);
            }
        }
        assert forall|i: int| 0 <= i < n && (#[trigger] graph.links()[i]).src.node() == node implies
            at.contains(i) by {
            if i < n - 1 {
                let k = choose|k: int| 0 <= k < before.len() && before[k] == i;
                assert(at[k] == i);
            } else {
                assert(at[at.len() - 1] == i);
            }
        }
        at
    } else {
        out_edge_places(graph, list, node, n - 1)
    }
}

/// The hash that one node saw of another is that of the first edge between them.
pub proof fn the_first_edge_tells_the_hash(
    graph: &DependencyGraph,
    src: &NodeRef,
    dst: &NodeRef,
    r: Option<&str>,
    i: int,
)
    requires
        call_ensures(DependencyGraph::target_hash, (graph, src, dst), r),
        0 <= i < graph.links().len(),
        graph.links()[i].src.node() == src.node(),
        graph.links()[i].dst.node() == dst.node(),
        forall|k: int|
            0 <= k < i ==> !((#[trigger] graph.links()[k]).src.node() == src.node()
                && graph.links()[k].dst.node() == dst.node()),
    ensures
        graph.links()[i].target_hash is None ==> r is None,
        graph.links()[i].target_hash matches Some(h) ==> (r matches Some(t) && t@ == h@),
{
    first_edge_is_first(*graph, src.node(), dst.node(), graph.links().len() as int);
    let f = graph.first_edge(src.node(), dst.node(), graph.links().len() as int);
    assert(graph.links()[i].src.node() == src.node());
    if f->0 < i {
        assert(graph.links()[f->0].src.node() == src.node());
    }
}

proof fn first_edge_is_first(graph: DependencyGraph, src: Node, dst: Node, n: int)
    requires
        0 <= n <= graph.links().len(),
    ensures
        match graph.first_edge(src, dst, n) {
            Some(i) => 0 <= i < n && graph.links()[i].src.node() == src
                && graph.links()[i].dst.node() == dst && forall|k: int|
                0 <= k < i ==> !((#[trigger] graph.links()[k]).src.node() == src
                    && graph.links()[k].dst.node() == dst),
            None => forall|k: int|
                0 <= k < n ==> !((#[trigger] graph.links()[k]).src.node() == src
                    && graph.links()[k].dst.node() == dst),
        },
    decreases n,
{
    if n > 0 {
        first_edge_is_first(graph, src, dst, n - 1);
    }
}

/// A search goes on from everything it finds while it may go deeper: what an edge leads to from
/// a node that was found above the last step is found too, at most one step further.
pub proof fn a_search_goes_on_from_what_it_finds(
    graph: &DependencyGraph,
    node: &NodeRef,
    depth: usize,
    kinds: Option<&[EdgeKind]>,
    on: Vec<ReachedNode>,
    back: Vec<ReachedNode>,
    i: int,
    j: int,
    e: int,
    f: int,
)
    requires
        call_ensures(DependencyGraph::dependents_of, (graph, node, depth, kinds), on),
        call_ensures(DependencyGraph::dependents_on, (graph, node, depth, kinds), back),
        0 <= i < on@.len(),
        on@[i].depth < depth,
        0 <= e < graph.links().len(),
        graph.links()[e].src.node() == (on@[i].kind, on@[i].id@),
        graph.links()[e].dst.node() != node.node(),
        is_asked_for(kinds, graph.links()[e].kind),
        0 <= j < back@.len(),
        back@[j].depth < depth,
        0 <= f < graph.links().len(),
        graph.links()[f].dst.node() == (back@[j].kind, back@[j].id@),
        graph.links()[f].src.node() != node.node(),
        is_asked_for(kinds, graph.links()[f].kind),
    ensures
        exists|k: int|
            0 <= k < on@.len() && (#[trigger] on@[k]).kind == graph.links()[e].dst.kind && on@[k].id@
                == graph.links()[e].dst.id@ && on@[k].depth <= on@[i].depth + 1,
        exists|k: int|
            0 <= k < back@.len() && (#[trigger] back@[k]).kind == graph.links()[f].src.kind
                && back@[k].id@ == graph.links()[f].src.id@ && back@[k].depth <= back@[j].depth + 1,
{
    let w = graph.walk_of(*node, depth, kinds, Direction::Out);
    let v = graph.walk_of(*node, depth, kinds, Direction::In);
    let a = found_view(on@);
    let b = found_view(back@);
    assert(a[i].node == (on@[i].kind, on@[i].id@) && a[i].depth == on@[i].depth);
    assert(b[j].node == (back@[j].kind, back@[j].id@) && b[j].depth == back@[j].depth);
    a_walk_reports_the_shortest_depth(w, a, i, 0);
    a_walk_reports_the_shortest_depth(v, b, j, 0);
    let to = graph.links()[e].dst.node();
    let from = graph.links()[f].src.node();
    let d = (a[i].depth + 1) as nat;
    let c = (b[j].depth + 1) as nat;
    assert(head(w.edges[e], w.dir) == to);
    assert(head(v.edges[f], v.dir) == from);
    assert(w.reaches(to, d));
    assert(v.reaches(from, c));
    a_walk_finds_everything_in_range(w, a, to, d);
    a_walk_finds_everything_in_range(v, b, from, c);
    let k = choose|k: int| 0 <= k < a.len() && (#[trigger] a[k]).node == to && a[k].depth <= d;
    assert(a[k].node == (on@[k].kind, on@[k].id@) && a[k].depth == on@[k].depth);
    let m = choose|m: int| 0 <= m < b.len() && (#[trigger] b[m]).node == from && b[m].depth <= c;
    assert(b[m].node == (back@[m].kind, back@[m].id@) && b[m].depth == back@[m].depth);
}

/// A search reports each node once and never the one it starts from.
pub proof fn a_search_reports_each_node_once(
    graph: &DependencyGraph,
    node: &NodeRef,
    depth: usize,
    kinds: Option<&[EdgeKind]>,
    on: Vec<ReachedNode>,
    back: Vec<ReachedNode>,
)
    requires
        call_ensures(DependencyGraph::dependents_of, (graph, node, depth, kinds), on),
        call_ensures(DependencyGraph::dependents_on, (graph, node, depth, kinds), back),
    ensures
        forall|i: int, j: int|
            #![trigger on@[i], on@[j]]
            0 <= i < j < on@.len() ==> on@[i].kind != on@[j].kind || on@[i].id@ != on@[j].id@,
        forall|i: int, j: int|
            #![trigger back@[i], back@[j]]
            0 <= i < j < back@.len() ==> back@[i].kind != back@[j].kind || back@[i].id@
                != back@[j].id@,
        forall|i: int|
            0 <= i < on@.len() ==> (#[trigger] on@[i]).kind != node.kind || on@[i].id@ != node.id@,
{
    let w = graph.walk_of(*node, depth, kinds, Direction::Out);
    let v = graph.walk_of(*node, depth, kinds, Direction::In);
    let a = found_view(on@);
    let b = found_view(back@);
    a_walk_reports_each_node_once(w, a);
    a_walk_reports_each_node_once(v, b);
    assert forall|i: int| 0 <= i < on@.len() implies (#[trigger] a[i]).node == (
        on@[i].kind,
        on@[i].id@,
    ) by {}
    assert forall|i: int| 0 <= i < back@.len() implies (#[trigger] b[i]).node == (
        back@[i].kind,
        back@[i].id@,
    ) by {}
    assert forall|i: int, j: int|
        #![trigger on@[i], on@[j]]
        0 <= i < j < on@.len() implies on@[i].kind != on@[j].kind || on@[i].id@ != on@[j].id@ by {
        assert(a[i].node != a[j].node);
    }
    assert forall|i: int, j: int|
        #![trigger back@[i], back@[j]]
        0 <= i < j < back@.len() implies back@[i].kind != back@[j].kind || back@[i].id@
        != back@[j].id@ by {
        assert(b[i].node != b[j].node);
    }
    assert forall|i: int| 0 <= i < on@.len() implies (#[trigger] on@[i]).kind != node.kind
        || on@[i].id@ != node.id@ by {
        assert(a[i].node != w.start);
    }
}

} // verus!
