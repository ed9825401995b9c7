//! What the retrievers found, merged by what they found it for.
//!
//! A candidate keeps the evidence in the order it came in: which retriever named it, and at
//! which place of its list. The caller weighs the evidence into a score.

use crate::memory::dependency::{NodeKind, NodeRef};
use crate::recall::{HitKind, Retriever};
use crate::text::{same, texts};
use vstd::prelude::*;
use vstd::string::*;

verus! {

/// One retriever naming a candidate.
#[derive(Debug, Clone, Copy, PartialEq, Eq, Structural)]
pub struct Evidence {
    pub retriever: Retriever,
    /// The place in the retriever's list, from zero.
    pub rank: usize,
}

/// A candidate and the evidence for it.
#[derive(Debug)]
pub struct Accum {
    pub kind: HitKind,
    pub id: String,
    pub evidence: Vec<Evidence>,
}

/// A candidate as contracts speak of it.
#[verifier::ext_equal]
pub struct Found {
    pub kind: HitKind,
    pub id: Seq<char>,
    pub evidence: Seq<Evidence>,
}

/// The retrievers of some evidence, each once, in the order of their first naming.
pub open spec fn distinct(evidence: Seq<Evidence>) -> Seq<Retriever>
    decreases evidence.len(),
{
    if evidence.len() == 0 {
        Seq::empty()
    } else {
        let before = distinct(evidence.drop_last());
        if before.contains(evidence.last().retriever) {
            before
        } else {
            before.push(evidence.last().retriever)
        }
    }
}

/// The retrievers of some evidence are exactly those that occur in it, each listed once, so
/// there are at most three.
pub proof fn agreement_counts_each_retriever_once(evidence: Seq<Evidence>)
    ensures
        forall|r: Retriever| #[trigger]
            distinct(evidence).contains(r) <==> exists|i: int|
                0 <= i < evidence.len() && (#[trigger] evidence[i]).retriever == r,
        distinct(evidence).no_duplicates(),
        distinct(evidence).len() <= 3,
        evidence.len() > 0 ==> distinct(evidence).len() > 0,
    decreases evidence.len(),
{
    let all = distinct(evidence);
    if evidence.len() > 0 {
        let rest = evidence.drop_last();
        let before = distinct(rest);
        let last = evidence.last().retriever;
        agreement_counts_each_retriever_once(rest);
        assert forall|r: Retriever| #[trigger] all.contains(r) <==> exists|i: int|
            0 <= i < evidence.len() && (#[trigger] evidence[i]).retriever == r by {
            if all.contains(r) {
                if r == last {
                    assert(evidence[evidence.len() - 1].retriever == r);
                } else {
                    let k = choose|k: int| 0 <= k < all.len() && all[k] == r;
                    assert(before[k] == r);
                    assert(before.contains(r));
                    let i = choose|i: int| 0 <= i < rest.len() && rest[i].retriever == r;
                    assert(evidence[i].retriever == r);
                }
            }
            if exists|i: int| 0 <= i < evidence.len() && (#[trigger] evidence[i]).retriever == r {
                let i = choose|i: int| 0 <= i < evidence.len() && evidence[i].retriever == r;
                if i < rest.len() {
                    assert(rest[i].retriever == r);
                    assert(before.contains(r));
                    let k = choose|k: int| 0 <= k < before.len() && before[k] == r;
                    assert(all[k] == r);
                } else if before.contains(last) {
                    assert(all.contains(r));
                } else {
                    assert(all[all.len() - 1] == r);
                }
            }
        }
    }
    at_most_three(all);
}

proof fn at_most_three(list: Seq<Retriever>)
    requires
        list.no_duplicates(),
    ensures
        list.len() <= 3,
{
    if list.len() > 3 {
        let a = list[0];
        let b = list[1];
        let c = list[2];
        let d = list[3];
        assert(a != b && a != c && a != d && b != c && b != d && c != d);
        assert(a is Bm25 || a is Vector || a is Graph);
        assert(b is Bm25 || b is Vector || b is Graph);
        assert(c is Bm25 || c is Vector || c is Graph);
        assert(d is Bm25 || d is Vector || d is Graph);
    }
}

impl Accum {
    /// The candidate as contracts speak of it.
    pub open spec fn found(self) -> Found {
        Found { kind: self.kind, id: self.id@, evidence: self.evidence@ }
    }

    /// The retrievers that named the candidate.
    pub fn retrievers(&self) -> (r: Vec<Retriever>)
        ensures
            r@ == distinct(self.evidence@),
            r@.len() <= 3,
    {
        let mut out: Vec<Retriever> = Vec::new();
        for i in 0..self.evidence.len()
            invariant
                out@ == distinct(self.evidence@.take(i as int)),
        {
            let ghost taken = self.evidence@.take(i as int + 1);
            assert(taken.drop_last() =~= self.evidence@.take(i as int));
            let last = self.evidence[i].retriever;
            let mut seen: bool = false;
            for j in 0..out.len()
                invariant
                    seen == exists|k: int| 0 <= k < j && #[trigger] out@[k] == last,
            {
                if out[j] == last {
                    seen = true;
                    assert(out@[j as int] == last);
                }
            }
            if !seen {
                out.push(last);
            }
        }
        assert(self.evidence@.take(self.evidence@.len() as int) =~= self.evidence@);
        proof {
            agreement_counts_each_retriever_once(self.evidence@);
        }
        out
    }
}

/// Where a candidate stands from position `i` on; the length of the list where it does not.
pub open spec fn place_from(list: Seq<Found>, kind: HitKind, id: Seq<char>, i: int) -> int
    decreases list.len() - i,
{
    if i >= list.len() {
        list.len() as int
    } else if list[i].kind == kind && list[i].id == id {
        i
    } else {
        place_from(list, kind, id, i + 1)
    }
}

/// The list with one more piece of evidence: on the candidate it is for, or on a new one.
pub open spec fn noted(list: Seq<Found>, kind: HitKind, id: Seq<char>, e: Evidence) -> Seq<Found> {
    let at = place_from(list, kind, id, 0);
    if at < list.len() {
        list.update(at, Found { evidence: list[at].evidence.push(e), ..list[at] })
    } else {
        list.push(Found { kind, id, evidence: seq![e] })
    }
}

/// What a retriever lists: at each place the candidate it names, or nothing that can be
/// recalled.
pub open spec fn noted_all(
    list: Seq<Found>,
    named: Seq<Option<(HitKind, Seq<char>)>>,
    retriever: Retriever,
    n: int,
) -> Seq<Found>
    decreases n,
{
    if n <= 0 {
        list
    } else {
        let before = noted_all(list, named, retriever, n - 1);
        match named[n - 1] {
            Some((kind, id)) => noted(
                before,
                kind,
                id,
                Evidence { retriever, rank: (n - 1) as usize },
            ),
            None => before,
        }
    }
}

/// Whether no two candidates are for the same thing, and each has evidence.
pub open spec fn merged(list: Seq<Found>) -> bool {
    &&& forall|i: int, j: int|
        #![trigger list[i], list[j]]
        0 <= i < j < list.len() ==> !(list[i].kind == list[j].kind && list[i].id == list[j].id)
    &&& forall|i: int| 0 <= i < list.len() ==> (#[trigger] list[i]).evidence.len() > 0
}

proof fn place_is_first(list: Seq<Found>, kind: HitKind, id: Seq<char>, i: int)
    requires
        0 <= i <= list.len(),
    ensures
        i <= place_from(list, kind, id, i) <= list.len(),
        place_from(list, kind, id, i) < list.len() ==> list[place_from(list, kind, id, i)].kind
            == kind && list[place_from(list, kind, id, i)].id == id,
        forall|k: int|
            i <= k < place_from(list, kind, id, i) ==> !((#[trigger] list[k]).kind == kind
                && list[k].id == id),
    decreases list.len() - i,
{
    if i < list.len() && !(list[i].kind == kind && list[i].id == id) {
        place_is_first(list, kind, id, i + 1);
    }
}

/// Noting evidence keeps the candidates apart.
pub proof fn noting_keeps_apart(list: Seq<Found>, kind: HitKind, id: Seq<char>, e: Evidence)
    requires
        merged(list),
    ensures
        merged(noted(list, kind, id, e)),
        noted(list, kind, id, e).len() >= list.len(),
        ({
            let at = place_from(list, kind, id, 0);
            let after = noted(list, kind, id, e);
            &&& 0 <= at < after.len()
            &&& after[at].kind == kind && after[at].id == id
            &&& after[at].evidence.last() == e
            &&& forall|k: int| 0 <= k < list.len() && k != at ==> after[k] == #[trigger] list[k]
            &&& at < list.len() ==> after[at].evidence == list[at].evidence.push(e)
        }),
{
    place_is_first(list, kind, id, 0);
}

/// What a retriever names is a candidate afterwards, with that naming in its evidence, and
/// what was known of any candidate before is still known.
pub proof fn nothing_found_is_lost(
    list: Seq<Found>,
    named: Seq<Option<(HitKind, Seq<char>)>>,
    retriever: Retriever,
    n: int,
)
    requires
        merged(list),
        0 <= n <= named.len() <= usize::MAX,
    ensures
        merged(noted_all(list, named, retriever, n)),
        noted_all(list, named, retriever, n).len() >= list.len(),
        forall|k: int|
            0 <= k < list.len() ==> {
                let now = #[trigger] noted_all(list, named, retriever, n)[k];
                now.kind == list[k].kind && now.id == list[k].id && list[k].evidence.is_prefix_of(
                    now.evidence,
                )
            },
        forall|i: int|
            0 <= i < n ==> ((#[trigger] named[i]) matches Some(key) ==> exists|k: int|
                names(noted_all(list, named, retriever, n), k, key, retriever, i)),
    decreases n,
{
    if n > 0 {
        nothing_found_is_lost(list, named, retriever, n - 1);
        let before = noted_all(list, named, retriever, n - 1);
        let after = noted_all(list, named, retriever, n);
        match named[n - 1] {
            Some((kind, id)) => {
                let e = Evidence { retriever, rank: (n - 1) as usize };
                noting_keeps_apart(before, kind, id, e);
                let at = place_from(before, kind, id, 0);
                assert(after == noted(before, kind, id, e));
                assert(names(after, at, (kind, id), retriever, n - 1)) by {
                    let all = after[at].evidence;
                    assert(all[all.len() - 1] == e);
                }
                assert forall|k: int| 0 <= k < list.len() implies {
                    let now = #[trigger] after[k];
                    now.kind == list[k].kind && now.id == list[k].id
                        && list[k].evidence.is_prefix_of(now.evidence)
                } by {
                    assert(list[k].evidence.is_prefix_of(before[k].evidence));
                }
                assert forall|i: int| 0 <= i < n implies ((#[trigger] named[i]) matches Some(key)
                    ==> exists|k: int| names(after, k, key, retriever, i)) by {
                    if i < n - 1 && named[i] is Some {
                        let key = named[i]->0;
                        let k = choose|k: int| names(before, k, key, retriever, i);
                        let j = choose|j: int|
                            0 <= j < before[k].evidence.len() && #[trigger] before[k].evidence[j]
                                == (Evidence { retriever, rank: i as usize });
                        assert(after[k].evidence[j] == before[k].evidence[j]);
                        assert(names(after, k, key, retriever, i));
                    }
                }
            },
            None => {},
        }
    }
}

/// Whether position `k` is the candidate, with the naming at place `i` in its evidence.
pub open spec fn names(
    list: Seq<Found>,
    k: int,
    key: (HitKind, Seq<char>),
    retriever: Retriever,
    i: int,
) -> bool {
    &&& 0 <= k < list.len()
    &&& list[k].kind == key.0 && list[k].id == key.1
    &&& exists|j: int|
        0 <= j < list[k].evidence.len() && #[trigger] list[k].evidence[j] == (Evidence {
            retriever,
            rank: i as usize,
        })
}

/// Everything of one kind.
pub open spec fn all_of(kind: HitKind, ids: Seq<Seq<char>>) -> Seq<Option<(HitKind, Seq<char>)>> {
    Seq::new(ids.len(), |i: int| Some((kind, ids[i])))
}

/// What the table of an embedding holds, where that can be recalled.
pub open spec fn table_kind(table: Seq<char>) -> Option<HitKind> {
    if table == "semantic_atlas"@ {
        Some(HitKind::SemanticEntry)
    } else if table == "symbolic_fact"@ {
        Some(HitKind::SymbolicFact)
    } else {
        None
    }
}

/// What the hits of an embedding search name.
pub open spec fn vector_names(rows: Seq<(String, String)>) -> Seq<
    Option<(HitKind, Seq<char>)>,
> {
    Seq::new(
        rows.len(),
        |i: int|
            match table_kind(rows[i].0@) {
                Some(kind) => Some((kind, rows[i].1@)),
                None => None,
            },
    )
}

/// What a node is when it is recalled, where it can be.
pub open spec fn node_kind(kind: NodeKind) -> Option<HitKind> {
    match kind {
        NodeKind::Episode => Some(HitKind::Episode),
        NodeKind::SymbolicFact => Some(HitKind::SymbolicFact),
        NodeKind::SemanticEntry => Some(HitKind::SemanticEntry),
        _ => None,
    }
}

/// What a list of nodes names.
pub open spec fn node_names(nodes: Seq<NodeRef>) -> Seq<Option<(HitKind, Seq<char>)>> {
    Seq::new(
        nodes.len(),
        |i: int|
            match node_kind(nodes[i].kind) {
                Some(kind) => Some((kind, nodes[i].id@)),
                None => None,
            },
    )
}

/// What the retrievers found so far, each thing once.
#[derive(Debug)]
pub struct Candidates {
    list: Vec<Accum>,
}

/// The candidates as contracts speak of them.
pub open spec fn found_in(list: Seq<Accum>) -> Seq<Found> {
    Seq::new(list.len(), |i: int| list[i].found())
}

impl Candidates {
    /// The candidates, in the order in which they were found.
    pub closed spec fn view(self) -> Seq<Found> {
        found_in(self.list@)
    }

    /// Whether each thing stands in the list once.
    pub open spec fn wf(self) -> bool {
        merged(self@)
    }

    pub fn new() -> (r: Self)
        ensures
            r@.len() == 0,
            r.wf(),
    {
        Candidates { list: Vec::new() }
    }

    /// Adds one piece of evidence.
    pub fn add(&mut self, kind: HitKind, id: &str, retriever: Retriever, rank: usize)
        requires
            old(self).wf(),
        ensures
            final(self)@ == noted(old(self)@, kind, id@, (Evidence { retriever, rank })),
            final(self).wf(),
    {
        let e = Evidence { retriever, rank };
        let ghost before = self@;
        let n: usize = self.list.len();
        let mut at: usize = 0;
        while at < n && !(self.list[at].kind == kind && same(self.list[at].id.as_str(), id))
            invariant
                n == self.list@.len(),
                before == found_in(self.list@),
                at <= n,
                place_from(before, kind, id@, 0) == place_from(before, kind, id@, at as int),
            decreases n - at,
        {
            assert(before[at as int] == self.list@[at as int].found());
            at = at + 1;
        }
        proof {
            noting_keeps_apart(before, kind, id@, e);
        }
        if at < n {
            assert(before[at as int] == self.list@[at as int].found());
            self.list[at].evidence.push(e);
        } else {
            let mut evidence: Vec<Evidence> = Vec::new();
            evidence.push(e);
            assert(evidence@ =~= seq![e]);
            self.list.push(Accum { kind, id: id.to_owned(), evidence });
        }
        assert(self@ =~= noted(before, kind, id@, e));
    }

    fn add_all(
        &mut self,
        keys: &Vec<Option<(HitKind, String)>>,
        retriever: Retriever,
        Ghost(named): Ghost<Seq<Option<(HitKind, Seq<char>)>>>,
    )
        requires
            old(self).wf(),
            keys@.len() == named.len(),
            forall|i: int|
                0 <= i < named.len() ==> match #[trigger] keys@[i] {
                    Some((kind, id)) => named[i] == Some((kind, id@)),
                    None => named[i] is None,
                },
        ensures
            final(self)@ == noted_all(old(self)@, named, retriever, named.len() as int),
            final(self).wf(),
    {
        let ghost before = self@;
        for i in 0..keys.len()
            invariant
                self.wf(),
                keys@.len() == named.len(),
                forall|i: int|
                    0 <= i < named.len() ==> match #[trigger] keys@[i] {
                        Some((kind, id)) => named[i] == Some((kind, id@)),
                        None => named[i] is None,
                    },
                self@ == noted_all(before, named, retriever, i as int),
        {
            match &keys[i] {
                Some((kind, id)) => {
                    self.add(*kind, id.as_str(), retriever, i);
                },
                None => {},
            }
        }
    }

    fn add_kind(&mut self, kind: HitKind, ids: &Vec<String>, retriever: Retriever)
        requires
            old(self).wf(),
        ensures
            final(self)@ == noted_all(
                old(self)@,
                all_of(kind, texts(ids@)),
                retriever,
                ids@.len() as int,
            ),
            final(self).wf(),
    {
        let mut keys: Vec<Option<(HitKind, String)>> = Vec::new();
        let ghost named = all_of(kind, texts(ids@));
        for i in 0..ids.len()
            invariant
                named == all_of(kind, texts(ids@)),
                keys@.len() == i,
                forall|k: int|
                    0 <= k < i ==> match #[trigger] keys@[k] {
                        Some((kind, id)) => named[k] == Some((kind, id@)),
                        None => named[k] is None,
                    },
        {
            keys.push(Some((kind, ids[i].clone())));
        }
        self.add_all(&keys, retriever, Ghost(named));
    }

    /// Episodes that a text search found.
    pub fn episodes(&mut self, ids: &Vec<String>)
        requires
            old(self).wf(),
        ensures
            final(self)@ == noted_all(
                old(self)@,
                all_of(HitKind::Episode, texts(ids@)),
                Retriever::Bm25,
                ids@.len() as int,
            ),
            final(self).wf(),
            forall|i: int|
                0 <= i < ids@.len() ==> is_found(
                    final(self)@,
                    (HitKind::Episode, (#[trigger] ids@[i])@),
                    Evidence { retriever: Retriever::Bm25, rank: i as usize },
                ),
    {
        let ghost before = self@;
        proof {
            assert(ids.len() == ids@.len());
            listed_ones_are_found(before, HitKind::Episode, ids@, Retriever::Bm25);
        }
        self.add_kind(HitKind::Episode, ids, Retriever::Bm25);
    }

    /// Summaries that a text search found.
    pub fn entries(&mut self, ids: &Vec<String>)
        requires
            old(self).wf(),
        ensures
            final(self)@ == noted_all(
                old(self)@,
                all_of(HitKind::SemanticEntry, texts(ids@)),
                Retriever::Bm25,
                ids@.len() as int,
            ),
            final(self).wf(),
            forall|i: int|
                0 <= i < ids@.len() ==> is_found(
                    final(self)@,
                    (HitKind::SemanticEntry, (#[trigger] ids@[i])@),
                    Evidence { retriever: Retriever::Bm25, rank: i as usize },
                ),
    {
        let ghost before = self@;
        proof {
            assert(ids.len() == ids@.len());
            listed_ones_are_found(before, HitKind::SemanticEntry, ids@, Retriever::Bm25);
        }
        self.add_kind(HitKind::SemanticEntry, ids, Retriever::Bm25);
    }

    /// Summaries that are anchored to something found.
    pub fn anchored(&mut self, ids: &Vec<String>)
        requires
            old(self).wf(),
        ensures
            final(self)@ == noted_all(
                old(self)@,
                all_of(HitKind::SemanticEntry, texts(ids@)),
                Retriever::Graph,
                ids@.len() as int,
            ),
            final(self).wf(),
            forall|i: int|
                0 <= i < ids@.len() ==> is_found(
                    final(self)@,
                    (HitKind::SemanticEntry, (#[trigger] ids@[i])@),
                    Evidence { retriever: Retriever::Graph, rank: i as usize },
                ),
    {
        let ghost before = self@;
        proof {
            assert(ids.len() == ids@.len());
            listed_ones_are_found(before, HitKind::SemanticEntry, ids@, Retriever::Graph);
        }
        self.add_kind(HitKind::SemanticEntry, ids, Retriever::Graph);
    }

    /// What an embedding search found: for each hit its table and its id.
    pub fn vectors(&mut self, rows: &Vec<(String, String)>)
        requires
            old(self).wf(),
        ensures
            final(self)@ == noted_all(
                old(self)@,
                vector_names(rows@),
                Retriever::Vector,
                rows@.len() as int,
            ),
            final(self).wf(),
            forall|i: int|
                0 <= i < rows@.len() && (#[trigger] rows@[i]).0@ == "semantic_atlas"@ ==> is_found(
                    final(self)@,
                    (HitKind::SemanticEntry, rows@[i].1@),
                    Evidence { retriever: Retriever::Vector, rank: i as usize },
                ),
            forall|i: int|
                0 <= i < rows@.len() && (#[trigger] rows@[i]).0@ == "symbolic_fact"@ ==> is_found(
                    final(self)@,
                    (HitKind::SymbolicFact, rows@[i].1@),
                    Evidence { retriever: Retriever::Vector, rank: i as usize },
                ),
    {
        let mut keys: Vec<Option<(HitKind, String)>> = Vec::new();
        let ghost named = vector_names(rows@);
        for i in 0..rows.len()
            invariant
                named == vector_names(rows@),
                keys@.len() == i,
                forall|k: int|
                    0 <= k < i ==> match #[trigger] keys@[k] {
                        Some((kind, id)) => named[k] == Some((kind, id@)),
                        None => named[k] is None,
                    },
        {
            let table = rows[i].0.as_str();
            let key: Option<(HitKind, String)> = if same(table, "semantic_atlas") {
                Some((HitKind::SemanticEntry, rows[i].1.clone()))
            } else if same(table, "symbolic_fact") {
                Some((HitKind::SymbolicFact, rows[i].1.clone()))
            } else {
                None
            };
            keys.push(key);
        }
        let ghost before = self@;
        self.add_all(&keys, Retriever::Vector, Ghost(named));
        proof {
            assert(rows.len() == rows@.len());
            nothing_found_is_lost(before, named, Retriever::Vector, named.len() as int);
            reveal_strlit("semantic_atlas");
            reveal_strlit("symbolic_fact");
            assert("semantic_atlas"@.len() == 14 && "symbolic_fact"@.len() == 13);
            assert forall|i: int|
                0 <= i < rows@.len() && (#[trigger] rows@[i]).0@ == "semantic_atlas"@ implies
                is_found(
                self@,
                (HitKind::SemanticEntry, rows@[i].1@),
                Evidence { retriever: Retriever::Vector, rank: i as usize },
            ) by {
                assert(named[i] == Some((HitKind::SemanticEntry, rows@[i].1@)));
                named_one_is_found(self@, named[i]->0, Retriever::Vector, i);
            }
            assert forall|i: int|
                0 <= i < rows@.len() && (#[trigger] rows@[i]).0@ == "symbolic_fact"@ implies
                is_found(
                self@,
                (HitKind::SymbolicFact, rows@[i].1@),
                Evidence { retriever: Retriever::Vector, rank: i as usize },
            ) by {
                assert(named[i] == Some((HitKind::SymbolicFact, rows@[i].1@)));
                named_one_is_found(self@, named[i]->0, Retriever::Vector, i);
            }
        }
    }

    /// The neighbours of something found.
    pub fn neighbours(&mut self, nodes: &Vec<NodeRef>)
        requires
            old(self).wf(),
        ensures
            final(self)@ == noted_all(
                old(self)@,
                node_names(nodes@),
                Retriever::Graph,
                nodes@.len() as int,
            ),
            final(self).wf(),
            forall|i: int|
                0 <= i < nodes@.len() && (#[trigger] nodes@[i]).kind is Episode ==> is_found(
                    final(self)@,
                    (HitKind::Episode, nodes@[i].id@),
                    Evidence { retriever: Retriever::Graph, rank: i as usize },
                ),
            forall|i: int|
                0 <= i < nodes@.len() && (#[trigger] nodes@[i]).kind is SymbolicFact ==> is_found(
                    final(self)@,
                    (HitKind::SymbolicFact, nodes@[i].id@),
                    Evidence { retriever: Retriever::Graph, rank: i as usize },
                ),
            forall|i: int|
                0 <= i < nodes@.len() && (#[trigger] nodes@[i]).kind is SemanticEntry ==> is_found(
                    final(self)@,
                    (HitKind::SemanticEntry, nodes@[i].id@),
                    Evidence { retriever: Retriever::Graph, rank: i as usize },
                ),
    {
        let mut keys: Vec<Option<(HitKind, String)>> = Vec::new();
        let ghost named = node_names(nodes@);
        for i in 0..nodes.len()
            invariant
                named == node_names(nodes@),
                keys@.len() == i,
                forall|k: int|
                    0 <= k < i ==> match #[trigger] keys@[k] {
                        Some((kind, id)) => named[k] == Some((kind, id@)),
                        None => named[k] is None,
                    },
        {
            let key: Option<(HitKind, String)> = match nodes[i].kind {
                NodeKind::Episode => Some((HitKind::Episode, nodes[i].id.clone())),
                NodeKind::SymbolicFact => Some((HitKind::SymbolicFact, nodes[i].id.clone())),
                NodeKind::SemanticEntry => Some((HitKind::SemanticEntry, nodes[i].id.clone())),
                _ => None,
            };
            keys.push(key);
        }
        let ghost before = self@;
        self.add_all(&keys, Retriever::Graph, Ghost(named));
        proof {
            assert(nodes.len() == nodes@.len());
            nothing_found_is_lost(before, named, Retriever::Graph, named.len() as int);
            assert forall|i: int|
                0 <= i < nodes@.len() && node_kind((#[trigger] nodes@[i]).kind) is Some implies
                is_found(
                self@,
                (node_kind(nodes@[i].kind)->0, nodes@[i].id@),
                Evidence { retriever: Retriever::Graph, rank: i as usize },
            ) by {
                assert(named[i] == Some((node_kind(nodes@[i].kind)->0, nodes@[i].id@)));
                named_one_is_found(self@, named[i]->0, Retriever::Graph, i);
            }
        }
    }

    /// What the graph is searched from: the first five found.
    pub fn seeds(&self) -> (r: Vec<NodeRef>)
        ensures
            r@.len() == (if self@.len() < 5 {
                self@.len()
            } else {
                5
            }),
            forall|i: int|
                0 <= i < r@.len() ==> (#[trigger] r@[i]).id@ == self@[i].id && node_kind(r@[i].kind)
                    == Some(self@[i].kind),
    {
        let mut out: Vec<NodeRef> = Vec::new();
        let n: usize = if self.list.len() < 5 {
            self.list.len()
        } else {
            5
        };
        for i in 0..n
            invariant
                n <= self.list@.len(),
                out@.len() == i,
                forall|k: int|
                    0 <= k < i ==> (#[trigger] out@[k]).id@ == self@[k].id && node_kind(out@[k].kind)
                        == Some(self@[k].kind),
        {
            assert(self@[i as int] == self.list@[i as int].found());
            let id = self.list[i].id.as_str();
            let node = match self.list[i].kind {
                HitKind::Episode => NodeRef::episode(id),
                HitKind::SymbolicFact => NodeRef::fact(id),
                HitKind::SemanticEntry => NodeRef::atlas(id),
            };
            out.push(node);
        }
        out
    }

    /// The candidates.
    pub fn into_list(self) -> (r: Vec<Accum>)
        ensures
            found_in(r@) == self@,
    {
        self.list
    }
}

/// Whether a thing stands among the candidates with this piece of evidence.
pub open spec fn is_found(list: Seq<Found>, key: (HitKind, Seq<char>), e: Evidence) -> bool {
    exists|k: int|
        0 <= k < list.len() && (#[trigger] list[k]).kind == key.0 && list[k].id == key.1
            && list[k].evidence.contains(e)
}

proof fn named_one_is_found(
    list: Seq<Found>,
    key: (HitKind, Seq<char>),
    retriever: Retriever,
    i: int,
)
    requires
        exists|k: int| names(list, k, key, retriever, i),
    ensures
        is_found(list, key, (Evidence { retriever, rank: i as usize })),
{
    let k = choose|k: int| names(list, k, key, retriever, i);
    let j = choose|j: int|
        0 <= j < list[k].evidence.len() && #[trigger] list[k].evidence[j] == (Evidence {
            retriever,
            rank: i as usize,
        });
    assert(list[k].evidence.contains(list[k].evidence[j]));
}

proof fn listed_ones_are_found(
    list: Seq<Found>,
    kind: HitKind,
    ids: Seq<String>,
    retriever: Retriever,
)
    requires
        merged(list),
        ids.len() <= usize::MAX,
    ensures
        forall|i: int|
            0 <= i < ids.len() ==> is_found(
                noted_all(list, all_of(kind, texts(ids)), retriever, ids.len() as int),
                (kind, (#[trigger] ids[i])@),
                (Evidence { retriever, rank: i as usize }),
            ),
{
    let named = all_of(kind, texts(ids));
    nothing_found_is_lost(list, named, retriever, ids.len() as int);
    assert forall|i: int| 0 <= i < ids.len() implies is_found(
        noted_all(list, named, retriever, ids.len() as int),
        (kind, (#[trigger] ids[i])@),
        (Evidence { retriever, rank: i as usize }),
    ) by {
        assert(named[i] == Some((kind, ids[i]@)));
        named_one_is_found(
            noted_all(list, named, retriever, ids.len() as int),
            (kind, ids[i]@),
            retriever,
            i,
        );
    }
}

/// No evidence is made up: what is known of a candidate was known before, or the retriever
/// names that very thing at that place.
pub proof fn no_evidence_is_made_up(
    list: Seq<Found>,
    named: Seq<Option<(HitKind, Seq<char>)>>,
    retriever: Retriever,
    n: int,
    key: (HitKind, Seq<char>),
    e: Evidence,
)
    requires
        merged(list),
        0 <= n <= named.len() <= usize::MAX,
        is_found(noted_all(list, named, retriever, n), key, e),
    ensures
        is_found(list, key, e) || (e.retriever == retriever && e.rank < n && named[e.rank as int]
            == Some(key)),
    decreases n,
{
    if n > 0 {
        nothing_found_is_lost(list, named, retriever, n - 1);
        let before = noted_all(list, named, retriever, n - 1);
        let after = noted_all(list, named, retriever, n);
        let k = choose|k: int|
            0 <= k < after.len() && (#[trigger] after[k]).kind == key.0 && after[k].id == key.1
                && after[k].evidence.contains(e);
        match named[n - 1] {
            Some((kind, id)) => {
                let new = Evidence { retriever, rank: (n - 1) as usize };
                noting_keeps_apart(before, kind, id, new);
                place_is_first(before, kind, id, 0);
                if e == new && kind == key.0 && id == key.1 {
                } else {
                    let at = place_from(before, kind, id, 0);
                    if k == at {
                        let j = choose|j: int|
                            0 <= j < after[k].evidence.len() && after[k].evidence[j] == e;
                        if at < before.len() {
                            assert(after[k].evidence == before[at].evidence.push(new));
                            if j < before[at].evidence.len() {
                                assert(before[at].evidence[j] == e);
                                assert(before[at].evidence.contains(e));
                                assert(is_found(before, key, e));
                            } else {
                                assert(e == new);
                                assert(after[at].kind == kind && after[at].id == id);
                            }
                        } else {
                            assert(after[k].evidence =~= seq![new]);
                            assert(e == new);
                            assert(after[at].kind == kind && after[at].id == id);
                        }
                    } else {
                        assert(k < before.len());
                        assert(after[k] == before[k]);
                        assert(is_found(before, key, e));
                    }
                    if is_found(before, key, e) {
                        no_evidence_is_made_up(list, named, retriever, n - 1, key, e);
                    }
                }
            },
            None => {
                no_evidence_is_made_up(list, named, retriever, n - 1, key, e);
            },
        }
    }
}

/// The retrievers of a candidate are those that gave evidence for it, each once.
pub proof fn each_retriever_is_named_once(c: &Accum, r: Vec<Retriever>, i: int)
    requires
        call_ensures(Accum::retrievers, (c,), r),
        0 <= i < c.evidence@.len(),
    ensures
        r@.no_duplicates(),
        r@.contains(c.evidence@[i].retriever),
        forall|k: int|
            0 <= k < r@.len() ==> exists|j: int|
                0 <= j < c.evidence@.len() && (#[trigger] c.evidence@[j]).retriever == (
                #[trigger] r@[k]),
{
    agreement_counts_each_retriever_once(c.evidence@);
    assert forall|k: int| 0 <= k < r@.len() implies exists|j: int|
        0 <= j < c.evidence@.len() && (#[trigger] c.evidence@[j]).retriever == (#[trigger] r@[k]) by {
        assert(distinct(c.evidence@).contains(r@[k]));
    }
}

} // verus!
