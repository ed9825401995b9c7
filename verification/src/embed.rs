//! Embeddings for dense retrieval.
//!
//! Without a configured endpoint texts are embedded by hashing their words and character
//! triples: deterministic, local, and lexical rather than semantic. Here the projection is
//! counted in whole numbers; the caller scales it to unit length.

use crate::error::Error;
use crate::ids::{blake3_digest, blake3_hash};
use crate::json::{Json, Tree};
use crate::lines::{lowered, to_lowercase};
use crate::recall::terms::{cut, cut_at, separators, separators_of};
use crate::text::{
    blank, byte_count, bytes_of, chars_of, digits, is_blank, push_nat, strip_back, texts,
    trim_end_char,
};
use vstd::prelude::*;
use vstd::string::*;

verus! {

/// The usual number of dimensions, which is that of common small models.
pub const DEFAULT_DIM: usize = 384;

/// Embeds by hashing: no model, no network, no randomness.
#[derive(Debug, Clone, Copy)]
pub struct HashingEmbedder {
    dim: usize,
}

impl Default for HashingEmbedder {
    fn default() -> (r: Self)
        ensures
            r.width() == DEFAULT_DIM,
            r.wf(),
    {
        HashingEmbedder { dim: DEFAULT_DIM }
    }
}

/// The words of a text with at least two bytes, marked as words, among the first `n` pieces.
pub open spec fn word_features(pieces: Seq<Seq<char>>, n: int) -> Seq<Seq<char>>
    decreases n,
{
    if n <= 0 {
        Seq::empty()
    } else if bytes_of(pieces[n - 1]) >= 2 {
        word_features(pieces, n - 1).push("w:"@ + pieces[n - 1])
    } else {
        word_features(pieces, n - 1)
    }
}

/// The character triples inside words that begin before position `n`, marked as triples.
pub open spec fn triple_features(text: Seq<char>, apart: Seq<bool>, n: int) -> Seq<Seq<char>>
    decreases n,
{
    if n <= 0 {
        Seq::empty()
    } else if !apart[n - 1] && !apart[n] && !apart[n + 1] {
        triple_features(text, apart, n - 1).push("t:"@ + text.subrange(n - 1, n + 2))
    } else {
        triple_features(text, apart, n - 1)
    }
}

/// The features of a text in lowercase whose separators are marked: its words, then the
/// character triples inside them.
pub open spec fn features_in(text: Seq<char>, apart: Seq<bool>) -> Seq<Seq<char>> {
    let pieces = cut(text, apart);
    word_features(pieces, pieces.len() as int) + triple_features(text, apart, text.len() - 2)
}

/// The features of a text, whatever its case.
pub open spec fn features_of(text: Seq<char>) -> Seq<Seq<char>> {
    let lower = lowered(text);
    features_in(lower, separators(lower))
}

/// Where the digest of a feature falls among `dim` dimensions: by its first four bytes, the
/// least significant first.
pub open spec fn slot_of(digest: Seq<u8>, dim: int) -> int {
    (digest[0] + 256 * digest[1] + 65536 * digest[2] + 16777216 * digest[3]) % dim
}

/// What a feature adds there: the fifth byte decides the sign.
pub open spec fn sign_of(digest: Seq<u8>) -> int {
    if digest[4] % 2 == 0 {
        1
    } else {
        -1
    }
}

/// The counts of the first `n` features.
pub open spec fn counts(features: Seq<Seq<char>>, dim: nat, n: int) -> Seq<int>
    decreases n,
{
    if n <= 0 {
        Seq::new(dim, |i: int| 0)
    } else {
        let before = counts(features, dim, n - 1);
        let digest = blake3_digest(vstd::utf8::encode_utf8(features[n - 1]));
        let at = slot_of(digest, dim as int);
        before.update(at, before[at] + sign_of(digest))
    }
}

/// The projection of a text before it is scaled.
pub open spec fn projection(text: Seq<char>, dim: nat) -> Seq<int> {
    counts(features_of(text), dim, features_of(text).len() as int)
}

/// The numbers of a list, mathematically.
pub open spec fn ints(v: Seq<i128>) -> Seq<int> {
    Seq::new(v.len(), |i: int| v[i] as int)
}

/// No dimension counts more than there are features, and each feature moves one dimension by
/// one.
pub proof fn each_feature_counts_once(features: Seq<Seq<char>>, dim: nat, n: int)
    requires
        0 <= n <= features.len(),
        dim > 0,
    ensures
        counts(features, dim, n).len() == dim,
        forall|i: int| 0 <= i < dim ==> -n <= #[trigger] counts(features, dim, n)[i] <= n,
        n > 0 ==> exists|at: int|
            0 <= at < dim && (#[trigger] counts(features, dim, n)[at] == counts(
                features,
                dim,
                n - 1,
            )[at] + 1 || counts(features, dim, n)[at] == counts(features, dim, n - 1)[at] - 1)
                && forall|i: int|
                0 <= i < dim && i != at ==> #[trigger] counts(features, dim, n)[i] == counts(
                    features,
                    dim,
                    n - 1,
                )[i],
    decreases n,
{
    if n > 0 {
        each_feature_counts_once(features, dim, n - 1);
        let before = counts(features, dim, n - 1);
        let after = counts(features, dim, n);
        let digest = blake3_digest(vstd::utf8::encode_utf8(features[n - 1]));
        let at = slot_of(digest, dim as int);
        assert(0 <= at < dim);
        assert(after[at] == before[at] + sign_of(digest));
        assert forall|i: int| 0 <= i < dim && i != at implies #[trigger] after[i] == before[i] by {}
    }
}

/// Reads where a digest falls and with which sign.
pub fn place(digest: &[u8; 32], dim: usize) -> (r: (usize, bool))
    requires
        dim > 0,
    ensures
        r.0 == slot_of(digest@, dim as int),
        r.0 < dim,
        r.1 == (sign_of(digest@) == 1),
{
    let number: u64 = digest[0] as u64 + 256 * (digest[1] as u64) + 65536 * (digest[2] as u64)
        + 16777216 * (digest[3] as u64);
    let at: u64 = number % (dim as u64);
    (at as usize, digest[4] % 2 == 0)
}

impl HashingEmbedder {
    /// The number of dimensions.
    pub closed spec fn width(self) -> nat {
        self.dim as nat
    }

    /// There is a dimension to fall into.
    pub open spec fn wf(self) -> bool {
        self.width() > 0
    }

    /// An embedder of so many dimensions, sixteen at least.
    pub fn new(dim: usize) -> (r: Self)
        ensures
            r.width() == (if dim < 16 {
                16
            } else {
                dim as nat
            }),
            r.wf(),
    {
        HashingEmbedder {
            dim: if dim < 16 {
                16
            } else {
                dim
            },
        }
    }

    /// The features of a text in lowercase whose separators are marked.
    pub fn marked_features(lower: &str, apart: &Vec<bool>) -> (r: Vec<String>)
        requires
            apart@.len() == lower@.len(),
        ensures
            texts(r@) == features_in(lower@, apart@),
    {
        let parts = cut_at(lower, apart);
        let ghost pieces = texts(parts@);
        let mut out: Vec<String> = Vec::new();
        assert(texts(out@) =~= Seq::empty());
        for i in 0..parts.len()
            invariant
                pieces == texts(parts@),
                texts(out@) == word_features(pieces, i as int),
        {
            let ghost before = texts(out@);
            if byte_count(parts[i].as_str()) >= 2 {
                let mut feature = String::from_str("w:");
                feature.append(parts[i].as_str());
                let ghost said = feature@;
                out.push(feature);
                assert(texts(out@) =~= before.push(said));
            }
        }
        let ghost words = texts(out@);
        let cs = chars_of(lower);
        let n: usize = cs.len();
        assert(words =~= words + triple_features(lower@, apart@, 0));
        if n >= 3 {
            for i in 0..n - 2
                invariant
                    n >= 3,
                    n == cs@.len(),
                    cs@ == lower@,
                    apart@.len() == n,
                    texts(out@) == words + triple_features(lower@, apart@, i as int),
            {
                let ghost before = texts(out@);
                let ghost so_far = triple_features(lower@, apart@, i as int);
                if !apart[i] && !apart[i + 1] && !apart[i + 2] {
                    let mut feature = String::from_str("t:");
                    feature.push(cs[i]);
                    feature.push(cs[i + 1]);
                    feature.push(cs[i + 2]);
                    let ghost said = feature@;
                    assert(said =~= "t:"@ + lower@.subrange(i as int, i as int + 3));
                    out.push(feature);
                    assert(texts(out@) =~= before.push(said));
                    assert(texts(out@) =~= words + so_far.push(said));
                }
            }
        } else {
            assert(triple_features(lower@, apart@, lower@.len() - 2) =~= Seq::empty());
        }
        out
    }

    /// The features of a text.
    pub fn features(text: &str) -> (r: Vec<String>)
        ensures
            texts(r@) == features_of(text@),
            text@.len() == 0 ==> r@.len() == 0,
    {
        let lower = to_lowercase(text);
        let apart = separators_of(lower.as_str());
        let out = Self::marked_features(lower.as_str(), &apart);
        proof {
            if text@.len() == 0 {
                assert(lower@ =~= Seq::empty());
                let pieces = cut(lower@, apart@);
                assert(pieces =~= seq![Seq::<char>::empty()]);
                assert(bytes_of(pieces[0]) == 0);
                assert(word_features(pieces, 0) =~= Seq::empty());
                assert(word_features(pieces, 1) =~= Seq::empty());
                assert(texts(out@).len() == 0);
            }
        }
        out
    }

    /// The projection of a text: each feature falls into one dimension and moves it up or down
    /// by one. Nothing projects to nothing.
    pub fn hash_counts(&self, text: &str) -> (r: Vec<i128>)
        requires
            self.wf(),
        ensures
            ints(r@) == projection(text@, self.width()),
            r@.len() == self.width(),
            text@.len() == 0 ==> forall|i: int| 0 <= i < r@.len() ==> #[trigger] r@[i] == 0,
    {
        let list = Self::features(text);
        let n: usize = list.len();
        let mut out: Vec<i128> = Vec::new();
        for i in 0..self.dim
            invariant
                out@.len() == i,
                forall|k: int| 0 <= k < i ==> #[trigger] out@[k] == 0,
        {
            out.push(0);
        }
        assert(ints(out@) =~= counts(texts(list@), self.width(), 0));
        for i in 0..n
            invariant
                n == list@.len(),
                self.wf(),
                self.dim == self.width(),
                out@.len() == self.dim,
                ints(out@) == counts(texts(list@), self.width(), i as int),
        {
            let digest = blake3_hash(list[i].as_str().as_bytes());
            assert(texts(list@)[i as int] == list@[i as int]@);
            let (at, up) = place(&digest, self.dim);
            proof {
                each_feature_counts_once(texts(list@), self.width(), i as int);
                assert(ints(out@)[at as int] == out@[at as int]);
                assert(-(i as int) <= out@[at as int] <= i);
            }
            let moved: i128 = if up {
                out[at] + 1
            } else {
                out[at] - 1
            };
            out.set(at, moved);
            assert(ints(out@) =~= counts(texts(list@), self.width(), i as int + 1));
        }
        proof {
            if text@.len() == 0 {
                assert forall|i: int| 0 <= i < out@.len() implies #[trigger] out@[i] == 0 by {
                    assert(ints(out@)[i] == 0);
                }
            }
        }
        out
    }

    /// The projections of several texts, in their order.
    pub fn hash_all(&self, batch: &Vec<String>) -> (r: Vec<Vec<i128>>)
        requires
            self.wf(),
        ensures
            r@.len() == batch@.len(),
            forall|i: int|
                0 <= i < r@.len() ==> ints((#[trigger] r@[i])@) == projection(
                    batch@[i]@,
                    self.width(),
                ),
    {
        let mut out: Vec<Vec<i128>> = Vec::new();
        for i in 0..batch.len()
            invariant
                self.wf(),
                out@.len() == i,
                forall|k: int|
                    0 <= k < i ==> ints((#[trigger] out@[k])@) == projection(
                        batch@[k]@,
                        self.width(),
                    ),
        {
            out.push(self.hash_counts(batch[i].as_str()));
        }
        out
    }

    /// What is known of the embedder.
    pub fn info(&self) -> (r: EmbedderInfo)
        ensures
            r.model_id@ == "sakur4-hashing-v1"@,
            r.dim == self.width(),
            !r.is_semantic,
            r.about@ == hashing_text(self.width()),
    {
        let mut about = String::from_str("sakur4-hashing-v1");
        about.append(" (dim ");
        push_nat(&mut about, self.dim as u64);
        about.append(
            ", deterministic hashing of word unigrams + character trigrams; local and dependency-free, but lexical rather than semantic — configure a local embedding endpoint for real semantic recall)",
        );
        EmbedderInfo {
            model_id: "sakur4-hashing-v1".to_owned(),
            dim: self.dim,
            is_semantic: false,
            about,
        }
    }
}

/// The description of the hashing embedder.
pub open spec fn hashing_text(dim: nat) -> Seq<char> {
    "sakur4-hashing-v1"@ + " (dim "@ + digits(dim)
        + ", deterministic hashing of word unigrams + character trigrams; local and dependency-free, but lexical rather than semantic — configure a local embedding endpoint for real semantic recall)"@
}

/// What is known of an embedder.
#[derive(Debug)]
pub struct EmbedderInfo {
    /// Names the embedding space; vectors of different spaces are never compared.
    pub model_id: String,
    pub dim: usize,
    /// Whether it is a learned model.
    pub is_semantic: bool,
    /// The description for a person.
    pub about: String,
}

/// The usual description of an embedder.
pub open spec fn usual_text(model_id: Seq<char>, dim: nat, is_semantic: bool) -> Seq<char> {
    model_id + " (dim "@ + digits(dim) + ", "@ + (if is_semantic {
        "semantic"@
    } else {
        "deterministic hashing — lexical only, no semantic generalisation"@
    }) + ")"@
}

impl EmbedderInfo {
    /// An embedder with the usual description.
    pub fn new(model_id: &str, dim: usize, is_semantic: bool) -> (r: Self)
        ensures
            r.model_id@ == model_id@,
            r.dim == dim,
            r.is_semantic == is_semantic,
            r.about@ == usual_text(model_id@, dim as nat, is_semantic),
    {
        let mut about = String::from_str(model_id);
        about.append(" (dim ");
        push_nat(&mut about, dim as u64);
        about.append(", ");
        if is_semantic {
            about.append("semantic");
        } else {
            about.append("deterministic hashing — lexical only, no semantic generalisation");
        }
        about.append(")");
        EmbedderInfo { model_id: model_id.to_owned(), dim, is_semantic, about }
    }
}

/// Uses one embedder while it works, and another while it does not.
#[derive(Debug)]
pub struct FallbackEmbedder {
    primary: EmbedderInfo,
    secondary: EmbedderInfo,
    degraded: bool,
}

impl FallbackEmbedder {
    /// The one that is used while it works.
    pub closed spec fn first(self) -> EmbedderInfo {
        self.primary
    }

    /// The one that is used otherwise.
    pub closed spec fn second(self) -> EmbedderInfo {
        self.secondary
    }

    /// Whether the first failed when it was last asked.
    pub closed spec fn failing(self) -> bool {
        self.degraded
    }

    /// The one in use.
    pub open spec fn current(self) -> EmbedderInfo {
        if self.failing() {
            self.second()
        } else {
            self.first()
        }
    }

    pub fn new(primary: EmbedderInfo, secondary: EmbedderInfo) -> (r: Self)
        ensures
            r.first() == primary,
            r.second() == secondary,
            !r.failing(),
    {
        FallbackEmbedder { primary, secondary, degraded: false }
    }

    /// Whether the first failed when it was last asked.
    pub fn is_degraded(&self) -> (r: bool)
        ensures
            r == self.failing(),
    {
        self.degraded
    }

    /// Takes in whether the first answered, and says whether the second is to be asked.
    pub fn answered(&mut self, ok: bool) -> (ask_second: bool)
        ensures
            ask_second == !ok,
            final(self).failing() == !ok,
            final(self).first() == old(self).first(),
            final(self).second() == old(self).second(),
    {
        self.degraded = !ok;
        !ok
    }

    /// The space of the vectors that are produced now.
    pub fn model_id(&self) -> (r: &str)
        ensures
            r@ == self.current().model_id@,
    {
        if self.degraded {
            self.secondary.model_id.as_str()
        } else {
            self.primary.model_id.as_str()
        }
    }

    pub fn dim(&self) -> (r: usize)
        ensures
            r == self.first().dim,
    {
        self.primary.dim
    }

    pub fn is_semantic(&self) -> (r: bool)
        ensures
            r == self.current().is_semantic,
    {
        if self.degraded {
            self.secondary.is_semantic
        } else {
            self.primary.is_semantic
        }
    }

    pub fn describe(&self) -> (r: String)
        ensures
            r@ == (if self.failing() {
                "DEGRADED — primary "@ + self.first().model_id@ + " unavailable, using "@
                    + self.second().about@
            } else {
                self.first().about@
            }),
    {
        if self.degraded {
            let mut out = String::from_str("DEGRADED — primary ");
            out.append(self.primary.model_id.as_str());
            out.append(" unavailable, using ");
            out.append(self.secondary.about.as_str());
            out
        } else {
            self.primary.about.clone()
        }
    }
}

/// An endpoint that embeds texts, in the manner of `/v1/embeddings`.
#[derive(Debug)]
pub struct OpenAiEmbedder {
    base_url: String,
    model: String,
    dim: usize,
    api_key: Option<String>,
}

/// A text, unless it is blank.
pub open spec fn unless_blank(s: Option<&str>) -> Option<Seq<char>> {
    match s {
        Some(t) => if is_blank(t@) {
            None
        } else {
            Some(t@)
        },
        None => None,
    }
}

fn kept_unless_blank(s: Option<&str>) -> (r: Option<String>)
    ensures
        match r {
            Some(t) => unless_blank(s) == Some(t@),
            None => unless_blank(s) is None,
        },
{
    match s {
        Some(t) => if blank(t) {
            None
        } else {
            Some(t.to_owned())
        },
        None => None,
    }
}

impl OpenAiEmbedder {
    /// The address, without slashes at its end.
    pub closed spec fn base(self) -> Seq<char> {
        self.base_url@
    }

    /// The model that is asked for.
    pub closed spec fn asked_model(self) -> Seq<char> {
        self.model@
    }

    /// The width of its vectors.
    pub closed spec fn width(self) -> nat {
        self.dim as nat
    }

    /// The key that is sent along.
    pub closed spec fn key(self) -> Option<Seq<char>> {
        match self.api_key {
            Some(k) => Some(k@),
            None => None,
        }
    }

    /// The endpoint at an address; a blank key is no key.
    pub fn new(base_url: &str, model: &str, dim: usize, api_key: Option<&str>) -> (r: Self)
        ensures
            r.base() == strip_back(base_url@, '/'),
            r.asked_model() == model@,
            r.width() == dim,
            r.key() == unless_blank(api_key),
    {
        OpenAiEmbedder {
            base_url: trim_end_char(base_url, '/'),
            model: model.to_owned(),
            dim,
            api_key: kept_unless_blank(api_key),
        }
    }

    /// Where texts are sent.
    pub fn url(&self) -> (r: String)
        ensures
            r@ == self.base() + "/v1/embeddings"@,
    {
        self.base_url.clone().concat("/v1/embeddings")
    }

    pub fn model_id(&self) -> (r: &str)
        ensures
            r@ == self.asked_model(),
    {
        self.model.as_str()
    }

    pub fn dim(&self) -> (r: usize)
        ensures
            r == self.width(),
    {
        self.dim
    }

    /// The key that is sent along.
    pub fn api_key(&self) -> (r: Option<&str>)
        ensures
            match r {
                Some(k) => self.key() == Some(k@),
                None => self.key() is None,
            },
    {
        match &self.api_key {
            Some(k) => Some(k.as_str()),
            None => None,
        }
    }

    /// The failure of a reply with this status.
    pub fn refused(&self, status: &str) -> (r: Error)
        ensures
            r matches Error::BackendUnavailable(m) && m@ == "embedding endpoint returned "@ + status@,
    {
        Error::BackendUnavailable(String::from_str("embedding endpoint returned ").concat(status))
    }

    /// How long each vector of a reply is, in their order.
    pub fn vector_lengths(&self, doc: &Json) -> (r: Result<Vec<usize>, Error>)
        ensures
            match data_of(doc.tree()) {
                None => r matches Err(Error::BackendUnavailable(m)) && m@
                    == "embedding response had no data array"@,
                Some(items) => match r {
                    Ok(lengths) => lengths@.len() == items.len() && forall|i: int|
                        0 <= i < items.len() ==> vector_length(#[trigger] items[i]) == Some(
                            lengths@[i] as nat,
                        ),
                    Err(e) => e matches Error::BackendUnavailable(m) && m@
                        == "embedding item had no vector"@ && !all_vectors(items),
                },
            },
            r is Ok <==> data_of(doc.tree()) is Some && all_vectors(data_of(doc.tree())->0),
    {
        let items: &Vec<Json> = match doc.get("data") {
            Some(d) => match d.as_array() {
                Some(list) => list,
                None => {
                    return Err(
                        Error::BackendUnavailable(
                            "embedding response had no data array".to_owned(),
                        ),
                    );
                },
            },
            None => {
                return Err(
                    Error::BackendUnavailable("embedding response had no data array".to_owned()),
                );
            },
        };
        let ghost list = crate::json::trees(items@);
        proof {
            crate::json::trees_in_order(items@);
        }
        let mut out: Vec<usize> = Vec::new();
        for i in 0..items.len()
            invariant
                data_of(doc.tree()) == Some(list),
                list.len() == items@.len(),
                forall|k: int| 0 <= k < list.len() ==> #[trigger] list[k] == items@[k].tree(),
                out@.len() == i,
                forall|k: int|
                    0 <= k < i ==> vector_length(#[trigger] list[k]) == Some(out@[k] as nat),
        {
            assert(list[i as int] == items@[i as int].tree());
            let vector: Option<&Vec<Json>> = match items[i].get("embedding") {
                Some(e) => e.as_array(),
                None => None,
            };
            match vector {
                Some(v) => {
                    proof {
                        crate::json::trees_in_order(v@);
                    }
                    out.push(v.len());
                },
                None => {
                    assert(vector_length(list[i as int]) is None);
                    assert(!all_vectors(list));
                    return Err(
                        Error::BackendUnavailable("embedding item had no vector".to_owned()),
                    );
                },
            }
        }
        assert(all_vectors(list)) by {
            assert forall|k: int| 0 <= k < list.len() implies vector_length(#[trigger] list[k])
                is Some by {}
        }
        Ok(out)
    }

    /// The width of an endpoint's vectors, by the reply to one text.
    pub fn probed(lengths: &Vec<usize>) -> (r: Result<usize, Error>)
        ensures
            lengths@.len() > 0 ==> r == Ok::<usize, Error>(lengths@.last()),
            lengths@.len() == 0 ==> (r matches Err(Error::Other(m)) && m@
                == "embedder returned no vector"@),
    {
        if lengths.len() > 0 {
            Ok(lengths[lengths.len() - 1])
        } else {
            Err(Error::Other("embedder returned no vector".to_owned()))
        }
    }
}

/// The items of a reply.
pub open spec fn data_of(doc: Tree) -> Option<Seq<Tree>> {
    match doc.get("data"@) {
        Some(d) => d.as_list(),
        None => None,
    }
}

/// How long the vector of an item is.
pub open spec fn vector_length(item: Tree) -> Option<nat> {
    match item.get("embedding"@) {
        Some(e) => match e.as_list() {
            Some(list) => Some(list.len()),
            None => None,
        },
        None => None,
    }
}

/// Whether every item has a vector.
pub open spec fn all_vectors(items: Seq<Tree>) -> bool {
    forall|i: int| 0 <= i < items.len() ==> vector_length(#[trigger] items[i]) is Some
}

/// The model that is asked for where none is named.
pub open spec fn usual_model() -> Seq<char> {
    "nomic-embed-text"@
}

/// Which endpoint the configuration names, and which model there: what is given, or else what
/// the environment holds. A blank address is no endpoint, and then texts are hashed.
pub fn resolve(
    url: Option<&str>,
    model: Option<&str>,
    env_url: Option<&str>,
    env_model: Option<&str>,
) -> (r: Option<(String, String)>)
    ensures
        ({
            let asked = unless_blank(
                if url is Some {
                    url
                } else {
                    env_url
                },
            );
            match r {
                Some((u, m)) => asked == Some(u@) && m@ == (match (model, env_model) {
                    (Some(given), _) => given@,
                    (None, Some(set)) => set@,
                    (None, None) => usual_model(),
                }),
                None => asked is None,
            }
        }),
{
    let address: Option<&str> = match url {
        Some(u) => Some(u),
        None => env_url,
    };
    match kept_unless_blank(address) {
        Some(u) => {
            let name: &str = match (model, env_model) {
                (Some(given), _) => given,
                (None, Some(set)) => set,
                (None, None) => "nomic-embed-text",
            };
            Some((u, name.to_owned()))
        },
        None => None,
    }
}

/// The features of a text are its words of at least two bytes, marked as such, and the triples
/// of characters inside words, marked as such: every triple is one, and so is every whole word
/// that is long enough.
pub proof fn words_and_triples_are_features(
    lower: &str,
    apart: &Vec<bool>,
    r: Vec<String>,
    i: int,
    from: int,
    to: int,
)
    requires
        call_ensures(HashingEmbedder::marked_features, (lower, apart), r),
        apart@.len() == lower@.len(),
        0 <= i,
        i + 2 < lower@.len(),
        0 <= from < to <= lower@.len(),
        from == 0 || apart@[from - 1],
        to == lower@.len() || apart@[to],
        forall|k: int| from <= k < to ==> !#[trigger] apart@[k],
    ensures
        !apart@[i] && !apart@[i + 1] && !apart@[i + 2] ==> texts(r@).contains(
            "t:"@ + lower@.subrange(i, i + 3),
        ),
        bytes_of(lower@.subrange(from, to)) >= 2 ==> texts(r@).contains(
            "w:"@ + lower@.subrange(from, to),
        ),
{
    let pieces = cut(lower@, apart@);
    let words = word_features(pieces, pieces.len() as int);
    let triples = triple_features(lower@, apart@, lower@.len() - 2);
    assert(texts(r@) == words + triples);
    if !apart@[i] && !apart@[i + 1] && !apart@[i + 2] {
        let k = triples_are_kept(lower@, apart@, lower@.len() - 2, i);
        assert((words + triples)[words.len() + k] == triples[k]);
    }
    let p = the_piece_of(lower@, apart@, from, to);
    if bytes_of(pieces[p]) >= 2 {
        let k = words_are_kept(pieces, pieces.len() as int, p);
        assert((words + triples)[k] == words[k]);
    }
}

/// The piece that a whole word is.
proof fn the_piece_of(s: Seq<char>, apart: Seq<bool>, a: int, b: int) -> (p: int)
    requires
        0 <= a <= b <= s.len() <= apart.len(),
        a == 0 || apart[a - 1],
        forall|k: int| a <= k < b ==> !#[trigger] apart[k],
        b == s.len() || apart[b],
    ensures
        0 <= p < cut(s, apart).len(),
        cut(s, apart)[p] == s.subrange(a, b),
        p == cut(s, apart).len() - 1 <==> b == s.len(),
    decreases s.len(),
{
    if s.len() == 0 {
        assert(s.subrange(0, 0) =~= Seq::empty());
        0
    } else {
        let t = s.drop_last();
        let before = cut(t, apart);
        let runs = crate::recall::terms::pieces_are_runs(t, apart);
        if b == s.len() && a == b {
            assert(s.subrange(a, b) =~= Seq::empty());
            cut(s, apart).len() - 1
        } else if b == s.len() {
            assert(!apart[b - 1]);
            let q = the_piece_of(t, apart, a, b - 1);
            assert(s.subrange(a, b) =~= t.subrange(a, b - 1).push(s.last()));
            before.len() - 1
        } else {
            let q = the_piece_of(t, apart, a, b);
            assert(s.subrange(a, b) =~= t.subrange(a, b));
            q
        }
    }
}

proof fn triples_are_kept(text: Seq<char>, apart: Seq<bool>, n: int, i: int) -> (k: int)
    requires
        0 <= i < n,
        n + 2 <= text.len() == apart.len(),
        !apart[i] && !apart[i + 1] && !apart[i + 2],
    ensures
        0 <= k < triple_features(text, apart, n).len(),
        triple_features(text, apart, n)[k] == "t:"@ + text.subrange(i, i + 3),
    decreases n,
{
    let before = triple_features(text, apart, n - 1);
    if i == n - 1 {
        before.len() as int
    } else {
        let k = triples_are_kept(text, apart, n - 1, i);
        assert(triple_features(text, apart, n)[k] == before[k]);
        k
    }
}

proof fn words_are_kept(pieces: Seq<Seq<char>>, n: int, p: int) -> (k: int)
    requires
        0 <= p < n <= pieces.len(),
        bytes_of(pieces[p]) >= 2,
    ensures
        0 <= k < word_features(pieces, n).len(),
        word_features(pieces, n)[k] == "w:"@ + pieces[p],
    decreases n,
{
    let before = word_features(pieces, n - 1);
    if p == n - 1 {
        before.len() as int
    } else {
        let k = words_are_kept(pieces, n - 1, p);
        assert(word_features(pieces, n)[k] == before[k]);
        k
    }
}

/// Texts that differ in case only project alike.
pub proof fn case_makes_no_difference(
    embedder: &HashingEmbedder,
    one: &str,
    other: &str,
    a: Vec<i128>,
    b: Vec<i128>,
)
    requires
        call_ensures(HashingEmbedder::hash_counts, (embedder, one), a),
        call_ensures(HashingEmbedder::hash_counts, (embedder, other), b),
        lowered(one@) == lowered(other@),
    ensures
        a@ == b@,
{
    assert forall|i: int| 0 <= i < a@.len() implies a@[i] == b@[i] by {
        assert(ints(a@)[i] == ints(b@)[i]);
    }
    assert(a@ =~= b@);
}

/// A digest falls into the dimension that its first four bytes name, the least significant
/// first, counted round; and an even fifth byte moves it up.
pub proof fn a_digest_falls_by_its_first_bytes(digest: &[u8; 32], dim: usize, r: (usize, bool))
    requires
        dim > 0,
        call_ensures(place, (digest, dim), r),
    ensures
        ({
            let number = digest@[0] + 256 * (digest@[1] + 256 * (digest@[2] + 256 * digest@[3]));
            &&& r.0 < dim && number >= r.0 && (number - r.0) % (dim as int) == 0
            &&& r.1 <==> digest@[4] % 2 == 0
        }),
{
    let number = digest@[0] + 256 * (digest@[1] + 256 * (digest@[2] + 256 * digest@[3]));
    assert(number == digest@[0] + 256 * digest@[1] + 65536 * digest@[2] + 16777216 * digest@[3]);
    vstd::arithmetic::div_mod::lemma_fundamental_div_mod(number, dim as int);
    let q = number / (dim as int);
    assert(number - number % (dim as int) == dim * q);
    assert((dim * q) % (dim as int) == 0) by (nonlinear_arith)
        requires
            dim > 0,
    ;
    assert(q >= 0 && dim * q >= 0) by (nonlinear_arith)
        requires
            q == number / (dim as int),
            number >= 0,
            dim > 0,
    ;
}

/// An embedder that fails gives way to the second one until it answers again.
pub proof fn the_first_embedder_is_used_while_it_answers(
    embedder: &mut FallbackEmbedder,
    ok: bool,
    ask_second: bool,
)
    requires
        call_ensures(FallbackEmbedder::answered, (embedder, ok), ask_second),
    ensures
        ask_second != ok,
        ok ==> final(embedder).current() == old(embedder).first(),
        !ok ==> final(embedder).current() == old(embedder).second(),
{
}

} // verus!
