//! Embedding by hashing, endpoints, and falling back.

use sakur4_core::embed::{
    place, resolve, EmbedderInfo, FallbackEmbedder, HashingEmbedder, OpenAiEmbedder, DEFAULT_DIM,
};
use sakur4_core::error::Error;
use sakur4_core::ids::digest;
use sakur4_core::json::Json;

fn normalised(counts: &[i128]) -> Vec<f32> {
    let mut v: Vec<f32> = counts.iter().map(|c| *c as f32).collect();
    let n = v.iter().map(|x| x * x).sum::<f32>().sqrt();
    if n > f32::EPSILON {
        for x in &mut v {
            *x /= n;
        }
    }
    v
}

fn embed(e: &HashingEmbedder, text: &str) -> Vec<f32> {
    normalised(&e.hash_counts(text))
}

#[test]
fn hashing_embedder_is_deterministic_and_normalised() {
    let e = HashingEmbedder::default();
    let a = embed(&e, "the cache coherence layer");
    let b = embed(&e, "the cache coherence layer");
    assert_eq!(a, b);
    assert_eq!(a.len(), DEFAULT_DIM);
    let n: f32 = a.iter().map(|x| x * x).sum::<f32>().sqrt();
    assert!((n - 1.0).abs() < 1e-4, "vectors must be L2-normalised, got {n}");
}

#[test]
fn similar_text_scores_higher_than_unrelated_text() {
    let e = HashingEmbedder::default();
    let q = embed(&e, "memory recall staleness");
    let close = embed(&e, "memory recall and staleness detection");
    let far = embed(&e, "banana bread recipe with walnuts");
    let dot = |a: &[f32], b: &[f32]| a.iter().zip(b).map(|(x, y)| x * y).sum::<f32>();
    assert!(dot(&q, &close) > dot(&q, &far), "lexical overlap must beat unrelated text");
}

#[test]
fn empty_text_yields_a_zero_vector_not_an_error() {
    let e = HashingEmbedder::default();
    let v = e.hash_counts("");
    assert_eq!(v.len(), DEFAULT_DIM);
    assert!(v.iter().all(|x| *x == 0));
}

#[test]
fn fallback_switches_over_and_reports_degradation() {
    let mut f = FallbackEmbedder::new(
        EmbedderInfo::new("broken-model", 8, true),
        HashingEmbedder::default().info(),
    );
    assert!(!f.is_degraded());
    assert_eq!(f.model_id(), "broken-model");
    assert!(f.is_semantic());
    assert_eq!(f.describe(), "broken-model (dim 8, semantic)");

    assert!(f.answered(false), "the second is asked");
    assert!(f.is_degraded());
    assert_eq!(f.model_id(), "sakur4-hashing-v1");
    assert!(!f.is_semantic());
    assert_eq!(f.dim(), 8);
    assert!(f.describe().contains("DEGRADED"));

    assert!(!f.answered(true), "the first is back");
    assert!(!f.is_degraded());
}

#[test]
fn resolve_without_configuration_returns_the_offline_embedder() {
    assert!(resolve(Some(""), None, Some("http://set"), None).is_none());
    assert!(resolve(None, None, None, None).is_none());
    let info = HashingEmbedder::default().info();
    assert!(!info.is_semantic);
    assert_eq!(info.model_id, "sakur4-hashing-v1");
    assert!(info.about.contains("dependency-free"));
}

#[test]
fn an_endpoint_is_named_by_what_is_given_or_set() {
    assert_eq!(
        resolve(Some("http://a"), None, Some("http://b"), Some("m")),
        Some(("http://a".into(), "m".into()))
    );
    assert_eq!(
        resolve(None, Some("x"), Some("http://b"), Some("m")),
        Some(("http://b".into(), "x".into()))
    );
    assert_eq!(
        resolve(Some("http://a"), None, None, None),
        Some(("http://a".into(), "nomic-embed-text".into()))
    );
}

#[test]
fn batch_embedding_preserves_order() {
    let e = HashingEmbedder::default();
    let texts = vec!["alpha".to_string(), "beta".to_string(), "gamma".to_string()];
    let vs = e.hash_all(&texts);
    assert_eq!(vs.len(), 3);
    assert_eq!(vs[0], e.hash_counts("alpha"));
    assert_eq!(vs[2], e.hash_counts("gamma"));
}

#[test]
fn features_are_words_and_triples_in_lowercase() {
    assert_eq!(
        HashingEmbedder::features("Ab c-def"),
        vec!["w:ab", "w:def", "t:def"]
    );
    assert_eq!(HashingEmbedder::marked_features("abc", &vec![false, true, false]).len(), 0);
}

#[test]
fn a_feature_moves_one_dimension_by_one() {
    let e = HashingEmbedder::new(1);
    assert_eq!(e.info().dim, 16);
    let counts = e.hash_counts("ab");
    let d = digest(b"w:ab");
    let at = u32::from_le_bytes([d[0], d[1], d[2], d[3]]) as usize % 16;
    let sign = if d[4] & 1 == 0 { 1 } else { -1 };
    assert_eq!(counts[at], sign);
    assert_eq!(counts.iter().filter(|c| **c != 0).count(), 1);
    assert_eq!(place(&d, 16), (at, sign == 1));
}

#[test]
fn an_endpoint_has_an_address_a_model_and_perhaps_a_key() {
    let e = OpenAiEmbedder::new("http://host//", "m", 7, Some("  "));
    assert_eq!(e.url(), "http://host/v1/embeddings");
    assert_eq!((e.model_id(), e.dim(), e.api_key()), ("m", 7, None));
    assert_eq!(OpenAiEmbedder::new("h", "m", 7, Some("k")).api_key(), Some("k"));
    assert!(matches!(e.refused("503"), Error::BackendUnavailable(m) if m.ends_with("503")));
}

#[test]
fn a_reply_is_read_by_its_shape() {
    let e = OpenAiEmbedder::new("h", "m", 7, None);
    let doc = Json::parse(r#"{"data":[{"embedding":[0.5,1]},{"embedding":[]}]}"#).unwrap();
    assert_eq!(e.vector_lengths(&doc).unwrap(), vec![2, 0]);
    let bare = Json::parse("{}").unwrap();
    assert!(matches!(e.vector_lengths(&bare), Err(Error::BackendUnavailable(m)) if m.contains("data")));
    let odd = Json::parse(r#"{"data":[{"embedding":3}]}"#).unwrap();
    assert!(matches!(e.vector_lengths(&odd), Err(Error::BackendUnavailable(m)) if m.contains("vector")));
    assert_eq!(OpenAiEmbedder::probed(&vec![4, 9]).unwrap(), 9);
    assert!(matches!(OpenAiEmbedder::probed(&vec![]), Err(Error::Other(_))));
}
