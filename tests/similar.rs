use knowling::note::Note;
use knowling::notebook::{rank_similar, similar_fetch_limit};
use knowling::similar::{Distance, SimilarHit, SIMILARS_DEFAULT_THRESHOLD_BITS};

fn hit(id: &str, d: f32) -> SimilarHit {
    SimilarHit { id: id.to_string(), text: String::new(), distance: Distance::from_bits(d.to_bits()) }
}

fn stored() -> Vec<Note> {
    vec![
        Note::new("q", "query"),
        Note::new("a", "near"),
        Note::new("b", "middle"),
        Note::new("c", "far"),
    ]
}

#[test]
fn default_threshold_is_one_hundredth() {
    assert_eq!(SIMILARS_DEFAULT_THRESHOLD_BITS, 0.01f32.to_bits());
}

#[test]
fn only_hits_below_threshold_are_kept() {
    let hits = vec![hit("a", 0.005), hit("b", 0.02), hit("c", 0.5)];
    let r = rank_similar("q", &hits, 3, Distance::from_bits(0.01f32.to_bits()), &stored());
    assert_eq!(r.len(), 1);
    assert_eq!(r[0].0.get_id(), "a");
    assert_eq!(f32::from_bits(r[0].1.to_bits()), 0.005);
}

#[test]
fn threshold_is_strict() {
    let hits = vec![hit("a", 0.01)];
    let r = rank_similar("q", &hits, 3, Distance::from_bits(0.01f32.to_bits()), &stored());
    assert!(r.is_empty());
}

#[test]
fn query_note_is_never_returned() {
    let hits = vec![hit("q", 0.0), hit("a", 0.001)];
    let r = rank_similar("q", &hits, 3, Distance::from_bits(0.01f32.to_bits()), &stored());
    assert_eq!(r.len(), 1);
    assert_eq!(r[0].0.get_id(), "a");
}

#[test]
fn results_ascend_and_respect_limit() {
    let hits = vec![hit("c", 0.3), hit("a", 0.1), hit("b", 0.2), hit("q", 0.0)];
    let r = rank_similar("q", &hits, 2, Distance::from_bits(1.0f32.to_bits()), &stored());
    let ids: Vec<&str> = r.iter().map(|p| p.0.get_id()).collect();
    assert_eq!(ids, vec!["a", "b"]);
}

#[test]
fn unresolved_hits_are_dropped() {
    let hits = vec![hit("gone", 0.001), hit("b", 0.002)];
    let r = rank_similar("q", &hits, 3, Distance::from_bits(0.01f32.to_bits()), &stored());
    assert_eq!(r.len(), 1);
    assert_eq!(r[0].0.get_id(), "b");
}

#[test]
fn fetch_limit_leaves_room_for_the_query_note() {
    assert_eq!(similar_fetch_limit(None), 4);
    assert_eq!(similar_fetch_limit(Some(10)), 11);
    assert_eq!(similar_fetch_limit(Some(usize::MAX)), usize::MAX);
}
