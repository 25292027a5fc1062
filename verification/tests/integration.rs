use metastasa::active_learning::{decide_correction, Correction, CorrectionResult};
use metastasa::graph_cache::GraphCache;
use metastasa::knowledge_graph::{GraphError, KnowledgeGraph};
use metastasa::segment::{Segment, SegmentError};
use metastasa::trusted_scraper::{confirmation_count, is_verified};
use std::sync::Arc;

fn temp_db() -> sled::Db {
    sled::Config::new().temporary(true).open().unwrap()
}

#[test]
fn test_graph_cache() {
    let mut cache = GraphCache::new(2);
    let graph = Arc::new(KnowledgeGraph::new(temp_db()));
    cache.put("biology.cats".to_string(), graph.clone());
    let got = cache.get("biology.cats");
    assert!(got.is_some());
}

#[test]
fn lru_capacity_two_evicts_the_oldest() {
    let mut cache = GraphCache::new(2);
    let graph = Arc::new(KnowledgeGraph::new(temp_db()));
    cache.put("A".to_string(), graph.clone());
    cache.put("B".to_string(), graph.clone());
    cache.put("C".to_string(), graph.clone());
    assert!(cache.get("A").is_none());
    assert!(cache.get("B").is_some());
    assert!(cache.get("C").is_some());
}

#[test]
fn lru_get_refreshes_recency() {
    let mut cache = GraphCache::new(2);
    let graph = Arc::new(KnowledgeGraph::new(temp_db()));
    cache.put("A".to_string(), graph.clone());
    cache.put("B".to_string(), graph.clone());
    assert!(cache.get("A").is_some());
    cache.put("C".to_string(), graph.clone());
    assert!(cache.get("B").is_none());
    assert!(cache.get("A").is_some());
    assert!(cache.get("C").is_some());
}

#[test]
fn graph_export_keeps_insertion_order() {
    let mut kg = KnowledgeGraph::new(temp_db());
    let x = kg.add_node(Segment::Primitive("X".to_string()));
    let y = kg.add_node(Segment::Primitive("Y".to_string()));
    assert_eq!((x, y), (0, 1));
    assert_eq!(kg.add_edge(0, 1, "rel".to_string()), Ok(()));
    let export = kg.export();
    assert_eq!(export.nodes, vec!["P:X".to_string(), "P:Y".to_string()]);
    assert_eq!(export.edges, vec![(0, 1, "rel".to_string())]);
}

#[test]
fn add_edge_to_missing_node_fails_and_changes_nothing() {
    let mut kg = KnowledgeGraph::new(temp_db());
    kg.add_node(Segment::Primitive("X".to_string()));
    assert_eq!(kg.add_edge(0, 1, "rel".to_string()), Err(GraphError::InvalidReference));
    assert_eq!(kg.add_edge(5, 0, "rel".to_string()), Err(GraphError::InvalidReference));
    let export = kg.export();
    assert_eq!(export.nodes.len(), 1);
    assert!(export.edges.is_empty());
}

#[test]
fn parallel_and_self_edges_are_kept() {
    let mut kg = KnowledgeGraph::new(temp_db());
    kg.add_node(Segment::Primitive("X".to_string()));
    kg.add_node(Segment::Primitive("Y".to_string()));
    assert_eq!(kg.add_edge(0, 1, "first".to_string()), Ok(()));
    assert_eq!(kg.add_edge(0, 1, "second".to_string()), Ok(()));
    assert_eq!(kg.add_edge(1, 1, "self".to_string()), Ok(()));
    let export = kg.export();
    assert_eq!(
        export.edges,
        vec![
            (0, 1, "first".to_string()),
            (0, 1, "second".to_string()),
            (1, 1, "self".to_string()),
        ]
    );
}

#[test]
fn find_node_by_scans_in_insertion_order() {
    let mut kg = KnowledgeGraph::new(temp_db());
    kg.add_node(Segment::Primitive("a".to_string()));
    kg.add_node(Segment::Composite(vec![]));
    kg.add_node(Segment::Composite(vec![]));
    let first_composite = kg.find_node_by(|s: &Segment| matches!(s, Segment::Composite(_)));
    assert_eq!(first_composite, Some(1));
    let missing = kg.find_node_by(|s: &Segment| matches!(s, Segment::Link(_)));
    assert_eq!(missing, None);
}

#[test]
fn traverse_segment_applies_the_depth_cap() {
    let mut kg = KnowledgeGraph::new(temp_db());
    kg.add_node(Segment::Composite(vec![
        Segment::Primitive("Усы".to_string()),
        Segment::Primitive("Глаза".to_string()),
    ]));
    let mut deep = Segment::Primitive("leaf".to_string());
    for _ in 0..101 {
        deep = Segment::Composite(vec![deep]);
    }
    kg.add_node(deep);
    assert_eq!(
        kg.traverse_segment(0),
        Some(Ok(vec!["Усы".to_string(), "Глаза".to_string()]))
    );
    assert_eq!(kg.traverse_segment(1), Some(Err(SegmentError::RecursionLimitExceeded)));
    assert_eq!(kg.traverse_segment(2), None);
}

#[test]
fn correction_needs_two_confirmations() {
    let corr = Correction {
        claim: "Кошка".to_string(),
        user: "user1".to_string(),
        justification: "Вижу в энциклопедии".to_string(),
    };
    assert_eq!(corr.user, "user1");
    assert_eq!(decide_correction(0), CorrectionResult::NeedsModeration);
    assert_eq!(decide_correction(1), CorrectionResult::NeedsModeration);
    assert_eq!(decide_correction(2), CorrectionResult::AutoAccepted);
    assert_eq!(decide_correction(3), CorrectionResult::AutoAccepted);
}

#[test]
fn verification_counts_sources() {
    assert_eq!(confirmation_count(false, false, false), 0);
    assert_eq!(confirmation_count(true, false, true), 2);
    assert_eq!(confirmation_count(true, true, true), 3);
    assert!(!is_verified(1));
    assert!(is_verified(2));
    assert!(is_verified(3));
}
