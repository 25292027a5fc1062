use metastasa::dedup::{get_cached_segment, segment_to_key, DeduplicationIndex};
use metastasa::logic_attention::{contains_sub, matches_any_rule, segment_to_text};
use metastasa::segment::{KnowledgeNode, Segment};

fn ab_composite() -> Segment {
    Segment::Composite(vec![
        Segment::Primitive("a".to_string()),
        Segment::Primitive("b".to_string()),
    ])
}

#[test]
fn canonical_key_formats() {
    assert_eq!(segment_to_key(&Segment::Primitive("a".to_string())), "P:a");
    assert_eq!(segment_to_key(&ab_composite()), "C:[P:a,P:b]");
    assert_eq!(segment_to_key(&Segment::Composite(vec![])), "C:[]");
    assert_eq!(segment_to_key(&Segment::Link(42)), "L:node:42");
    assert_eq!(segment_to_key(&Segment::Link(0)), "L:node:0");
    let nested = Segment::Composite(vec![Segment::Composite(vec![Segment::Primitive(
        "x".to_string(),
    )])]);
    assert_eq!(segment_to_key(&nested), "C:[C:[P:x]]");
}

#[test]
fn wrapping_changes_the_canonical_key() {
    let single = Segment::Composite(vec![Segment::Primitive("a".to_string())]);
    let bare = Segment::Primitive("a".to_string());
    assert_ne!(segment_to_key(&single), segment_to_key(&bare));
}

#[test]
fn canonicalizing_twice_returns_the_cached_instance() {
    let mut index = DeduplicationIndex::new();
    {
        let first = index.get_or_insert(ab_composite());
        assert_eq!(*first, ab_composite());
    }
    assert_eq!(index.len(), 1);
    {
        let second = index.get_or_insert(ab_composite());
        assert_eq!(*second, ab_composite());
    }
    assert_eq!(index.len(), 1);
    assert_eq!(*index.entry_at(0), ab_composite());
}

#[test]
fn distinct_shapes_get_distinct_entries() {
    let mut index = DeduplicationIndex::new();
    index.get_or_insert(Segment::Primitive("a".to_string()));
    index.get_or_insert(Segment::Composite(vec![Segment::Primitive("a".to_string())]));
    assert_eq!(index.len(), 2);
    assert_eq!(*index.entry_at(0), Segment::Primitive("a".to_string()));
}

#[test]
fn get_cached_segment_shares_the_first_instance() {
    let mut index = DeduplicationIndex::new();
    {
        let stored = get_cached_segment(&mut index, Segment::Primitive("leg".to_string()));
        assert_eq!(*stored, Segment::Primitive("leg".to_string()));
    }
    {
        let again = get_cached_segment(&mut index, Segment::Primitive("leg".to_string()));
        assert_eq!(*again, Segment::Primitive("leg".to_string()));
    }
    assert_eq!(index.len(), 1);
}

#[test]
fn flattened_text_joins_primitives_with_spaces() {
    let tree = Segment::Composite(vec![
        Segment::Primitive("кот".to_string()),
        Segment::Composite(vec![
            Segment::Primitive("ест".to_string()),
            Segment::Primitive("рыбу".to_string()),
        ]),
        Segment::Link(3),
    ]);
    assert_eq!(segment_to_text(&tree), "кот ест рыбу ");
    assert_eq!(segment_to_text(&Segment::Primitive("лапа".to_string())), "лапа");
    assert_eq!(segment_to_text(&Segment::Link(1)), "");
}

#[test]
fn substring_search_over_encoded_text() {
    assert!(contains_sub("у кота лапа", "лапа"));
    assert!(contains_sub("лапа", "лапа"));
    assert!(contains_sub("anything", ""));
    assert!(!contains_sub("крыло", "лапа"));
    assert!(!contains_sub("", "лапа"));
}

#[test]
fn test_logic_rule_lapa_animal() {
    let query = Segment::Primitive("лапа".to_string());
    let node = KnowledgeNode {
        id: 7,
        data: Segment::Primitive("кот".to_string()),
        depth: 0,
        edges: vec![],
        tags: vec!["животное".to_string()],
    };
    let query_text = segment_to_text(&query);
    assert!(matches_any_rule(&query_text, &node.tags));
}

#[test]
fn no_rule_fires_without_the_matching_tag() {
    let tags = vec!["растение".to_string()];
    assert!(!matches_any_rule("лапа", &tags));
    assert!(matches_any_rule("корень", &tags));
    assert!(!matches_any_rule("ничего", &vec!["животное".to_string()]));
}
