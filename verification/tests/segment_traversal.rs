use metastasa::segment::{
    analyze_text, process_segment, process_segment_iterative, Segment, SegmentError,
};

fn cat_tree() -> Segment {
    Segment::Composite(vec![
        Segment::Composite(vec![
            Segment::Primitive("Усы".to_string()),
            Segment::Primitive("Глаза".to_string()),
        ]),
        Segment::Primitive("Лапы".to_string()),
    ])
}

fn nested_chain(levels: usize) -> Segment {
    let mut seg = Segment::Primitive("leaf".to_string());
    for _ in 0..levels {
        seg = Segment::Composite(vec![seg]);
    }
    seg
}

#[test]
fn both_traversals_visit_leaves_in_preorder() {
    let tree = cat_tree();
    let rec = process_segment(&tree, 0).unwrap();
    let iter = process_segment_iterative(&tree).unwrap();
    assert_eq!(rec, vec!["Усы".to_string(), "Глаза".to_string(), "Лапы".to_string()]);
    assert_eq!(rec, iter);
}

#[test]
fn depth_one_hundred_is_accepted_by_both() {
    let tree = nested_chain(100);
    let rec = process_segment(&tree, 0).unwrap();
    let iter = process_segment_iterative(&tree).unwrap();
    assert_eq!(rec, vec!["leaf".to_string()]);
    assert_eq!(iter, vec!["leaf".to_string()]);
}

#[test]
fn depth_one_hundred_one_is_rejected_by_both() {
    let tree = nested_chain(101);
    assert_eq!(process_segment(&tree, 0), Err(SegmentError::RecursionLimitExceeded));
    assert_eq!(process_segment_iterative(&tree), Err(SegmentError::RecursionLimitExceeded));
}

#[test]
fn starting_depth_counts_against_the_cap() {
    let leaf = Segment::Primitive("x".to_string());
    assert!(process_segment(&leaf, 100).is_ok());
    assert_eq!(process_segment(&leaf, 101), Err(SegmentError::RecursionLimitExceeded));
}

#[test]
fn links_are_visited_without_following() {
    let tree = Segment::Composite(vec![
        Segment::Primitive("a".to_string()),
        Segment::Link(7),
        Segment::Primitive("b".to_string()),
    ]);
    let rec = process_segment(&tree, 0).unwrap();
    assert_eq!(rec, vec!["a".to_string(), "b".to_string()]);
    assert_eq!(rec, process_segment_iterative(&tree).unwrap());
}

#[test]
fn empty_composite_yields_no_leaves() {
    let tree = Segment::Composite(vec![]);
    assert_eq!(process_segment(&tree, 0).unwrap(), Vec::<String>::new());
    assert_eq!(process_segment_iterative(&tree).unwrap(), Vec::<String>::new());
}

#[test]
fn analyze_text_always_succeeds() {
    assert_eq!(analyze_text("anything"), Ok(()));
}
