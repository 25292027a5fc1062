use metastasa::segment::{process_segment, process_segment_iterative, Segment};

fn random_string(len: usize) -> String {
    let charset = b"abcdefghijklmnopqrstuvwxyzABCDEFGHIJKLMNOPQRSTUVWXYZ0123456789{}[],:";
    (0..len).map(|_| charset[rand::random_range(0..charset.len())] as char).collect()
}

fn random_segment(depth: usize) -> Segment {
    if depth > 5 || rand::random::<f32>() < 0.5 {
        Segment::Primitive(random_string(10))
    } else {
        let n = rand::random_range(1..4);
        Segment::Composite((0..n).map(|_| random_segment(depth + 1)).collect())
    }
}

#[test]
fn fuzz_process_segment() {
    for _ in 0..100 {
        let seg = random_segment(0);
        let _ = process_segment(&seg, 0);
    }
}

#[test]
fn fuzz_traversals_agree() {
    for _ in 0..100 {
        let seg = random_segment(0);
        let rec = process_segment(&seg, 0);
        let iter = process_segment_iterative(&seg);
        assert_eq!(rec, iter);
    }
}
