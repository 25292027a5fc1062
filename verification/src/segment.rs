//! Recursive nested-value model and depth-bounded traversal.
//!
//! A [`Segment`] is either an atomic `Primitive` text, an ordered
//! `Composite` aggregate of child segments, or a `Link` referring to a
//! graph node by its stable index (a non-owning reference, never an
//! embedded copy). Traversal visits every `Primitive` leaf in pre-order
//! and fails with [`SegmentError::RecursionLimitExceeded`] the instant
//! the nesting depth would exceed [`crate::MAX_DEPTH`].
use vstd::prelude::*;
use crate::MAX_DEPTH;

verus! {

/// Recursive nested segment: text leaf, ordered aggregate, or a
/// reference to a graph node by stable node index.
#[derive(Debug, PartialEq)]
pub enum Segment {
    Primitive(String),
    Composite(Vec<Segment>),
    Link(usize),
}

/// A directed labeled edge recorded on a node: label plus target index.
#[derive(Debug, Clone, PartialEq)]
pub struct Edge {
    pub label: String,
    pub target: usize,
}

/// A graph node carrying a nested segment payload, the nesting depth
/// recorded at construction, its outgoing labeled edges, and tags used
/// by rule lookups.
#[derive(Debug, PartialEq)]
pub struct KnowledgeNode {
    pub id: u128,
    pub data: Segment,
    pub depth: usize,
    pub edges: Vec<Edge>,
    pub tags: Vec<String>,
}

impl KnowledgeNode {
    /// Construction-time invariant: the recorded depth respects the
    /// cap and the payload nests within the cap from that depth.
    pub open spec fn wf(self) -> bool {
        self.depth <= MAX_DEPTH && seg_ok(self.data, self.depth as int)
    }
}

/// Traversal failure: nesting deeper than [`crate::MAX_DEPTH`].
#[derive(Debug, PartialEq, Eq)]
pub enum SegmentError {
    RecursionLimitExceeded,
}

/// Whether a traversal that reaches `s` at nesting depth `depth` stays
/// within the depth cap everywhere below `s`.
pub open spec fn seg_ok(s: Segment, depth: int) -> bool
    decreases s, 1int,
{
    depth <= MAX_DEPTH && match s {
        Segment::Primitive(_) => true,
        Segment::Composite(children) => segs_ok(children@, depth + 1),
        Segment::Link(_) => true,
    }
}

/// [`seg_ok`] for every segment of a sequence, at one shared depth.
pub open spec fn segs_ok(ss: Seq<Segment>, depth: int) -> bool
    decreases ss, 0int,
{
    ss.len() == 0 || (seg_ok(ss[0], depth) && segs_ok(ss.subrange(1, ss.len() as int), depth))
}

/// The ordered pre-order sequence of `Primitive` leaf texts under `s`.
/// A `Link` is a non-owning reference and contributes no leaves.
pub open spec fn seg_leaves(s: Segment) -> Seq<Seq<char>>
    decreases s, 1int,
{
    match s {
        Segment::Primitive(text) => seq![text@],
        Segment::Composite(children) => segs_leaves(children@),
        Segment::Link(_) => Seq::empty(),
    }
}

/// Leaves of a sequence of segments, concatenated left to right.
pub open spec fn segs_leaves(ss: Seq<Segment>) -> Seq<Seq<char>>
    decreases ss, 0int,
{
    if ss.len() == 0 {
        Seq::empty()
    } else {
        seg_leaves(ss[0]) + segs_leaves(ss.subrange(1, ss.len() as int))
    }
}

/// Nesting depth of a segment: how many composite levels the deepest
/// leaf sits below it. An empty composite nests nothing.
pub open spec fn seg_depth(s: Segment) -> nat
    decreases s, 1int,
{
    match s {
        Segment::Primitive(_) => 0,
        Segment::Composite(children) => if children@.len() == 0 {
            0
        } else {
            1 + segs_depth(children@)
        },
        Segment::Link(_) => 0,
    }
}

/// Greatest nesting depth among a sequence of segments.
pub open spec fn segs_depth(ss: Seq<Segment>) -> nat
    decreases ss, 0int,
{
    if ss.len() == 0 {
        0
    } else {
        let rest = segs_depth(ss.subrange(1, ss.len() as int));
        if seg_depth(ss[0]) >= rest {
            seg_depth(ss[0])
        } else {
            rest
        }
    }
}

/// `segs_ok` holds exactly when every element is `seg_ok`.
pub proof fn lemma_segs_ok_index(ss: Seq<Segment>, depth: int)
    ensures
        segs_ok(ss, depth) <==> (forall|i: int| 0 <= i < ss.len() ==> seg_ok(ss[i], depth)),
    decreases ss.len(),
{
    if ss.len() > 0 {
        let rest = ss.subrange(1, ss.len() as int);
        lemma_segs_ok_index(rest, depth);
        assert forall|i: int| 1 <= i < ss.len() implies ss[i] == rest[i - 1] by {}
        if seg_ok(ss[0], depth) && (forall|i: int| 0 <= i < rest.len() ==> seg_ok(rest[i], depth)) {
            assert forall|i: int| 0 <= i < ss.len() implies seg_ok(ss[i], depth) by {
                if i >= 1 {
                    assert(seg_ok(rest[i - 1], depth));
                }
            }
        }
    }
}

/// Leaves of `ss.push(s)` are the leaves of `ss` followed by those of `s`.
pub proof fn lemma_segs_leaves_push(ss: Seq<Segment>, s: Segment)
    ensures
        segs_leaves(ss.push(s)) == segs_leaves(ss) + seg_leaves(s),
    decreases ss.len(),
{
    let whole = ss.push(s);
    if ss.len() == 0 {
        assert(whole[0] == s);
        assert(whole.subrange(1, whole.len() as int) =~= Seq::<Segment>::empty());
        assert(segs_leaves(whole) == seg_leaves(whole[0]) + segs_leaves(whole.subrange(1, whole.len() as int)));
        assert(segs_leaves(whole) == seg_leaves(s) + Seq::<Seq<char>>::empty());
        assert(seg_leaves(s) + Seq::<Seq<char>>::empty() =~= Seq::<Seq<char>>::empty() + seg_leaves(s));
    } else {
        let rest = ss.subrange(1, ss.len() as int);
        lemma_segs_leaves_push(rest, s);
        assert(whole.subrange(1, whole.len() as int) =~= rest.push(s));
        assert(whole[0] == ss[0]);
        assert(segs_leaves(whole) == seg_leaves(ss[0]) + (segs_leaves(rest) + seg_leaves(s)));
        assert(seg_leaves(ss[0]) + (segs_leaves(rest) + seg_leaves(s))
            =~= (seg_leaves(ss[0]) + segs_leaves(rest)) + seg_leaves(s));
    }
}

/// Number of segment nodes under `s`, the measure of remaining
/// traversal work.
spec fn seg_size(s: Segment) -> nat
    decreases s, 1int,
{
    match s {
        Segment::Primitive(_) => 1,
        Segment::Composite(children) => 1 + segs_size(children@),
        Segment::Link(_) => 1,
    }
}

spec fn segs_size(ss: Seq<Segment>) -> nat
    decreases ss, 0int,
{
    if ss.len() == 0 {
        0
    } else {
        seg_size(ss[0]) + segs_size(ss.subrange(1, ss.len() as int))
    }
}

/// Leaves still to be visited by a worklist whose top is the last
/// element: the top's leaves come first.
spec fn stack_leaves(ss: Seq<(&Segment, usize)>) -> Seq<Seq<char>>
    decreases ss.len(),
{
    if ss.len() == 0 {
        Seq::empty()
    } else {
        seg_leaves(*ss.last().0) + stack_leaves(ss.drop_last())
    }
}

/// Every pending entry respects the depth cap below it.
spec fn stack_ok(ss: Seq<(&Segment, usize)>) -> bool {
    forall|j: int| 0 <= j < ss.len() ==> seg_ok(*(#[trigger] ss[j]).0, ss[j].1 as int)
}

/// Remaining work of a worklist.
spec fn stack_size(ss: Seq<(&Segment, usize)>) -> nat
    decreases ss.len(),
{
    if ss.len() == 0 {
        0
    } else {
        seg_size(*ss.last().0) + stack_size(ss.drop_last())
    }
}

/// The traversal verdict is exactly the depth cap: a traversal entered
/// at depth `d` accepts a tree exactly when `d` plus the tree's
/// nesting depth stays within [`crate::MAX_DEPTH`]. Entered at depth
/// zero, both traversal strategies therefore accept every tree nested
/// to depth at most 100 and reject every deeper one.
pub proof fn lemma_seg_ok_iff_depth(s: Segment, d: int)
    requires
        0 <= d,
    ensures
        seg_ok(s, d) <==> d + seg_depth(s) <= MAX_DEPTH,
    decreases s, 1int,
{
    match s {
        Segment::Primitive(_) => {},
        Segment::Composite(children) => {
            lemma_segs_ok_iff_depth(children@, d + 1);
            if children@.len() > 0 && d + 1 + segs_depth(children@) <= MAX_DEPTH {
                assert(d <= MAX_DEPTH);
            }
        },
        Segment::Link(_) => {},
    }
}

/// Cap-equivalence for a sequence of sibling segments at one depth.
pub proof fn lemma_segs_ok_iff_depth(ss: Seq<Segment>, d: int)
    requires
        0 <= d,
    ensures
        segs_ok(ss, d) <==> (ss.len() == 0 || d + segs_depth(ss) <= MAX_DEPTH),
    decreases ss, 0int,
{
    if ss.len() > 0 {
        let rest = ss.subrange(1, ss.len() as int);
        lemma_seg_ok_iff_depth(ss[0], d);
        lemma_segs_ok_iff_depth(rest, d);
        assert(segs_ok(ss, d) == (seg_ok(ss[0], d) && segs_ok(rest, d)));
        if rest.len() == 0 {
            assert(segs_depth(rest) == 0);
            assert(segs_depth(ss) == seg_depth(ss[0]));
        } else {
            assert(segs_depth(ss) == if seg_depth(ss[0]) >= segs_depth(rest) {
                seg_depth(ss[0])
            } else {
                segs_depth(rest)
            });
        }
    }
}

/// Leaf analysis hook, applied to every visited `Primitive` leaf.
pub fn analyze_text(_text: &str) -> (r: Result<(), SegmentError>)
    ensures
        r == Ok::<(), SegmentError>(()),
{
    Ok(())
}

/// Recursive depth-bounded traversal. Accepts exactly the trees whose
/// nesting from `depth` stays within the cap, and then returns the
/// pre-order sequence of `Primitive` leaf texts; rejects with
/// `RecursionLimitExceeded` otherwise, never by crashing.
#[verifier::loop_isolation(false)]
pub fn process_segment(segment: &Segment, depth: usize) -> (r: Result<Vec<String>, SegmentError>)
    ensures
        match r {
            Ok(leaves) => seg_ok(*segment, depth as int) && leaves.deep_view() == seg_leaves(*segment),
            Err(e) => e == SegmentError::RecursionLimitExceeded && !seg_ok(*segment, depth as int),
        },
    decreases MAX_DEPTH + 1 - depth,
{
    if depth > MAX_DEPTH {
        return Err(SegmentError::RecursionLimitExceeded);
    }
    match segment {
        Segment::Primitive(text) => {
            analyze_text(text.as_str())?;
            let mut leaves: Vec<String> = Vec::new();
            leaves.push(text.clone());
            proof {
                assert(leaves.deep_view() =~= seg_leaves(*segment));
            }
            Ok(leaves)
        },
        Segment::Composite(children) => {
            let mut acc: Vec<String> = Vec::new();
            let mut i: usize = 0;
            proof {
                assert(acc.deep_view() =~= segs_leaves(children@.subrange(0, 0)));
            }
            while i < children.len()
                invariant
                    i <= children.len(),
                    depth <= MAX_DEPTH,
                    acc.deep_view() == segs_leaves(children@.subrange(0, i as int)),
                    forall|j: int| 0 <= j < i ==> seg_ok(children@[j], depth + 1),
                decreases children.len() - i,
            {
                match process_segment(&children[i], depth + 1) {
                    Ok(child_leaves) => {
                        let ghost old_acc = acc.deep_view();
                        let mut child_leaves = child_leaves;
                        acc.append(&mut child_leaves);
                        proof {
                            assert(acc.deep_view() =~= old_acc + seg_leaves(children@[i as int]));
                            lemma_segs_leaves_push(children@.subrange(0, i as int), children@[i as int]);
                            assert(children@.subrange(0, i as int).push(children@[i as int])
                                =~= children@.subrange(0, i + 1));
                        }
                    },
                    Err(e) => {
                        proof {
                            lemma_segs_ok_index(children@, depth as int + 1);
                            assert(!seg_ok(children@[i as int], depth as int + 1));
                            assert(!segs_ok(children@, depth as int + 1));
                        }
                        return Err(e);
                    },
                }
                i += 1;
            }
            proof {
                assert(children@.subrange(0, children@.len() as int) =~= children@);
                lemma_segs_ok_index(children@, depth + 1);
            }
            Ok(acc)
        },
        Segment::Link(_) => {
            let leaves: Vec<String> = Vec::new();
            proof {
                assert(leaves.deep_view() =~= seg_leaves(*segment));
            }
            Ok(leaves)
        },
    }
}

/// Pushing one entry onto a worklist prepends its leaves and work to
/// the pending totals, and keeps the cap check elementwise.
proof fn lemma_stack_push<'a>(ss: Seq<(&'a Segment, usize)>, e: (&'a Segment, usize))
    ensures
        stack_leaves(ss.push(e)) == seg_leaves(*e.0) + stack_leaves(ss),
        stack_size(ss.push(e)) == seg_size(*e.0) + stack_size(ss),
        stack_ok(ss.push(e)) <==> (stack_ok(ss) && seg_ok(*e.0, e.1 as int)),
{
    let whole = ss.push(e);
    assert(whole.drop_last() =~= ss);
    assert(whole.last() == e);
    if stack_ok(whole) {
        assert forall|j: int| 0 <= j < ss.len() implies seg_ok(*(#[trigger] ss[j]).0, ss[j].1 as int) by {
            assert(whole[j] == ss[j]);
        }
        assert(whole[ss.len() as int] == e);
    }
    if stack_ok(ss) && seg_ok(*e.0, e.1 as int) {
        assert forall|j: int| 0 <= j < whole.len() implies seg_ok(*(#[trigger] whole[j]).0, whole[j].1 as int) by {
            if j < ss.len() {
                assert(whole[j] == ss[j]);
            } else {
                assert(whole[j] == e);
            }
        }
    }
}

/// Head unfolding of the per-sequence leaf and size functions on a tail
/// subrange.
proof fn lemma_segs_head(ss: Seq<Segment>, k: int)
    requires
        0 <= k < ss.len(),
    ensures
        segs_leaves(ss.subrange(k, ss.len() as int))
            == seg_leaves(ss[k]) + segs_leaves(ss.subrange(k + 1, ss.len() as int)),
        segs_size(ss.subrange(k, ss.len() as int))
            == seg_size(ss[k]) + segs_size(ss.subrange(k + 1, ss.len() as int)),
{
    let sub = ss.subrange(k, ss.len() as int);
    assert(sub[0] == ss[k]);
    assert(sub.subrange(1, sub.len() as int) =~= ss.subrange(k + 1, ss.len() as int));
}

/// Iterative worklist traversal over an explicit stack of
/// (segment, depth) pairs, for input whose nesting may be adversarial.
/// Children of a `Composite` are pushed in reverse order, so popping
/// reproduces the same left-to-right pre-order visitation as
/// [`process_segment`]: both strategies accept exactly the same trees
/// and, on acceptance, return the same ordered leaf sequence.
#[verifier::loop_isolation(false)]
pub fn process_segment_iterative(root: &Segment) -> (r: Result<Vec<String>, SegmentError>)
    ensures
        match r {
            Ok(leaves) => seg_ok(*root, 0) && leaves.deep_view() == seg_leaves(*root),
            Err(e) => e == SegmentError::RecursionLimitExceeded && !seg_ok(*root, 0),
        },
{
    let mut stack: Vec<(&Segment, usize)> = Vec::new();
    stack.push((root, 0));
    let mut visited: Vec<String> = Vec::new();
    proof {
        lemma_stack_push(Seq::empty(), (root, 0usize));
        assert(visited.deep_view() + stack_leaves(stack@) =~= seg_leaves(*root));
    }
    while stack.len() > 0
        invariant
            visited.deep_view() + stack_leaves(stack@) == seg_leaves(*root),
            seg_ok(*root, 0) <==> stack_ok(stack@),
        decreases stack_size(stack@),
    {
        let ghost prev = stack@;
        let top = stack.pop().unwrap();
        let (segment, depth) = top;
        proof {
            assert(prev =~= stack@.push(top));
            lemma_stack_push(stack@, top);
        }
        if depth > MAX_DEPTH {
            proof {
                assert(!seg_ok(*segment, depth as int));
                assert(!stack_ok(prev));
            }
            return Err(SegmentError::RecursionLimitExceeded);
        }
        match segment {
            Segment::Primitive(text) => {
                analyze_text(text.as_str())?;
                let ghost old_visited = visited.deep_view();
                visited.push(text.clone());
                proof {
                    assert(visited.deep_view() =~= old_visited + seg_leaves(*segment));
                    assert((old_visited + seg_leaves(*segment)) + stack_leaves(stack@)
                        =~= old_visited + (seg_leaves(*segment) + stack_leaves(stack@)));
                }
            },
            Segment::Composite(children) => {
                let ghost rest = stack@;
                let clen = children.len();
                let mut k = clen;
                proof {
                    assert(children@.subrange(clen as int, clen as int) =~= Seq::<Segment>::empty());
                }
                while k > 0
                    invariant
                        k <= clen,
                        stack_leaves(stack@) == segs_leaves(children@.subrange(k as int, clen as int))
                            + stack_leaves(rest),
                        stack_ok(stack@) <==> ((forall|j: int|
                            k <= j < clen ==> seg_ok(children@[j], depth as int + 1))
                            && stack_ok(rest)),
                        stack_size(stack@) == segs_size(children@.subrange(k as int, clen as int))
                            + stack_size(rest),
                    decreases k,
                {
                    k = k - 1;
                    let ghost before = stack@;
                    stack.push((&children[k], depth + 1));
                    proof {
                        lemma_stack_push(before, (&children[k as int], (depth + 1) as usize));
                        lemma_segs_head(children@, k as int);
                        assert(seg_leaves(children@[k as int]) + (segs_leaves(
                            children@.subrange(k as int + 1, clen as int)) + stack_leaves(rest))
                            =~= (seg_leaves(children@[k as int]) + segs_leaves(
                            children@.subrange(k as int + 1, clen as int))) + stack_leaves(rest));
                    }
                }
                proof {
                    assert(children@.subrange(0, clen as int) =~= children@);
                    lemma_segs_ok_index(children@, depth as int + 1);
                    assert(stack_leaves(stack@) == seg_leaves(*segment) + stack_leaves(rest));
                    assert(visited.deep_view() + (seg_leaves(*segment) + stack_leaves(rest))
                        =~= (visited.deep_view() + seg_leaves(*segment)) + stack_leaves(rest));
                    assert(visited.deep_view() + seg_leaves(*segment) + stack_leaves(rest)
                        =~= visited.deep_view() + stack_leaves(prev));
                }
            },
            Segment::Link(_) => {
                proof {
                    assert(seg_leaves(*segment) + stack_leaves(stack@) =~= stack_leaves(stack@));
                }
            },
        }
    }
    proof {
        assert(visited.deep_view() + stack_leaves(stack@) =~= visited.deep_view());
    }
    Ok(visited)
}

} // verus!
