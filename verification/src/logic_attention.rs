//! Flattened text rendering of segments.
//!
//! The logic-rule lookup boundary matches keywords against a flattened
//! text rendering of a query segment and against node tags; the
//! rendering lives here, the scoring weights at the numeric edge.
use vstd::prelude::*;
use vstd::string::StringExecFns;
use vstd::utf8::encode_utf8;
use crate::segment::Segment;

verus! {

/// `nee` occurs in `hay` starting at position `k`.
pub open spec fn is_match_at(hay: Seq<u8>, nee: Seq<u8>, k: int) -> bool {
    0 <= k && k + nee.len() <= hay.len() && hay.subrange(k, k + nee.len()) == nee
}

/// `nee` occurs somewhere in `hay` as a contiguous run of bytes.
pub open spec fn contains_bytes(hay: Seq<u8>, nee: Seq<u8>) -> bool {
    exists|k: int| is_match_at(hay, nee, k)
}

/// Byte-level substring search. UTF-8 is self-synchronizing, so on the
/// encodings of two texts this coincides with textual containment.
#[verifier::loop_isolation(false)]
pub fn contains_sub(haystack: &str, needle: &str) -> (r: bool)
    ensures
        r == contains_bytes(encode_utf8(haystack@), encode_utf8(needle@)),
{
    let h: &[u8] = haystack.as_bytes();
    let n: &[u8] = needle.as_bytes();
    if n.len() > h.len() {
        proof {
            assert forall|k: int| !is_match_at(h@, n@, k) by {}
        }
        return false;
    }
    let last = h.len() - n.len();
    let mut k: usize = 0;
    while k <= last
        invariant
            k <= last + 1,
            forall|j: int| 0 <= j < k ==> !is_match_at(h@, n@, j),
        decreases last - k + 1,
    {
        let mut m: usize = 0;
        while m < n.len() && h[k + m] == n[m]
            invariant
                m <= n.len(),
                forall|t: int| 0 <= t < m ==> h@[k + t] == n@[t],
            decreases n.len() - m,
        {
            m += 1;
        }
        if m == n.len() {
            proof {
                assert(h@.subrange(k as int, k + n@.len()) =~= n@);
                assert(is_match_at(h@, n@, k as int));
            }
            return true;
        }
        proof {
            assert(h@[k + m] != n@[m as int]);
            if is_match_at(h@, n@, k as int) {
                assert(h@.subrange(k as int, k + n@.len())[m as int] == n@[m as int]);
                assert(h@.subrange(k as int, k + n@.len())[m as int] == h@[k + m]);
                assert(false);
            }
        }
        k += 1;
    }
    proof {
        assert forall|j: int| !is_match_at(h@, n@, j) by {
            if 0 <= j <= last {
                assert(!is_match_at(h@, n@, j));
            }
        }
    }
    false
}

/// The logic-rule table: a keyword in the query text paired with the
/// node tag it gives evidence for.
pub open spec fn logic_rules_spec() -> Seq<(Seq<char>, Seq<char>)> {
    seq![
        ("лапа"@, "животное"@),
        ("крыло"@, "птица"@),
        ("корень"@, "растение"@),
        ("плавник"@, "рыба"@),
    ]
}

/// The logic-rule table as owned strings, matching
/// [`logic_rules_spec`] entry for entry.
pub fn logic_rule_table() -> (r: Vec<(String, String)>)
    ensures
        r@.len() == logic_rules_spec().len(),
        forall|i: int|
            0 <= i < r@.len() ==> (#[trigger] r@[i]).0@ == logic_rules_spec()[i].0 && r@[i].1@
                == logic_rules_spec()[i].1,
{
    let mut rules: Vec<(String, String)> = Vec::new();
    rules.push((String::from_str("лапа"), String::from_str("животное")));
    rules.push((String::from_str("крыло"), String::from_str("птица")));
    rules.push((String::from_str("корень"), String::from_str("растение")));
    rules.push((String::from_str("плавник"), String::from_str("рыба")));
    rules
}

/// Some logic rule fires: its keyword occurs in the query text and
/// its tag is among the node's tags.
pub open spec fn rule_fires(text: Seq<char>, tags: Seq<Seq<char>>) -> bool {
    exists|ri: int|
        0 <= ri < logic_rules_spec().len() && contains_bytes(
            encode_utf8(text),
            encode_utf8((#[trigger] logic_rules_spec()[ri]).0),
        ) && tags.contains(logic_rules_spec()[ri].1)
}

/// Whether any logic rule fires for a query text against a node's
/// tags. The rule-lookup boundary scores a firing rule as full
/// evidence; the numeric blend stays at the numeric edge.
#[verifier::loop_isolation(false)]
pub fn matches_any_rule(query_text: &str, tags: &Vec<String>) -> (r: bool)
    ensures
        r == rule_fires(query_text@, tags.deep_view()),
{
    let rules = logic_rule_table();
    let mut ri: usize = 0;
    while ri < rules.len()
        invariant
            ri <= rules@.len(),
            forall|rj: int|
                0 <= rj < ri ==> !(contains_bytes(
                    encode_utf8(query_text@),
                    encode_utf8((#[trigger] logic_rules_spec()[rj]).0),
                ) && tags.deep_view().contains(logic_rules_spec()[rj].1)),
        decreases rules@.len() - ri,
    {
        if contains_sub(query_text, rules[ri].0.as_str()) {
            let mut ti: usize = 0;
            while ti < tags.len()
                invariant
                    ti <= tags@.len(),
                    forall|tj: int| 0 <= tj < ti ==> tags.deep_view()[tj] != rules@[ri as int].1@,
                decreases tags@.len() - ti,
            {
                let tag: &String = &tags[ti];
                if *tag == rules[ri].1 {
                    proof {
                        assert(tags.deep_view()[ti as int] == logic_rules_spec()[ri as int].1);
                        assert(tags.deep_view().contains(logic_rules_spec()[ri as int].1));
                        assert(rule_fires(query_text@, tags.deep_view()));
                    }
                    return true;
                }
                ti += 1;
            }
            proof {
                assert forall|tj: int| 0 <= tj < tags.deep_view().len()
                    implies tags.deep_view()[tj] != logic_rules_spec()[ri as int].1 by {}
                assert(!tags.deep_view().contains(logic_rules_spec()[ri as int].1));
            }
        }
        ri += 1;
    }
    proof {
        assert(!rule_fires(query_text@, tags.deep_view()));
    }
    false
}

/// Flattened text of a segment: primitive texts joined by single
/// spaces in pre-order. A link is a non-owning reference and renders
/// as nothing.
pub open spec fn flat_text(s: Segment) -> Seq<char>
    decreases s, 1int,
{
    match s {
        Segment::Primitive(text) => text@,
        Segment::Composite(children) => flat_texts(children@),
        Segment::Link(_) => Seq::empty(),
    }
}

/// Flattened texts of a sequence of segments, joined by single spaces.
pub open spec fn flat_texts(ss: Seq<Segment>) -> Seq<char>
    decreases ss, 0int,
{
    if ss.len() == 0 {
        Seq::empty()
    } else if ss.len() == 1 {
        flat_text(ss[0])
    } else {
        flat_text(ss[0]) + " "@ + flat_texts(ss.subrange(1, ss.len() as int))
    }
}

/// Joining one more rendering appends a separator exactly when the
/// sequence was nonempty.
proof fn lemma_flat_texts_push(ss: Seq<Segment>, s: Segment)
    ensures
        ss.len() == 0 ==> flat_texts(ss.push(s)) == flat_text(s),
        ss.len() > 0 ==> flat_texts(ss.push(s)) == flat_texts(ss) + " "@ + flat_text(s),
    decreases ss.len(),
{
    let whole = ss.push(s);
    if ss.len() == 0 {
        assert(whole[0] == s);
    } else {
        let rest = ss.subrange(1, ss.len() as int);
        lemma_flat_texts_push(rest, s);
        assert(whole.subrange(1, whole.len() as int) =~= rest.push(s));
        assert(whole[0] == ss[0]);
        if rest.len() == 0 {
            assert(flat_texts(whole) == flat_text(ss[0]) + " "@ + flat_text(s));
            assert(flat_texts(ss) == flat_text(ss[0]));
        } else {
            assert(flat_texts(whole)
                == flat_text(ss[0]) + " "@ + (flat_texts(rest) + " "@ + flat_text(s)));
            assert(flat_text(ss[0]) + " "@ + (flat_texts(rest) + " "@ + flat_text(s))
                =~= (flat_text(ss[0]) + " "@ + flat_texts(rest)) + " "@ + flat_text(s));
        }
    }
}

/// Appends the flattened text of `segment` to `out`.
#[verifier::loop_isolation(false)]
fn push_flat(out: &mut String, segment: &Segment)
    ensures
        final(out)@ == old(out)@ + flat_text(*segment),
    decreases *segment,
{
    let ghost base = out@;
    match segment {
        Segment::Primitive(text) => {
            out.append(text.as_str());
        },
        Segment::Composite(children) => {
            let mut i: usize = 0;
            while i < children.len()
                invariant
                    i <= children.len(),
                    out@ == base + flat_texts(children@.subrange(0, i as int)),
                decreases children.len() - i,
            {
                let ghost sofar = flat_texts(children@.subrange(0, i as int));
                if i > 0 {
                    out.append(" ");
                }
                push_flat(out, &children[i]);
                proof {
                    lemma_flat_texts_push(children@.subrange(0, i as int), children@[i as int]);
                    assert(children@.subrange(0, i as int).push(children@[i as int])
                        =~= children@.subrange(0, i + 1));
                    if i > 0 {
                        assert(((base + sofar) + " "@) + flat_text(children@[i as int])
                            =~= base + (sofar + " "@ + flat_text(children@[i as int])));
                    } else {
                        assert(children@.subrange(0, 0) =~= Seq::<Segment>::empty());
                        assert((base + sofar) + flat_text(children@[i as int])
                            =~= base + flat_text(children@[i as int]));
                    }
                }
                i += 1;
            }
            proof {
                assert(children@.subrange(0, children@.len() as int) =~= children@);
            }
        },
        Segment::Link(_) => {
            proof {
                assert(base + flat_text(*segment) =~= base);
            }
        },
    }
}

/// The flattened text rendering of a segment as an owned string.
pub fn segment_to_text(segment: &Segment) -> (r: String)
    ensures
        r@ == flat_text(*segment),
{
    let mut out = String::new();
    push_flat(&mut out, segment);
    proof {
        assert(Seq::<char>::empty() + flat_text(*segment) =~= flat_text(*segment));
    }
    out
}

} // verus!
