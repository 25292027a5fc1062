//! Canonical-key generation and the structural deduplication index.
//!
//! The canonical key of a segment is a deterministic, order-preserving
//! string encoding of its structure. The index maps canonical keys to
//! owned segments so that structurally identical trees submitted at
//! different times resolve to the same stored instance. Note that the
//! encoding does not escape the `,` and `]` delimiters inside primitive
//! text, so distinct trees whose text contains those characters can in
//! principle collide; the encoding is kept as designed rather than
//! silently strengthened.
use vstd::prelude::*;
use vstd::string::StringExecFns;
use crate::segment::Segment;

verus! {

/// The character for one decimal digit value.
pub open spec fn digit_char(d: nat) -> char {
    if d == 0 {
        '0'
    } else if d == 1 {
        '1'
    } else if d == 2 {
        '2'
    } else if d == 3 {
        '3'
    } else if d == 4 {
        '4'
    } else if d == 5 {
        '5'
    } else if d == 6 {
        '6'
    } else if d == 7 {
        '7'
    } else if d == 8 {
        '8'
    } else {
        '9'
    }
}

/// Decimal rendering of a natural number, most significant digit first.
pub open spec fn dec_digits(n: nat) -> Seq<char>
    decreases n,
{
    if n < 10 {
        seq![digit_char(n)]
    } else {
        dec_digits(n / 10).push(digit_char(n % 10))
    }
}

/// Canonical key of a segment:
/// `P:` plus the text for a primitive, `C:[` plus the comma-joined
/// child keys plus `]` for a composite, and `L:node:` plus the decimal
/// node index for a link.
pub open spec fn canon_key(s: Segment) -> Seq<char>
    decreases s, 1int,
{
    match s {
        Segment::Primitive(text) => seq!['P', ':'] + text@,
        Segment::Composite(children) => seq!['C', ':', '['] + canon_keys(children@) + seq![']'],
        Segment::Link(id) => seq!['L', ':', 'n', 'o', 'd', 'e', ':'] + dec_digits(id as nat),
    }
}

/// Canonical keys of a sequence of segments, joined by `,`.
pub open spec fn canon_keys(ss: Seq<Segment>) -> Seq<char>
    decreases ss, 0int,
{
    if ss.len() == 0 {
        Seq::empty()
    } else if ss.len() == 1 {
        canon_key(ss[0])
    } else {
        canon_key(ss[0]) + seq![','] + canon_keys(ss.subrange(1, ss.len() as int))
    }
}

/// Joining one more key appends a separator exactly when the sequence
/// was nonempty.
proof fn lemma_canon_keys_push(ss: Seq<Segment>, s: Segment)
    ensures
        ss.len() == 0 ==> canon_keys(ss.push(s)) == canon_key(s),
        ss.len() > 0 ==> canon_keys(ss.push(s)) == canon_keys(ss) + seq![','] + canon_key(s),
    decreases ss.len(),
{
    let whole = ss.push(s);
    if ss.len() == 0 {
        assert(whole[0] == s);
    } else {
        let rest = ss.subrange(1, ss.len() as int);
        lemma_canon_keys_push(rest, s);
        assert(whole.subrange(1, whole.len() as int) =~= rest.push(s));
        assert(whole[0] == ss[0]);
        if rest.len() == 0 {
            assert(canon_keys(whole) == canon_key(ss[0]) + seq![','] + canon_key(s));
            assert(canon_keys(ss) == canon_key(ss[0]));
        } else {
            assert(canon_keys(whole)
                == canon_key(ss[0]) + seq![','] + (canon_keys(rest) + seq![','] + canon_key(s)));
            assert(canon_key(ss[0]) + seq![','] + (canon_keys(rest) + seq![','] + canon_key(s))
                =~= (canon_key(ss[0]) + seq![','] + canon_keys(rest)) + seq![','] + canon_key(s));
        }
    }
}

/// Appends the decimal rendering of `n` to `out`.
fn push_decimal(out: &mut String, n: usize)
    ensures
        final(out)@ == old(out)@ + dec_digits(n as nat),
    decreases n,
{
    let ghost base = out@;
    if n >= 10 {
        push_decimal(out, n / 10);
    }
    let d = n % 10;
    let ds: &str = match d {
        0 => "0",
        1 => "1",
        2 => "2",
        3 => "3",
        4 => "4",
        5 => "5",
        6 => "6",
        7 => "7",
        8 => "8",
        _ => "9",
    };
    proof {
        reveal_strlit("0");
        reveal_strlit("1");
        reveal_strlit("2");
        reveal_strlit("3");
        reveal_strlit("4");
        reveal_strlit("5");
        reveal_strlit("6");
        reveal_strlit("7");
        reveal_strlit("8");
        reveal_strlit("9");
        assert(ds@ =~= seq![digit_char(d as nat)]);
    }
    out.append(ds);
    proof {
        if n >= 10 {
            assert((base + dec_digits((n / 10) as nat)) + ds@
                =~= base + dec_digits((n / 10) as nat).push(digit_char((n % 10) as nat)));
        } else {
            assert(base + ds@ =~= base + dec_digits(n as nat));
        }
    }
}

/// Appends the canonical key of `segment` to `out`.
#[verifier::loop_isolation(false)]
fn push_key(out: &mut String, segment: &Segment)
    ensures
        final(out)@ == old(out)@ + canon_key(*segment),
    decreases *segment,
{
    let ghost base = out@;
    match segment {
        Segment::Primitive(text) => {
            out.append("P:");
            out.append(text.as_str());
            proof {
                reveal_strlit("P:");
                assert((base + "P:"@) + text@ =~= base + (seq!['P', ':'] + text@));
            }
        },
        Segment::Composite(children) => {
            out.append("C:[");
            proof {
                reveal_strlit("C:[");
            }
            let ghost open_part = seq!['C', ':', '['];
            let mut i: usize = 0;
            while i < children.len()
                invariant
                    i <= children.len(),
                    out@ == base + open_part + canon_keys(children@.subrange(0, i as int)),
                decreases children.len() - i,
            {
                let ghost sofar = canon_keys(children@.subrange(0, i as int));
                if i > 0 {
                    out.append(",");
                    proof {
                        reveal_strlit(",");
                    }
                }
                push_key(out, &children[i]);
                proof {
                    lemma_canon_keys_push(children@.subrange(0, i as int), children@[i as int]);
                    assert(children@.subrange(0, i as int).push(children@[i as int])
                        =~= children@.subrange(0, i + 1));
                    if i > 0 {
                        assert(((base + open_part + sofar) + ","@) + canon_key(children@[i as int])
                            =~= base + open_part + (sofar + seq![','] + canon_key(children@[i as int])));
                    } else {
                        assert(children@.subrange(0, 0) =~= Seq::<Segment>::empty());
                        assert((base + open_part + sofar) + canon_key(children@[i as int])
                            =~= base + open_part + canon_key(children@[i as int]));
                    }
                }
                i += 1;
            }
            out.append("]");
            proof {
                reveal_strlit("]");
                assert(children@.subrange(0, children@.len() as int) =~= children@);
                assert((base + open_part + canon_keys(children@)) + "]"@
                    =~= base + (open_part + canon_keys(children@) + seq![']']));
            }
        },
        Segment::Link(id) => {
            out.append("L:node:");
            push_decimal(out, *id);
            proof {
                reveal_strlit("L:node:");
                assert((base + "L:node:"@) + dec_digits(*id as nat)
                    =~= base + (seq!['L', ':', 'n', 'o', 'd', 'e', ':'] + dec_digits(*id as nat)));
            }
        },
    }
}

/// Canonical key of a segment as an owned string.
pub fn segment_to_key(segment: &Segment) -> (r: String)
    ensures
        r@ == canon_key(*segment),
{
    let mut out = String::new();
    push_key(&mut out, segment);
    proof {
        assert(Seq::<char>::empty() + canon_key(*segment) =~= canon_key(*segment));
    }
    out
}

/// Canonical-key structural sharing: maps each canonical key to the
/// first segment submitted with that key, in insertion order, so that
/// at most one stored representation exists per structural shape.
pub struct DeduplicationIndex {
    entries: Vec<(String, Segment)>,
}

impl View for DeduplicationIndex {
    type V = Seq<(Seq<char>, Segment)>;

    /// The (canonical key, stored segment) pairs in insertion order.
    closed spec fn view(&self) -> Seq<(Seq<char>, Segment)> {
        Seq::new(self.entries@.len(), |i: int| (self.entries@[i].0@, self.entries@[i].1))
    }
}

impl DeduplicationIndex {
    /// Keys are distinct and each entry's key is the canonical key of
    /// its stored segment.
    pub open spec fn wf(self) -> bool {
        &&& forall|i: int, j: int|
            0 <= i < j < self@.len() ==> (#[trigger] self@[i]).0 != (#[trigger] self@[j]).0
        &&& forall|i: int| 0 <= i < self@.len() ==> (#[trigger] self@[i]).0 == canon_key(self@[i].1)
    }

    /// Whether some entry is stored under `key`.
    pub open spec fn has_key(self, key: Seq<char>) -> bool {
        exists|i: int| 0 <= i < self@.len() && (#[trigger] self@[i]).0 == key
    }

    /// An empty index.
    pub fn new() -> (r: DeduplicationIndex)
        ensures
            r@ == Seq::<(Seq<char>, Segment)>::empty(),
            r.wf(),
    {
        let r = DeduplicationIndex { entries: Vec::new() };
        proof {
            assert(r@ =~= Seq::<(Seq<char>, Segment)>::empty());
        }
        r
    }

    /// Number of distinct structural shapes stored.
    pub fn len(&self) -> (r: usize)
        ensures
            r == self@.len(),
    {
        self.entries.len()
    }

    /// The stored segment at position `i`.
    pub fn entry_at(&self, i: usize) -> (r: &Segment)
        requires
            i < self@.len(),
        ensures
            *r == self@[i as int].1,
    {
        &self.entries[i].1
    }

    /// Computes the canonical key of `segment`; when an entry with that
    /// key exists the previously stored instance is returned and the
    /// index is unchanged, otherwise `segment` itself is stored and
    /// returned. At most one stored instance per canonical key.
    #[verifier::loop_isolation(false)]
    pub fn get_or_insert(&mut self, segment: Segment) -> (r: &Segment)
        requires
            old(self).wf(),
        ensures
            final(self).wf(),
            old(self).has_key(canon_key(segment)) ==> {
                &&& final(self)@ == old(self)@
                &&& exists|i: int|
                    0 <= i < final(self)@.len() && (#[trigger] final(self)@[i]).0 == canon_key(segment)
                        && *r == final(self)@[i].1
            },
            !old(self).has_key(canon_key(segment)) ==> {
                &&& final(self)@ == old(self)@.push((canon_key(segment), segment))
                &&& *r == segment
            },
    {
        let key = segment_to_key(&segment);
        let mut i: usize = 0;
        while i < self.entries.len()
            invariant
                i <= self@.len(),
                forall|j: int| 0 <= j < i ==> (#[trigger] self@[j]).0 != key@,
            decreases self@.len() - i,
        {
            let entry_key: &String = &self.entries[i].0;
            if *entry_key == key {
                proof {
                    assert(self@[i as int].0 == canon_key(segment));
                    assert(old(self).has_key(canon_key(segment)));
                }
                return &self.entries[i].1;
            }
            i += 1;
        }
        let ghost prior = self@;
        self.entries.push((key, segment));
        proof {
            assert(self@ =~= prior.push((canon_key(segment), segment)));
        }
        let n = self.entries.len();
        &self.entries[n - 1].1
    }
}

/// Returns the shared canonical instance for `segment`, inserting it on
/// first sight; repeated structurally identical submissions resolve to
/// the first stored instance.
pub fn get_cached_segment<'a>(cache: &'a mut DeduplicationIndex, segment: Segment) -> (r: &'a Segment)
    requires
        old(cache).wf(),
    ensures
        final(cache).wf(),
        old(cache).has_key(canon_key(segment)) ==> {
            &&& final(cache)@ == old(cache)@
            &&& exists|i: int|
                0 <= i < final(cache)@.len() && (#[trigger] final(cache)@[i]).0 == canon_key(segment)
                    && *r == final(cache)@[i].1
        },
        !old(cache).has_key(canon_key(segment)) ==> {
            &&& final(cache)@ == old(cache)@.push((canon_key(segment), segment))
            &&& *r == segment
        },
{
    cache.get_or_insert(segment)
}

} // verus!
