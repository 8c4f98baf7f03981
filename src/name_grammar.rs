//! The read-name micro-format.
//!
//! A segment is the text `{key}={value},{quality};` where
//! - `key` is one or more of `[A-Za-z0-9_.]`,
//! - `value` is one or more of `[A-Za-z0-9_]`,
//! - `quality` is one or more bytes other than a newline, and ends at the
//!   earliest `};` that follows its first byte (so it may itself hold `;` or `}`,
//!   but never the pair `};`).
//!
//! A name is scanned left to right: at each position either a segment starts
//! there, and the scan resumes after its closing `;`, or the byte is skipped.
//! Text that is not part of a segment is ignored; decoding never fails.
use vstd::prelude::*;

verus! {

pub const OPEN: u8 = 0x7b;  // '{'
pub const CLOSE: u8 = 0x7d;  // '}'
pub const EQUALS: u8 = 0x3d;  // '='
pub const COMMA: u8 = 0x2c;  // ','
pub const SEMI: u8 = 0x3b;  // ';'
pub const NEWLINE: u8 = 0x0a;  // '\n'
pub const LOWER_A: u8 = 0x61;  // 'a'
pub const LOWER_Z: u8 = 0x7a;  // 'z'
pub const UPPER_A: u8 = 0x41;  // 'A'
pub const UPPER_Z: u8 = 0x5a;  // 'Z'
pub const DIGIT_0: u8 = 0x30;  // '0'
pub const DIGIT_9: u8 = 0x39;  // '9'
pub const UNDERSCORE: u8 = 0x5f;  // '_'
pub const DOT: u8 = 0x2e;  // '.'

pub open spec fn is_key_byte(b: u8) -> bool {
    (LOWER_A <= b && b <= LOWER_Z) || (UPPER_A <= b && b <= UPPER_Z) || (DIGIT_0 <= b && b <= DIGIT_9)
        || b == UNDERSCORE || b == DOT
}

pub open spec fn is_word_byte(b: u8) -> bool {
    (LOWER_A <= b && b <= LOWER_Z) || (UPPER_A <= b && b <= UPPER_Z) || (DIGIT_0 <= b && b <= DIGIT_9)
        || b == UNDERSCORE
}

pub open spec fn is_quality_byte(b: u8) -> bool {
    b != NEWLINE
}

/// `name[i]` and `name[i + 1]` are the closing pair `};`.
pub open spec fn closes_at(name: Seq<u8>, i: int) -> bool {
    0 <= i && i + 1 < name.len() && name[i] == CLOSE && name[i + 1] == SEMI
}

/// A segment starts at `s`: its key is `name[s + 1 .. k]`, its value
/// `name[k + 3 .. v]`, its quality `name[v + 3 .. q]`, and it ends with the
/// `};` at `q`.
pub open spec fn segment_at(name: Seq<u8>, s: int, k: int, v: int, q: int) -> bool {
    &&& 0 <= s
    &&& s + 1 < k
    &&& k + 3 < v
    &&& v + 3 < q
    &&& q + 1 < name.len()
    &&& name[s] == OPEN
    &&& forall|i: int| s < i < k ==> is_key_byte(#[trigger] name[i])
    &&& name[k] == CLOSE && name[k + 1] == EQUALS && name[k + 2] == OPEN
    &&& forall|i: int| k + 2 < i < v ==> is_word_byte(#[trigger] name[i])
    &&& name[v] == CLOSE && name[v + 1] == COMMA && name[v + 2] == OPEN
    &&& forall|i: int| v + 2 < i < q ==> is_quality_byte(#[trigger] name[i])
    &&& closes_at(name, q)
    &&& forall|i: int| v + 3 < i < q ==> !#[trigger] closes_at(name, i)
}

pub open spec fn starts_segment(name: Seq<u8>, s: int) -> bool {
    exists|k: int, v: int, q: int| segment_at(name, s, k, v, q)
}

/// The bounds `(k, v, q)` of the segment that starts at `s`.
pub open spec fn segment_bounds(name: Seq<u8>, s: int) -> (int, int, int)
    recommends
        starts_segment(name, s),
{
    choose|k: int, v: int, q: int| segment_at(name, s, k, v, q)
}

/// A decoded segment, as byte sequences: the model of [`Segment`].
pub struct SegmentView {
    pub key: Seq<u8>,
    pub value: Seq<u8>,
    pub quality: Seq<u8>,
}

pub open spec fn segment_view(name: Seq<u8>, s: int, k: int, v: int, q: int) -> SegmentView {
    SegmentView {
        key: name.subrange(s + 1, k),
        value: name.subrange(k + 3, v),
        quality: name.subrange(v + 3, q),
    }
}

/// The segments of `name` found by a scan that starts at position `p`.
pub open spec fn segments_from(name: Seq<u8>, p: int) -> Seq<SegmentView>
    decreases name.len() - p,
    via segments_from_decreases
{
    if p < 0 || p >= name.len() {
        Seq::empty()
    } else if starts_segment(name, p) {
        let t = segment_bounds(name, p);
        seq![segment_view(name, p, t.0, t.1, t.2)] + segments_from(name, t.2 + 2)
    } else {
        segments_from(name, p + 1)
    }
}

#[via_fn]
proof fn segments_from_decreases(name: Seq<u8>, p: int) {
    if p < 0 || p >= name.len() {
    } else if starts_segment(name, p) {
        let t = segment_bounds(name, p);
        assert(segment_at(name, p, t.0, t.1, t.2));
    }
}

/// All segments of `name`, left to right.
pub open spec fn segments(name: Seq<u8>) -> Seq<SegmentView> {
    segments_from(name, 0)
}

/// At most one segment starts at a given position.
pub proof fn lemma_segment_unique(
    name: Seq<u8>,
    s: int,
    k1: int,
    v1: int,
    q1: int,
    k2: int,
    v2: int,
    q2: int,
)
    requires
        segment_at(name, s, k1, v1, q1),
        segment_at(name, s, k2, v2, q2),
    ensures
        k1 == k2 && v1 == v2 && q1 == q2,
{
    if k1 < k2 {
        assert(is_key_byte(name[k1]));
    } else if k2 < k1 {
        assert(is_key_byte(name[k2]));
    }
    if v1 < v2 {
        assert(is_word_byte(name[v1]));
    } else if v2 < v1 {
        assert(is_word_byte(name[v2]));
    }
    if q1 < q2 {
        assert(closes_at(name, q1));
    } else if q2 < q1 {
        assert(closes_at(name, q2));
    }
}

/// The scan from the start of a segment yields that segment, then resumes after it.
pub proof fn lemma_segments_from_segment(name: Seq<u8>, s: int, k: int, v: int, q: int)
    requires
        segment_at(name, s, k, v, q),
    ensures
        segments_from(name, s) == seq![segment_view(name, s, k, v, q)] + segments_from(
            name,
            q + 2,
        ),
{
    let t = segment_bounds(name, s);
    assert(segment_at(name, s, t.0, t.1, t.2));
    lemma_segment_unique(name, s, k, v, q, t.0, t.1, t.2);
}

/// A position at which no segment starts is skipped by the scan.
pub proof fn lemma_segments_from_skip(name: Seq<u8>, p: int)
    requires
        0 <= p,
        !starts_segment(name, p),
    ensures
        segments_from(name, p) == segments_from(name, p + 1),
{
    if p >= name.len() {
        assert(segments_from(name, p + 1) == Seq::<SegmentView>::empty());
    }
}

/// The bounds `(k, v, q)` of the segment that starts at `s`, if one does.
fn segment_at_pos(name: &[u8], s: usize) -> (r: Option<(usize, usize, usize)>)
    ensures
        match r {
            Some((k, v, q)) => segment_at(name@, s as int, k as int, v as int, q as int),
            None => !starts_segment(name@, s as int),
        },
{
    let n = name.len();
    if s >= n || name[s] != OPEN {
        return None;
    }
    let mut k: usize = s + 1;
    while k < n && key_byte(name[k])
        invariant
            s < k <= n,
            n == name@.len(),
            forall|i: int| s < i < k ==> is_key_byte(#[trigger] name@[i]),
        decreases n - k,
    {
        k = k + 1;
    }
    // `k` is the only place where the key can end.
    assert(forall|k2: int, v2: int, q2: int| #[trigger]
        segment_at(name@, s as int, k2, v2, q2) ==> k2 == k) by {
        assert forall|k2: int, v2: int, q2: int| #[trigger]
            segment_at(name@, s as int, k2, v2, q2) implies k2 == k by {
            if k2 < k {
                assert(is_key_byte(name@[k2]));
            } else if k2 > k {
                assert(is_key_byte(name@[k as int]));
            }
        }
    }
    if k == s + 1 || n - k <= 2 || name[k] != CLOSE || name[k + 1] != EQUALS || name[k + 2]
        != OPEN {
        return None;
    }
    let mut v: usize = k + 3;
    while v < n && word_byte(name[v])
        invariant
            k + 3 <= v <= n,
            n == name@.len(),
            forall|i: int| s < i < k ==> is_key_byte(#[trigger] name@[i]),
            forall|i: int| k + 2 < i < v ==> is_word_byte(#[trigger] name@[i]),
        decreases n - v,
    {
        v = v + 1;
    }
    assert(forall|k2: int, v2: int, q2: int| #[trigger]
        segment_at(name@, s as int, k2, v2, q2) ==> v2 == v) by {
        assert forall|k2: int, v2: int, q2: int| #[trigger]
            segment_at(name@, s as int, k2, v2, q2) implies v2 == v by {
            if v2 < v {
                assert(is_word_byte(name@[v2]));
            } else if v2 > v {
                assert(is_word_byte(name@[v as int]));
            }
        }
    }
    if v == k + 3 || n - v <= 3 || name[v] != CLOSE || name[v + 1] != COMMA || name[v + 2]
        != OPEN || name[v + 3] == NEWLINE {
        return None;
    }
    let mut q: usize = v + 4;
    while q < n - 1
        invariant
            v + 4 <= q <= n,
            n == name@.len(),
            s + 1 < k && k + 3 < v,
            name@[s as int] == OPEN,
            name@[k as int] == CLOSE && name@[k + 1] == EQUALS && name@[k + 2] == OPEN,
            name@[v as int] == CLOSE && name@[v + 1] == COMMA && name@[v + 2] == OPEN,
            forall|i: int| s < i < k ==> is_key_byte(#[trigger] name@[i]),
            forall|i: int| k + 2 < i < v ==> is_word_byte(#[trigger] name@[i]),
            forall|i: int| v + 2 < i < q ==> is_quality_byte(#[trigger] name@[i]),
            forall|i: int| v + 3 < i < q ==> !#[trigger] closes_at(name@, i),
            forall|k2: int, v2: int, q2: int| #[trigger]
                segment_at(name@, s as int, k2, v2, q2) ==> k2 == k && v2 == v && q2 >= q,
        decreases n - q,
    {
        if name[q] == CLOSE && name[q + 1] == SEMI {
            assert(closes_at(name@, q as int));
            return Some((k, v, q));
        }
        if name[q] == NEWLINE {
            assert forall|k2: int, v2: int, q2: int|
                !#[trigger] segment_at(name@, s as int, k2, v2, q2) by {
                if segment_at(name@, s as int, k2, v2, q2) {
                    if q2 > q {
                        assert(is_quality_byte(name@[q as int]));
                    }
                }
            }
            return None;
        }
        assert(!closes_at(name@, q as int));
        q = q + 1;
    }
    None
}

/// A decoded segment of a read name.
pub struct Segment {
    pub key: Vec<u8>,
    pub value: Vec<u8>,
    pub quality: Vec<u8>,
}

impl View for Segment {
    type V = SegmentView;

    open spec fn view(&self) -> SegmentView {
        SegmentView { key: self.key@, value: self.value@, quality: self.quality@ }
    }
}

/// The first segment that starts at or after `from`, as its start and its
/// bounds `(s, k, v, q)`, or `None` if no segment starts there.
pub fn next_segment(name: &[u8], from: usize) -> (r: Option<(usize, usize, usize, usize)>)
    ensures
        match r {
            Some((s, k, v, q)) => {
                &&& from <= s
                &&& segment_at(name@, s as int, k as int, v as int, q as int)
                &&& segments_from(name@, from as int) == seq![
                    segment_view(name@, s as int, k as int, v as int, q as int),
                ] + segments_from(name@, q + 2)
            },
            None => segments_from(name@, from as int) == Seq::<SegmentView>::empty(),
        },
{
    let mut s: usize = from;
    while s < name.len()
        invariant
            from <= s,
            segments_from(name@, from as int) == segments_from(name@, s as int),
        decreases name.len() - s,
    {
        match segment_at_pos(name, s) {
            Some((k, v, q)) => {
                proof {
                    lemma_segments_from_segment(name@, s as int, k as int, v as int, q as int);
                }
                return Some((s, k, v, q));
            },
            None => {
                proof {
                    lemma_segments_from_skip(name@, s as int);
                }
                s = s + 1;
            },
        }
    }
    None
}

/// A copy of `name[lo .. hi]`.
pub(crate) fn copy_range(name: &[u8], lo: usize, hi: usize) -> (r: Vec<u8>)
    requires
        lo <= hi <= name@.len(),
    ensures
        r@ == name@.subrange(lo as int, hi as int),
{
    let mut r: Vec<u8> = Vec::new();
    let mut i: usize = lo;
    while i < hi
        invariant
            lo <= i <= hi <= name@.len(),
            r@ == name@.subrange(lo as int, i as int),
        decreases hi - i,
    {
        r.push(name[i]);
        i = i + 1;
        assert(r@ =~= name@.subrange(lo as int, i as int));
    }
    r
}

/// The segment whose bounds are `(s, k, v, q)`, copied out of `name`.
fn segment_from_bounds(name: &[u8], s: usize, k: usize, v: usize, q: usize) -> (r: Segment)
    requires
        segment_at(name@, s as int, k as int, v as int, q as int),
    ensures
        r@ == segment_view(name@, s as int, k as int, v as int, q as int),
{
    Segment {
        key: copy_range(name, s + 1, k),
        value: copy_range(name, k + 3, v),
        quality: copy_range(name, v + 3, q),
    }
}

/// Every segment of `name`, left to right.
pub fn decode_segments(name: &[u8]) -> (r: Vec<Segment>)
    ensures
        r@.map_values(|g: Segment| g@) == segments(name@),
{
    let mut r: Vec<Segment> = Vec::new();
    let mut pos: usize = 0;
    while pos < name.len()
        invariant
            pos <= name@.len(),
            segments(name@) == r@.map_values(|g: Segment| g@) + segments_from(name@, pos as int),
        decreases name.len() - pos,
    {
        match next_segment(name, pos) {
            Some((s, k, v, q)) => {
                let g = segment_from_bounds(name, s, k, v, q);
                let ghost before = r@;
                r.push(g);
                assert(r@.map_values(|g: Segment| g@) =~= before.map_values(|g: Segment| g@)
                    + seq![g@]);
                pos = q + 2;
            },
            None => {
                assert(r@.map_values(|g: Segment| g@) + segments_from(name@, pos as int)
                    =~= r@.map_values(|g: Segment| g@));
                return r;
            },
        }
    }
    assert(segments_from(name@, pos as int) == Seq::<SegmentView>::empty());
    assert(r@.map_values(|g: Segment| g@) + segments_from(name@, pos as int)
        =~= r@.map_values(|g: Segment| g@));
    r
}

fn key_byte(b: u8) -> (r: bool)
    ensures
        r == is_key_byte(b),
{
    (LOWER_A <= b && b <= LOWER_Z) || (UPPER_A <= b && b <= UPPER_Z) || (DIGIT_0 <= b && b <= DIGIT_9) || b
        == UNDERSCORE || b == DOT
}

fn word_byte(b: u8) -> (r: bool)
    ensures
        r == is_word_byte(b),
{
    (LOWER_A <= b && b <= LOWER_Z) || (UPPER_A <= b && b <= UPPER_Z) || (DIGIT_0 <= b && b <= DIGIT_9) || b
        == UNDERSCORE
}

} // verus!
