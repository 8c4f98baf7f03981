//! Picking the UMI out of a read name: the value of the first segment whose
//! key equals the target key, byte for byte.
use vstd::prelude::*;

use crate::name_grammar::{
    is_word_byte, copy_range, next_segment, segment_at, segment_view, segments, segments_from, SegmentView,
};

verus! {

/// The value of the first segment in `segs` whose key is `target`.
pub open spec fn first_value(segs: Seq<SegmentView>, target: Seq<u8>) -> Option<Seq<u8>>
    decreases segs.len(),
{
    if segs.len() == 0 {
        None
    } else if segs[0].key == target {
        Some(segs[0].value)
    } else {
        first_value(segs.drop_first(), target)
    }
}

/// The UMI held in `name` under the key `target`, if any.
pub open spec fn umi_of(name: Seq<u8>, target: Seq<u8>) -> Option<Seq<u8>> {
    first_value(segments(name), target)
}

/// The view of an optional byte vector.
pub open spec fn bytes_view(r: Option<Vec<u8>>) -> Option<Seq<u8>> {
    match r {
        Some(v) => Some(v@),
        None => None,
    }
}

proof fn lemma_first_value_cons(g: SegmentView, rest: Seq<SegmentView>, target: Seq<u8>)
    ensures
        first_value(seq![g] + rest, target) == if g.key == target {
            Some(g.value)
        } else {
            first_value(rest, target)
        },
{
    assert((seq![g] + rest).drop_first() =~= rest);
}

/// Whether `name[lo .. hi]` equals `id`.
fn range_equals(name: &[u8], lo: usize, hi: usize, id: &[u8]) -> (r: bool)
    requires
        lo <= hi <= name@.len(),
    ensures
        r == (name@.subrange(lo as int, hi as int) == id@),
{
    if hi - lo != id.len() {
        return false;
    }
    let mut i: usize = 0;
    while i < id.len()
        invariant
            lo <= hi <= name@.len(),
            hi - lo == id@.len(),
            i <= id@.len(),
            forall|j: int| 0 <= j < i ==> name@[lo + j] == id@[j],
        decreases id.len() - i,
    {
        if name[lo + i] != id[i] {
            assert(name@.subrange(lo as int, hi as int)[i as int] != id@[i as int]);
            return false;
        }
        i = i + 1;
    }
    assert(name@.subrange(lo as int, hi as int) =~= id@);
    true
}

/// The value of the first segment of `read_name` whose key is exactly `id`
/// (case-sensitive), or `None` when no segment has that key.
pub fn extract_read_umi(read_name: &[u8], id: &[u8]) -> (r: Option<Vec<u8>>)
    ensures
        bytes_view(r) == umi_of(read_name@, id@),
        r matches Some(v) ==> v@.len() > 0 && forall|i: int|
            0 <= i < v@.len() ==> is_word_byte(#[trigger] v@[i]),
{
    let mut pos: usize = 0;
    while pos < read_name.len()
        invariant
            pos <= read_name@.len(),
            umi_of(read_name@, id@) == first_value(segments_from(read_name@, pos as int), id@),
        decreases read_name.len() - pos,
    {
        match next_segment(read_name, pos) {
            Some((s, k, v, q)) => {
                let ghost g = segment_view(read_name@, s as int, k as int, v as int, q as int);
                proof {
                    lemma_first_value_cons(g, segments_from(read_name@, q + 2), id@);
                }
                if range_equals(read_name, s + 1, k, id) {
                    let value = copy_range(read_name, k + 3, v);
                    assert forall|i: int| 0 <= i < value@.len() implies is_word_byte(
                        #[trigger] value@[i],
                    ) by {
                        assert(value@[i] == read_name@[k + 3 + i]);
                    }
                    return Some(value);
                }
                pos = q + 2;
            },
            None => {
                return None;
            },
        }
    }
    None
}

} // verus!
