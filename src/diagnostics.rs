//! Reports of read names that hold no UMI, capped per run.
use vstd::prelude::*;

verus! {

/// How many misses a run reports; later misses pass silently.
pub const MISS_REPORT_CAP: u64 = 100;

/// The text that `String::from_utf8_lossy` makes of `b`.
pub uninterp spec fn lossy_text(b: Seq<u8>) -> Seq<char>;

/// Every byte of `b` is ASCII.
pub open spec fn is_ascii_bytes(b: Seq<u8>) -> bool {
    forall|i: int| 0 <= i < b.len() ==> #[trigger] b[i] < 128
}

/// `b`, one character per byte.
pub open spec fn ascii_chars(b: Seq<u8>) -> Seq<char> {
    b.map_values(|x: u8| x as char)
}

/// Relies on `String::from_utf8_lossy`: the text depends on the bytes alone,
/// and valid UTF-8 (ASCII in particular) comes back unchanged.
#[verifier::external_body]
fn from_utf8_lossy(bs: &[u8]) -> (r: String)
    ensures
        r@ == lossy_text(bs@),
        is_ascii_bytes(bs@) ==> r@ == ascii_chars(bs@),
{
    String::from_utf8_lossy(bs).into_owned()
}

/// A best-effort text rendering of `bs`: invalid UTF-8 is replaced, not refused.
pub fn show(bs: &[u8]) -> (r: String)
    ensures
        r@ == lossy_text(bs@),
        is_ascii_bytes(bs@) ==> r@ == ascii_chars(bs@),
{
    from_utf8_lossy(bs)
}

/// Counts the misses reported so far in a run.
pub struct MissReporter {
    reported: u64,
}

/// What reporting a miss does to the count `reported`: the new count, and
/// whether a notice is emitted.
pub open spec fn report_step(reported: nat) -> (nat, bool) {
    if reported < MISS_REPORT_CAP {
        (reported + 1, true)
    } else {
        (reported, false)
    }
}

impl View for MissReporter {
    type V = nat;

    closed spec fn view(&self) -> nat {
        self.reported as nat
    }
}

impl MissReporter {
    /// A reporter that has reported nothing yet.
    pub fn new() -> (r: Self)
        ensures
            r@ == 0,
    {
        MissReporter { reported: 0 }
    }

    /// The number of notices emitted so far.
    pub fn reported(&self) -> (r: u64)
        ensures
            r == self@,
    {
        self.reported
    }

    /// Records a miss on `name`. Below the cap this returns the notice text, a
    /// lossy rendering of `name`, and counts it; at the cap it does nothing.
    pub fn report_miss(&mut self, name: &[u8]) -> (r: Option<String>)
        ensures
            final(self)@ == report_step(old(self)@).0,
            r is Some == report_step(old(self)@).1,
            r matches Some(t) ==> t@ == lossy_text(name@),
            r matches Some(t) ==> (is_ascii_bytes(name@) ==> t@ == ascii_chars(name@)),
    {
        if self.reported < MISS_REPORT_CAP {
            self.reported = self.reported + 1;
            Some(show(name))
        } else {
            None
        }
    }
}

} // verus!
