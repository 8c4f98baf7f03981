//! The per-record decision of the stream: for each read name, in input order,
//! which UMI to store under the `RX` tag and whether to report a miss.
//!
//! The caller reads each record, hands its name to [`UmiMover::process_name`],
//! applies the returned step to the record and writes it out, one record at a
//! time, so that the output holds exactly the input records in input order.
use vstd::prelude::*;

use crate::diagnostics::{lossy_text, report_step, MissReporter, MISS_REPORT_CAP};
use crate::umi::{bytes_view, extract_read_umi, umi_of};

verus! {

/// The tag under which the UMI is stored.
pub const UMI_TAG: &'static str = "RX";

/// What to do with one record.
pub struct RecordStep {
    /// The value to set under [`UMI_TAG`], replacing any earlier one; `None`
    /// leaves the record unchanged.
    pub umi: Option<Vec<u8>>,
    /// A notice to emit about a name that holds no UMI.
    pub notice: Option<String>,
}

/// The model of [`RecordStep`].
pub struct RecordStepView {
    pub umi: Option<Seq<u8>>,
    pub notice: Option<Seq<char>>,
}

impl View for RecordStep {
    type V = RecordStepView;

    open spec fn view(&self) -> RecordStepView {
        RecordStepView {
            umi: bytes_view(self.umi),
            notice: match self.notice {
                Some(t) => Some(t@),
                None => None,
            },
        }
    }
}

/// The state of one run: its target key, and the misses reported so far.
pub struct UmiMover {
    target: Vec<u8>,
    misses: MissReporter,
}

/// The model of [`UmiMover`]: the target key and the number of misses reported.
pub struct UmiMoverView {
    pub target: Seq<u8>,
    pub reported: nat,
}

impl View for UmiMover {
    type V = UmiMoverView;

    closed spec fn view(&self) -> UmiMoverView {
        UmiMoverView { target: self.target@, reported: self.misses@ }
    }
}

/// One record with name `name`: the state after it, and the step taken on it.
pub open spec fn step(m: UmiMoverView, name: Seq<u8>) -> (UmiMoverView, RecordStepView) {
    let umi = umi_of(name, m.target);
    if umi is Some {
        (m, RecordStepView { umi, notice: None })
    } else {
        let (reported, emit) = report_step(m.reported);
        (
            UmiMoverView { target: m.target, reported },
            RecordStepView { umi: None, notice: if emit { Some(lossy_text(name)) } else { None } },
        )
    }
}

/// A stream of records with names `names`, taken in order: the final state and
/// the step taken on each record.
pub open spec fn run(m: UmiMoverView, names: Seq<Seq<u8>>) -> (UmiMoverView, Seq<RecordStepView>)
    decreases names.len(),
{
    if names.len() == 0 {
        (m, Seq::empty())
    } else {
        let (m1, first) = step(m, names[0]);
        let (m2, rest) = run(m1, names.drop_first());
        (m2, seq![first] + rest)
    }
}

impl UmiMover {
    /// A run that looks for the key `target` and has reported nothing yet.
    pub fn new(target: Vec<u8>) -> (r: Self)
        ensures
            r@ == (UmiMoverView { target: target@, reported: 0 }),
    {
        UmiMover { target, misses: MissReporter::new() }
    }

    /// The number of misses reported so far.
    pub fn reported(&self) -> (r: u64)
        ensures
            r == self@.reported,
    {
        self.misses.reported()
    }

    /// Decides what to do with the record named `name`.
    pub fn process_name(&mut self, name: &[u8]) -> (r: RecordStep)
        ensures
            (final(self)@, r@) == step(old(self)@, name@),
    {
        let umi = extract_read_umi(name, self.target.as_slice());
        match umi {
            Some(v) => RecordStep { umi: Some(v), notice: None },
            None => {
                let notice = self.misses.report_miss(name);
                RecordStep { umi: None, notice }
            },
        }
    }
}

/// A stream yields one step per record, in input order: the `i`-th step carries
/// the UMI of the `i`-th name and nothing else changes the record.
pub proof fn lemma_run_keeps_order_and_count(m: UmiMoverView, names: Seq<Seq<u8>>)
    ensures
        run(m, names).1.len() == names.len(),
        run(m, names).0.target == m.target,
        forall|i: int|
            0 <= i < names.len() ==> (#[trigger] run(m, names).1[i]).umi == umi_of(
                names[i],
                m.target,
            ),
    decreases names.len(),
{
    if names.len() > 0 {
        let (m1, first) = step(m, names[0]);
        lemma_run_keeps_order_and_count(m1, names.drop_first());
        let outs = run(m, names).1;
        assert forall|i: int| 0 <= i < names.len() implies (#[trigger] outs[i]).umi == umi_of(
            names[i],
            m.target,
        ) by {
            if i > 0 {
                assert(names.drop_first()[i - 1] == names[i]);
            }
        }
    }
}

/// When no name holds the target key, every record passes unchanged, and
/// exactly the first `MISS_REPORT_CAP - reported` of them are reported.
pub proof fn lemma_misses_reported_up_to_cap(m: UmiMoverView, names: Seq<Seq<u8>>)
    requires
        forall|i: int| 0 <= i < names.len() ==> umi_of(#[trigger] names[i], m.target) is None,
    ensures
        run(m, names).1.len() == names.len(),
        forall|i: int| 0 <= i < names.len() ==> (#[trigger] run(m, names).1[i]).umi is None,
        forall|i: int|
            0 <= i < names.len() ==> ((#[trigger] run(m, names).1[i]).notice is Some <==> m.reported
                + i < MISS_REPORT_CAP),
        forall|i: int|
            0 <= i < names.len() ==> ((#[trigger] run(m, names).1[i]).notice matches Some(t) ==> t
                == lossy_text(names[i])),
    decreases names.len(),
{
    if names.len() > 0 {
        let (m1, first) = step(m, names[0]);
        let rest = names.drop_first();
        assert forall|i: int| 0 <= i < rest.len() implies umi_of(
            #[trigger] rest[i],
            m1.target,
        ) is None by {
            assert(rest[i] == names[i + 1]);
        }
        lemma_misses_reported_up_to_cap(m1, rest);
        let outs = run(m, names).1;
        assert(umi_of(names[0], m.target) is None);
        assert forall|i: int| 0 <= i < names.len() implies {
            &&& (#[trigger] outs[i]).umi is None
            &&& (outs[i].notice is Some <==> m.reported + i < MISS_REPORT_CAP)
            &&& (outs[i].notice matches Some(t) ==> t == lossy_text(names[i]))
        } by {
            if i > 0 {
                assert(rest[i - 1] == names[i]);
                assert(outs[i] == run(m1, rest).1[i - 1]);
            }
        }
    }
}

} // verus!
