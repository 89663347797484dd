//! The trace: the accumulated history of the batches accepted for one
//! stream, kept consolidated so that it is logically one large batch.  An
//! operator that needs history owns exactly one trace and consults it each
//! step.

use vstd::prelude::*;
use crate::zset::{wf_entries, wsum, Tuple, ZSetBatch};

verus! {

/// Accumulated state of a stream: the ordered union of all batches inserted
/// since creation (or since the last compaction), folded into one
/// well-formed batch.
pub struct Trace {
    acc: ZSetBatch,
}

impl View for Trace {
    type V = Seq<Tuple>;

    closed spec fn view(&self) -> Seq<Tuple> {
        self.acc@
    }
}

impl Trace {
    pub open spec fn wf(&self) -> bool {
        wf_entries(self@)
    }

    /// A fresh trace holding no history.
    pub fn new() -> (r: Trace)
        ensures
            r.wf(),
            r@ =~= Seq::<Tuple>::empty(),
            forall|k: u64, v: u64| #[trigger] wsum(r@, k, v) == 0,
    {
        Trace { acc: ZSetBatch::empty() }
    }

    /// The logical union of everything inserted so far, as one batch; the
    /// way cursors read a trace.
    pub fn batch(&self) -> (r: &ZSetBatch)
        ensures
            r@ == self@,
    {
        &self.acc
    }

    /// The cumulative weight the trace holds for one pair.
    pub fn get_weight(&self, k: u64, v: u64) -> (w: i64)
        requires
            self.wf(),
        ensures
            w as int == wsum(self@, k, v),
    {
        self.acc.get_weight(k, v)
    }

    /// Folds one step's batch into the trace.  Batches must be inserted in
    /// step order; the caller guarantees the cumulative weights stay within
    /// the weight type.
    pub fn insert(&mut self, b: &ZSetBatch)
        requires
            old(self).wf(),
            b.wf(),
            forall|k: u64, v: u64|
                i64::MIN <= #[trigger] wsum(old(self)@, k, v) + #[trigger] wsum(b@, k, v)
                    <= i64::MAX,
        ensures
            final(self).wf(),
            forall|k: u64, v: u64|
                #[trigger] wsum(final(self)@, k, v) == wsum(old(self)@, k, v) + wsum(b@, k, v),
    {
        self.acc = self.acc.merge(b);
    }

    /// Discards all information on keys below the watermark, leaving the
    /// weights of every retained key untouched.
    pub fn compact(&mut self, watermark: u64)
        requires
            old(self).wf(),
        ensures
            final(self).wf(),
            forall|k: u64, v: u64|
                k >= watermark ==> #[trigger] wsum(final(self)@, k, v) == wsum(old(self)@, k, v),
            forall|k: u64, v: u64| k < watermark ==> #[trigger] wsum(final(self)@, k, v) == 0,
    {
        let s = self.acc.len();
        let mut out: Vec<Tuple> = Vec::new();
        let ghost a = self@;
        for i in 0..s
            invariant
                s == a.len(),
                self.wf(),
                self@ == a,
                wf_entries(out@),
                forall|m: int, j: int|
                    0 <= m < out@.len() && i <= j < a.len() ==> crate::zset::tuple_lt(
                        out@[m],
                        a[j],
                    ),
                forall|k: u64, v: u64|
                    #[trigger] wsum(out@, k, v) == if k >= watermark {
                        wsum(a.take(i as int), k, v)
                    } else {
                        0
                    },
        {
            let t = self.acc.entry(i);
            let ghost out0 = out@;
            if t.key >= watermark {
                out.push(t);
                proof {
                    assert(out@ =~= out0.push(t));
                    assert forall|m: int| 0 <= m < out0.len() implies crate::zset::tuple_lt(
                        #[trigger] out0[m],
                        t,
                    ) by {
                        assert(crate::zset::tuple_lt(out0[m], a[i as int]));
                    }
                    crate::zset::lemma_wf_push(out0, t);
                }
            }
            proof {
                assert(a.take(i + 1) =~= a.take(i as int).push(t));
                assert forall|k: u64, v: u64|
                    #[trigger] wsum(out@, k, v) == if k >= watermark {
                        wsum(a.take(i + 1), k, v)
                    } else {
                        0
                    } by {
                    assert(wsum(out0, k, v) == if k >= watermark {
                        wsum(a.take(i as int), k, v)
                    } else {
                        0
                    });
                    crate::zset::lemma_esum_push(
                        a.take(i as int),
                        t,
                        k,
                        v,
                        crate::zset::weight_fn(),
                    );
                    if t.key >= watermark {
                        crate::zset::lemma_esum_push(out0, t, k, v, crate::zset::weight_fn());
                    }
                }
            }
        }
        proof {
            assert(a.take(s as int) =~= a);
        }
        self.acc = ZSetBatch::from_wf_entries(out);
    }
}

} // verus!
