//! The stream: the conduit between two operators, carrying exactly one
//! batch per circuit step.  A stream value records the batches of the steps
//! executed so far; applying an operator to it yields the stream of that
//! operator's outputs for the same steps.

use vstd::prelude::*;
use crate::distinct::{distinct_step, hash_distinct_step, sign, stream_distinct_batch};
use crate::trace::Trace;
use crate::zset::{lemma_wf_canonical, wf_entries, wsum, Tuple, ZSetBatch};

verus! {

/// The cumulative weight of (k, v) over the first `n` batches of a stream:
/// the weight the pair has in the algebraic sum of those deltas.
pub open spec fn cumw(bs: Seq<Seq<Tuple>>, n: int, k: u64, v: u64) -> int
    decreases n,
{
    if n <= 0 {
        0
    } else {
        cumw(bs, n - 1, k, v) + wsum(bs[n - 1], k, v)
    }
}

/// Every running cumulative weight of the stream stays within the weight
/// type; the machine-level side condition for trace-backed operators.
pub open spec fn cum_fits(bs: Seq<Seq<Tuple>>) -> bool {
    forall|n: int, k: u64, v: u64|
        0 <= n <= bs.len() ==> i64::MIN <= #[trigger] cumw(bs, n, k, v) <= i64::MAX
}

/// A typed conduit carrying one batch per circuit step.
pub struct Stream {
    batches: Vec<ZSetBatch>,
}

impl View for Stream {
    type V = Seq<Seq<Tuple>>;

    closed spec fn view(&self) -> Seq<Seq<Tuple>> {
        self.batches@.map_values(|b: ZSetBatch| b@)
    }
}

impl Stream {
    pub open spec fn wf(&self) -> bool {
        forall|i: int| 0 <= i < self@.len() ==> wf_entries(#[trigger] self@[i])
    }

    pub fn new() -> (r: Stream)
        ensures
            r.wf(),
            r@ =~= Seq::<Seq<Tuple>>::empty(),
    {
        Stream { batches: Vec::new() }
    }

    /// Appends the batch for the next step.
    pub fn push_batch(&mut self, b: ZSetBatch)
        requires
            old(self).wf(),
            b.wf(),
        ensures
            final(self).wf(),
            final(self)@ =~= old(self)@.push(b@),
    {
        self.batches.push(b);
        proof {
            assert(self@ =~= old(self)@.push(b@));
        }
    }

    pub fn len(&self) -> (n: usize)
        ensures
            n == self@.len(),
    {
        self.batches.len()
    }

    pub fn batch(&self, i: usize) -> (r: &ZSetBatch)
        requires
            i < self@.len(),
        ensures
            r@ == self@[i as int],
    {
        &self.batches[i]
    }

    /// Reduces each input batch independently to one occurrence of each
    /// element: for each tuple with positive weight the output batch of the
    /// same step carries that pair with weight one; tuples with weight at
    /// most zero are dropped.  Correct only for self-contained batches, not
    /// for chained incremental deltas.
    pub fn stream_distinct(&self) -> (r: Stream)
        requires
            self.wf(),
        ensures
            r.wf(),
            r@.len() == self@.len(),
            forall|i: int, k: u64, v: u64|
                0 <= i < self@.len() ==> #[trigger] wsum(r@[i], k, v) == sign(
                    wsum(self@[i], k, v),
                ),
    {
        let mut out = Stream::new();
        let n = self.batches.len();
        for i in 0..n
            invariant
                n == self@.len(),
                self.wf(),
                out.wf(),
                out@.len() == i as int,
                forall|j: int, k: u64, v: u64|
                    0 <= j < i ==> #[trigger] wsum(out@[j], k, v) == sign(wsum(self@[j], k, v)),
        {
            let b = &self.batches[i];
            proof {
                assert(b@ == self@[i as int]);
            }
            let o = stream_distinct_batch(b);
            out.push_batch(o);
        }
        out
    }

    /// Incrementally deduplicates the input stream.  Given the stream of
    /// deltas of a relation, produces the stream of deltas of its indicator
    /// relation: each output weight is the change of the indicator sign of
    /// the pair's cumulative weight at that step, so every value lies in
    /// {-1, 0, 1} and only pairs touched by the step's input are emitted.
    pub fn distinct(&self) -> (r: Stream)
        requires
            self.wf(),
            cum_fits(self@),
        ensures
            r.wf(),
            r@.len() == self@.len(),
            forall|i: int, k: u64, v: u64|
                0 <= i < self@.len() ==> #[trigger] wsum(r@[i], k, v) == sign(
                    cumw(self@, i + 1, k, v),
                ) - sign(cumw(self@, i, k, v)),
    {
        let mut trace = Trace::new();
        let mut out = Stream::new();
        let n = self.batches.len();
        for i in 0..n
            invariant
                n == self@.len(),
                self.wf(),
                cum_fits(self@),
                trace.wf(),
                forall|k: u64, v: u64|
                    #[trigger] wsum(trace@, k, v) == cumw(self@, i as int, k, v),
                out.wf(),
                out@.len() == i as int,
                forall|j: int, k: u64, v: u64|
                    0 <= j < i ==> #[trigger] wsum(out@[j], k, v) == sign(
                        cumw(self@, j + 1, k, v),
                    ) - sign(cumw(self@, j, k, v)),
        {
            let b = &self.batches[i];
            proof {
                assert(b@ == self@[i as int]);
                assert forall|k: u64, v: u64|
                    i64::MIN <= #[trigger] wsum(trace@, k, v) + #[trigger] wsum(b@, k, v)
                        <= i64::MAX by {
                    assert(cumw(self@, i as int + 1, k, v) == cumw(self@, i as int, k, v) + wsum(
                        self@[i as int],
                        k,
                        v,
                    ));
                    assert(i64::MIN <= cumw(self@, i as int + 1, k, v) <= i64::MAX);
                }
            }
            let o = distinct_step(trace.batch(), b);
            out.push_batch(o);
            trace.insert(b);
            proof {
                assert forall|k: u64, v: u64|
                    #[trigger] wsum(trace@, k, v) == cumw(self@, i as int + 1, k, v) by {
                    assert(cumw(self@, i as int + 1, k, v) == cumw(self@, i as int, k, v) + wsum(
                        self@[i as int],
                        k,
                        v,
                    ));
                }
            }
        }
        out
    }

    /// A hash-based version of `distinct`: it indexes each step's input by
    /// the hash of the key before the by-key scan, and is behaviourally
    /// interchangeable with `distinct` — the output batches are identical
    /// for identical input streams.
    pub fn hash_distinct(&self) -> (r: Stream)
        requires
            self.wf(),
            cum_fits(self@),
        ensures
            r.wf(),
            r@.len() == self@.len(),
            forall|i: int, k: u64, v: u64|
                0 <= i < self@.len() ==> #[trigger] wsum(r@[i], k, v) == sign(
                    cumw(self@, i + 1, k, v),
                ) - sign(cumw(self@, i, k, v)),
    {
        let mut trace = Trace::new();
        let mut out = Stream::new();
        let n = self.batches.len();
        for i in 0..n
            invariant
                n == self@.len(),
                self.wf(),
                cum_fits(self@),
                trace.wf(),
                forall|k: u64, v: u64|
                    #[trigger] wsum(trace@, k, v) == cumw(self@, i as int, k, v),
                out.wf(),
                out@.len() == i as int,
                forall|j: int, k: u64, v: u64|
                    0 <= j < i ==> #[trigger] wsum(out@[j], k, v) == sign(
                        cumw(self@, j + 1, k, v),
                    ) - sign(cumw(self@, j, k, v)),
        {
            let b = &self.batches[i];
            proof {
                assert(b@ == self@[i as int]);
                assert forall|k: u64, v: u64|
                    i64::MIN <= #[trigger] wsum(trace@, k, v) + #[trigger] wsum(b@, k, v)
                        <= i64::MAX by {
                    assert(cumw(self@, i as int + 1, k, v) == cumw(self@, i as int, k, v) + wsum(
                        self@[i as int],
                        k,
                        v,
                    ));
                    assert(i64::MIN <= cumw(self@, i as int + 1, k, v) <= i64::MAX);
                }
            }
            let o = hash_distinct_step(trace.batch(), b);
            out.push_batch(o);
            trace.insert(b);
            proof {
                assert forall|k: u64, v: u64|
                    #[trigger] wsum(trace@, k, v) == cumw(self@, i as int + 1, k, v) by {
                    assert(cumw(self@, i as int + 1, k, v) == cumw(self@, i as int, k, v) + wsum(
                        self@[i as int],
                        k,
                        v,
                    ));
                }
            }
        }
        out
    }
}

proof fn lemma_cum_out(inp: Seq<Seq<Tuple>>, outp: Seq<Seq<Tuple>>, n: int, k: u64, v: u64)
    requires
        outp.len() == inp.len(),
        0 <= n <= inp.len(),
        forall|i: int|
            0 <= i < inp.len() ==> #[trigger] wsum(outp[i], k, v) == sign(cumw(inp, i + 1, k, v))
                - sign(cumw(inp, i, k, v)),
    ensures
        cumw(outp, n, k, v) == sign(cumw(inp, n, k, v)),
    decreases n,
{
    if n > 0 {
        lemma_cum_out(inp, outp, n - 1, k, v);
    }
}

/// Law: for every sequence of input batches, the cumulative output of the
/// incremental `distinct` operator equals the output of `stream_distinct`
/// applied once to the algebraic sum of all input batches.  `outp` is what
/// `distinct` ensures of its result, `total` any batch carrying the summed
/// inputs, and `flat` what `stream_distinct` ensures on `total`.
pub proof fn lemma_distinct_matches_from_scratch(
    inp: Stream,
    outp: Stream,
    total: ZSetBatch,
    flat: ZSetBatch,
)
    requires
        outp@.len() == inp@.len(),
        forall|i: int, k: u64, v: u64|
            0 <= i < inp@.len() ==> #[trigger] wsum(outp@[i], k, v) == sign(
                cumw(inp@, i + 1, k, v),
            ) - sign(cumw(inp@, i, k, v)),
        forall|k: u64, v: u64| #[trigger] wsum(total@, k, v) == cumw(inp@, inp@.len() as int, k, v),
        forall|k: u64, v: u64| #[trigger] wsum(flat@, k, v) == sign(wsum(total@, k, v)),
    ensures
        forall|k: u64, v: u64|
            #[trigger] cumw(outp@, outp@.len() as int, k, v) == wsum(flat@, k, v),
{
    assert forall|k: u64, v: u64|
        #[trigger] cumw(outp@, outp@.len() as int, k, v) == wsum(flat@, k, v) by {
        lemma_cum_out(inp@, outp@, inp@.len() as int, k, v);
    }
}

/// Law: `distinct` and `hash_distinct` produce identical output batches for
/// identical input streams.  `d` and `h` are what the two operators ensure
/// of their results on the same input; canonical form makes them not merely
/// pointwise equal but the same batches.
pub proof fn lemma_hash_distinct_agrees(inp: Stream, d: Stream, h: Stream)
    requires
        d@.len() == inp@.len(),
        h@.len() == inp@.len(),
        d.wf(),
        h.wf(),
        forall|i: int, k: u64, v: u64|
            0 <= i < inp@.len() ==> #[trigger] wsum(d@[i], k, v) == sign(cumw(inp@, i + 1, k, v))
                - sign(cumw(inp@, i, k, v)),
        forall|i: int, k: u64, v: u64|
            0 <= i < inp@.len() ==> #[trigger] wsum(h@[i], k, v) == sign(cumw(inp@, i + 1, k, v))
                - sign(cumw(inp@, i, k, v)),
    ensures
        d@ =~~= h@,
{
    assert forall|i: int| 0 <= i < d@.len() implies d@[i] == h@[i] by {
        assert forall|k: u64, v: u64| #[trigger] wsum(d@[i], k, v) == #[trigger] wsum(
            h@[i],
            k,
            v,
        ) by {
            assert(wsum(d@[i], k, v) == sign(cumw(inp@, i + 1, k, v)) - sign(cumw(inp@, i, k, v)));
            assert(wsum(h@[i], k, v) == sign(cumw(inp@, i + 1, k, v)) - sign(cumw(inp@, i, k, v)));
        }
        lemma_wf_canonical(d@[i], h@[i]);
    }
}

} // verus!
