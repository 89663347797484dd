//! The distinct operators: the multiset-to-set reduction, in its
//! non-incremental form over one self-contained batch and in its incremental
//! form over a stream of deltas backed by a trace of cumulative weights.

use vstd::prelude::*;
use crate::zset::{
    esum, lemma_esum_absent, lemma_esum_lookup, lemma_esum_push, lemma_sorted_distinct_pairs,
    lemma_wf_push, lemma_wf_zero_is_empty, tuple_lt, weight_fn, wf_entries, wsum, Tuple, ZSetBatch,
};

verus! {

/// The indicator sign of a cumulative weight: present (1) when positive,
/// absent (0) otherwise.
pub open spec fn sign(w: int) -> int {
    if w > 0 {
        1
    } else {
        0
    }
}

pub open spec fn sign_fn() -> spec_fn(Tuple) -> int {
    |t: Tuple| sign(t.weight as int)
}

/// The contribution of one delta entry on top of a prior cumulative weight
/// `tw`: the change of the indicator sign.
pub open spec fn delta_fn(tw: int) -> spec_fn(Tuple) -> int {
    |t: Tuple| sign(tw + t.weight) - sign(tw)
}

/// Over a well-formed sequence, summing indicator signs per entry is the
/// sign of the summed weight.
pub proof fn lemma_sign_of_wsum(s: Seq<Tuple>, k: u64, v: u64)
    requires
        wf_entries(s),
    ensures
        esum(s, k, v, sign_fn()) == sign(wsum(s, k, v)),
{
    lemma_sorted_distinct_pairs(s);
    if exists|i: int| 0 <= i < s.len() && s[i].key == k && s[i].val == v {
        let i = choose|i: int| 0 <= i < s.len() && s[i].key == k && s[i].val == v;
        lemma_esum_lookup(s, k, v, sign_fn(), i);
        lemma_esum_lookup(s, k, v, weight_fn(), i);
    } else {
        lemma_esum_absent(s, k, v, sign_fn());
        lemma_esum_absent(s, k, v, weight_fn());
    }
}

/// Over a well-formed delta, summing per-entry sign changes against a prior
/// weight is the sign change of the summed weights.
pub proof fn lemma_delta_of_wsum(tw: int, s: Seq<Tuple>, k: u64, v: u64)
    requires
        wf_entries(s),
    ensures
        esum(s, k, v, delta_fn(tw)) == sign(tw + wsum(s, k, v)) - sign(tw),
{
    lemma_sorted_distinct_pairs(s);
    if exists|i: int| 0 <= i < s.len() && s[i].key == k && s[i].val == v {
        let i = choose|i: int| 0 <= i < s.len() && s[i].key == k && s[i].val == v;
        lemma_esum_lookup(s, k, v, delta_fn(tw), i);
        lemma_esum_lookup(s, k, v, weight_fn(), i);
    } else {
        lemma_esum_absent(s, k, v, delta_fn(tw));
        lemma_esum_absent(s, k, v, weight_fn());
    }
}

/// The non-incremental distinct of one self-contained batch: every pair with
/// positive weight appears with weight exactly one, pairs with negative
/// weight are dropped without memory of prior state.
pub fn stream_distinct_batch(b: &ZSetBatch) -> (r: ZSetBatch)
    requires
        b.wf(),
    ensures
        r.wf(),
        forall|k: u64, v: u64| #[trigger] wsum(r@, k, v) == sign(wsum(b@, k, v)),
{
    let mut out: Vec<Tuple> = Vec::new();
    let n = b.len();
    for i in 0..n
        invariant
            n == b@.len(),
            b.wf(),
            wf_entries(out@),
            forall|m: int, j: int|
                0 <= m < out@.len() && i <= j < b@.len() ==> tuple_lt(out@[m], b@[j]),
            forall|k: u64, v: u64|
                #[trigger] wsum(out@, k, v) == esum(b@.take(i as int), k, v, sign_fn()),
    {
        let t = b.entry(i);
        let ghost out0 = out@;
        if t.weight > 0 {
            out.push(Tuple { key: t.key, val: t.val, weight: 1 });
        }
        proof {
            let u = Tuple { key: t.key, val: t.val, weight: 1 };
            assert(b@.take(i + 1) =~= b@.take(i as int).push(t));
            if t.weight > 0 {
                assert(out@ =~= out0.push(u));
                assert forall|m: int| 0 <= m < out0.len() implies tuple_lt(
                    #[trigger] out0[m],
                    u,
                ) by {
                    assert(tuple_lt(out0[m], b@[i as int]));
                }
                lemma_wf_push(out0, u);
                assert forall|m: int, j: int|
                    0 <= m < out@.len() && i + 1 <= j < b@.len() implies tuple_lt(
                    out@[m],
                    b@[j],
                ) by {
                    if m == out@.len() - 1 {
                        assert(tuple_lt(b@[i as int], b@[j]));
                    } else {
                        assert(tuple_lt(out0[m], b@[j]));
                    }
                }
            }
            assert forall|k: u64, v: u64|
                #[trigger] wsum(out@, k, v) == esum(b@.take(i + 1), k, v, sign_fn()) by {
                assert(wsum(out0, k, v) == esum(b@.take(i as int), k, v, sign_fn()));
                lemma_esum_push(b@.take(i as int), t, k, v, sign_fn());
                if t.weight > 0 {
                    lemma_esum_push(out0, u, k, v, weight_fn());
                }
            }
        }
    }
    proof {
        assert(b@.take(n as int) =~= b@);
        assert forall|k: u64, v: u64|
            #[trigger] wsum(out@, k, v) == sign(wsum(b@, k, v)) by {
            lemma_sign_of_wsum(b@, k, v);
        }
    }
    ZSetBatch::from_wf_entries(out)
}

/// One step of the incremental distinct operator: given the trace of
/// cumulative weights accumulated before this step and the step's input
/// delta, emit for each pair the change of its indicator sign.  Pairs not
/// touched by the delta are never emitted, which keeps the cost of a step
/// proportional to the size of the change.
pub fn distinct_step(trace: &ZSetBatch, delta: &ZSetBatch) -> (r: ZSetBatch)
    requires
        trace.wf(),
        delta.wf(),
        forall|k: u64, v: u64|
            i64::MIN <= #[trigger] wsum(trace@, k, v) + #[trigger] wsum(delta@, k, v) <= i64::MAX,
    ensures
        r.wf(),
        forall|k: u64, v: u64|
            #[trigger] wsum(r@, k, v) == sign(wsum(trace@, k, v) + wsum(delta@, k, v)) - sign(
                wsum(trace@, k, v),
            ),
{
    let mut out: Vec<Tuple> = Vec::new();
    let n = delta.len();
    for i in 0..n
        invariant
            n == delta@.len(),
            trace.wf(),
            delta.wf(),
            forall|k: u64, v: u64|
                i64::MIN <= #[trigger] wsum(trace@, k, v) + #[trigger] wsum(delta@, k, v)
                    <= i64::MAX,
            wf_entries(out@),
            forall|m: int, j: int|
                0 <= m < out@.len() && i <= j < delta@.len() ==> tuple_lt(out@[m], delta@[j]),
            forall|k: u64, v: u64|
                #[trigger] wsum(out@, k, v) == esum(
                    delta@.take(i as int),
                    k,
                    v,
                    delta_fn(wsum(trace@, k, v)),
                ),
    {
        let t = delta.entry(i);
        let tw = trace.get_weight(t.key, t.val);
        proof {
            lemma_sorted_distinct_pairs(delta@);
            lemma_esum_lookup(delta@, t.key, t.val, weight_fn(), i as int);
            assert(wsum(delta@, t.key, t.val) == t.weight as int);
        }
        let nw = tw + t.weight;
        let os: i64 = if tw > 0 {
            1
        } else {
            0
        };
        let ns: i64 = if nw > 0 {
            1
        } else {
            0
        };
        let ow = ns - os;
        let u = Tuple { key: t.key, val: t.val, weight: ow };
        let ghost out0 = out@;
        if ow != 0 {
            out.push(u);
        }
        proof {
            assert(delta@.take(i + 1) =~= delta@.take(i as int).push(t));
            if ow != 0 {
                assert(out@ =~= out0.push(u));
                assert forall|m: int| 0 <= m < out0.len() implies tuple_lt(
                    #[trigger] out0[m],
                    u,
                ) by {
                    assert(tuple_lt(out0[m], delta@[i as int]));
                }
                lemma_wf_push(out0, u);
                assert forall|m: int, j: int|
                    0 <= m < out@.len() && i + 1 <= j < delta@.len() implies tuple_lt(
                    out@[m],
                    delta@[j],
                ) by {
                    if m == out@.len() - 1 {
                        assert(tuple_lt(delta@[i as int], delta@[j]));
                    } else {
                        assert(tuple_lt(out0[m], delta@[j]));
                    }
                }
            }
            assert forall|k: u64, v: u64|
                #[trigger] wsum(out@, k, v) == esum(
                    delta@.take(i + 1),
                    k,
                    v,
                    delta_fn(wsum(trace@, k, v)),
                ) by {
                assert(wsum(out0, k, v) == esum(
                    delta@.take(i as int),
                    k,
                    v,
                    delta_fn(wsum(trace@, k, v)),
                ));
                lemma_esum_push(delta@.take(i as int), t, k, v, delta_fn(wsum(trace@, k, v)));
                if ow != 0 {
                    lemma_esum_push(out0, u, k, v, weight_fn());
                }
                if t.key == k && t.val == v {
                    assert(wsum(trace@, k, v) == tw as int);
                    assert(delta_fn(wsum(trace@, k, v))(t) == sign(tw + t.weight) - sign(
                        tw as int,
                    ));
                }
            }
        }
    }
    proof {
        assert(delta@.take(n as int) =~= delta@);
        assert forall|k: u64, v: u64|
            #[trigger] wsum(out@, k, v) == sign(wsum(trace@, k, v) + wsum(delta@, k, v)) - sign(
                wsum(trace@, k, v),
            ) by {
            lemma_delta_of_wsum(wsum(trace@, k, v), delta@, k, v);
        }
    }
    ZSetBatch::from_wf_entries(out)
}

/// Law: applying the incremental distinct to a step that only re-asserts
/// pairs already present — every pair the delta touches has positive
/// cumulative weight before the step and a nonnegative delta weight — is a
/// no-op: the output batch is empty.  `out` is what `distinct_step` ensures.
pub proof fn lemma_distinct_idempotent(trace: ZSetBatch, delta: ZSetBatch, out: ZSetBatch)
    requires
        trace.wf(),
        delta.wf(),
        out.wf(),
        forall|k: u64, v: u64|
            #[trigger] wsum(delta@, k, v) != 0 ==> wsum(trace@, k, v) > 0 && wsum(delta@, k, v)
                > 0,
        forall|k: u64, v: u64|
            #[trigger] wsum(out@, k, v) == sign(wsum(trace@, k, v) + wsum(delta@, k, v)) - sign(
                wsum(trace@, k, v),
            ),
    ensures
        out@ =~= Seq::<Tuple>::empty(),
{
    assert forall|k: u64, v: u64| #[trigger] wsum(out@, k, v) == 0 by {
        if wsum(delta@, k, v) != 0 {
            assert(sign(wsum(trace@, k, v) + wsum(delta@, k, v)) == 1);
            assert(sign(wsum(trace@, k, v)) == 1);
        }
    }
    lemma_wf_zero_is_empty(out@);
}

/// The key hash the hash-indexed distinct partitions by.  Any fixed function
/// of the key alone keeps a key's full history within one partition.
pub open spec fn key_hash_spec(k: u64) -> u64 {
    (k >> 32) ^ k
}

/// The hash partition a key falls into.
pub open spec fn bucket_of(k: u64) -> int {
    (key_hash_spec(k) % 8) as int
}

pub fn key_bucket(k: u64) -> (b: u64)
    ensures
        b as int == bucket_of(k),
        b < 8,
{
    ((k >> 32) ^ k) % 8
}

/// Sum of `f` over the entries at (k, v) whose key falls in partition `b`.
pub open spec fn esum_bucket(
    s: Seq<Tuple>,
    k: u64,
    v: u64,
    f: spec_fn(Tuple) -> int,
    b: int,
) -> int
    decreases s.len(),
{
    if s.len() == 0 {
        0
    } else {
        esum_bucket(s.drop_last(), k, v, f, b) + if bucket_of(s.last().key) == b && s.last().key
            == k && s.last().val == v {
            f(s.last())
        } else {
            0
        }
    }
}

/// Sum of `f` over the entries at (k, v) whose key falls in a partition
/// before `b`.
pub open spec fn esum_bucket_lt(
    s: Seq<Tuple>,
    k: u64,
    v: u64,
    f: spec_fn(Tuple) -> int,
    b: int,
) -> int
    decreases s.len(),
{
    if s.len() == 0 {
        0
    } else {
        esum_bucket_lt(s.drop_last(), k, v, f, b) + if bucket_of(s.last().key) < b && s.last().key
            == k && s.last().val == v {
            f(s.last())
        } else {
            0
        }
    }
}

pub proof fn lemma_esum_bucket_push(
    s: Seq<Tuple>,
    t: Tuple,
    k: u64,
    v: u64,
    f: spec_fn(Tuple) -> int,
    b: int,
)
    ensures
        esum_bucket(s.push(t), k, v, f, b) == esum_bucket(s, k, v, f, b) + if bucket_of(t.key) == b
            && t.key == k && t.val == v {
            f(t)
        } else {
            0
        },
{
    assert(s.push(t).drop_last() =~= s);
    assert(s.push(t).last() == t);
}

/// Taking one more partition into account adds exactly that partition's sum.
pub proof fn lemma_esum_bucket_split(s: Seq<Tuple>, k: u64, v: u64, f: spec_fn(Tuple) -> int, b: int)
    ensures
        esum_bucket_lt(s, k, v, f, b + 1) == esum_bucket_lt(s, k, v, f, b) + esum_bucket(
            s,
            k,
            v,
            f,
            b,
        ),
    decreases s.len(),
{
    if s.len() > 0 {
        lemma_esum_bucket_split(s.drop_last(), k, v, f, b);
    }
}

pub proof fn lemma_esum_bucket_lt_zero(s: Seq<Tuple>, k: u64, v: u64, f: spec_fn(Tuple) -> int)
    ensures
        esum_bucket_lt(s, k, v, f, 0) == 0,
    decreases s.len(),
{
    if s.len() > 0 {
        lemma_esum_bucket_lt_zero(s.drop_last(), k, v, f);
        assert(bucket_of(s.last().key) >= 0);
    }
}

/// All eight partitions together cover every entry exactly once.
pub proof fn lemma_esum_bucket_all(s: Seq<Tuple>, k: u64, v: u64, f: spec_fn(Tuple) -> int)
    ensures
        esum_bucket_lt(s, k, v, f, 8) == esum(s, k, v, f),
    decreases s.len(),
{
    if s.len() > 0 {
        lemma_esum_bucket_all(s.drop_last(), k, v, f);
        assert(0 <= bucket_of(s.last().key) < 8);
    }
}

/// A well-formed sequence with entry weights between `lo` and `hi` has all
/// its pointwise sums between them too.
pub proof fn lemma_wsum_bounded(s: Seq<Tuple>, lo: int, hi: int, k: u64, v: u64)
    requires
        wf_entries(s),
        lo <= 0 <= hi,
        forall|m: int| 0 <= m < s.len() ==> lo <= #[trigger] s[m].weight <= hi,
    ensures
        lo <= wsum(s, k, v) <= hi,
{
    lemma_sorted_distinct_pairs(s);
    if exists|i: int| 0 <= i < s.len() && s[i].key == k && s[i].val == v {
        let i = choose|i: int| 0 <= i < s.len() && s[i].key == k && s[i].val == v;
        lemma_esum_lookup(s, k, v, weight_fn(), i);
    } else {
        lemma_esum_absent(s, k, v, weight_fn());
    }
}

/// One step of the hash-indexed incremental distinct.  Behaviourally
/// interchangeable with `distinct_step`: it derives the same sign changes,
/// but scans the delta partition by partition of the key hash instead of in
/// one pass over the key order, and reassembles the output by merging the
/// per-partition batches.
pub fn hash_distinct_step(trace: &ZSetBatch, delta: &ZSetBatch) -> (r: ZSetBatch)
    requires
        trace.wf(),
        delta.wf(),
        forall|k: u64, v: u64|
            i64::MIN <= #[trigger] wsum(trace@, k, v) + #[trigger] wsum(delta@, k, v) <= i64::MAX,
    ensures
        r.wf(),
        forall|k: u64, v: u64|
            #[trigger] wsum(r@, k, v) == sign(wsum(trace@, k, v) + wsum(delta@, k, v)) - sign(
                wsum(trace@, k, v),
            ),
{
    let mut acc = ZSetBatch::empty();
    let n = delta.len();
    proof {
        assert forall|k: u64, v: u64|
            #[trigger] wsum(acc@, k, v) == esum_bucket_lt(
                delta@,
                k,
                v,
                delta_fn(wsum(trace@, k, v)),
                0,
            ) by {
            lemma_esum_bucket_lt_zero(delta@, k, v, delta_fn(wsum(trace@, k, v)));
        }
    }
    for b in 0..8u64
        invariant
            n == delta@.len(),
            trace.wf(),
            delta.wf(),
            forall|k: u64, v: u64|
                i64::MIN <= #[trigger] wsum(trace@, k, v) + #[trigger] wsum(delta@, k, v)
                    <= i64::MAX,
            acc.wf(),
            forall|k: u64, v: u64| -(b as int) <= #[trigger] wsum(acc@, k, v) <= b as int,
            forall|k: u64, v: u64|
                #[trigger] wsum(acc@, k, v) == esum_bucket_lt(
                    delta@,
                    k,
                    v,
                    delta_fn(wsum(trace@, k, v)),
                    b as int,
                ),
    {
        let mut part: Vec<Tuple> = Vec::new();
        for i in 0..n
            invariant
                n == delta@.len(),
                trace.wf(),
                delta.wf(),
                forall|k: u64, v: u64|
                    i64::MIN <= #[trigger] wsum(trace@, k, v) + #[trigger] wsum(delta@, k, v)
                        <= i64::MAX,
                wf_entries(part@),
                forall|m: int| 0 <= m < part@.len() ==> -1 <= #[trigger] part@[m].weight <= 1,
                forall|m: int, j: int|
                    0 <= m < part@.len() && i <= j < delta@.len() ==> tuple_lt(
                        part@[m],
                        delta@[j],
                    ),
                forall|k: u64, v: u64|
                    #[trigger] wsum(part@, k, v) == esum_bucket(
                        delta@.take(i as int),
                        k,
                        v,
                        delta_fn(wsum(trace@, k, v)),
                        b as int,
                    ),
        {
            let t = delta.entry(i);
            let ghost part0 = part@;
            let mut ow: i64 = 0;
            if key_bucket(t.key) == b {
                let tw = trace.get_weight(t.key, t.val);
                proof {
                    lemma_sorted_distinct_pairs(delta@);
                    lemma_esum_lookup(delta@, t.key, t.val, weight_fn(), i as int);
                    assert(wsum(delta@, t.key, t.val) == t.weight as int);
                }
                let nw = tw + t.weight;
                let os: i64 = if tw > 0 {
                    1
                } else {
                    0
                };
                let ns: i64 = if nw > 0 {
                    1
                } else {
                    0
                };
                ow = ns - os;
                if ow != 0 {
                    let u = Tuple { key: t.key, val: t.val, weight: ow };
                    part.push(u);
                    proof {
                        assert(part@ =~= part0.push(u));
                        assert forall|m: int| 0 <= m < part0.len() implies tuple_lt(
                            #[trigger] part0[m],
                            u,
                        ) by {
                            assert(tuple_lt(part0[m], delta@[i as int]));
                        }
                        lemma_wf_push(part0, u);
                        assert forall|m: int, j: int|
                            0 <= m < part@.len() && i + 1 <= j < delta@.len() implies tuple_lt(
                            part@[m],
                            delta@[j],
                        ) by {
                            if m == part@.len() - 1 {
                                assert(tuple_lt(delta@[i as int], delta@[j]));
                            } else {
                                assert(tuple_lt(part0[m], delta@[j]));
                            }
                        }
                    }
                }
            }
            proof {
                assert(delta@.take(i + 1) =~= delta@.take(i as int).push(t));
                let u = Tuple { key: t.key, val: t.val, weight: ow };
                assert forall|k: u64, v: u64|
                    #[trigger] wsum(part@, k, v) == esum_bucket(
                        delta@.take(i + 1),
                        k,
                        v,
                        delta_fn(wsum(trace@, k, v)),
                        b as int,
                    ) by {
                    assert(wsum(part0, k, v) == esum_bucket(
                        delta@.take(i as int),
                        k,
                        v,
                        delta_fn(wsum(trace@, k, v)),
                        b as int,
                    ));
                    lemma_esum_bucket_push(
                        delta@.take(i as int),
                        t,
                        k,
                        v,
                        delta_fn(wsum(trace@, k, v)),
                        b as int,
                    );
                    if ow != 0 && bucket_of(t.key) == b as int {
                        lemma_esum_push(part0, u, k, v, weight_fn());
                    }
                    if t.key == k && t.val == v && bucket_of(t.key) == b as int {
                        assert(delta_fn(wsum(trace@, k, v))(t) == ow as int);
                    }
                }
            }
        }
        let pb = ZSetBatch::from_wf_entries(part);
        let ghost acc0 = acc@;
        proof {
            assert(delta@.take(n as int) =~= delta@);
            assert forall|k: u64, v: u64|
                i64::MIN <= #[trigger] wsum(acc@, k, v) + #[trigger] wsum(pb@, k, v)
                    <= i64::MAX by {
                lemma_wsum_bounded(pb@, -1, 1, k, v);
            }
        }
        acc = acc.merge(&pb);
        proof {
            assert forall|k: u64, v: u64|
                #[trigger] wsum(acc@, k, v) == esum_bucket_lt(
                    delta@,
                    k,
                    v,
                    delta_fn(wsum(trace@, k, v)),
                    b as int + 1,
                ) && -(b as int + 1) <= wsum(acc@, k, v) <= b as int + 1 by {
                lemma_wsum_bounded(pb@, -1, 1, k, v);
                lemma_esum_bucket_split(delta@, k, v, delta_fn(wsum(trace@, k, v)), b as int);
                assert(wsum(acc@, k, v) == wsum(acc0, k, v) + wsum(pb@, k, v));
            }
        }
    }
    proof {
        assert forall|k: u64, v: u64|
            #[trigger] wsum(acc@, k, v) == sign(wsum(trace@, k, v) + wsum(delta@, k, v)) - sign(
                wsum(trace@, k, v),
            ) by {
            lemma_esum_bucket_all(delta@, k, v, delta_fn(wsum(trace@, k, v)));
            lemma_delta_of_wsum(wsum(trace@, k, v), delta@, k, v);
        }
    }
    acc
}

} // verus!
