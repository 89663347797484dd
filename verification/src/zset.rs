//! The Z-set batch: an immutable, sorted, duplicate-free snapshot of a
//! weighted relation delta, together with the spec-level weight function
//! that all operator contracts are stated over.

use vstd::prelude::*;

verus! {

/// One weighted (key, value) entry of a Z-set batch.  A positive weight is a
/// net insertion, a negative weight a net retraction; zero means "absent" and
/// never appears inside a well-formed batch.
#[derive(Clone, Copy, PartialEq, Eq, Structural, Debug)]
pub struct Tuple {
    pub key: u64,
    pub val: u64,
    pub weight: i64,
}

/// Strict (key, value) order on entries; weights play no part in it.
pub open spec fn tuple_lt(a: Tuple, b: Tuple) -> bool {
    a.key < b.key || (a.key == b.key && a.val < b.val)
}

/// Entries are strictly increasing by (key, value): sorted and free of
/// duplicate pairs.
pub open spec fn sorted_distinct(s: Seq<Tuple>) -> bool {
    forall|i: int, j: int| 0 <= i < j < s.len() ==> tuple_lt(s[i], s[j])
}

pub open spec fn nonzero_weights(s: Seq<Tuple>) -> bool {
    forall|i: int| 0 <= i < s.len() ==> s[i].weight != 0
}

/// The batch invariant: strictly sorted by (key, value), no zero weights.
pub open spec fn wf_entries(s: Seq<Tuple>) -> bool {
    sorted_distinct(s) && nonzero_weights(s)
}

/// No two entries share a (key, value) pair (weaker than sortedness).
pub open spec fn distinct_pairs(s: Seq<Tuple>) -> bool {
    forall|i: int, j: int|
        0 <= i < j < s.len() ==> !(s[i].key == s[j].key && s[i].val == s[j].val)
}

/// Sum of `f` over those entries of `s` that carry the pair (k, v).
pub open spec fn esum(s: Seq<Tuple>, k: u64, v: u64, f: spec_fn(Tuple) -> int) -> int
    decreases s.len(),
{
    if s.len() == 0 {
        0
    } else {
        esum(s.drop_last(), k, v, f) + if s.last().key == k && s.last().val == v {
            f(s.last())
        } else {
            0
        }
    }
}

pub open spec fn weight_fn() -> spec_fn(Tuple) -> int {
    |t: Tuple| t.weight as int
}

/// The net weight a sequence of entries gives to the pair (k, v): the
/// mathematical reading of a batch as a map from pairs to integers.
pub open spec fn wsum(s: Seq<Tuple>, k: u64, v: u64) -> int {
    esum(s, k, v, weight_fn())
}

pub proof fn lemma_tuple_lt_trans(a: Tuple, b: Tuple, c: Tuple)
    requires
        tuple_lt(a, b),
        tuple_lt(b, c),
    ensures
        tuple_lt(a, c),
{
}

pub proof fn lemma_sorted_distinct_pairs(s: Seq<Tuple>)
    requires
        sorted_distinct(s),
    ensures
        distinct_pairs(s),
{
    assert forall|i: int, j: int|
        0 <= i < j < s.len() implies !(s[i].key == s[j].key && s[i].val == s[j].val) by {
        assert(tuple_lt(s[i], s[j]));
    }
}

/// Appending one entry adds its contribution at its own pair and nothing
/// anywhere else.
pub proof fn lemma_esum_push(s: Seq<Tuple>, t: Tuple, k: u64, v: u64, f: spec_fn(Tuple) -> int)
    ensures
        esum(s.push(t), k, v, f) == esum(s, k, v, f) + if t.key == k && t.val == v {
            f(t)
        } else {
            0
        },
{
    assert(s.push(t).drop_last() =~= s);
    assert(s.push(t).last() == t);
}

/// A sequence with no entry at (k, v) sums to zero there.
pub proof fn lemma_esum_absent(s: Seq<Tuple>, k: u64, v: u64, f: spec_fn(Tuple) -> int)
    requires
        forall|i: int| 0 <= i < s.len() ==> !(s[i].key == k && s[i].val == v),
    ensures
        esum(s, k, v, f) == 0,
    decreases s.len(),
{
    if s.len() > 0 {
        lemma_esum_absent(s.drop_last(), k, v, f);
    }
}

/// In a sequence with no duplicate pairs, the sum at (k, v) is exactly the
/// contribution of the one entry that carries that pair.
pub proof fn lemma_esum_lookup(s: Seq<Tuple>, k: u64, v: u64, f: spec_fn(Tuple) -> int, i: int)
    requires
        distinct_pairs(s),
        0 <= i < s.len(),
        s[i].key == k,
        s[i].val == v,
    ensures
        esum(s, k, v, f) == f(s[i]),
    decreases s.len(),
{
    if i == s.len() - 1 {
        assert forall|j: int| 0 <= j < s.drop_last().len() implies !(s.drop_last()[j].key == k
            && s.drop_last()[j].val == v) by {
            assert(!(s[j].key == s[i].key && s[j].val == s[i].val));
        }
        lemma_esum_absent(s.drop_last(), k, v, f);
    } else {
        assert(!(s[s.len() - 1].key == k && s[s.len() - 1].val == v));
        lemma_esum_lookup(s.drop_last(), k, v, f, i);
    }
}

/// A well-formed sequence whose weight function is zero everywhere is empty.
pub proof fn lemma_wf_zero_is_empty(s: Seq<Tuple>)
    requires
        wf_entries(s),
        forall|k: u64, v: u64| #[trigger] wsum(s, k, v) == 0,
    ensures
        s =~= Seq::<Tuple>::empty(),
{
    if s.len() > 0 {
        let t = s.last();
        lemma_sorted_distinct_pairs(s);
        lemma_esum_lookup(s, t.key, t.val, weight_fn(), s.len() - 1);
        assert(wsum(s, t.key, t.val) == t.weight as int);
        assert(t.weight != 0);
    }
}

/// Canonical form: two well-formed entry sequences with the same weight
/// function are the same sequence.  A batch is thus determined by the Z-set
/// it denotes.
pub proof fn lemma_wf_canonical(a: Seq<Tuple>, b: Seq<Tuple>)
    requires
        wf_entries(a),
        wf_entries(b),
        forall|k: u64, v: u64| #[trigger] wsum(a, k, v) == #[trigger] wsum(b, k, v),
    ensures
        a =~= b,
    decreases a.len(),
{
    lemma_sorted_distinct_pairs(a);
    lemma_sorted_distinct_pairs(b);
    if a.len() == 0 {
        assert forall|k: u64, v: u64| #[trigger] wsum(b, k, v) == 0 by {
            assert(wsum(a, k, v) == 0);
        }
        lemma_wf_zero_is_empty(b);
    } else if b.len() == 0 {
        assert forall|k: u64, v: u64| #[trigger] wsum(a, k, v) == 0 by {
            assert(wsum(b, k, v) == 0);
        }
        lemma_wf_zero_is_empty(a);
    } else {
        let ta = a.last();
        let tb = b.last();
        lemma_esum_lookup(a, ta.key, ta.val, weight_fn(), a.len() - 1);
        lemma_esum_lookup(b, tb.key, tb.val, weight_fn(), b.len() - 1);
        if tuple_lt(ta, tb) {
            // every entry of a is below tb, so a has weight 0 at tb's pair,
            // while b has tb.weight != 0 there.
            assert forall|i: int| 0 <= i < a.len() implies !(a[i].key == tb.key && a[i].val
                == tb.val) by {
                if i < a.len() - 1 {
                    lemma_tuple_lt_trans(a[i], ta, tb);
                }
            }
            lemma_esum_absent(a, tb.key, tb.val, weight_fn());
            assert(wsum(a, tb.key, tb.val) == 0);
            assert(wsum(b, tb.key, tb.val) == tb.weight as int);
            assert(tb.weight != 0);
            assert(false);
        } else if tuple_lt(tb, ta) {
            assert forall|i: int| 0 <= i < b.len() implies !(b[i].key == ta.key && b[i].val
                == ta.val) by {
                if i < b.len() - 1 {
                    lemma_tuple_lt_trans(b[i], tb, ta);
                }
            }
            lemma_esum_absent(b, ta.key, ta.val, weight_fn());
            assert(wsum(b, ta.key, ta.val) == 0);
            assert(wsum(a, ta.key, ta.val) == ta.weight as int);
            assert(ta.weight != 0);
            assert(false);
        } else {
            assert(ta.key == tb.key && ta.val == tb.val);
            assert(wsum(a, ta.key, ta.val) == ta.weight as int);
            assert(wsum(b, ta.key, ta.val) == tb.weight as int);
            assert(ta == tb);
            let a1 = a.drop_last();
            let b1 = b.drop_last();
            assert forall|k: u64, v: u64| #[trigger] wsum(a1, k, v) == #[trigger] wsum(b1, k, v) by {
                assert(wsum(a, k, v) == wsum(a1, k, v) + if ta.key == k && ta.val == v {
                    ta.weight as int
                } else {
                    0
                });
                assert(wsum(b, k, v) == wsum(b1, k, v) + if tb.key == k && tb.val == v {
                    tb.weight as int
                } else {
                    0
                });
            }
            lemma_wf_canonical(a1, b1);
            assert(a =~= a1.push(ta));
            assert(b =~= b1.push(tb));
        }
    }
}

/// Every prefix of the sequence keeps its pointwise weight sums within the
/// weight type; the machine-level side condition for consolidating it.
pub open spec fn prefix_sums_fit(s: Seq<Tuple>) -> bool {
    forall|n: int, k: u64, v: u64|
        0 <= n <= s.len() ==> i64::MIN <= #[trigger] wsum(s.take(n), k, v) <= i64::MAX
}

/// The sum of the absolute weights of a sequence of entries: how many
/// counted occurrences it carries, insertions and retractions alike.
pub open spec fn total_weight(s: Seq<Tuple>) -> int
    decreases s.len(),
{
    if s.len() == 0 {
        0
    } else {
        total_weight(s.drop_last()) + if s.last().weight >= 0 {
            s.last().weight as int
        } else {
            -(s.last().weight as int)
        }
    }
}

/// Appending an entry above everything present keeps a sequence well formed.
pub proof fn lemma_wf_push(s: Seq<Tuple>, t: Tuple)
    requires
        wf_entries(s),
        t.weight != 0,
        forall|m: int| 0 <= m < s.len() ==> tuple_lt(#[trigger] s[m], t),
    ensures
        wf_entries(s.push(t)),
{
    let p = s.push(t);
    assert forall|i: int, j: int| 0 <= i < j < p.len() implies tuple_lt(p[i], p[j]) by {
        if j == s.len() {
            assert(p[i] == s[i]);
            assert(tuple_lt(s[i], t));
        } else {
            assert(p[i] == s[i] && p[j] == s[j]);
        }
    }
    assert forall|i: int| 0 <= i < p.len() implies p[i].weight != 0 by {
        if i < s.len() {
            assert(p[i] == s[i]);
        }
    }
}

/// Decides the strict (key, value) order between two entries.
pub fn tuple_lt_exec(a: Tuple, b: Tuple) -> (r: bool)
    ensures
        r == tuple_lt(a, b),
{
    a.key < b.key || (a.key == b.key && a.val < b.val)
}

/// A well-formed sequence with a nonzero sum at (k, v) holds exactly one
/// entry for that pair, carrying the whole sum as its weight.
pub proof fn lemma_wsum_nonzero_exists(s: Seq<Tuple>, k: u64, v: u64)
    requires
        wf_entries(s),
        wsum(s, k, v) != 0,
    ensures
        (exists|i: int|
            0 <= i < s.len() && s[i].key == k && s[i].val == v && s[i].weight as int == wsum(
                s,
                k,
                v,
            )),
{
    lemma_sorted_distinct_pairs(s);
    if exists|i: int| 0 <= i < s.len() && s[i].key == k && s[i].val == v {
        let i = choose|i: int| 0 <= i < s.len() && s[i].key == k && s[i].val == v;
        lemma_esum_lookup(s, k, v, weight_fn(), i);
    } else {
        lemma_esum_absent(s, k, v, weight_fn());
    }
}

/// Law: merging a batch with itself yields the batch with the same
/// (key, value) set, every weight doubled, and the no-duplicate invariant
/// kept — entry for entry, not merely pointwise.  `m` is what `merge`
/// ensures of the sum of `b` with itself.
pub proof fn lemma_merge_self_doubles(b: ZSetBatch, m: ZSetBatch)
    requires
        b.wf(),
        m.wf(),
        forall|k: u64, v: u64| #[trigger] wsum(m@, k, v) == wsum(b@, k, v) + wsum(b@, k, v),
    ensures
        m@.len() == b@.len(),
        forall|i: int|
            0 <= i < b@.len() ==> #[trigger] m@[i] == (Tuple {
                key: b@[i].key,
                val: b@[i].val,
                weight: (2 * b@[i].weight) as i64,
            }),
{
    lemma_sorted_distinct_pairs(b@);
    let d = b@.map_values(
        |t: Tuple| Tuple { key: t.key, val: t.val, weight: (2 * t.weight) as i64 },
    );
    assert forall|i: int| 0 <= i < b@.len() implies i64::MIN <= 2 * (#[trigger] b@[i].weight)
        <= i64::MAX by {
        let t = b@[i];
        lemma_esum_lookup(b@, t.key, t.val, weight_fn(), i);
        assert(wsum(m@, t.key, t.val) == 2 * t.weight);
        lemma_wsum_nonzero_exists(m@, t.key, t.val);
    }
    assert(wf_entries(d)) by {
        assert forall|i: int, j: int| 0 <= i < j < d.len() implies tuple_lt(d[i], d[j]) by {
            assert(tuple_lt(b@[i], b@[j]));
        }
        assert forall|i: int| 0 <= i < d.len() implies d[i].weight != 0 by {
            assert(b@[i].weight != 0);
            assert(i64::MIN <= 2 * b@[i].weight <= i64::MAX);
        }
    }
    assert forall|k: u64, v: u64| #[trigger] wsum(d, k, v) == #[trigger] wsum(m@, k, v) by {
        lemma_sorted_distinct_pairs(d);
        if exists|i: int| 0 <= i < b@.len() && b@[i].key == k && b@[i].val == v {
            let i = choose|i: int| 0 <= i < b@.len() && b@[i].key == k && b@[i].val == v;
            lemma_esum_lookup(b@, k, v, weight_fn(), i);
            lemma_esum_lookup(d, k, v, weight_fn(), i);
            assert(i64::MIN <= 2 * b@[i].weight <= i64::MAX);
            assert(d[i].weight as int == 2 * (b@[i].weight as int));
        } else {
            lemma_esum_absent(b@, k, v, weight_fn());
            assert forall|i: int| 0 <= i < d.len() implies !(d[i].key == k && d[i].val == v) by {
                assert(!(b@[i].key == k && b@[i].val == v));
            }
            lemma_esum_absent(d, k, v, weight_fn());
        }
    }
    lemma_wf_canonical(m@, d);
}

/// An immutable, sorted, indexed snapshot of a Z-set delta produced in one
/// step.  Never mutated after construction; operators derive new batches.
pub struct ZSetBatch {
    entries: Vec<Tuple>,
}

impl View for ZSetBatch {
    type V = Seq<Tuple>;

    closed spec fn view(&self) -> Seq<Tuple> {
        self.entries@
    }
}

impl ZSetBatch {
    /// The batch invariant: entries strictly sorted by (key, value) and free
    /// of zero weights, so that each pair occurs at most once.
    pub open spec fn wf(&self) -> bool {
        wf_entries(self@)
    }

    /// The batch that carries no change.
    pub fn empty() -> (r: ZSetBatch)
        ensures
            r.wf(),
            r@ =~= Seq::<Tuple>::empty(),
            forall|k: u64, v: u64| #[trigger] wsum(r@, k, v) == 0,
    {
        ZSetBatch { entries: Vec::new() }
    }

    pub fn len(&self) -> (n: usize)
        ensures
            n == self@.len(),
    {
        self.entries.len()
    }

    pub fn entry(&self, i: usize) -> (t: Tuple)
        requires
            i < self@.len(),
        ensures
            t == self@[i as int],
    {
        self.entries[i]
    }

    /// Builds a batch from entries already known to satisfy the invariant.
    pub(crate) fn from_wf_entries(entries: Vec<Tuple>) -> (r: ZSetBatch)
        requires
            wf_entries(entries@),
        ensures
            r.wf(),
            r@ == entries@,
    {
        ZSetBatch { entries }
    }

    /// A batch holding one entry; its weight must not be zero.
    pub fn singleton(t: Tuple) -> (r: ZSetBatch)
        requires
            t.weight != 0,
        ensures
            r.wf(),
            r@ =~= seq![t],
            forall|k: u64, v: u64| #[trigger] wsum(r@, k, v) == if t.key == k && t.val == v {
                t.weight as int
            } else {
                0
            },
    {
        let mut entries: Vec<Tuple> = Vec::new();
        entries.push(t);
        proof {
            assert forall|k: u64, v: u64| #[trigger] wsum(entries@, k, v) == if t.key == k && t.val
                == v {
                t.weight as int
            } else {
                0
            } by {
                lemma_esum_push(Seq::<Tuple>::empty(), t, k, v, weight_fn());
                assert(entries@ =~= Seq::<Tuple>::empty().push(t));
            }
        }
        ZSetBatch { entries }
    }

    /// The algebraic sum of two batches: weights of shared pairs are added,
    /// pairs whose sum is zero are dropped, and the result is again a
    /// well-formed batch.  The caller guarantees that no summed weight
    /// overflows the weight type; the algebra assumes that never happens in a
    /// correct program.
    pub fn merge(&self, other: &ZSetBatch) -> (r: ZSetBatch)
        requires
            self.wf(),
            other.wf(),
            forall|k: u64, v: u64|
                i64::MIN <= #[trigger] wsum(self@, k, v) + #[trigger] wsum(other@, k, v)
                    <= i64::MAX,
        ensures
            r.wf(),
            forall|k: u64, v: u64|
                #[trigger] wsum(r@, k, v) == wsum(self@, k, v) + wsum(other@, k, v),
    {
        let a = &self.entries;
        let b = &other.entries;
        let mut out: Vec<Tuple> = Vec::new();
        let mut ai: usize = 0;
        let mut bi: usize = 0;
        proof {
            lemma_sorted_distinct_pairs(self@);
            lemma_sorted_distinct_pairs(other@);
        }
        while ai < a.len() || bi < b.len()
            invariant
                a@ == self@,
                b@ == other@,
                ai <= a@.len(),
                bi <= b@.len(),
                self.wf(),
                other.wf(),
                forall|k: u64, v: u64|
                    i64::MIN <= #[trigger] wsum(self@, k, v) + #[trigger] wsum(other@, k, v)
                        <= i64::MAX,
                wf_entries(out@),
                forall|m: int, j: int|
                    0 <= m < out@.len() && ai <= j < a@.len() ==> tuple_lt(out@[m], a@[j]),
                forall|m: int, j: int|
                    0 <= m < out@.len() && bi <= j < b@.len() ==> tuple_lt(out@[m], b@[j]),
                forall|k: u64, v: u64|
                    #[trigger] wsum(out@, k, v) == wsum(a@.take(ai as int), k, v) + wsum(
                        b@.take(bi as int),
                        k,
                        v,
                    ),
            decreases a@.len() - ai + b@.len() - bi,
        {
            let ghost out0 = out@;
            if bi == b.len() || (ai < a.len() && tuple_lt_exec(a[ai], b[bi])) {
                // only the left head carries this pair
                let t = a[ai];
                out.push(t);
                ai += 1;
                proof {
                    assert(out@ =~= out0.push(t));
                    assert forall|m: int| 0 <= m < out0.len() implies tuple_lt(
                        #[trigger] out0[m],
                        t,
                    ) by {
                        assert(tuple_lt(out0[m], a@[ai - 1]));
                    }
                    lemma_wf_push(out0, t);
                    assert(a@.take(ai as int) =~= a@.take(ai - 1).push(t));
                    assert forall|k: u64, v: u64|
                        #[trigger] wsum(out@, k, v) == wsum(a@.take(ai as int), k, v) + wsum(
                            b@.take(bi as int),
                            k,
                            v,
                        ) by {
                        assert(wsum(out0, k, v) == wsum(a@.take(ai - 1), k, v) + wsum(
                            b@.take(bi as int),
                            k,
                            v,
                        ));
                        lemma_esum_push(out0, t, k, v, weight_fn());
                        lemma_esum_push(a@.take(ai - 1), t, k, v, weight_fn());
                    }
                    assert forall|m: int, j: int|
                        0 <= m < out@.len() && bi <= j < b@.len() implies tuple_lt(
                        out@[m],
                        b@[j],
                    ) by {
                        if m == out@.len() - 1 && bi < b@.len() {
                            if bi < j {
                                lemma_tuple_lt_trans(t, b@[bi as int], b@[j]);
                            }
                        }
                    }
                }
            } else if ai == a.len() || tuple_lt_exec(b[bi], a[ai]) {
                // only the right head carries this pair
                let t = b[bi];
                out.push(t);
                bi += 1;
                proof {
                    assert(out@ =~= out0.push(t));
                    assert forall|m: int| 0 <= m < out0.len() implies tuple_lt(
                        #[trigger] out0[m],
                        t,
                    ) by {
                        assert(tuple_lt(out0[m], b@[bi - 1]));
                    }
                    lemma_wf_push(out0, t);
                    assert(b@.take(bi as int) =~= b@.take(bi - 1).push(t));
                    assert forall|k: u64, v: u64|
                        #[trigger] wsum(out@, k, v) == wsum(a@.take(ai as int), k, v) + wsum(
                            b@.take(bi as int),
                            k,
                            v,
                        ) by {
                        assert(wsum(out0, k, v) == wsum(a@.take(ai as int), k, v) + wsum(
                            b@.take(bi - 1),
                            k,
                            v,
                        ));
                        lemma_esum_push(out0, t, k, v, weight_fn());
                        lemma_esum_push(b@.take(bi - 1), t, k, v, weight_fn());
                    }
                    assert forall|m: int, j: int|
                        0 <= m < out@.len() && ai <= j < a@.len() implies tuple_lt(
                        out@[m],
                        a@[j],
                    ) by {
                        if m == out@.len() - 1 && ai < a@.len() {
                            if ai < j {
                                lemma_tuple_lt_trans(t, a@[ai as int], a@[j]);
                            }
                        }
                    }
                }
            } else {
                // both heads carry the same pair: add the weights, drop zero
                let ta = a[ai];
                let tb = b[bi];
                proof {
                    assert(ta.key == tb.key && ta.val == tb.val);
                    lemma_sorted_distinct_pairs(a@);
                    lemma_sorted_distinct_pairs(b@);
                    lemma_esum_lookup(a@, ta.key, ta.val, weight_fn(), ai as int);
                    lemma_esum_lookup(b@, ta.key, ta.val, weight_fn(), bi as int);
                    assert(wsum(a@, ta.key, ta.val) == ta.weight as int);
                    assert(wsum(b@, ta.key, ta.val) == tb.weight as int);
                }
                let w: i64 = ta.weight + tb.weight;
                let t = Tuple { key: ta.key, val: ta.val, weight: w };
                if w != 0 {
                    out.push(t);
                }
                ai += 1;
                bi += 1;
                proof {
                    assert(a@.take(ai as int) =~= a@.take(ai - 1).push(ta));
                    assert(b@.take(bi as int) =~= b@.take(bi - 1).push(tb));
                    if w != 0 {
                        assert(out@ =~= out0.push(t));
                        assert forall|m: int| 0 <= m < out0.len() implies tuple_lt(
                            #[trigger] out0[m],
                            t,
                        ) by {
                            assert(tuple_lt(out0[m], a@[ai - 1]));
                        }
                        lemma_wf_push(out0, t);
                    }
                    assert forall|k: u64, v: u64|
                        #[trigger] wsum(out@, k, v) == wsum(a@.take(ai as int), k, v) + wsum(
                            b@.take(bi as int),
                            k,
                            v,
                        ) by {
                        assert(wsum(out0, k, v) == wsum(a@.take(ai - 1), k, v) + wsum(
                            b@.take(bi - 1),
                            k,
                            v,
                        ));
                        lemma_esum_push(a@.take(ai - 1), ta, k, v, weight_fn());
                        lemma_esum_push(b@.take(bi - 1), tb, k, v, weight_fn());
                        if w != 0 {
                            lemma_esum_push(out0, t, k, v, weight_fn());
                        }
                    }
                    assert forall|m: int, j: int|
                        0 <= m < out@.len() && ai <= j < a@.len() implies tuple_lt(
                        out@[m],
                        a@[j],
                    ) by {
                        if w != 0 && m == out@.len() - 1 {
                            assert(tuple_lt(a@[ai - 1], a@[j]));
                        }
                    }
                    assert forall|m: int, j: int|
                        0 <= m < out@.len() && bi <= j < b@.len() implies tuple_lt(
                        out@[m],
                        b@[j],
                    ) by {
                        if w != 0 && m == out@.len() - 1 {
                            assert(tuple_lt(b@[bi - 1], b@[j]));
                        }
                    }
                }
            }
        }
        proof {
            assert(a@.take(a@.len() as int) =~= a@);
            assert(b@.take(b@.len() as int) =~= b@);
        }
        ZSetBatch { entries: out }
    }

    /// The net weight this batch gives to the pair (k, v); zero when the pair
    /// is absent.
    pub fn get_weight(&self, k: u64, v: u64) -> (w: i64)
        requires
            self.wf(),
        ensures
            w as int == wsum(self@, k, v),
    {
        let n = self.entries.len();
        for i in 0..n
            invariant
                n == self@.len(),
                self.wf(),
                forall|j: int| 0 <= j < i ==> !(self@[j].key == k && self@[j].val == v),
        {
            let t = self.entries[i];
            if t.key == k && t.val == v {
                proof {
                    lemma_sorted_distinct_pairs(self@);
                    lemma_esum_lookup(self@, k, v, weight_fn(), i as int);
                }
                return t.weight;
            }
        }
        proof {
            lemma_esum_absent(self@, k, v, weight_fn());
        }
        0
    }

    /// Consolidates an arbitrary run of weighted tuples — unsorted, with
    /// repeats and zero weights allowed — into a well-formed batch carrying
    /// the same Z-set.  This is the ingestion primitive: producers append
    /// tuples and hand the consolidated batch to a stream.
    pub fn from_tuples(tuples: &Vec<Tuple>) -> (r: ZSetBatch)
        requires
            prefix_sums_fit(tuples@),
        ensures
            r.wf(),
            forall|k: u64, v: u64| #[trigger] wsum(r@, k, v) == wsum(tuples@, k, v),
    {
        let mut acc = ZSetBatch::empty();
        let n = tuples.len();
        for i in 0..n
            invariant
                n == tuples@.len(),
                prefix_sums_fit(tuples@),
                acc.wf(),
                forall|k: u64, v: u64|
                    #[trigger] wsum(acc@, k, v) == wsum(tuples@.take(i as int), k, v),
        {
            let t = tuples[i];
            proof {
                assert(tuples@.take(i + 1) =~= tuples@.take(i as int).push(t));
            }
            if t.weight != 0 {
                let single = ZSetBatch::singleton(t);
                proof {
                    assert forall|k: u64, v: u64|
                        i64::MIN <= #[trigger] wsum(acc@, k, v) + #[trigger] wsum(single@, k, v)
                            <= i64::MAX by {
                        lemma_esum_push(tuples@.take(i as int), t, k, v, weight_fn());
                        assert(i64::MIN <= wsum(tuples@.take(i as int), k, v) <= i64::MAX);
                        assert(i64::MIN <= wsum(tuples@.take(i + 1), k, v) <= i64::MAX);
                    }
                }
                let ghost acc0 = acc@;
                acc = acc.merge(&single);
                proof {
                    assert forall|k: u64, v: u64|
                        #[trigger] wsum(acc@, k, v) == wsum(tuples@.take(i + 1), k, v) by {
                        lemma_esum_push(tuples@.take(i as int), t, k, v, weight_fn());
                        assert(wsum(acc@, k, v) == wsum(acc0, k, v) + wsum(single@, k, v));
                    }
                }
            } else {
                proof {
                    assert forall|k: u64, v: u64|
                        #[trigger] wsum(acc@, k, v) == wsum(tuples@.take(i + 1), k, v) by {
                        lemma_esum_push(tuples@.take(i as int), t, k, v, weight_fn());
                    }
                }
            }
        }
        proof {
            assert(tuples@.take(n as int) =~= tuples@);
        }
        acc
    }

    /// The sum of the absolute weights in the batch, for capacity planning
    /// at the emission boundary.  The caller guarantees the running sum
    /// stays within the weight type.
    pub fn weighted_count(&self) -> (c: i64)
        requires
            forall|n: int|
                0 <= n <= self@.len() ==> #[trigger] total_weight(self@.take(n)) <= i64::MAX,
        ensures
            c as int == total_weight(self@),
    {
        let mut c: i64 = 0;
        let n = self.entries.len();
        for i in 0..n
            invariant
                n == self@.len(),
                forall|m: int|
                    0 <= m <= self@.len() ==> #[trigger] total_weight(self@.take(m)) <= i64::MAX,
                c >= 0,
                c as int == total_weight(self@.take(i as int)),
        {
            let t = self.entries[i];
            proof {
                assert(self@.take(i + 1).drop_last() =~= self@.take(i as int));
                assert(self@.take(i + 1).last() == t);
                assert(total_weight(self@.take(i + 1)) <= i64::MAX);
            }
            let a: i64 = if t.weight >= 0 {
                t.weight
            } else {
                -t.weight
            };
            c = c + a;
        }
        proof {
            assert(self@.take(n as int) =~= self@);
        }
        c
    }
}

} // verus!
