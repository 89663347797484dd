//! The cursor: a read-only, position-aware view over a batch (or over a
//! trace, through its logical batch).  It walks keys in order, the values
//! of the current key in order, and reads the weight at the current
//! position; it borrows the batch and never outlives it.

use vstd::prelude::*;
use crate::zset::{wsum, ZSetBatch};

verus! {

/// A cursor over the entries of one batch.  `key_pos` marks the first
/// entry of the current key group, `val_pos` the current value within it.
pub struct ZSetCursor<'a> {
    batch: &'a ZSetBatch,
    key_pos: usize,
    val_pos: usize,
}

impl<'a> ZSetCursor<'a> {
    /// The entries this cursor reads.
    pub closed spec fn entries(&self) -> Seq<crate::zset::Tuple> {
        self.batch@
    }

    pub closed spec fn key_pos_spec(&self) -> int {
        self.key_pos as int
    }

    pub closed spec fn val_pos_spec(&self) -> int {
        self.val_pos as int
    }

    /// A cursor is well formed while its positions sit inside the batch,
    /// the value position never before the key position.
    pub open spec fn wf(&self) -> bool {
        &&& crate::zset::wf_entries(self.entries())
        &&& self.key_pos_spec() <= self.entries().len()
        &&& self.key_pos_spec() <= self.val_pos_spec()
    }

    /// Whether the cursor still stands on a key.
    pub fn key_valid(&self) -> (r: bool)
        requires
            self.wf(),
        ensures
            r == (self.key_pos_spec() < self.entries().len()),
    {
        self.key_pos < self.batch.len()
    }

    /// Whether the cursor still stands on a value of the current key.
    pub fn val_valid(&self) -> (r: bool)
        requires
            self.wf(),
        ensures
            r == (self.val_pos_spec() < self.entries().len() && self.key_pos_spec()
                < self.entries().len() && self.entries()[self.val_pos_spec()].key
                == self.entries()[self.key_pos_spec()].key),
    {
        self.key_pos < self.batch.len() && self.val_pos < self.batch.len()
            && self.batch.entry(self.val_pos).key == self.batch.entry(self.key_pos).key
    }

    /// The key at the current position.
    pub fn key(&self) -> (k: u64)
        requires
            self.wf(),
            self.key_pos_spec() < self.entries().len(),
        ensures
            k == self.entries()[self.key_pos_spec()].key,
    {
        self.batch.entry(self.key_pos).key
    }

    /// The value at the current position.
    pub fn val(&self) -> (v: u64)
        requires
            self.wf(),
            self.val_pos_spec() < self.entries().len(),
        ensures
            v == self.entries()[self.val_pos_spec()].val,
    {
        self.batch.entry(self.val_pos).val
    }

    /// The weight at the current (key, value) position: exactly the weight
    /// the batch gives that pair.
    pub fn weight(&self) -> (w: i64)
        requires
            self.wf(),
            self.val_pos_spec() < self.entries().len(),
        ensures
            w == self.entries()[self.val_pos_spec()].weight,
            w as int == wsum(
                self.entries(),
                self.entries()[self.val_pos_spec()].key,
                self.entries()[self.val_pos_spec()].val,
            ),
    {
        let t = self.batch.entry(self.val_pos);
        proof {
            crate::zset::lemma_sorted_distinct_pairs(self.entries());
            crate::zset::lemma_esum_lookup(
                self.entries(),
                t.key,
                t.val,
                crate::zset::weight_fn(),
                self.val_pos as int,
            );
        }
        t.weight
    }

    /// Advances to the next value of the current key.
    pub fn step_val(&mut self)
        requires
            old(self).wf(),
            old(self).val_pos_spec() < old(self).entries().len(),
        ensures
            final(self).wf(),
            final(self).entries() == old(self).entries(),
            final(self).key_pos_spec() == old(self).key_pos_spec(),
            final(self).val_pos_spec() == old(self).val_pos_spec() + 1,
    {
        let n: usize = self.batch.len();
        proof {
            assert(self.val_pos < n);
        }
        self.val_pos = self.val_pos + 1;
    }

    /// Advances to the first entry of the next key, skipping the remaining
    /// values of the current one.
    pub fn step_key(&mut self)
        requires
            old(self).wf(),
            old(self).key_pos_spec() < old(self).entries().len(),
        ensures
            final(self).wf(),
            final(self).entries() == old(self).entries(),
            final(self).val_pos_spec() == final(self).key_pos_spec(),
            old(self).key_pos_spec() < final(self).key_pos_spec() <= final(self).entries().len(),
            forall|j: int|
                old(self).key_pos_spec() <= j < final(self).key_pos_spec()
                    ==> #[trigger] final(self).entries()[j].key == old(self).entries()[old(
                    self,
                ).key_pos_spec()].key,
            final(self).key_pos_spec() < final(self).entries().len() ==> final(self).entries()[
                final(self).key_pos_spec()
            ].key != old(self).entries()[old(self).key_pos_spec()].key,
    {
        let n = self.batch.len();
        let k = self.batch.entry(self.key_pos).key;
        let mut p = self.key_pos + 1;
        while p < n && self.batch.entry(p).key == k
            invariant
                self.batch.wf(),
                self.entries() == old(self).entries(),
                n == self.entries().len(),
                k == self.entries()[old(self).key_pos_spec()].key,
                old(self).key_pos_spec() < p as int <= n as int,
                forall|j: int|
                    old(self).key_pos_spec() <= j < p as int ==> #[trigger] self.entries()[j].key
                        == k,
                self.key_pos_spec() == old(self).key_pos_spec(),
                self.val_pos_spec() == old(self).val_pos_spec(),
            decreases n - p,
        {
            p = p + 1;
        }
        self.key_pos = p;
        self.val_pos = p;
    }
}

impl ZSetBatch {
    /// A fresh cursor positioned at the first key of the batch.
    pub fn cursor(&self) -> (c: ZSetCursor<'_>)
        requires
            self.wf(),
        ensures
            c.wf(),
            c.entries() == self@,
            c.key_pos_spec() == 0,
            c.val_pos_spec() == 0,
    {
        ZSetCursor { batch: self, key_pos: 0, val_pos: 0 }
    }
}

} // verus!
