//! The parquet format boundary: the two format descriptors, the checks an
//! encoder request must pass, and the planning of one encode run — how a
//! committed output batch is walked, its weights checked against the
//! consumer's duplicate bound, and its records grouped into buffers.  The
//! byte-level parquet writing itself is a collaborator outside the engine;
//! this module decides exactly what it is handed.

use vstd::prelude::*;
use vstd::string::StringExecFns;
use crate::zset::{Tuple, ZSetBatch};

verus! {

/// Which transport carries an output connector's data.
#[derive(PartialEq, Eq, Structural, Clone, Copy, Debug)]
pub enum TransportKind {
    /// A key-value store transport that cannot take parquet output.
    RedisOutput,
    /// Any transport that takes opaque buffers.
    Other,
}

/// Configuration of the parquet encoder.
#[derive(PartialEq, Eq, Structural, Clone, Copy, Debug)]
pub struct ParquetEncoderConfig {
    /// How many records fill one output buffer before it is handed to the
    /// consumer.
    pub buffer_size_records: usize,
}

/// Why an encoder cannot be attached to an output.
#[derive(PartialEq, Eq, Structural, Clone, Copy, Debug)]
pub enum EncoderConfigError {
    /// The parquet encoder cannot be attached to an index with a key
    /// schema.
    KeyedIndex,
    /// The parquet format is not supported with the key-value transport.
    RedisTransport,
}

/// Why one encode run over a batch is refused.
#[derive(PartialEq, Eq, Structural, Clone, Copy, Debug)]
pub enum EncodeError {
    /// The entry's weight lies outside the consumer's duplicate bound.
    WeightTooLarge(Tuple),
    /// The entry retracts rows, which this output format cannot express.
    NegativeWeight(Tuple),
}

/// The parquet input format descriptor.
pub struct ParquetInputFormat;

impl ParquetInputFormat {
    pub fn name(&self) -> (r: String)
        ensures
            r@ == "parquet"@,
    {
        String::from_str("parquet")
    }
}

/// The parquet output format descriptor.
pub struct ParquetOutputFormat;

impl ParquetOutputFormat {
    pub fn name(&self) -> (r: String)
        ensures
            r@ == "parquet"@,
    {
        String::from_str("parquet")
    }

    /// Decides whether an encoder may be attached: not to a keyed index,
    /// and not over the key-value transport.
    pub fn validate_encoder_request(&self, has_key_schema: bool, transport: TransportKind) -> (r:
        Result<(), EncoderConfigError>)
        ensures
            r == (if has_key_schema {
                Err::<(), EncoderConfigError>(EncoderConfigError::KeyedIndex)
            } else if transport == TransportKind::RedisOutput {
                Err::<(), EncoderConfigError>(EncoderConfigError::RedisTransport)
            } else {
                Ok::<(), EncoderConfigError>(())
            }),
    {
        if has_key_schema {
            Err(EncoderConfigError::KeyedIndex)
        } else if matches!(transport, TransportKind::RedisOutput) {
            Err(EncoderConfigError::RedisTransport)
        } else {
            Ok(())
        }
    }
}

/// Whether an entry's weight violates the emission contract under the
/// given duplicate bound.
pub open spec fn offends(t: Tuple, max_duplicates: i64) -> bool {
    t.weight < 0 || t.weight > max_duplicates
}

/// The error one offending entry draws: the duplicate bound is checked on
/// the magnitude first, then retraction is refused.
pub open spec fn offence_of(t: Tuple, max_duplicates: i64) -> EncodeError {
    if t.weight > max_duplicates || t.weight < -max_duplicates {
        EncodeError::WeightTooLarge(t)
    } else {
        EncodeError::NegativeWeight(t)
    }
}

/// One record per counted occurrence of an entry.
pub open spec fn pair_copies(t: Tuple) -> Seq<(u64, u64)> {
    Seq::new(if t.weight > 0 {
        t.weight as nat
    } else {
        0
    }, |i: int| (t.key, t.val))
}

/// The records a batch expands to, in key order.
pub open spec fn pairs_expanded(s: Seq<Tuple>) -> Seq<(u64, u64)>
    decreases s.len(),
{
    if s.len() == 0 {
        Seq::empty()
    } else {
        pairs_expanded(s.drop_last()) + pair_copies(s.last())
    }
}

/// The number of records that fills one buffer: a configuration of zero
/// flushes after every record.
pub open spec fn chunk_cap(buffer_size_records: usize) -> int {
    if buffer_size_records == 0 {
        1
    } else {
        buffer_size_records as int
    }
}

pub open spec fn chunks_view(s: Seq<Vec<(u64, u64)>>) -> Seq<Seq<(u64, u64)>> {
    s.map_values(|c: Vec<(u64, u64)>| c@)
}

/// All chunks laid end to end.
pub open spec fn cat(chunks: Seq<Seq<(u64, u64)>>) -> Seq<(u64, u64)>
    decreases chunks.len(),
{
    if chunks.len() == 0 {
        Seq::empty()
    } else {
        cat(chunks.drop_last()) + chunks.last()
    }
}

/// Plans one encode run: walks the batch in key order, refuses it on the
/// first entry whose weight breaks the consumer's contract, and otherwise
/// expands every entry into one record per counted occurrence, grouped
/// into buffers of exactly `buffer_size_records` records (one record per
/// buffer when that is zero), the last buffer alone allowed to run short.
pub fn plan_encode(batch: &ZSetBatch, max_duplicates: i64, buffer_size_records: usize) -> (r:
    Result<Vec<Vec<(u64, u64)>>, EncodeError>)
    requires
        batch.wf(),
        max_duplicates >= 0,
    ensures
        (r is Err <==> exists|i: int|
            0 <= i < batch@.len() && offends(#[trigger] batch@[i], max_duplicates)),
        (r matches Err(e) ==> exists|i: int|
            0 <= i < batch@.len() && offends(#[trigger] batch@[i], max_duplicates) && (forall|
                j: int,
            | 0 <= j < i ==> !offends(#[trigger] batch@[j], max_duplicates)) && e == offence_of(
                batch@[i],
                max_duplicates,
            )),
        (r matches Ok(chunks) ==> {
            &&& cat(chunks_view(chunks@)) == pairs_expanded(batch@)
            &&& (forall|c: int|
                0 <= c < chunks@.len() ==> 0 < (#[trigger] chunks_view(chunks@)[c]).len()
                    <= chunk_cap(buffer_size_records))
            &&& (forall|c: int|
                0 <= c < chunks@.len() - 1 ==> (#[trigger] chunks_view(chunks@)[c]).len()
                    == chunk_cap(buffer_size_records))
        }),
{
    let n = batch.len();
    for i in 0..n
        invariant
            n == batch@.len(),
            max_duplicates >= 0,
            forall|j: int| 0 <= j < i ==> !offends(#[trigger] batch@[j], max_duplicates),
    {
        let t = batch.entry(i);
        if t.weight > max_duplicates || t.weight < 0 - max_duplicates {
            return Err(EncodeError::WeightTooLarge(t));
        }
        if t.weight < 0 {
            return Err(EncodeError::NegativeWeight(t));
        }
    }
    let cap: usize = if buffer_size_records == 0 {
        1
    } else {
        buffer_size_records
    };
    let mut chunks: Vec<Vec<(u64, u64)>> = Vec::new();
    let mut cur: Vec<(u64, u64)> = Vec::new();
    for i in 0..n
        invariant
            n == batch@.len(),
            batch.wf(),
            forall|j: int| 0 <= j < batch@.len() ==> !offends(#[trigger] batch@[j], max_duplicates),
            cap as int == chunk_cap(buffer_size_records),
            cur@.len() < cap,
            forall|c: int|
                0 <= c < chunks@.len() ==> (#[trigger] chunks_view(chunks@)[c]).len()
                    == chunk_cap(buffer_size_records),
            cat(chunks_view(chunks@)) + cur@ =~= pairs_expanded(batch@.take(i as int)),
    {
        let t = batch.entry(i);
        let w = t.weight;
        let mut c: i64 = 0;
        while c < w
            invariant
                0 <= c <= w,
                i < batch@.len(),
                n == batch@.len(),
                t == batch@[i as int],
                w == t.weight,
                cap as int == chunk_cap(buffer_size_records),
                cur@.len() < cap,
                forall|d: int|
                    0 <= d < chunks@.len() ==> (#[trigger] chunks_view(chunks@)[d]).len()
                        == chunk_cap(buffer_size_records),
                cat(chunks_view(chunks@)) + cur@ =~= pairs_expanded(batch@.take(i as int))
                    + pair_copies(t).take(c as int),
            decreases w - c,
        {
            let ghost chunks0 = chunks@;
            let ghost cur0 = cur@;
            cur.push((t.key, t.val));
            c = c + 1;
            proof {
                assert(pair_copies(t).take(c as int) =~= pair_copies(t).take(c - 1).push(
                    (t.key, t.val),
                ));
                assert(cur@ =~= cur0.push((t.key, t.val)));
                assert(cat(chunks_view(chunks@)) + cur@ =~= (cat(chunks_view(chunks0))
                    + cur0).push((t.key, t.val)));
                assert(cat(chunks_view(chunks@)) + cur@ =~= pairs_expanded(batch@.take(i as int))
                    + pair_copies(t).take(c as int));
            }
            if cur.len() == cap {
                let full = cur;
                cur = Vec::new();
                chunks.push(full);
                proof {
                    assert(chunks_view(chunks@) =~= chunks_view(chunks0).push(full@));
                    assert(chunks_view(chunks@).drop_last() =~= chunks_view(chunks0));
                    assert(cat(chunks_view(chunks@)) =~= cat(chunks_view(chunks0)) + full@);
                    assert(cat(chunks_view(chunks@)) + cur@ =~= pairs_expanded(
                        batch@.take(i as int),
                    ) + pair_copies(t).take(c as int));
                }
            }
        }
        proof {
            assert(pair_copies(t).take(w as int) =~= pair_copies(t));
            assert(batch@.take(i + 1).drop_last() =~= batch@.take(i as int));
            assert(batch@.take(i + 1).last() == t);
            assert(cat(chunks_view(chunks@)) + cur@ =~= pairs_expanded(batch@.take(i + 1)));
        }
    }
    proof {
        assert(batch@.take(n as int) =~= batch@);
    }
    let ghost chunks_before = chunks@;
    let ghost cur_last = cur@;
    if cur.len() > 0 {
        chunks.push(cur);
        proof {
            assert(chunks_view(chunks@) =~= chunks_view(chunks_before).push(cur_last));
            assert(chunks_view(chunks@).drop_last() =~= chunks_view(chunks_before));
            assert(cat(chunks_view(chunks@)) =~= cat(chunks_view(chunks_before)) + cur_last);
        }
    } else {
        proof {
            assert(cat(chunks_view(chunks@)) + cur_last =~= cat(chunks_view(chunks@)));
        }
    }
    proof {
        assert(cat(chunks_view(chunks@)) =~= pairs_expanded(batch@));
    }
    Ok(chunks)
}

/// The chunk numbers that failed, given each chunk's outcome and the
/// number the first one carries.
pub open spec fn failed_chunks(oks: Seq<bool>, base: int) -> Seq<int>
    decreases oks.len(),
{
    if oks.len() == 0 {
        Seq::empty()
    } else {
        failed_chunks(oks.drop_last(), base) + if oks.last() {
            Seq::empty()
        } else {
            seq![base + oks.len() - 1]
        }
    }
}

/// The parser's bookkeeping for one input handle: chunks are numbered
/// consecutively across parse calls, so that every reported issue names
/// the chunk it came from.  The byte-level column decoding is the format
/// reader's part; the parser decides numbering and which chunks to
/// report.
pub struct ParquetParser {
    last_chunk_number: u64,
}

impl ParquetParser {
    pub closed spec fn chunk_number(&self) -> int {
        self.last_chunk_number as int
    }

    /// A fresh parser, numbering from zero.
    pub fn new() -> (r: ParquetParser)
        ensures
            r.chunk_number() == 0,
    {
        ParquetParser { last_chunk_number: 0 }
    }

    /// A parser for a forked handle: a fresh parser over the fork,
    /// numbering its own chunks from zero.
    pub fn fork(&self) -> (r: ParquetParser)
        ensures
            r.chunk_number() == 0,
    {
        ParquetParser::new()
    }

    /// Accounts one parse call: each entry says whether the chunk at that
    /// position decoded and buffered; the numbers of the chunks that did
    /// not are returned in order, and the numbering advances past all of
    /// them for the next call.
    pub fn record_chunks(&mut self, oks: &Vec<bool>) -> (r: Vec<u64>)
        requires
            old(self).chunk_number() + oks@.len() <= u64::MAX,
        ensures
            final(self).chunk_number() == old(self).chunk_number() + oks@.len(),
            r@.map_values(|x: u64| x as int) == failed_chunks(oks@, old(self).chunk_number()),
    {
        let mut r: Vec<u64> = Vec::new();
        let n = oks.len();
        for i in 0..n
            invariant
                n == oks@.len(),
                old(self).chunk_number() + oks@.len() <= u64::MAX,
                self.chunk_number() == old(self).chunk_number() + i as int,
                r@.map_values(|x: u64| x as int) =~= failed_chunks(
                    oks@.take(i as int),
                    old(self).chunk_number(),
                ),
        {
            let ghost r0 = r@;
            if !oks[i] {
                r.push(self.last_chunk_number);
            }
            self.last_chunk_number = self.last_chunk_number + 1;
            proof {
                assert(oks@.take(i + 1).drop_last() =~= oks@.take(i as int));
                assert(oks@.take(i + 1).last() == oks@[i as int]);
                if !oks@[i as int] {
                    assert(r@.map_values(|x: u64| x as int) =~= r0.map_values(
                        |x: u64| x as int,
                    ).push(old(self).chunk_number() + i));
                }
                assert(r@.map_values(|x: u64| x as int) =~= failed_chunks(
                    oks@.take(i + 1),
                    old(self).chunk_number(),
                ));
            }
        }
        proof {
            assert(oks@.take(n as int) =~= oks@);
        }
        r
    }
}

} // verus!
