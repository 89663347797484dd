use zset_engine::circuit::{Circuit, OperatorKind};
use zset_engine::distinct::{distinct_step, hash_distinct_step, stream_distinct_batch};
use zset_engine::format::{plan_encode, EncodeError, EncoderConfigError, ParquetInputFormat,
    ParquetOutputFormat, ParquetParser, TransportKind};
use zset_engine::stream::Stream;
use zset_engine::trace::Trace;
use zset_engine::zset::{Tuple, ZSetBatch};

fn t(key: u64, val: u64, weight: i64) -> Tuple {
    Tuple { key, val, weight }
}

fn batch(tuples: &[Tuple]) -> ZSetBatch {
    ZSetBatch::from_tuples(&tuples.to_vec())
}

fn entries(b: &ZSetBatch) -> Vec<Tuple> {
    let mut out = Vec::new();
    for i in 0..b.len() {
        out.push(b.entry(i));
    }
    out
}

#[test]
fn from_tuples_consolidates() {
    let b = batch(&[t(2, 1, 1), t(1, 1, 2), t(2, 1, -1), t(1, 2, 3)]);
    assert_eq!(entries(&b), vec![t(1, 1, 2), t(1, 2, 3)]);
    assert_eq!(b.get_weight(1, 1), 2);
    assert_eq!(b.get_weight(2, 1), 0);
    assert_eq!(b.weighted_count(), 5);
}

#[test]
fn merge_sums_and_drops_zeros() {
    let a = batch(&[t(1, 1, 2), t(2, 2, 1)]);
    let b = batch(&[t(1, 1, -2), t(3, 3, 4)]);
    let m = a.merge(&b);
    assert_eq!(entries(&m), vec![t(2, 2, 1), t(3, 3, 4)]);
}

#[test]
fn merge_with_self_doubles_weights() {
    let b = batch(&[t(1, 1, 2), t(2, 2, -3), t(5, 0, 1)]);
    let m = b.merge(&b);
    assert_eq!(entries(&m), vec![t(1, 1, 4), t(2, 2, -6), t(5, 0, 2)]);
    assert_eq!(m.len(), b.len());
}

#[test]
fn stream_distinct_clamps_positive_weights() {
    let b = batch(&[t(1, 1, 5), t(2, 2, -3), t(3, 3, 1)]);
    let d = stream_distinct_batch(&b);
    assert_eq!(entries(&d), vec![t(1, 1, 1), t(3, 3, 1)]);
}

#[test]
fn single_batch_weight_two_yields_weight_one() {
    // one batch [(k2, v2, +2)]: the non-incremental and the incremental
    // form on an empty trace agree on the single output (k2, v2, +1)
    let b = batch(&[t(2, 2, 2)]);
    let s = stream_distinct_batch(&b);
    assert_eq!(entries(&s), vec![t(2, 2, 1)]);
    let empty = ZSetBatch::empty();
    let d = distinct_step(&empty, &b);
    assert_eq!(entries(&d), vec![t(2, 2, 1)]);
}

#[test]
fn cancelling_delta_yields_no_output() {
    // [(k1, v1, +3), (k1, v1, -3)] in one step nets to zero, whatever the
    // prior trace holds
    let delta = batch(&[t(1, 1, 3), t(1, 1, -3)]);
    assert_eq!(delta.len(), 0);
    let empty = ZSetBatch::empty();
    assert_eq!(distinct_step(&empty, &delta).len(), 0);
    let trace = batch(&[t(1, 1, 7), t(4, 4, 1)]);
    assert_eq!(distinct_step(&trace, &delta).len(), 0);
}

#[test]
fn insert_then_retract_across_steps() {
    // +1 then, a step later, -1: the indicator appears and disappears
    let mut input = Stream::new();
    input.push_batch(batch(&[t(1, 1, 1)]));
    input.push_batch(batch(&[t(1, 1, -1)]));
    let out = input.distinct();
    assert_eq!(out.len(), 2);
    assert_eq!(entries(out.batch(0)), vec![t(1, 1, 1)]);
    assert_eq!(entries(out.batch(1)), vec![t(1, 1, -1)]);
}

#[test]
fn reinserting_existing_element_is_a_no_op() {
    let trace = batch(&[t(1, 1, 1), t(2, 2, 1)]);
    let delta = batch(&[t(1, 1, 3)]);
    let out = distinct_step(&trace, &delta);
    assert_eq!(out.len(), 0);
    let out_h = hash_distinct_step(&trace, &delta);
    assert_eq!(out_h.len(), 0);
}

#[test]
fn incremental_distinct_matches_from_scratch() {
    // cumulative incremental output == stream_distinct of the summed input
    let deltas = vec![
        vec![t(1, 1, 2), t(2, 2, 1)],
        vec![t(1, 1, -2), t(3, 3, 4)],
        vec![t(2, 2, -1), t(1, 1, 1), t(9, 9, -5)],
    ];
    let mut input = Stream::new();
    let mut total = ZSetBatch::empty();
    for d in &deltas {
        let b = batch(d);
        total = total.merge(&b);
        input.push_batch(b);
    }
    let out = input.distinct();
    let mut cumulative = ZSetBatch::empty();
    for i in 0..out.len() {
        cumulative = cumulative.merge(out.batch(i));
    }
    let from_scratch = stream_distinct_batch(&total);
    assert_eq!(entries(&cumulative), entries(&from_scratch));
}

#[test]
fn hash_distinct_equals_distinct() {
    let deltas = vec![
        vec![t(1, 1, 2), t(2, 2, 1), t(700, 3, 1)],
        vec![t(1, 1, -2), t(3, 3, 4), t(700, 3, -1)],
        vec![t(2, 2, -1), t(1, 1, 1)],
    ];
    let mut input = Stream::new();
    for d in &deltas {
        input.push_batch(batch(d));
    }
    let a = input.distinct();
    let b = input.hash_distinct();
    assert_eq!(a.len(), b.len());
    for i in 0..a.len() {
        assert_eq!(entries(a.batch(i)), entries(b.batch(i)));
    }
}

#[test]
fn stream_distinct_is_per_step() {
    let mut input = Stream::new();
    input.push_batch(batch(&[t(1, 1, 2)]));
    input.push_batch(batch(&[t(1, 1, 2)]));
    let out = input.stream_distinct();
    assert_eq!(entries(out.batch(0)), vec![t(1, 1, 1)]);
    assert_eq!(entries(out.batch(1)), vec![t(1, 1, 1)]);
}

#[test]
fn trace_accumulates_and_compacts() {
    let mut tr = Trace::new();
    tr.insert(&batch(&[t(1, 1, 1), t(5, 5, 2)]));
    tr.insert(&batch(&[t(1, 1, 1), t(7, 7, -1)]));
    assert_eq!(tr.get_weight(1, 1), 2);
    assert_eq!(tr.get_weight(5, 5), 2);
    assert_eq!(tr.get_weight(7, 7), -1);
    tr.compact(5);
    assert_eq!(tr.get_weight(1, 1), 0);
    assert_eq!(tr.get_weight(5, 5), 2);
    assert_eq!(tr.get_weight(7, 7), -1);
}

#[test]
fn cursor_walks_keys_then_values() {
    let b = batch(&[t(1, 1, 2), t(1, 2, 1), t(2, 1, -1)]);
    let mut c = b.cursor();
    assert!(c.key_valid());
    assert_eq!(c.key(), 1);
    assert!(c.val_valid());
    assert_eq!(c.val(), 1);
    assert_eq!(c.weight(), 2);
    c.step_val();
    assert!(c.val_valid());
    assert_eq!(c.val(), 2);
    assert_eq!(c.weight(), 1);
    c.step_val();
    assert!(!c.val_valid());
    c.step_key();
    assert!(c.key_valid());
    assert_eq!(c.key(), 2);
    assert_eq!(c.weight(), -1);
    c.step_key();
    assert!(!c.key_valid());
}

#[test]
fn circuit_rejects_forward_reference() {
    let ops = vec![(OperatorKind::Distinct, 0), (OperatorKind::StreamDistinct, 3)];
    let r = Circuit::new(&ops);
    assert!(r.is_err());
}

#[test]
fn circuit_steps_operators_in_order() {
    // distinct over the input, then stream_distinct over its output
    let ops = vec![(OperatorKind::Distinct, 0), (OperatorKind::StreamDistinct, 1)];
    let mut c = Circuit::new(&ops).unwrap();
    let streams = c.step(batch(&[t(1, 1, 2)]));
    assert_eq!(streams.len(), 3);
    assert_eq!(entries(&streams[1]), vec![t(1, 1, 1)]);
    assert_eq!(entries(&streams[2]), vec![t(1, 1, 1)]);
    // second step: re-inserting the same element changes nothing
    let streams = c.step(batch(&[t(1, 1, 5)]));
    assert_eq!(streams[1].len(), 0);
    assert_eq!(streams[2].len(), 0);
}

#[test]
fn format_names() {
    assert_eq!(ParquetInputFormat.name(), "parquet");
    assert_eq!(ParquetOutputFormat.name(), "parquet");
}

#[test]
fn encoder_request_validation() {
    let f = ParquetOutputFormat;
    assert_eq!(f.validate_encoder_request(true, TransportKind::Other),
        Err(EncoderConfigError::KeyedIndex));
    assert_eq!(f.validate_encoder_request(false, TransportKind::RedisOutput),
        Err(EncoderConfigError::RedisTransport));
    assert_eq!(f.validate_encoder_request(false, TransportKind::Other), Ok(()));
}

#[test]
fn plan_encode_chunks_records() {
    let b = batch(&[t(1, 1, 3), t(2, 2, 2)]);
    let chunks = plan_encode(&b, 10, 2).unwrap();
    assert_eq!(chunks, vec![
        vec![(1, 1), (1, 1)],
        vec![(1, 1), (2, 2)],
        vec![(2, 2)],
    ]);
}

#[test]
fn plan_encode_zero_buffer_size_flushes_every_record() {
    let b = batch(&[t(1, 1, 2)]);
    let chunks = plan_encode(&b, 10, 0).unwrap();
    assert_eq!(chunks, vec![vec![(1, 1)], vec![(1, 1)]]);
}

#[test]
fn plan_encode_rejects_large_and_negative_weights() {
    let b = batch(&[t(1, 1, 3)]);
    assert_eq!(plan_encode(&b, 2, 4), Err(EncodeError::WeightTooLarge(t(1, 1, 3))));
    let b = batch(&[t(1, 1, -1), t(2, 2, 1)]);
    assert_eq!(plan_encode(&b, 2, 4), Err(EncodeError::NegativeWeight(t(1, 1, -1))));
}

#[test]
fn parser_numbers_chunks_across_calls() {
    let mut p = ParquetParser::new();
    assert_eq!(p.record_chunks(&vec![true, false, true]), vec![1]);
    assert_eq!(p.record_chunks(&vec![false, false]), vec![3, 4]);
    let mut f = p.fork();
    assert_eq!(f.record_chunks(&vec![false]), vec![0]);
}

#[test]
fn empty_batch_means_no_change() {
    let empty = ZSetBatch::empty();
    assert_eq!(empty.len(), 0);
    let mut input = Stream::new();
    input.push_batch(batch(&[t(1, 1, 1)]));
    input.push_batch(ZSetBatch::empty());
    let out = input.distinct();
    assert_eq!(entries(out.batch(0)), vec![t(1, 1, 1)]);
    assert_eq!(out.batch(1).len(), 0);
}

#[test]
fn extreme_weight_still_clamps_to_one() {
    let b = batch(&[t(1, 1, i64::MAX)]);
    let d = stream_distinct_batch(&b);
    assert_eq!(entries(&d), vec![t(1, 1, 1)]);
    let m = batch(&[t(1, 1, i64::MIN + 1)]);
    assert_eq!(stream_distinct_batch(&m).len(), 0);
}
