//! What a message body holds decides the translation: two decodings of the
//! same bytes translate alike.
//!
//! The decoding relations (`*_ok`) pin every field that the translation
//! reads, so each lemma here walks one message type and concludes that the
//! two views translate to the same value.

use vstd::prelude::*;

use super::translate::{
    bucket_float_fn, bucket_int_fn, exemplar_inner_fn, label_fn, metric_fn, quantile_fn, spec_classic,
    spec_exemplar, spec_exemplar_inner, spec_family, spec_histogram_value, spec_label, spec_labels, spec_metric,
    spec_native, spec_quantile, spec_span, spec_spans, spec_ts, translate_all,
};
use super::translate::{spec_bucket_float, spec_bucket_int};
use super::view::{
    bucket_ok, buckets_ok, counter_ok, exemplar_body_ok, exemplar_fields_ok, exemplar_ok, exemplars_ok, family_ok, histogram_fields_ok,
    histogram_ok, label_ok, labels_ok, metric_ok, quantile_ok, quantiles_ok, span_ok, spans_ok,
    summary_ok, timestamp_ok, value_ok, BucketSpanView, BucketView, CounterView, ExemplarView, FamilyView,
    HistogramView, LabelPairView, MetricView, QuantileView, SummaryView, TimestampView, ValueView,
};
use super::wire::{payloads, spec_merged_field, spec_message_field, wire_fields, SpecWireField};
use crate::owned::MetricType;

verus! {

/// Translating element by element gives the same result for two sequences
/// whose elements translate alike.
proof fn lemma_translate_all_agree<A, B>(s1: Seq<A>, s2: Seq<A>, f: spec_fn(A) -> Result<B, Seq<char>>)
    requires
        s1.len() == s2.len(),
        forall|i: int| 0 <= i < s1.len() ==> f(#[trigger] s1[i]) == f(s2[i]),
    ensures
        translate_all(s1, f) == translate_all(s2, f),
    decreases s1.len(),
{
    if s1.len() > 0 {
        let (t1, t2) = (s1.drop_last(), s2.drop_last());
        assert forall|i: int| 0 <= i < t1.len() implies f(#[trigger] t1[i]) == f(t2[i]) by {
            assert(f(s1[i]) == f(s2[i]));
        }
        lemma_translate_all_agree(t1, t2, f);
        assert(f(s1[s1.len() - 1]) == f(s2[s2.len() - 1]));
    }
}

proof fn lemma_timestamp(m: Option<Seq<u8>>, v1: TimestampView, v2: TimestampView)
    requires
        timestamp_ok(m, v1),
        timestamp_ok(m, v2),
    ensures
        spec_ts(v1) == spec_ts(v2),
{
}

proof fn lemma_labels(ps: Seq<Seq<u8>>, vs1: Seq<LabelPairView<'_>>, vs2: Seq<LabelPairView<'_>>)
    requires
        labels_ok(ps, vs1),
        labels_ok(ps, vs2),
    ensures
        spec_labels(vs1) == spec_labels(vs2),
{
    assert forall|i: int| 0 <= i < vs1.len() implies label_fn()(#[trigger] vs1[i]) == label_fn()(vs2[i]) by {
        assert(label_ok(ps[i], vs1[i]) && label_ok(ps[i], vs2[i]));
        assert(spec_label(vs1[i]) == spec_label(vs2[i]));
    }
    lemma_translate_all_agree(vs1, vs2, label_fn());
}

proof fn lemma_exemplar_fields(fs: Seq<SpecWireField>, v1: ExemplarView<'_>, v2: ExemplarView<'_>)
    requires
        exemplar_fields_ok(fs, v1),
        exemplar_fields_ok(fs, v2),
    ensures
        v1.is_set == v2.is_set,
        spec_exemplar_inner(v1) == spec_exemplar_inner(v2),
{
    lemma_labels(payloads(fs, 1), v1.label@, v2.label@);
    let t = spec_message_field(fs, 3)->Some_0;
    lemma_timestamp(t, v1.timestamp, v2.timestamp);
}

proof fn lemma_exemplar_body(b: Seq<u8>, v1: ExemplarView<'_>, v2: ExemplarView<'_>)
    requires
        exemplar_body_ok(b, v1),
        exemplar_body_ok(b, v2),
    ensures
        v1.is_set == v2.is_set,
        spec_exemplar_inner(v1) == spec_exemplar_inner(v2),
{
    lemma_exemplar_fields(wire_fields(b)->Some_0, v1, v2);
}

proof fn lemma_exemplar(m: Option<Seq<SpecWireField>>, v1: ExemplarView<'_>, v2: ExemplarView<'_>)
    requires
        exemplar_ok(m, v1),
        exemplar_ok(m, v2),
    ensures
        spec_exemplar(v1) == spec_exemplar(v2),
{
    if let Some(fs) = m {
        lemma_exemplar_fields(fs, v1, v2);
    }
}

proof fn lemma_exemplars(ps: Seq<Seq<u8>>, vs1: Seq<ExemplarView<'_>>, vs2: Seq<ExemplarView<'_>>)
    requires
        exemplars_ok(ps, vs1),
        exemplars_ok(ps, vs2),
    ensures
        translate_all(vs1, exemplar_inner_fn()) == translate_all(vs2, exemplar_inner_fn()),
{
    assert forall|i: int| 0 <= i < vs1.len() implies exemplar_inner_fn()(#[trigger] vs1[i]) == exemplar_inner_fn()(
        vs2[i],
    ) by {
        lemma_exemplar_body(ps[i], vs1[i], vs2[i]);
    }
    lemma_translate_all_agree(vs1, vs2, exemplar_inner_fn());
}

proof fn lemma_bucket(b: Seq<u8>, v1: BucketView<'_>, v2: BucketView<'_>)
    requires
        bucket_ok(b, v1),
        bucket_ok(b, v2),
    ensures
        spec_bucket_float(v1) == spec_bucket_float(v2),
        spec_bucket_int(v1) == spec_bucket_int(v2),
{
    let fs = wire_fields(b)->Some_0;
    lemma_exemplar(spec_merged_field(fs, 3)->Some_0, v1.exemplar, v2.exemplar);
}

proof fn lemma_buckets(ps: Seq<Seq<u8>>, vs1: Seq<BucketView<'_>>, vs2: Seq<BucketView<'_>>)
    requires
        buckets_ok(ps, vs1),
        buckets_ok(ps, vs2),
    ensures
        vs1.len() == vs2.len(),
        translate_all(vs1, bucket_float_fn()) == translate_all(vs2, bucket_float_fn()),
        translate_all(vs1, bucket_int_fn()) == translate_all(vs2, bucket_int_fn()),
{
    assert forall|i: int| 0 <= i < vs1.len() implies bucket_float_fn()(#[trigger] vs1[i]) == bucket_float_fn()(
        vs2[i],
    ) && bucket_int_fn()(vs1[i]) == bucket_int_fn()(vs2[i]) by {
        lemma_bucket(ps[i], vs1[i], vs2[i]);
    }
    lemma_translate_all_agree(vs1, vs2, bucket_float_fn());
    lemma_translate_all_agree(vs1, vs2, bucket_int_fn());
}

proof fn lemma_spans(ps: Seq<Seq<u8>>, vs1: Seq<BucketSpanView>, vs2: Seq<BucketSpanView>)
    requires
        spans_ok(ps, vs1),
        spans_ok(ps, vs2),
    ensures
        spec_spans(vs1) == spec_spans(vs2),
{
    assert forall|i: int| 0 <= i < vs1.len() implies spec_span(#[trigger] vs1[i]) == spec_span(vs2[i]) by {
        assert(span_ok(ps[i], vs1[i]) && span_ok(ps[i], vs2[i]));
    }
    assert(spec_spans(vs1) =~= spec_spans(vs2));
}

/// Two decodings of a histogram body agree on everything the translation
/// reads: whether it is set, its bucket count and schema, and both the
/// classic and the native reading.
proof fn lemma_histogram_fields(fs: Seq<SpecWireField>, v1: HistogramView<'_>, v2: HistogramView<'_>)
    requires
        histogram_fields_ok(fs, v1),
        histogram_fields_ok(fs, v2),
    ensures
        v1.is_set == v2.is_set,
        v1.bucket@.len() == v2.bucket@.len(),
        v1.schema == v2.schema,
        spec_classic(v1) == spec_classic(v2),
        spec_native(v1) == spec_native(v2),
{
    lemma_buckets(payloads(fs, 3), v1.bucket@, v2.bucket@);
    lemma_timestamp(spec_message_field(fs, 15)->Some_0, v1.created_timestamp, v2.created_timestamp);
    lemma_spans(payloads(fs, 9), v1.negative_span@, v2.negative_span@);
    lemma_spans(payloads(fs, 12), v1.positive_span@, v2.positive_span@);
    lemma_exemplars(payloads(fs, 16), v1.exemplars@, v2.exemplars@);
    assert(v1.negative_delta@ == v2.negative_delta@);
    assert(v1.positive_delta@ == v2.positive_delta@);
    assert(v1.negative_count@ == v2.negative_count@);
    assert(v1.positive_count@ == v2.positive_count@);
}

proof fn lemma_histogram(m: Option<Seq<SpecWireField>>, v1: HistogramView<'_>, v2: HistogramView<'_>)
    requires
        histogram_ok(m, v1),
        histogram_ok(m, v2),
    ensures
        v1.is_set == v2.is_set,
        v1.is_set ==> {
            &&& v1.bucket@.len() == v2.bucket@.len()
            &&& v1.schema == v2.schema
            &&& forall|ty: MetricType| spec_histogram_value(v1, ty) == #[trigger] spec_histogram_value(v2, ty)
        },
{
    if let Some(fs) = m {
        lemma_histogram_fields(fs, v1, v2);
    }
}

proof fn lemma_quantiles(ps: Seq<Seq<u8>>, vs1: Seq<QuantileView>, vs2: Seq<QuantileView>)
    requires
        quantiles_ok(ps, vs1),
        quantiles_ok(ps, vs2),
    ensures
        translate_all(vs1, quantile_fn()) == translate_all(vs2, quantile_fn()),
{
    assert forall|i: int| 0 <= i < vs1.len() implies quantile_fn()(#[trigger] vs1[i]) == quantile_fn()(vs2[i]) by {
        assert(quantile_ok(ps[i], vs1[i]) && quantile_ok(ps[i], vs2[i]));
        assert(spec_quantile(vs1[i]) == spec_quantile(vs2[i]));
    }
    lemma_translate_all_agree(vs1, vs2, quantile_fn());
}

proof fn lemma_summary(m: Option<Seq<u8>>, v1: SummaryView, v2: SummaryView)
    requires
        summary_ok(m, v1),
        summary_ok(m, v2),
    ensures
        v1.is_set == v2.is_set,
        v1.is_set ==> {
            &&& v1.sample_count == v2.sample_count
            &&& v1.sample_sum == v2.sample_sum
            &&& translate_all(v1.quantile@, quantile_fn()) == translate_all(v2.quantile@, quantile_fn())
            &&& spec_ts(v1.created_timestamp) == spec_ts(v2.created_timestamp)
        },
{
    if let Some(b) = m {
        let fs = wire_fields(b)->Some_0;
        lemma_quantiles(payloads(fs, 3), v1.quantile@, v2.quantile@);
        lemma_timestamp(spec_message_field(fs, 4)->Some_0, v1.created_timestamp, v2.created_timestamp);
    }
}

proof fn lemma_value(m: Option<Seq<u8>>, v1: ValueView, v2: ValueView)
    requires
        value_ok(m, v1),
        value_ok(m, v2),
    ensures
        v1.is_set == v2.is_set,
        v1.is_set ==> v1.value == v2.value,
{
}

proof fn lemma_counter(m: Option<Seq<SpecWireField>>, v1: CounterView<'_>, v2: CounterView<'_>)
    requires
        counter_ok(m, v1),
        counter_ok(m, v2),
    ensures
        v1.is_set == v2.is_set,
        v1.is_set ==> {
            &&& v1.value == v2.value
            &&& spec_exemplar(v1.exemplar) == spec_exemplar(v2.exemplar)
            &&& spec_ts(v1.created_timestamp) == spec_ts(v2.created_timestamp)
        },
{
    if let Some(fs) = m {
        lemma_exemplar(spec_merged_field(fs, 2)->Some_0, v1.exemplar, v2.exemplar);
        lemma_timestamp(spec_message_field(fs, 3)->Some_0, v1.created_timestamp, v2.created_timestamp);
    }
}

proof fn lemma_metric(b: Seq<u8>, v1: MetricView<'_>, v2: MetricView<'_>)
    requires
        metric_ok(b, v1),
        metric_ok(b, v2),
    ensures
        v1.histogram.is_set == v2.histogram.is_set,
        v1.histogram.is_set ==> v1.histogram.bucket@.len() == v2.histogram.bucket@.len() && v1.histogram.schema
            == v2.histogram.schema,
        forall|ty: MetricType| spec_metric(v1, ty) == #[trigger] spec_metric(v2, ty),
{
    let fs = wire_fields(b)->Some_0;
    lemma_labels(payloads(fs, 1), v1.label@, v2.label@);
    lemma_value(spec_message_field(fs, 2)->Some_0, v1.gauge, v2.gauge);
    lemma_counter(spec_merged_field(fs, 3)->Some_0, v1.counter, v2.counter);
    lemma_summary(spec_message_field(fs, 4)->Some_0, v1.summary, v2.summary);
    lemma_value(spec_message_field(fs, 5)->Some_0, v1.untyped, v2.untyped);
    lemma_histogram(spec_merged_field(fs, 7)->Some_0, v1.histogram, v2.histogram);
    assert forall|ty: MetricType| spec_metric(v1, ty) == #[trigger] spec_metric(v2, ty) by {
        if v1.histogram.is_set {
            assert(spec_histogram_value(v1.histogram, ty) == spec_histogram_value(v2.histogram, ty));
        }
    }
}

/// The translation of a `MetricFamily` body is decided by its bytes: any
/// two decodings of the same body translate to the same family, or fail on
/// the same missing field.
pub proof fn law_proto_translation_is_determined(b: Seq<u8>, v1: FamilyView<'_>, v2: FamilyView<'_>)
    requires
        family_ok(b, v1),
        family_ok(b, v2),
    ensures
        spec_family(v1) == spec_family(v2),
{
    let fs = wire_fields(b)->Some_0;
    let ps = payloads(fs, 4);
    let (m1, m2) = (v1.metric@, v2.metric@);
    if m1.len() > 0 {
        lemma_metric(ps[0], m1[0], m2[0]);
    }
    assert forall|ty: MetricType| translate_all(m1, #[trigger] metric_fn(ty)) == translate_all(m2, metric_fn(ty)) by {
        assert forall|i: int| 0 <= i < m1.len() implies metric_fn(ty)(#[trigger] m1[i]) == metric_fn(ty)(m2[i]) by {
            lemma_metric(ps[i], m1[i], m2[i]);
        }
        lemma_translate_all_agree(m1, m2, metric_fn(ty));
    }
}

} // verus!
