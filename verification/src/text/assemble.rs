//! Folding the parsed sample lines of a family into metrics, by family type.
//!
//! Gauges and untyped families give one metric per line, info families one
//! per `_info` line. Counters, summaries, histograms and state sets group
//! their lines by label set (less the label that tells the lines of one
//! metric apart: `le`, `quantile`, or the state set's own name) and fold each
//! group into one metric, in the order the groups first appear.

use vstd::prelude::*;
use vstd::string::*;
use vstd::utf8::*;

use std::borrow::Cow;

use super::group::{exec_bytes_eq, group_key, spec_group_key};
use super::lex::{cow_as_bytes, cow_bytes, cow_into_owned};
use super::number::{float_syntax, is_float_syntax, spec_parse_i64, spec_parse_u64};
use super::lines::{samples_kept, samples_view, samples_wf};
use super::sample::{
    float_from, opt_token_bytes, opt_token_wf, seconds_from, seconds_ts, token_float, NumberToken, Sample, SpecSample,
};
use super::TextFormat;
use crate::borrowed::{
    exemplar_kept, histogram_kept, kept, labels_kept, metric_kept, opt_kept, BucketCount, BucketFloat,
    BucketInt, Counter, Exemplar, Histogram, Info, LabelPair, Metric, MetricValue, State, StateSet,
};
use crate::model::{
    SpecBucketCount, SpecBucketFloat, SpecBucketInt, SpecCounter, SpecExemplar, SpecFloat, SpecHistogram,
    SpecLabel, SpecMetric, SpecNumber, SpecQuantile, SpecState, SpecSummary, SpecTs, SpecUnsigned, SpecValue,
};
use crate::owned::{FloatValue, MetricType, Number, Quantile, Summary, TimeUnit, TimestampValue, UnsignedNumber};

verus! {

// ---------------------------------------------------------------------------
// Numbers and timestamps of a token
// ---------------------------------------------------------------------------

/// A token as a signed number: an integer when its text reads as `i64`.
pub open spec fn spec_number(t: Seq<u8>) -> SpecNumber {
    match spec_parse_i64(t) {
        Some(i) => SpecNumber::Int(i),
        None => SpecNumber::Float(token_float(t)),
    }
}

/// A token as an unsigned number: an integer when its text reads as `u64`.
pub open spec fn spec_unsigned(t: Seq<u8>) -> SpecUnsigned {
    match spec_parse_u64(t) {
        Some(u) => SpecUnsigned::Uint(u),
        None => SpecUnsigned::Float(token_float(t)),
    }
}

/// A trailing sample timestamp, read in the dialect's unit: milliseconds for
/// Prometheus, seconds for OpenMetrics; when guessing, a token with a decimal
/// point or exponent is seconds and a plain integer takes the nearer reading.
pub open spec fn spec_convert_ts(format: TextFormat, t: Seq<u8>) -> SpecTs {
    match format {
        TextFormat::Prometheus => SpecTs::Decimal(t, TimeUnit::Milliseconds),
        TextFormat::OpenMetrics => SpecTs::Decimal(t, TimeUnit::Seconds),
        TextFormat::Guess => if spec_parse_i64(t) is Some || spec_parse_u64(t) is Some {
            SpecTs::Decimal(t, TimeUnit::Nearest)
        } else {
            SpecTs::Decimal(t, TimeUnit::Seconds)
        },
    }
}

pub open spec fn spec_opt_convert(format: TextFormat, t: Option<Seq<u8>>) -> Option<SpecTs> {
    match t {
        Some(t) => Some(spec_convert_ts(format, t)),
        None => None,
    }
}

pub fn number_from(t: &NumberToken) -> (r: Number)
    requires
        t.wf(),
    ensures
        r.deep_view() == spec_number(t.bytes()),
{
    match t.int_value {
        Some(i) => Number::Int(i),
        None => Number::Float(FloatValue::Decimal(t.text.to_owned())),
    }
}

pub fn unsigned_from(t: &NumberToken) -> (r: UnsignedNumber)
    requires
        t.wf(),
    ensures
        r.deep_view() == spec_unsigned(t.bytes()),
{
    match t.uint_value {
        Some(u) => UnsignedNumber::Uint(u),
        None => UnsignedNumber::Float(FloatValue::Decimal(t.text.to_owned())),
    }
}

/// Resolve a raw trailing-timestamp token using the dialect's unit.
pub fn convert_ts(format: TextFormat, t: &NumberToken) -> (r: TimestampValue)
    requires
        t.wf(),
    ensures
        r.deep_view() == spec_convert_ts(format, t.bytes()),
{
    let unit = match format {
        TextFormat::Prometheus => TimeUnit::Milliseconds,
        TextFormat::OpenMetrics => TimeUnit::Seconds,
        TextFormat::Guess => if t.is_integer() {
            TimeUnit::Nearest
        } else {
            TimeUnit::Seconds
        },
    };
    TimestampValue::Decimal { text: t.text.to_owned(), unit }
}

fn opt_convert(format: TextFormat, t: &Option<NumberToken>) -> (r: Option<TimestampValue>)
    requires
        opt_token_wf(*t),
    ensures
        r.deep_view() == spec_opt_convert(format, opt_token_bytes(*t)),
{
    match t {
        Some(t) => Some(convert_ts(format, t)),
        None => None,
    }
}

// ---------------------------------------------------------------------------
// Roles
// ---------------------------------------------------------------------------

/// The role a sample line plays within its family, from its name's suffix
/// relative to the family name.
#[derive(Debug, Clone, Copy, PartialEq, Eq, Structural)]
pub enum Role {
    Bare,
    Total,
    Sum,
    Count,
    Bucket,
    Created,
    GCount,
    GSum,
    Other,
}

pub open spec fn lit_total() -> Seq<u8> { seq![0x5fu8, 0x74, 0x6f, 0x74, 0x61, 0x6c] }
pub open spec fn lit_sum() -> Seq<u8> { seq![0x5fu8, 0x73, 0x75, 0x6d] }
pub open spec fn lit_count() -> Seq<u8> { seq![0x5fu8, 0x63, 0x6f, 0x75, 0x6e, 0x74] }
pub open spec fn lit_bucket() -> Seq<u8> { seq![0x5fu8, 0x62, 0x75, 0x63, 0x6b, 0x65, 0x74] }
pub open spec fn lit_created() -> Seq<u8> { seq![0x5fu8, 0x63, 0x72, 0x65, 0x61, 0x74, 0x65, 0x64] }
pub open spec fn lit_gcount() -> Seq<u8> { seq![0x5fu8, 0x67, 0x63, 0x6f, 0x75, 0x6e, 0x74] }
pub open spec fn lit_gsum() -> Seq<u8> { seq![0x5fu8, 0x67, 0x73, 0x75, 0x6d] }
pub open spec fn lit_le() -> Seq<u8> { seq![0x6cu8, 0x65] }
pub open spec fn lit_quantile() -> Seq<u8> { seq![0x71u8, 0x75, 0x61, 0x6e, 0x74, 0x69, 0x6c, 0x65] }

pub open spec fn spec_role(name: Seq<u8>, base: Seq<u8>) -> Role {
    if name == base {
        Role::Bare
    } else if name == base + lit_total() {
        Role::Total
    } else if name == base + lit_sum() {
        Role::Sum
    } else if name == base + lit_count() {
        Role::Count
    } else if name == base + lit_bucket() {
        Role::Bucket
    } else if name == base + lit_created() {
        Role::Created
    } else if name == base + lit_gcount() {
        Role::GCount
    } else if name == base + lit_gsum() {
        Role::GSum
    } else {
        Role::Other
    }
}

/// Whether `name` is `base` followed by `suf`.
fn is_base_plus(name: &[u8], base: &[u8], suf: &[u8]) -> (r: bool)
    ensures
        r == (name@ == base@ + suf@),
{
    let bl = base.len();
    if name.len() < bl || name.len() - bl != suf.len() {
        proof {
            if name@ == base@ + suf@ {
                assert(name@.len() == base@.len() + suf@.len());
            }
        }
        return false;
    }
    let mut k: usize = 0;
    while k < name.len()
        invariant
            name@.len() == base@.len() + suf@.len(),
            bl == base@.len(),
            k <= name@.len(),
            forall|m: int| 0 <= m < k ==> name@[m] == (base@ + suf@)[m],
        decreases name@.len() - k,
    {
        let c = if k < bl { base[k] } else { suf[k - bl] };
        if name[k] != c {
            assert(name@[k as int] != (base@ + suf@)[k as int]);
            return false;
        }
        k = k + 1;
    }
    assert(name@ =~= base@ + suf@);
    true
}

pub fn role(name: &[u8], base: &[u8]) -> (r: Role)
    ensures
        r == spec_role(name@, base@),
{
    let total: [u8; 6] = [0x5f, 0x74, 0x6f, 0x74, 0x61, 0x6c];
    let sum: [u8; 4] = [0x5f, 0x73, 0x75, 0x6d];
    let count: [u8; 6] = [0x5f, 0x63, 0x6f, 0x75, 0x6e, 0x74];
    let bucket: [u8; 7] = [0x5f, 0x62, 0x75, 0x63, 0x6b, 0x65, 0x74];
    let created: [u8; 8] = [0x5f, 0x63, 0x72, 0x65, 0x61, 0x74, 0x65, 0x64];
    let gcount: [u8; 7] = [0x5f, 0x67, 0x63, 0x6f, 0x75, 0x6e, 0x74];
    let gsum: [u8; 5] = [0x5f, 0x67, 0x73, 0x75, 0x6d];
    assert(total@ =~= lit_total());
    assert(sum@ =~= lit_sum());
    assert(count@ =~= lit_count());
    assert(bucket@ =~= lit_bucket());
    assert(created@ =~= lit_created());
    assert(gcount@ =~= lit_gcount());
    assert(gsum@ =~= lit_gsum());
    if exec_bytes_eq(name, base) {
        Role::Bare
    } else if is_base_plus(name, base, total.as_slice()) {
        Role::Total
    } else if is_base_plus(name, base, sum.as_slice()) {
        Role::Sum
    } else if is_base_plus(name, base, count.as_slice()) {
        Role::Count
    } else if is_base_plus(name, base, bucket.as_slice()) {
        Role::Bucket
    } else if is_base_plus(name, base, created.as_slice()) {
        Role::Created
    } else if is_base_plus(name, base, gcount.as_slice()) {
        Role::GCount
    } else if is_base_plus(name, base, gsum.as_slice()) {
        Role::GSum
    } else {
        Role::Other
    }
}

// ---------------------------------------------------------------------------
// The grouping model
// ---------------------------------------------------------------------------

/// The first index of `s` whose element satisfies `p`, or `s.len()`.
pub open spec fn first_index<T>(s: Seq<T>, p: spec_fn(T) -> bool) -> int
    decreases s.len(),
{
    if s.len() == 0 {
        0
    } else if p(s[0]) {
        0
    } else {
        1 + first_index(s.drop_first(), p)
    }
}

pub proof fn lemma_first_index<T>(s: Seq<T>, p: spec_fn(T) -> bool, j: int)
    requires
        0 <= j <= s.len(),
        forall|m: int| 0 <= m < j ==> !p(#[trigger] s[m]),
        j < s.len() ==> p(s[j]),
    ensures
        first_index(s, p) == j,
    decreases s.len(),
{
    if s.len() > 0 && j > 0 {
        assert(!p(s[0]));
        assert forall|m: int| 0 <= m < j - 1 implies !p(#[trigger] s.drop_first()[m]) by {
            assert(s.drop_first()[m] == s[m + 1]);
        }
        if j < s.len() {
            assert(s.drop_first()[j - 1] == s[j]);
        }
        lemma_first_index(s.drop_first(), p, j - 1);
    }
}

/// The label whose presence tells the lines of one metric apart: `le` for
/// histograms, `quantile` for summaries, the family name for state sets.
pub open spec fn differentiator(ty: MetricType, base: Seq<u8>) -> Option<Seq<u8>> {
    match ty {
        MetricType::Histogram | MetricType::GaugeHistogram => Some(lit_le()),
        MetricType::Summary => Some(lit_quantile()),
        MetricType::StateSet => Some(base),
        _ => None,
    }
}

pub open spec fn named(n: Seq<u8>) -> spec_fn(SpecLabel) -> bool {
    |l: SpecLabel| l.name == n
}

/// The labels without the first one named by the differentiator, and that
/// label's value.
pub open spec fn split_labels(ty: MetricType, base: Seq<u8>, ls: Seq<SpecLabel>) -> (Seq<SpecLabel>, Option<Seq<u8>>) {
    match differentiator(ty, base) {
        Some(dn) => {
            let pos = first_index(ls, named(dn));
            if pos < ls.len() {
                (ls.remove(pos), Some(ls[pos].value))
            } else {
                (ls, None)
            }
        },
        None => (ls, None),
    }
}

pub struct SpecBucketAcc {
    pub upper: SpecFloat,
    pub count: Seq<u8>,
    pub exemplar: Option<SpecExemplar>,
}

/// What has been gathered for one metric of a grouped family.
pub struct SpecAcc {
    pub labels: Seq<SpecLabel>,
    pub timestamp: Option<SpecTs>,
    pub value: Option<Seq<u8>>,
    pub exemplar: Option<SpecExemplar>,
    pub sum: Option<Seq<u8>>,
    pub count: Option<Seq<u8>>,
    pub created: Option<SpecTs>,
    pub buckets: Seq<SpecBucketAcc>,
    pub quantiles: Seq<SpecQuantile>,
    pub states: Seq<SpecState>,
}

pub open spec fn new_acc(labels: Seq<SpecLabel>) -> SpecAcc {
    SpecAcc {
        labels,
        timestamp: None,
        value: None,
        exemplar: None,
        sum: None,
        count: None,
        created: None,
        buckets: Seq::empty(),
        quantiles: Seq::empty(),
        states: Seq::empty(),
    }
}

pub open spec fn keyed(k: Seq<u8>) -> spec_fn(SpecAcc) -> bool {
    |a: SpecAcc| spec_group_key(a.labels) == k
}

/// What one line contributes to its metric, by family type and role; a role
/// the family type has no use for contributes nothing.
pub open spec fn spec_apply_role(
    ty: MetricType,
    r: Role,
    acc: SpecAcc,
    num: Seq<u8>,
    exemplar: Option<SpecExemplar>,
    removed: Option<Seq<u8>>,
) -> SpecAcc {
    match (ty, r) {
        (MetricType::Counter, Role::Bare) | (MetricType::Counter, Role::Total) => SpecAcc {
            value: Some(num),
            exemplar: if acc.exemplar is None { exemplar } else { acc.exemplar },
            ..acc
        },
        (MetricType::Counter, Role::Created) | (MetricType::Summary, Role::Created)
        | (MetricType::Histogram, Role::Created) | (MetricType::GaugeHistogram, Role::Created) => SpecAcc {
            created: Some(seconds_ts(num)),
            ..acc
        },
        (MetricType::Summary, Role::Bare) => match removed {
            Some(q) => if float_syntax(q) {
                SpecAcc {
                    quantiles: acc.quantiles.push(SpecQuantile { quantile: token_float(q), value: token_float(num) }),
                    ..acc
                }
            } else {
                acc
            },
            None => acc,
        },
        (MetricType::Summary, Role::Sum) | (MetricType::Histogram, Role::Sum)
        | (MetricType::GaugeHistogram, Role::GSum) => SpecAcc { sum: Some(num), ..acc },
        (MetricType::Summary, Role::Count) | (MetricType::Histogram, Role::Count)
        | (MetricType::GaugeHistogram, Role::GCount) => SpecAcc { count: Some(num), ..acc },
        (MetricType::Histogram, Role::Bucket) | (MetricType::GaugeHistogram, Role::Bucket) => match removed {
            Some(u) => if float_syntax(u) {
                SpecAcc {
                    buckets: acc.buckets.push(SpecBucketAcc { upper: token_float(u), count: num, exemplar: exemplar }),
                    ..acc
                }
            } else {
                acc
            },
            None => acc,
        },
        (MetricType::StateSet, _) => SpecAcc {
            states: acc.states.push(SpecState {
                name: match removed {
                    Some(n) => n,
                    None => Seq::empty(),
                },
                value: spec_number(num),
            }),
            ..acc
        },
        _ => acc,
    }
}

/// Fold one line into the metrics gathered so far: find the metric whose
/// label set (less the differentiator) is the line's, or start a new one at
/// the end; the first timestamp seen is the metric's.
pub open spec fn spec_step(
    format: TextFormat,
    ty: MetricType,
    base: Seq<u8>,
    accs: Seq<SpecAcc>,
    s: SpecSample,
) -> Seq<SpecAcc> {
    let (labels, removed) = split_labels(ty, base, s.labels);
    let i = first_index(accs, keyed(spec_group_key(labels)));
    let acc0 = if i < accs.len() { accs[i] } else { new_acc(labels) };
    let acc1 = if acc0.timestamp is None {
        SpecAcc { timestamp: spec_opt_convert(format, s.timestamp), ..acc0 }
    } else {
        acc0
    };
    let acc2 = spec_apply_role(ty, spec_role(s.name, base), acc1, s.num, s.exemplar, removed);
    if i < accs.len() {
        accs.update(i, acc2)
    } else {
        accs.push(acc2)
    }
}

/// The metrics gathered from the lines `ss`, in order.
pub open spec fn spec_fold(format: TextFormat, ty: MetricType, base: Seq<u8>, ss: Seq<SpecSample>) -> Seq<SpecAcc>
    decreases ss.len(),
{
    if ss.len() == 0 {
        Seq::empty()
    } else {
        spec_step(format, ty, base, spec_fold(format, ty, base, ss.drop_last()), ss.last())
    }
}

/// A timestamp with the unit it is read in set aside (always seconds).
pub open spec fn unit_free(t: Option<SpecTs>) -> Option<SpecTs> {
    match t {
        Some(SpecTs::Decimal(x, _)) => Some(SpecTs::Decimal(x, TimeUnit::Seconds)),
        _ => t,
    }
}

pub open spec fn unit_free_acc(a: SpecAcc) -> SpecAcc {
    SpecAcc { timestamp: unit_free(a.timestamp), ..a }
}

pub open spec fn unit_free_metric(m: SpecMetric) -> SpecMetric {
    SpecMetric { timestamp: unit_free(m.timestamp), ..m }
}

proof fn lemma_first_index_bounds<T>(s: Seq<T>, p: spec_fn(T) -> bool)
    ensures
        0 <= first_index(s, p) <= s.len(),
    decreases s.len(),
{
    if s.len() > 0 && !p(s[0]) {
        lemma_first_index_bounds(s.drop_first(), p);
    }
}

/// Two sequences on which the predicates agree pointwise have the same
/// first index.
proof fn lemma_first_index_agree<T, U>(s: Seq<T>, t: Seq<U>, p: spec_fn(T) -> bool, q: spec_fn(U) -> bool)
    requires
        s.len() == t.len(),
        forall|j: int| 0 <= j < s.len() ==> p(#[trigger] s[j]) == q(t[j]),
    ensures
        first_index(s, p) == first_index(t, q),
    decreases s.len(),
{
    if s.len() > 0 && !p(s[0]) {
        assert(p(s[0]) == q(t[0]));
        assert forall|j: int| 0 <= j < s.drop_first().len() implies p(#[trigger] s.drop_first()[j]) == q(
            t.drop_first()[j],
        ) by {
            assert(p(s[j + 1]) == q(t[j + 1]));
        }
        lemma_first_index_agree(s.drop_first(), t.drop_first(), p, q);
    } else if s.len() > 0 {
        assert(p(s[0]) == q(t[0]));
    }
}

/// Folding the same lines in two dialects gathers the same metrics, but for
/// the unit their trailing timestamps are read in.
pub proof fn lemma_fold_dialects(f1: TextFormat, f2: TextFormat, ty: MetricType, base: Seq<u8>, ss: Seq<SpecSample>)
    ensures
        spec_fold(f1, ty, base, ss).len() == spec_fold(f2, ty, base, ss).len(),
        forall|i: int|
            0 <= i < spec_fold(f1, ty, base, ss).len() ==> unit_free_acc(#[trigger] spec_fold(f1, ty, base, ss)[i])
                == unit_free_acc(spec_fold(f2, ty, base, ss)[i]),
    decreases ss.len(),
{
    if ss.len() > 0 {
        let rest = ss.drop_last();
        lemma_fold_dialects(f1, f2, ty, base, rest);
        let a1 = spec_fold(f1, ty, base, rest);
        let a2 = spec_fold(f2, ty, base, rest);
        let s = ss.last();
        let (labels, removed) = split_labels(ty, base, s.labels);
        let k = spec_group_key(labels);
        assert forall|j: int| 0 <= j < a1.len() implies keyed(k)(#[trigger] a1[j]) == keyed(k)(a2[j]) by {
            assert(unit_free_acc(a1[j]).labels == unit_free_acc(a2[j]).labels);
        }
        lemma_first_index_agree(a1, a2, keyed(k), keyed(k));
        lemma_first_index_bounds(a1, keyed(k));
        let i = first_index(a1, keyed(k));
        let b1 = if i < a1.len() { a1[i] } else { new_acc(labels) };
        let b2 = if i < a2.len() { a2[i] } else { new_acc(labels) };
        if i < a1.len() {
            assert(unit_free_acc(a1[i]) == unit_free_acc(a2[i]));
        }
        assert(unit_free_acc(b1) == unit_free_acc(b2));
        let c1 = if b1.timestamp is None { SpecAcc { timestamp: spec_opt_convert(f1, s.timestamp), ..b1 } } else { b1 };
        let c2 = if b2.timestamp is None { SpecAcc { timestamp: spec_opt_convert(f2, s.timestamp), ..b2 } } else { b2 };
        assert(unit_free_acc(c1) == unit_free_acc(c2));
        let r = spec_role(s.name, base);
        let d1 = spec_apply_role(ty, r, c1, s.num, s.exemplar, removed);
        let d2 = spec_apply_role(ty, r, c2, s.num, s.exemplar, removed);
        assert(unit_free_acc(d1) == unit_free_acc(d2));
        assert(spec_fold(f1, ty, base, ss) == spec_step(f1, ty, base, a1, s));
        assert(spec_fold(f2, ty, base, ss) == spec_step(f2, ty, base, a2, s));
    }
}

// ---------------------------------------------------------------------------
// Gathering
// ---------------------------------------------------------------------------

pub struct BucketAcc<'a> {
    pub upper: FloatValue,
    pub count: NumberToken<'a>,
    pub exemplar: Option<Exemplar<'a>>,
}

impl<'a> DeepView for BucketAcc<'a> {
    type V = SpecBucketAcc;

    open spec fn deep_view(&self) -> SpecBucketAcc {
        SpecBucketAcc { upper: self.upper.deep_view(), count: self.count.bytes(), exemplar: self.exemplar.deep_view() }
    }
}

/// Per-metric accumulator while folding the lines of a grouped family.
pub struct Acc<'a> {
    pub labels: Vec<LabelPair<'a>>,
    pub timestamp: Option<TimestampValue>,
    pub value: Option<NumberToken<'a>>,
    pub exemplar: Option<Exemplar<'a>>,
    pub sum: Option<NumberToken<'a>>,
    pub count: Option<NumberToken<'a>>,
    pub created: Option<TimestampValue>,
    pub buckets: Vec<BucketAcc<'a>>,
    pub quantiles: Vec<Quantile>,
    pub states: Vec<State<'a>>,
}

impl<'a> Acc<'a> {
    pub open spec fn view(&self) -> SpecAcc {
        SpecAcc {
            labels: self.labels.deep_view(),
            timestamp: self.timestamp.deep_view(),
            value: opt_token_bytes(self.value),
            exemplar: self.exemplar.deep_view(),
            sum: opt_token_bytes(self.sum),
            count: opt_token_bytes(self.count),
            created: self.created.deep_view(),
            buckets: self.buckets.deep_view(),
            quantiles: self.quantiles.deep_view(),
            states: self.states.deep_view(),
        }
    }

    /// String by string, the labels, exemplar, bucket exemplars and state
    /// names are kept from `src` (see [`kept`]).
    pub open spec fn kept(&self, src: Seq<u8>) -> bool {
        &&& labels_kept(self.labels@, src)
        &&& exemplar_kept(self.exemplar, src)
        &&& forall|k: int| 0 <= k < self.buckets@.len() ==> exemplar_kept(#[trigger] self.buckets@[k].exemplar, src)
        &&& forall|k: int| 0 <= k < self.states@.len() ==> kept(#[trigger] self.states@[k].name, src)
    }

    /// The integer readings of every token are those of its text.
    pub open spec fn wf(&self) -> bool {
        &&& opt_token_wf(self.value)
        &&& opt_token_wf(self.sum)
        &&& opt_token_wf(self.count)
        &&& forall|k: int| 0 <= k < self.buckets@.len() ==> (#[trigger] self.buckets@[k]).count.wf()
    }

    pub fn new(labels: Vec<LabelPair<'a>>, Ghost(src): Ghost<Seq<u8>>) -> (r: Self)
        ensures
            r.view() == new_acc(labels.deep_view()),
            r.wf(),
            labels_kept(labels@, src) ==> r.kept(src),
    {
        let r = Acc {
            labels,
            timestamp: None,
            value: None,
            exemplar: None,
            sum: None,
            count: None,
            created: None,
            buckets: Vec::new(),
            quantiles: Vec::new(),
            states: Vec::new(),
        };
        assert(r.buckets.deep_view() =~= Seq::<SpecBucketAcc>::empty());
        assert(r.quantiles.deep_view() =~= Seq::<SpecQuantile>::empty());
        assert(r.states.deep_view() =~= Seq::<SpecState>::empty());
        r
    }
}

pub open spec fn opt_cow_view(c: Option<Cow<'_, str>>) -> Option<Seq<u8>> {
    match c {
        Some(c) => Some(cow_bytes(c)),
        None => None,
    }
}

proof fn lemma_empty_str()
    ensures
        "".spec_bytes() == Seq::<u8>::empty(),
        encode_utf8(""@) == Seq::<u8>::empty(),
{
    reveal_strlit("");
    assert(""@ =~= Seq::<char>::empty());
}

/// Whether a label value reads as a float.
fn value_is_float(v: &Cow<'_, str>) -> (r: bool)
    ensures
        r == float_syntax(cow_bytes(*v)),
{
    let b = cow_as_bytes(v);
    assert(b@.subrange(0, b@.len() as int) =~= b@);
    is_float_syntax(b, 0, b.len())
}

/// Add what one line says to its metric's accumulator.
fn apply_role<'a>(
    ty: MetricType,
    r: Role,
    acc: &mut Acc<'a>,
    num: NumberToken<'a>,
    exemplar: Option<Exemplar<'a>>,
    removed: Option<Cow<'a, str>>,
    Ghost(src): Ghost<Seq<u8>>,
)
    requires
        old(acc).wf(),
        num.wf(),
    ensures
        final(acc).view() == spec_apply_role(ty, r, old(acc).view(), num.bytes(), exemplar.deep_view(), opt_cow_view(removed)),
        final(acc).wf(),
        old(acc).kept(src) && exemplar_kept(exemplar, src) && opt_kept(removed, src) ==> final(acc).kept(src),
{
    let ghost old_acc = *acc;
    match (ty, r) {
        (MetricType::Counter, Role::Bare) | (MetricType::Counter, Role::Total) => {
            acc.value = Some(num);
            if acc.exemplar.is_none() {
                acc.exemplar = exemplar;
            }
        },
        (MetricType::Counter, Role::Created) | (MetricType::Summary, Role::Created)
        | (MetricType::Histogram, Role::Created) | (MetricType::GaugeHistogram, Role::Created) => {
            acc.created = Some(seconds_from(&num));
        },
        (MetricType::Summary, Role::Bare) => {
            if let Some(q) = removed {
                if value_is_float(&q) {
                    let ghost qv = cow_bytes(q);
                    let quantile = Quantile {
                        quantile: FloatValue::Decimal(cow_into_owned(q)),
                        value: float_from(&num),
                    };
                    assert(quantile.deep_view() == SpecQuantile { quantile: token_float(qv), value: token_float(num.bytes()) });
                    acc.quantiles.push(quantile);
                    assert(acc.quantiles.deep_view() =~= old_acc.quantiles.deep_view().push(quantile.deep_view()));
                }
            }
        },
        (MetricType::Summary, Role::Sum) | (MetricType::Histogram, Role::Sum)
        | (MetricType::GaugeHistogram, Role::GSum) => {
            acc.sum = Some(num);
        },
        (MetricType::Summary, Role::Count) | (MetricType::Histogram, Role::Count)
        | (MetricType::GaugeHistogram, Role::GCount) => {
            acc.count = Some(num);
        },
        (MetricType::Histogram, Role::Bucket) | (MetricType::GaugeHistogram, Role::Bucket) => {
            if let Some(u) = removed {
                if value_is_float(&u) {
                    let ghost uv = cow_bytes(u);
                    let b = BucketAcc {
                        upper: FloatValue::Decimal(cow_into_owned(u)),
                        count: num,
                        exemplar,
                    };
                    assert(b.deep_view() == SpecBucketAcc { upper: token_float(uv), count: num.bytes(), exemplar: b.exemplar.deep_view() });
                    acc.buckets.push(b);
                    assert(acc.buckets.deep_view() =~= old_acc.buckets.deep_view().push(b.deep_view()));
                    assert forall|k: int| 0 <= k < acc.buckets@.len() implies (#[trigger] acc.buckets@[k]).count.wf() by {
                        if k < old_acc.buckets@.len() {
                            assert(acc.buckets@[k] == old_acc.buckets@[k]);
                        }
                    }
                }
            }
        },
        (MetricType::StateSet, _) => {
            proof { lemma_empty_str(); }
            let name = match removed {
                Some(n) => n,
                None => Cow::Borrowed(""),
            };
            let st = State { name, value: number_from(&num) };
            acc.states.push(st);
            assert(acc.states.deep_view() =~= old_acc.states.deep_view().push(st.deep_view()));
        },
        _ => {},
    }
}

/// Remove the first label named by the family's differentiator, returning
/// its value.
fn take_differentiator<'a>(
    ty: MetricType,
    base: &[u8],
    labels: &mut Vec<LabelPair<'a>>,
    Ghost(src): Ghost<Seq<u8>>,
) -> (removed: Option<Cow<'a, str>>)
    ensures
        (final(labels).deep_view(), opt_cow_view(removed)) == split_labels(ty, base@, old(labels).deep_view()),
        labels_kept(old(labels)@, src) ==> labels_kept(final(labels)@, src) && opt_kept(removed, src),
{
    let le: [u8; 2] = [0x6c, 0x65];
    let quantile: [u8; 8] = [0x71, 0x75, 0x61, 0x6e, 0x74, 0x69, 0x6c, 0x65];
    assert(le@ =~= lit_le());
    assert(quantile@ =~= lit_quantile());
    let dn: &[u8] = match ty {
        MetricType::Histogram | MetricType::GaugeHistogram => le.as_slice(),
        MetricType::Summary => quantile.as_slice(),
        MetricType::StateSet => base,
        _ => return None,
    };
    assert(differentiator(ty, base@) == Some(dn@));
    let ghost lv = labels.deep_view();
    let mut j: usize = 0;
    while j < labels.len()
        invariant
            lv == labels.deep_view(),
            j <= lv.len(),
            forall|m: int| 0 <= m < j ==> !named(dn@)(#[trigger] lv[m]),
        ensures
            j <= lv.len(),
            forall|m: int| 0 <= m < j ==> !named(dn@)(#[trigger] lv[m]),
            j < lv.len() ==> named(dn@)(lv[j as int]),
        decreases lv.len() - j,
    {
        assert(labels@[j as int].deep_view() == lv[j as int]);
        if exec_bytes_eq(cow_as_bytes(&labels[j].name), dn) {
            assert(named(dn@)(lv[j as int]));
            break;
        }
        j = j + 1;
    }
    proof {
        if j < lv.len() {
            assert(labels@[j as int].deep_view() == lv[j as int]);
        }
        lemma_first_index(lv, named(dn@), j as int);
    }
    if j < labels.len() {
        let l = labels.remove(j);
        assert(labels.deep_view() =~= lv.remove(j as int));
        Some(l.value)
    } else {
        None
    }
}

/// Two parallel lists: the grouping key of each metric gathered so far.
pub open spec fn keys_match(keys: Seq<Vec<u8>>, accs: Seq<Acc<'_>>) -> bool {
    &&& keys.len() == accs.len()
    &&& forall|i: int| 0 <= i < keys.len() ==> (#[trigger] keys[i])@ == spec_group_key(accs[i].labels.deep_view())
}

pub open spec fn accs_view(accs: Seq<Acc<'_>>) -> Seq<SpecAcc> {
    Seq::new(accs.len(), |i: int| accs[i].view())
}

pub open spec fn accs_kept(accs: Seq<Acc<'_>>, src: Seq<u8>) -> bool {
    forall|i: int| 0 <= i < accs.len() ==> (#[trigger] accs[i]).kept(src)
}

pub open spec fn accs_wf(accs: Seq<Acc<'_>>) -> bool {
    forall|i: int| 0 <= i < accs.len() ==> (#[trigger] accs[i]).wf()
}

/// The index of the first metric with this key, or the number of metrics.
fn find_key(keys: &Vec<Vec<u8>>, key: &Vec<u8>, Ghost(accs): Ghost<Seq<Acc<'_>>>) -> (i: usize)
    requires
        keys_match(keys@, accs),
    ensures
        i == first_index(accs_view(accs), keyed(key@)),
        i <= keys@.len(),
{
    let ghost av = accs_view(accs);
    let mut i: usize = 0;
    while i < keys.len()
        invariant
            keys_match(keys@, accs),
            av == accs_view(accs),
            i <= keys@.len(),
            forall|m: int| 0 <= m < i ==> !keyed(key@)(#[trigger] av[m]),
        ensures
            i <= keys@.len(),
            forall|m: int| 0 <= m < i ==> !keyed(key@)(#[trigger] av[m]),
            i < keys@.len() ==> keyed(key@)(av[i as int]),
        decreases keys@.len() - i,
    {
        if exec_bytes_eq(keys[i].as_slice(), key.as_slice()) {
            assert(keyed(key@)(av[i as int]));
            break;
        }
        i = i + 1;
    }
    proof {
        lemma_first_index(av, keyed(key@), i as int);
    }
    i
}

/// Fold one sample line into the metrics gathered so far.
fn group_step<'a>(
    format: TextFormat,
    ty: MetricType,
    base: &[u8],
    keys: &mut Vec<Vec<u8>>,
    order: &mut Vec<Acc<'a>>,
    s: Sample<'a>,
    Ghost(src): Ghost<Seq<u8>>,
)
    requires
        keys_match(old(keys)@, old(order)@),
        accs_wf(old(order)@),
        s.wf(),
    ensures
        keys_match(final(keys)@, final(order)@),
        accs_wf(final(order)@),
        accs_view(final(order)@) == spec_step(format, ty, base@, accs_view(old(order)@), s.view()),
        accs_kept(old(order)@, src) && s.kept(src) ==> accs_kept(final(order)@, src),
{
    let ghost sv = s.view();
    let ghost av = accs_view(order@);
    let Sample { name, labels, num, timestamp, exemplar } = s;
    let mut labels = labels;
    let r = role(cow_as_bytes(&name), base);
    let removed = take_differentiator(ty, base, &mut labels, Ghost(src));
    let key = group_key(&labels);
    let i = find_key(keys, &key, Ghost(order@));
    if i == order.len() {
        keys.push(key);
        order.push(Acc::new(labels, Ghost(src)));
        assert(accs_view(order@) =~= av.push(new_acc(split_labels(ty, base@, sv.labels).0)));
    }
    let ghost mid = accs_view(order@);
    assert(order@[i as int].view() == mid[i as int]);
    if order[i].timestamp.is_none() {
        order[i].timestamp = opt_convert(format, &timestamp);
    }
    apply_role(ty, r, &mut order[i], num, exemplar, removed, Ghost(src));
    proof {
        assert(accs_view(order@) =~= mid.update(i as int, order@[i as int].view()));
        assert forall|m: int| 0 <= m < order@.len() implies (#[trigger] order@[m]).wf() by {}
    }
}

// ---------------------------------------------------------------------------
// Building the metrics
// ---------------------------------------------------------------------------

pub open spec fn opt_map_number(t: Option<Seq<u8>>) -> Option<SpecNumber> {
    match t {
        Some(t) => Some(spec_number(t)),
        None => None,
    }
}

pub open spec fn opt_map_unsigned(t: Option<Seq<u8>>) -> Option<SpecUnsigned> {
    match t {
        Some(t) => Some(spec_unsigned(t)),
        None => None,
    }
}

/// The histogram is integer-valued unless a bucket count or the sample count
/// is not written as an unsigned integer.
pub open spec fn all_int(count: Option<Seq<u8>>, buckets: Seq<SpecBucketAcc>) -> bool {
    &&& forall|k: int| 0 <= k < buckets.len() ==> (#[trigger] spec_parse_u64(buckets[k].count)) is Some
    &&& match count {
        Some(c) => spec_parse_u64(c) is Some,
        None => true,
    }
}

pub open spec fn spec_build_histogram(
    sum: Option<Seq<u8>>,
    count: Option<Seq<u8>>,
    buckets: Seq<SpecBucketAcc>,
    created: Option<SpecTs>,
) -> SpecHistogram {
    SpecHistogram {
        sample_sum: opt_map_number(sum),
        counts: if all_int(count, buckets) {
            SpecBucketCount::Int {
                sample_count: match count {
                    Some(c) => spec_parse_u64(c),
                    None => None,
                },
                buckets: Seq::new(
                    buckets.len(),
                    |k: int|
                        SpecBucketInt {
                            cumulative_count: spec_parse_u64(buckets[k].count).unwrap(),
                            upper_bound: buckets[k].upper,
                            exemplar: buckets[k].exemplar,
                        },
                ),
            }
        } else {
            SpecBucketCount::Float {
                sample_count: match count {
                    Some(c) => Some(token_float(c)),
                    None => None,
                },
                buckets: Seq::new(
                    buckets.len(),
                    |k: int|
                        SpecBucketFloat {
                            cumulative_count: token_float(buckets[k].count),
                            upper_bound: buckets[k].upper,
                            exemplar: buckets[k].exemplar,
                        },
                ),
            }
        },
        created_timestamp: created,
    }
}

/// The metric one group folds into. A counter with no value line counts 0.
pub open spec fn spec_finish(ty: MetricType, acc: SpecAcc) -> SpecMetric {
    SpecMetric {
        label: acc.labels,
        value: match ty {
            MetricType::Counter => SpecValue::Counter(SpecCounter {
                value: match acc.value {
                    Some(t) => spec_unsigned(t),
                    None => SpecUnsigned::Uint(0),
                },
                exemplar: acc.exemplar,
                created_timestamp: acc.created,
            }),
            MetricType::Summary => SpecValue::Summary(SpecSummary {
                sample_count: opt_map_unsigned(acc.count),
                sample_sum: opt_map_number(acc.sum),
                quantile: acc.quantiles,
                created_timestamp: acc.created,
            }),
            MetricType::Histogram => SpecValue::Histogram(
                spec_build_histogram(acc.sum, acc.count, acc.buckets, acc.created),
            ),
            MetricType::GaugeHistogram => SpecValue::GaugeHistogram(
                spec_build_histogram(acc.sum, acc.count, acc.buckets, acc.created),
            ),
            _ => SpecValue::StateSet(acc.states),
        },
        timestamp: acc.timestamp,
    }
}

pub open spec fn is_grouped(ty: MetricType) -> bool {
    ty is Counter || ty is Summary || ty is Histogram || ty is GaugeHistogram || ty is StateSet
}

pub open spec fn spec_grouped(format: TextFormat, ty: MetricType, base: Seq<u8>, ss: Seq<SpecSample>) -> Seq<SpecMetric> {
    let accs = spec_fold(format, ty, base, ss);
    Seq::new(accs.len(), |i: int| spec_finish(ty, accs[i]))
}

/// Gauge and untyped: one metric per line.
pub open spec fn spec_scalar(format: TextFormat, ty: MetricType, ss: Seq<SpecSample>) -> Seq<SpecMetric> {
    Seq::new(
        ss.len(),
        |i: int|
            SpecMetric {
                label: ss[i].labels,
                value: if ty == MetricType::Gauge {
                    SpecValue::Gauge(spec_number(ss[i].num))
                } else {
                    SpecValue::Untyped(spec_number(ss[i].num))
                },
                timestamp: spec_opt_convert(format, ss[i].timestamp),
            },
    )
}

/// Info: one metric per line, whose labels are the payload; the metric
/// carries no labels of its own.
pub open spec fn spec_info(format: TextFormat, ss: Seq<SpecSample>) -> Seq<SpecMetric> {
    Seq::new(
        ss.len(),
        |i: int|
            SpecMetric {
                label: Seq::empty(),
                value: SpecValue::Info(ss[i].labels),
                timestamp: spec_opt_convert(format, ss[i].timestamp),
            },
    )
}

/// The metrics of a family of type `ty` named `base` with the lines `ss`.
/// Native and hybrid histograms never arise from text; they are read as
/// plain untyped lines.
pub open spec fn spec_assemble(format: TextFormat, ty: MetricType, base: Seq<u8>, ss: Seq<SpecSample>) -> Seq<SpecMetric> {
    if is_grouped(ty) {
        spec_grouped(format, ty, base, ss)
    } else if ty is Info {
        spec_info(format, ss)
    } else {
        spec_scalar(format, ty, ss)
    }
}

fn opt_number(t: &Option<NumberToken>) -> (r: Option<Number>)
    requires
        opt_token_wf(*t),
    ensures
        r.deep_view() == opt_map_number(opt_token_bytes(*t)),
{
    match t {
        Some(t) => Some(number_from(t)),
        None => None,
    }
}

fn opt_unsigned(t: &Option<NumberToken>) -> (r: Option<UnsignedNumber>)
    requires
        opt_token_wf(*t),
    ensures
        r.deep_view() == opt_map_unsigned(opt_token_bytes(*t)),
{
    match t {
        Some(t) => Some(unsigned_from(t)),
        None => None,
    }
}

/// Build a classic histogram from the gathered parts. The whole histogram is
/// integer-valued unless a count carried a value that is not an unsigned
/// integer.
fn build_histogram<'a>(
    sum: Option<NumberToken<'a>>,
    count: Option<NumberToken<'a>>,
    buckets: Vec<BucketAcc<'a>>,
    created: Option<TimestampValue>,
    Ghost(src): Ghost<Seq<u8>>,
) -> (h: Histogram<'a>)
    requires
        opt_token_wf(sum),
        opt_token_wf(count),
        forall|k: int| 0 <= k < buckets@.len() ==> (#[trigger] buckets@[k]).count.wf(),
    ensures
        h.deep_view() == spec_build_histogram(
            opt_token_bytes(sum),
            opt_token_bytes(count),
            buckets.deep_view(),
            created.deep_view(),
        ),
        (forall|k: int| 0 <= k < buckets@.len() ==> exemplar_kept(#[trigger] buckets@[k].exemplar, src)) ==> histogram_kept(h, src),
{
    let ghost bv = buckets.deep_view();
    let ghost orig = buckets@;
    let ghost ek = forall|k: int| 0 <= k < orig.len() ==> exemplar_kept(#[trigger] orig[k].exemplar, src);
    let n = buckets.len();
    let mut ints = true;
    let mut k: usize = 0;
    while k < n
        invariant
            n == orig.len(),
            orig == buckets@,
            bv == buckets.deep_view(),
            k <= n,
            forall|j: int| 0 <= j < orig.len() ==> (#[trigger] orig[j]).count.wf(),
            ints == forall|j: int| 0 <= j < k ==> (#[trigger] spec_parse_u64(bv[j].count)) is Some,
        decreases n - k,
    {
        assert(bv[k as int] == buckets@[k as int].deep_view());
        assert(orig[k as int].count.wf());
        let is_uint = buckets[k].count.uint_value.is_some();
        if !is_uint {
            ints = false;
        }
        proof {
            if !is_uint {
                assert(spec_parse_u64(bv[k as int].count) is None);
            } else if ints {
                assert forall|j: int| 0 <= j < k + 1 implies (#[trigger] spec_parse_u64(bv[j].count)) is Some by {
                    if j == k {
                    }
                }
            }
        }
        k = k + 1;
    }
    let all_ints = ints && match &count {
        Some(c) => c.uint_value.is_some(),
        None => true,
    };
    assert(all_ints == all_int(opt_token_bytes(count), bv));
    let mut rest = crate::drain::reversed(buckets);
    let sample_sum = opt_number(&sum);
    let counts = if all_ints {
        let sample_count = match &count {
            Some(c) => c.uint_value,
            None => None,
        };
        let mut out: Vec<BucketInt<'a>> = Vec::new();
        while rest.len() > 0
            invariant
                n == orig.len(),
                bv.len() == n,
                forall|j: int| 0 <= j < n ==> #[trigger] bv[j] == orig[j].deep_view(),
                all_int(opt_token_bytes(count), bv),
                forall|j: int| 0 <= j < orig.len() ==> (#[trigger] orig[j]).count.wf(),
                out@.len() + rest@.len() == n,
                forall|j: int| 0 <= j < rest@.len() ==> #[trigger] rest@[j] == orig[n - 1 - j],
                ek ==> forall|j: int| 0 <= j < n ==> exemplar_kept(#[trigger] orig[j].exemplar, src),
                ek ==> forall|j: int| 0 <= j < out@.len() ==> exemplar_kept(#[trigger] out@[j].exemplar, src),
                forall|j: int| 0 <= j < out@.len() ==> (#[trigger] out@[j]).deep_view() == (SpecBucketInt {
                    cumulative_count: spec_parse_u64(bv[j].count).unwrap(),
                    upper_bound: bv[j].upper,
                    exemplar: bv[j].exemplar,
                }),
            decreases rest@.len(),
        {
            let ghost k = out@.len();
            let b = rest.pop().unwrap();
            assert(b == orig[k as int]);
            assert(bv[k as int] == b.deep_view());
            assert(spec_parse_u64(bv[k as int].count) is Some);
            let BucketAcc { upper, count: c, exemplar } = b;
            let item = BucketInt { cumulative_count: c.uint_value.unwrap(), upper_bound: upper, exemplar };
            out.push(item);
        }
        assert(out.deep_view() =~= Seq::new(
            bv.len(),
            |k: int|
                SpecBucketInt {
                    cumulative_count: spec_parse_u64(bv[k].count).unwrap(),
                    upper_bound: bv[k].upper,
                    exemplar: bv[k].exemplar,
                },
        ));
        BucketCount::Int { sample_count, buckets: out }
    } else {
        let sample_count = match &count {
            Some(c) => Some(float_from(c)),
            None => None,
        };
        let mut out: Vec<BucketFloat<'a>> = Vec::new();
        while rest.len() > 0
            invariant
                n == orig.len(),
                bv.len() == n,
                forall|j: int| 0 <= j < n ==> #[trigger] bv[j] == orig[j].deep_view(),
                out@.len() + rest@.len() == n,
                forall|j: int| 0 <= j < rest@.len() ==> #[trigger] rest@[j] == orig[n - 1 - j],
                ek ==> forall|j: int| 0 <= j < n ==> exemplar_kept(#[trigger] orig[j].exemplar, src),
                ek ==> forall|j: int| 0 <= j < out@.len() ==> exemplar_kept(#[trigger] out@[j].exemplar, src),
                forall|j: int| 0 <= j < out@.len() ==> (#[trigger] out@[j]).deep_view() == (SpecBucketFloat {
                    cumulative_count: token_float(bv[j].count),
                    upper_bound: bv[j].upper,
                    exemplar: bv[j].exemplar,
                }),
            decreases rest@.len(),
        {
            let ghost k = out@.len();
            let b = rest.pop().unwrap();
            assert(b == orig[k as int]);
            assert(bv[k as int] == b.deep_view());
            let BucketAcc { upper, count: c, exemplar } = b;
            let item = BucketFloat { cumulative_count: float_from(&c), upper_bound: upper, exemplar };
            out.push(item);
        }
        assert(out.deep_view() =~= Seq::new(
            bv.len(),
            |k: int|
                SpecBucketFloat {
                    cumulative_count: token_float(bv[k].count),
                    upper_bound: bv[k].upper,
                    exemplar: bv[k].exemplar,
                },
        ));
        BucketCount::Float { sample_count, buckets: out }
    };
    Histogram { sample_sum, counts, created_timestamp: created }
}

/// The metric one group folds into.
fn finish<'a>(ty: MetricType, acc: Acc<'a>, Ghost(src): Ghost<Seq<u8>>) -> (m: Metric<'a>)
    requires
        acc.wf(),
    ensures
        m.deep_view() == spec_finish(ty, acc.view()),
        acc.kept(src) ==> metric_kept(m, src),
{
    let Acc { labels, timestamp, value, exemplar, sum, count, created, buckets, quantiles, states } = acc;
    let v = match ty {
        MetricType::Counter => MetricValue::Counter(Counter {
            value: match &value {
                Some(t) => unsigned_from(t),
                None => UnsignedNumber::Uint(0),
            },
            exemplar,
            created_timestamp: created,
        }),
        MetricType::Summary => MetricValue::Summary(Summary {
            sample_count: opt_unsigned(&count),
            sample_sum: opt_number(&sum),
            quantile: quantiles,
            created_timestamp: created,
        }),
        MetricType::Histogram => MetricValue::Histogram(build_histogram(sum, count, buckets, created, Ghost(src))),
        MetricType::GaugeHistogram => MetricValue::GaugeHistogram(build_histogram(sum, count, buckets, created, Ghost(src))),
        _ => MetricValue::StateSet(StateSet { states }),
    };
    Metric { label: labels, value: v, timestamp }
}

/// Counter, summary, histogram, gauge histogram and state set: group the
/// lines by label set and fold each group into one metric.
pub fn grouped_metrics<'a>(
    format: TextFormat,
    ty: MetricType,
    base: &[u8],
    samples: Vec<Sample<'a>>,
    Ghost(src): Ghost<Seq<u8>>,
) -> (r: Vec<Metric<'a>>)
    requires
        samples_wf(samples@),
    ensures
        r.deep_view() == spec_grouped(format, ty, base@, samples_view(samples@)),
        samples_kept(samples@, src) ==> forall|i: int| 0 <= i < r@.len() ==> metric_kept(#[trigger] r@[i], src),
{
    let ghost orig = samples@;
    let ghost sv = samples_view(orig);
    let n = samples.len();
    let mut rest = crate::drain::reversed(samples);
    let mut keys: Vec<Vec<u8>> = Vec::new();
    let mut order: Vec<Acc<'a>> = Vec::new();
    assert(sv.take(0) =~= Seq::<SpecSample>::empty());
    assert(accs_view(order@) =~= Seq::<SpecAcc>::empty());
    while rest.len() > 0
        invariant
            n == orig.len(),
            sv == samples_view(orig),
            samples_wf(orig),
            rest@.len() <= n,
            forall|j: int| 0 <= j < rest@.len() ==> #[trigger] rest@[j] == orig[n - 1 - j],
            keys_match(keys@, order@),
            accs_wf(order@),
            accs_view(order@) == spec_fold(format, ty, base@, sv.take(n - rest@.len())),
            samples_kept(orig, src) ==> accs_kept(order@, src),
        decreases rest@.len(),
    {
        let ghost k = n - rest@.len();
        let s = rest.pop().unwrap();
        assert(s == orig[k]);
        assert(sv[k] == s.view());
        assert(samples_kept(orig, src) ==> s.kept(src));
        group_step(format, ty, base, &mut keys, &mut order, s, Ghost(src));
        assert(sv.take(k + 1).drop_last() =~= sv.take(k));
        assert(sv.take(k + 1).last() == sv[k]);
    }
    assert(sv.take(n as int) =~= sv);
    let ghost accs = accs_view(order@);
    let ghost ord = order@;
    let ghost sk = samples_kept(orig, src);
    let m = order.len();
    let mut rest = crate::drain::reversed(order);
    let mut out: Vec<Metric<'a>> = Vec::new();
    while rest.len() > 0
        invariant
            m == ord.len(),
            accs == accs_view(ord),
            accs_wf(ord),
            out@.len() + rest@.len() == m,
            forall|j: int| 0 <= j < rest@.len() ==> #[trigger] rest@[j] == ord[m - 1 - j],
            forall|j: int| 0 <= j < out@.len() ==> (#[trigger] out@[j]).deep_view() == spec_finish(ty, accs[j]),
            sk ==> accs_kept(ord, src),
            sk ==> forall|j: int| 0 <= j < out@.len() ==> metric_kept(#[trigger] out@[j], src),
        decreases rest@.len(),
    {
        let ghost k = out@.len();
        let acc = rest.pop().unwrap();
        assert(acc == ord[k as int]);
        out.push(finish(ty, acc, Ghost(src)));
    }
    assert(out.deep_view() =~= spec_grouped(format, ty, base@, sv));
    out
}

/// Gauge and untyped: one metric per line, no grouping.
pub fn scalar_metrics<'a>(format: TextFormat, ty: MetricType, samples: Vec<Sample<'a>>, Ghost(src): Ghost<Seq<u8>>) -> (r: Vec<Metric<'a>>)
    requires
        samples_wf(samples@),
    ensures
        r.deep_view() == spec_scalar(format, ty, samples_view(samples@)),
        samples_kept(samples@, src) ==> forall|i: int| 0 <= i < r@.len() ==> metric_kept(#[trigger] r@[i], src),
{
    let ghost orig = samples@;
    let ghost sv = samples_view(orig);
    let n = samples.len();
    let mut rest = crate::drain::reversed(samples);
    let mut out: Vec<Metric<'a>> = Vec::new();
    while rest.len() > 0
        invariant
            n == orig.len(),
            sv == samples_view(orig),
            samples_wf(orig),
            out@.len() + rest@.len() == n,
            forall|j: int| 0 <= j < rest@.len() ==> #[trigger] rest@[j] == orig[n - 1 - j],
            forall|j: int| 0 <= j < out@.len() ==> (#[trigger] out@[j]).deep_view() == spec_scalar(format, ty, sv)[j],
            samples_kept(orig, src) ==> forall|j: int| 0 <= j < out@.len() ==> metric_kept(#[trigger] out@[j], src),
        decreases rest@.len(),
    {
        let ghost k = out@.len();
        let s = rest.pop().unwrap();
        assert(s == orig[k as int]);
        assert(sv[k as int] == s.view());
        let n_value = number_from(&s.num);
        let value = if ty == MetricType::Gauge {
            MetricValue::Gauge(n_value)
        } else {
            MetricValue::Untyped(n_value)
        };
        let timestamp = opt_convert(format, &s.timestamp);
        let Sample { labels, .. } = s;
        out.push(Metric { label: labels, value, timestamp });
    }
    assert(out.deep_view() =~= spec_scalar(format, ty, sv));
    out
}

/// Info: one metric per line; the line's labels become the payload and the
/// metric carries no labels of its own.
pub fn info_metrics<'a>(format: TextFormat, samples: Vec<Sample<'a>>, Ghost(src): Ghost<Seq<u8>>) -> (r: Vec<Metric<'a>>)
    requires
        samples_wf(samples@),
    ensures
        r.deep_view() == spec_info(format, samples_view(samples@)),
        samples_kept(samples@, src) ==> forall|i: int| 0 <= i < r@.len() ==> metric_kept(#[trigger] r@[i], src),
{
    let ghost orig = samples@;
    let ghost sv = samples_view(orig);
    let n = samples.len();
    let mut rest = crate::drain::reversed(samples);
    let mut out: Vec<Metric<'a>> = Vec::new();
    while rest.len() > 0
        invariant
            n == orig.len(),
            sv == samples_view(orig),
            samples_wf(orig),
            out@.len() + rest@.len() == n,
            forall|j: int| 0 <= j < rest@.len() ==> #[trigger] rest@[j] == orig[n - 1 - j],
            forall|j: int| 0 <= j < out@.len() ==> (#[trigger] out@[j]).deep_view() == spec_info(format, sv)[j],
            samples_kept(orig, src) ==> forall|j: int| 0 <= j < out@.len() ==> metric_kept(#[trigger] out@[j], src),
        decreases rest@.len(),
    {
        let ghost k = out@.len();
        let s = rest.pop().unwrap();
        assert(s == orig[k as int]);
        assert(sv[k as int] == s.view());
        let timestamp = opt_convert(format, &s.timestamp);
        let Sample { labels, .. } = s;
        let label: Vec<LabelPair<'a>> = Vec::new();
        assert(label.deep_view() =~= Seq::<SpecLabel>::empty());
        out.push(Metric { label, value: MetricValue::Info(Info { labels }), timestamp });
    }
    assert(out.deep_view() =~= spec_info(format, sv));
    out
}

/// Fold the sample lines of a family of type `ty` named `base` into metrics.
pub fn assemble<'a>(
    format: TextFormat,
    ty: MetricType,
    base: &[u8],
    samples: Vec<Sample<'a>>,
    Ghost(src): Ghost<Seq<u8>>,
) -> (r: Vec<Metric<'a>>)
    requires
        samples_wf(samples@),
    ensures
        r.deep_view() == spec_assemble(format, ty, base@, samples_view(samples@)),
        samples_kept(samples@, src) ==> forall|i: int| 0 <= i < r@.len() ==> metric_kept(#[trigger] r@[i], src),
{
    match ty {
        MetricType::Counter | MetricType::Summary | MetricType::Histogram | MetricType::GaugeHistogram
        | MetricType::StateSet => grouped_metrics(format, ty, base, samples, Ghost(src)),
        MetricType::Info => info_metrics(format, samples, Ghost(src)),
        _ => scalar_metrics(format, ty, samples, Ghost(src)),
    }
}

/// A `<base>_created` line sets its metric's creation time to its value
/// read in seconds, in a counter, summary, histogram or gauge histogram
/// family alike, and the finished metric carries it.
pub proof fn law_created_line_sets_created_timestamp(
    ty: MetricType,
    base: Seq<u8>,
    acc: SpecAcc,
    num: Seq<u8>,
    exemplar: Option<SpecExemplar>,
    removed: Option<Seq<u8>>,
)
    requires
        ty is Counter || ty is Summary || ty is Histogram || ty is GaugeHistogram,
    ensures
        ({
            let name = base + seq![0x5fu8, 0x63, 0x72, 0x65, 0x61, 0x74, 0x65, 0x64];
            let a = spec_apply_role(ty, spec_role(name, base), acc, num, exemplar, removed);
            let created = Some(SpecTs::Decimal(num, TimeUnit::Seconds));
            &&& a.created == created
            &&& match spec_finish(ty, a).value {
                SpecValue::Counter(c) => c.created_timestamp == created,
                SpecValue::Summary(x) => x.created_timestamp == created,
                SpecValue::Histogram(h) => h.created_timestamp == created,
                SpecValue::GaugeHistogram(h) => h.created_timestamp == created,
                _ => false,
            }
        }),
{
    lemma_role_of_suffixed(base);
}

/// A `<base>_sum` or `<base>_count` line sets the sum or count of its
/// summary or histogram (`_gsum` and `_gcount` for a gauge histogram), and
/// the finished summary reports them.
pub proof fn law_sum_and_count_lines(
    ty: MetricType,
    base: Seq<u8>,
    acc: SpecAcc,
    num: Seq<u8>,
    exemplar: Option<SpecExemplar>,
    removed: Option<Seq<u8>>,
)
    ensures
        ({
            let sum = base + seq![0x5fu8, 0x73, 0x75, 0x6d];
            let count = base + seq![0x5fu8, 0x63, 0x6f, 0x75, 0x6e, 0x74];
            let gsum = base + seq![0x5fu8, 0x67, 0x73, 0x75, 0x6d];
            let gcount = base + seq![0x5fu8, 0x67, 0x63, 0x6f, 0x75, 0x6e, 0x74];
            &&& (ty is Summary || ty is Histogram) ==> {
                &&& spec_apply_role(ty, spec_role(sum, base), acc, num, exemplar, removed).sum == Some(num)
                &&& spec_apply_role(ty, spec_role(count, base), acc, num, exemplar, removed).count == Some(num)
            }
            &&& ty is GaugeHistogram ==> {
                &&& spec_apply_role(ty, spec_role(gsum, base), acc, num, exemplar, removed).sum == Some(num)
                &&& spec_apply_role(ty, spec_role(gcount, base), acc, num, exemplar, removed).count == Some(num)
            }
            &&& ty is Summary ==> {
                &&& spec_finish(ty, spec_apply_role(ty, spec_role(sum, base), acc, num, exemplar, removed)).value
                    matches SpecValue::Summary(x) && x.sample_sum == Some(spec_number(num))
                &&& spec_finish(ty, spec_apply_role(ty, spec_role(count, base), acc, num, exemplar, removed)).value
                    matches SpecValue::Summary(x) && x.sample_count == Some(spec_unsigned(num))
            }
        }),
{
    lemma_role_of_suffixed(base);
}

/// The role of a name that is the base plus one known suffix.
proof fn lemma_role_of_suffixed(base: Seq<u8>)
    ensures
        spec_role(base + seq![0x5fu8, 0x63, 0x72, 0x65, 0x61, 0x74, 0x65, 0x64], base) == Role::Created,
        spec_role(base + seq![0x5fu8, 0x73, 0x75, 0x6d], base) == Role::Sum,
        spec_role(base + seq![0x5fu8, 0x63, 0x6f, 0x75, 0x6e, 0x74], base) == Role::Count,
        spec_role(base + seq![0x5fu8, 0x67, 0x73, 0x75, 0x6d], base) == Role::GSum,
        spec_role(base + seq![0x5fu8, 0x67, 0x63, 0x6f, 0x75, 0x6e, 0x74], base) == Role::GCount,
{
    let created = seq![0x5fu8, 0x63, 0x72, 0x65, 0x61, 0x74, 0x65, 0x64];
    let sum = seq![0x5fu8, 0x73, 0x75, 0x6d];
    let count = seq![0x5fu8, 0x63, 0x6f, 0x75, 0x6e, 0x74];
    let gsum = seq![0x5fu8, 0x67, 0x73, 0x75, 0x6d];
    let gcount = seq![0x5fu8, 0x67, 0x63, 0x6f, 0x75, 0x6e, 0x74];
    assert(created =~= lit_created());
    assert(sum =~= lit_sum());
    assert(count =~= lit_count());
    assert(gsum =~= lit_gsum());
    assert(gcount =~= lit_gcount());
    assert(lit_total().len() == 6 && lit_sum().len() == 4 && lit_count().len() == 6 && lit_bucket().len() == 7);
    assert(lit_created().len() == 8 && lit_gcount().len() == 7 && lit_gsum().len() == 5);
    assert((base + created).len() == base.len() + 8 && (base + gsum).len() == base.len() + 5);
    assert((base + lit_total()).len() == base.len() + 6 && (base + lit_sum()).len() == base.len() + 4);
    assert((base + lit_count()).len() == base.len() + 6 && (base + lit_bucket()).len() == base.len() + 7);
    assert((base + lit_created()).len() == base.len() + 8 && (base + lit_gcount()).len() == base.len() + 7);
    assert(base + created != base);
    assert(base + created != base + lit_total() && base + created != base + lit_sum());
    assert(base + created != base + lit_count() && base + created != base + lit_bucket());
    assert(base + gsum != base && base + gsum != base + lit_total() && base + gsum != base + lit_sum());
    assert(base + gsum != base + lit_count() && base + gsum != base + lit_bucket());
    assert(base + gsum != base + lit_created() && base + gsum != base + lit_gcount());
    // Names of equal length differ at the byte after the underscore.
    assert((base + count)[base.len() as int + 1] != (base + lit_total())[base.len() as int + 1]);
    assert((base + gcount)[base.len() as int + 1] != (base + lit_bucket())[base.len() as int + 1]);
}

} // verus!
