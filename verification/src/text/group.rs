//! The grouping key of a label set: the sample lines of a histogram, summary,
//! counter or state set that carry the same labels (in any order) belong to
//! the same metric.

use vstd::multiset::Multiset;
use vstd::prelude::*;
use vstd::relations::{sorted_by, total_ordering};
use vstd::seq_lib::{lemma_multiset_commutative, lemma_sorted_unique};
use vstd::utf8::*;

use super::lex::cow_as_bytes;
use crate::borrowed::LabelPair;
use crate::model::SpecLabel;

verus! {

/// Byte-wise lexicographic order (the order of `str`).
pub open spec fn bytes_le(a: Seq<u8>, b: Seq<u8>) -> bool
    decreases a.len(),
{
    if a.len() == 0 {
        true
    } else if b.len() == 0 {
        false
    } else if a[0] != b[0] {
        a[0] < b[0]
    } else {
        bytes_le(a.drop_first(), b.drop_first())
    }
}

/// The order of `(name, value)` tuples.
pub open spec fn label_le(a: SpecLabel, b: SpecLabel) -> bool {
    if a.name == b.name {
        bytes_le(a.value, b.value)
    } else {
        bytes_le(a.name, b.name)
    }
}

/// Insert `x` before the first element it is not greater than.
pub open spec fn insert_sorted(x: SpecLabel, s: Seq<SpecLabel>) -> Seq<SpecLabel>
    decreases s.len(),
{
    if s.len() == 0 {
        seq![x]
    } else if label_le(x, s[0]) {
        seq![x] + s
    } else {
        seq![s[0]] + insert_sorted(x, s.drop_first())
    }
}

/// The label pairs in ascending order.
pub open spec fn sort_labels(s: Seq<SpecLabel>) -> Seq<SpecLabel>
    decreases s.len(),
{
    if s.len() == 0 {
        s
    } else {
        insert_sorted(s[0], sort_labels(s.drop_first()))
    }
}

/// `name \u{1} value \u{2}` for each pair, in order.
pub open spec fn key_bytes(s: Seq<SpecLabel>) -> Seq<u8>
    decreases s.len(),
{
    if s.len() == 0 {
        Seq::empty()
    } else {
        s[0].name + seq![1u8] + s[0].value + seq![2u8] + key_bytes(s.drop_first())
    }
}

/// A stable, order-independent key for a label set.
pub open spec fn spec_group_key(labels: Seq<SpecLabel>) -> Seq<u8> {
    key_bytes(sort_labels(labels))
}

/// `a <= b` in byte order.
fn exec_bytes_le(a: &[u8], b: &[u8]) -> (r: bool)
    ensures
        r == bytes_le(a@, b@),
{
    let mut k: usize = 0;
    assert(a@.skip(0) =~= a@);
    assert(b@.skip(0) =~= b@);
    loop
        invariant
            k <= a@.len(),
            k <= b@.len(),
            bytes_le(a@, b@) == bytes_le(a@.skip(k as int), b@.skip(k as int)),
        decreases a@.len() - k,
    {
        if k == a.len() {
            return true;
        }
        if k == b.len() {
            return false;
        }
        assert(a@.skip(k as int)[0] == a@[k as int]);
        assert(b@.skip(k as int)[0] == b@[k as int]);
        if a[k] != b[k] {
            return a[k] < b[k];
        }
        assert(a@.skip(k as int).drop_first() =~= a@.skip(k + 1));
        assert(b@.skip(k as int).drop_first() =~= b@.skip(k + 1));
        k = k + 1;
    }
}

fn exec_label_le(a: &LabelPair, b: &LabelPair) -> (r: bool)
    ensures
        r == label_le(a.deep_view(), b.deep_view()),
{
    let an = cow_as_bytes(&a.name);
    let bn = cow_as_bytes(&b.name);
    let av = cow_as_bytes(&a.value);
    let bv = cow_as_bytes(&b.value);
    if exec_bytes_eq(an, bn) {
        exec_bytes_le(av, bv)
    } else {
        exec_bytes_le(an, bn)
    }
}

pub fn exec_bytes_eq(a: &[u8], b: &[u8]) -> (r: bool)
    ensures
        r == (a@ == b@),
{
    if a.len() != b.len() {
        return false;
    }
    let mut k: usize = 0;
    while k < a.len()
        invariant
            a@.len() == b@.len(),
            k <= a@.len(),
            forall|m: int| 0 <= m < k ==> a@[m] == b@[m],
        decreases a@.len() - k,
    {
        if a[k] != b[k] {
            return false;
        }
        k = k + 1;
    }
    assert(a@ =~= b@);
    true
}

proof fn lemma_insert_sorted_at(x: SpecLabel, s: Seq<SpecLabel>, k: int)
    requires
        0 <= k <= s.len(),
        forall|m: int| 0 <= m < k ==> !label_le(x, #[trigger] s[m]),
        k == s.len() || label_le(x, s[k]),
    ensures
        insert_sorted(x, s) == s.take(k) + seq![x] + s.skip(k),
    decreases s.len(),
{
    if s.len() == 0 {
        assert(s.take(k) + seq![x] + s.skip(k) =~= seq![x]);
    } else if k == 0 {
        assert(s.take(k) + seq![x] + s.skip(k) =~= seq![x] + s);
    } else {
        assert(!label_le(x, s[0]));
        let t = s.drop_first();
        assert forall|m: int| 0 <= m < k - 1 implies !label_le(x, #[trigger] t[m]) by {
            assert(t[m] == s[m + 1]);
        }
        if k < s.len() {
            assert(t[k - 1] == s[k]);
        }
        lemma_insert_sorted_at(x, t, k - 1);
        assert(seq![s[0]] + (t.take(k - 1) + seq![x] + t.skip(k - 1)) =~= s.take(k) + seq![x] + s.skip(k));
    }
}

proof fn lemma_key_bytes_concat(a: Seq<SpecLabel>, b: Seq<SpecLabel>)
    ensures
        key_bytes(a + b) == key_bytes(a) + key_bytes(b),
    decreases a.len(),
{
    if a.len() == 0 {
        assert(a + b =~= b);
    } else {
        lemma_key_bytes_concat(a.drop_first(), b);
        assert((a + b).drop_first() =~= a.drop_first() + b);
        assert((a + b)[0] == a[0]);
    }
}

/// The labels `lv` picked out by the indices `idx`.
pub open spec fn pick(lv: Seq<SpecLabel>, idx: Seq<usize>) -> Seq<SpecLabel> {
    Seq::new(idx.len(), |k: int| lv[idx[k] as int])
}

/// A stable, order-independent key for a label set: the `(name, value)`
/// pairs in ascending order, each written `name \u{1} value \u{2}`.
pub fn group_key(labels: &Vec<LabelPair>) -> (r: Vec<u8>)
    ensures
        r@ == spec_group_key(labels.deep_view()),
{
    let ghost lv = labels.deep_view();
    let n = labels.len();
    let mut sorted: Vec<usize> = Vec::new();
    let mut i = n;
    assert(lv.skip(n as int) =~= Seq::<SpecLabel>::empty());
    assert(pick(lv, sorted@) =~= Seq::<SpecLabel>::empty());
    while i > 0
        invariant
            lv == labels.deep_view(),
            n == lv.len(),
            i <= n,
            forall|k: int| 0 <= k < sorted@.len() ==> #[trigger] sorted@[k] < n,
            pick(lv, sorted@) == sort_labels(lv.skip(i as int)),
        decreases i,
    {
        i = i - 1;
        let x = &labels[i];
        assert(x.deep_view() == lv[i as int]);
        let mut k: usize = 0;
        while k < sorted.len() && !exec_label_le(x, &labels[sorted[k]])
            invariant
                lv == labels.deep_view(),
                n == lv.len(),
                i < n,
                x.deep_view() == lv[i as int],
                k <= sorted@.len(),
                forall|m: int| 0 <= m < sorted@.len() ==> #[trigger] sorted@[m] < n,
                forall|m: int| 0 <= m < k ==> !label_le(lv[i as int], #[trigger] pick(lv, sorted@)[m]),
            decreases sorted@.len() - k,
        {
            assert(labels[sorted@[k as int] as int].deep_view() == pick(lv, sorted@)[k as int]);
            k = k + 1;
        }
        proof {
            if k < sorted@.len() {
                assert(labels[sorted@[k as int] as int].deep_view() == pick(lv, sorted@)[k as int]);
            }
            let s = pick(lv, sorted@);
            lemma_insert_sorted_at(lv[i as int], s, k as int);
            assert(lv.skip(i as int)[0] == lv[i as int]);
            assert(lv.skip(i as int).drop_first() =~= lv.skip(i + 1));
        }
        let ghost before = sorted@;
        sorted.insert(k, i);
        proof {
            assert(pick(lv, sorted@) =~= pick(lv, before).take(k as int) + seq![lv[i as int]] + pick(lv, before).skip(k as int));
            assert forall|m: int| 0 <= m < sorted@.len() implies #[trigger] sorted@[m] < n by {
                if m < k {
                    assert(sorted@[m] == before[m]);
                } else if m > k {
                    assert(sorted@[m] == before[m - 1]);
                }
            }
        }
    }
    assert(lv.skip(0) =~= lv);
    let ghost ps = pick(lv, sorted@);
    let mut key: Vec<u8> = Vec::new();
    let mut j: usize = 0;
    assert(ps.take(0) =~= Seq::<SpecLabel>::empty());
    while j < sorted.len()
        invariant
            lv == labels.deep_view(),
            n == lv.len(),
            ps == pick(lv, sorted@),
            j <= sorted@.len(),
            forall|m: int| 0 <= m < sorted@.len() ==> #[trigger] sorted@[m] < n,
            key@ == key_bytes(ps.take(j as int)),
        decreases sorted@.len() - j,
    {
        let lab = &labels[sorted[j]];
        assert(lab.deep_view() == ps[j as int]);
        let ghost before = key@;
        key.extend_from_slice(cow_as_bytes(&lab.name));
        key.push(1u8);
        key.extend_from_slice(cow_as_bytes(&lab.value));
        key.push(2u8);
        proof {
            let one = seq![ps[j as int]];
            lemma_key_bytes_concat(ps.take(j as int), one);
            assert(ps.take(j + 1) =~= ps.take(j as int) + one);
            assert(one.drop_first() =~= Seq::<SpecLabel>::empty());
            assert(key_bytes(one.drop_first()) =~= Seq::<u8>::empty());
            assert(one[0] == ps[j as int]);
            assert(key_bytes(one) =~= ps[j as int].name + seq![1u8] + ps[j as int].value + seq![2u8]);
            assert(key@ =~= before + key_bytes(one));
        }
        j = j + 1;
    }
    assert(ps.take(sorted@.len() as int) =~= ps);
    key
}

// ---------------------------------------------------------------------------
// The key does not depend on the order of the labels
// ---------------------------------------------------------------------------

proof fn lemma_bytes_le_refl(a: Seq<u8>)
    ensures
        bytes_le(a, a),
    decreases a.len(),
{
    if a.len() > 0 {
        lemma_bytes_le_refl(a.drop_first());
    }
}

proof fn lemma_bytes_le_total(a: Seq<u8>, b: Seq<u8>)
    ensures
        bytes_le(a, b) || bytes_le(b, a),
    decreases a.len(),
{
    if a.len() > 0 && b.len() > 0 && a[0] == b[0] {
        lemma_bytes_le_total(a.drop_first(), b.drop_first());
    }
}

proof fn lemma_bytes_le_antisym(a: Seq<u8>, b: Seq<u8>)
    requires
        bytes_le(a, b),
        bytes_le(b, a),
    ensures
        a == b,
    decreases a.len(),
{
    if a.len() == 0 {
        assert(a =~= b);
    } else {
        lemma_bytes_le_antisym(a.drop_first(), b.drop_first());
        assert(a =~= seq![a[0]] + a.drop_first());
        assert(b =~= seq![b[0]] + b.drop_first());
    }
}

proof fn lemma_bytes_le_trans(a: Seq<u8>, b: Seq<u8>, c: Seq<u8>)
    requires
        bytes_le(a, b),
        bytes_le(b, c),
    ensures
        bytes_le(a, c),
    decreases a.len(),
{
    if a.len() > 0 && a[0] == b[0] && b[0] == c[0] {
        lemma_bytes_le_trans(a.drop_first(), b.drop_first(), c.drop_first());
    }
}

/// The order of label pairs is a total order.
proof fn lemma_label_le_total_order()
    ensures
        total_ordering(|x: SpecLabel, y: SpecLabel| label_le(x, y)),
{
    let leq = |x: SpecLabel, y: SpecLabel| label_le(x, y);
    assert forall|x: SpecLabel| #[trigger] leq(x, x) by {
        lemma_bytes_le_refl(x.value);
    }
    assert forall|x: SpecLabel, y: SpecLabel| #[trigger] leq(x, y) && #[trigger] leq(y, x) implies x == y by {
        if x.name == y.name {
            lemma_bytes_le_antisym(x.value, y.value);
        } else {
            lemma_bytes_le_antisym(x.name, y.name);
        }
    }
    assert forall|x: SpecLabel, y: SpecLabel, z: SpecLabel| #[trigger] leq(x, y) && #[trigger] leq(y, z) implies leq(
        x,
        z,
    ) by {
        if x.name == y.name && y.name == z.name {
            lemma_bytes_le_trans(x.value, y.value, z.value);
        } else if x.name != y.name && y.name != z.name {
            lemma_bytes_le_trans(x.name, y.name, z.name);
            if x.name == z.name {
                lemma_bytes_le_antisym(x.name, y.name);
            }
        }
    }
    assert forall|x: SpecLabel, y: SpecLabel| #[trigger] leq(x, y) || #[trigger] leq(y, x) by {
        lemma_bytes_le_total(x.name, y.name);
        lemma_bytes_le_total(x.value, y.value);
    }
}

proof fn lemma_singleton_multiset(x: SpecLabel)
    ensures
        seq![x].to_multiset() =~= Multiset::<SpecLabel>::empty().insert(x),
{
    broadcast use vstd::seq_lib::group_to_multiset_ensures;

    assert(seq![x] =~= Seq::<SpecLabel>::empty().push(x));
    assert(Seq::<SpecLabel>::empty().to_multiset() =~= Multiset::<SpecLabel>::empty());
}

/// Inserting into a sorted sequence keeps it sorted and adds the element.
proof fn lemma_insert_sorted_sorted(x: SpecLabel, s: Seq<SpecLabel>)
    requires
        total_ordering(|a: SpecLabel, b: SpecLabel| label_le(a, b)),
        sorted_by(s, |a: SpecLabel, b: SpecLabel| label_le(a, b)),
    ensures
        sorted_by(insert_sorted(x, s), |a: SpecLabel, b: SpecLabel| label_le(a, b)),
        insert_sorted(x, s).to_multiset() =~= s.to_multiset().insert(x),
    decreases s.len(),
{
    broadcast use vstd::seq_lib::group_to_multiset_ensures;
    broadcast use vstd::multiset::group_multiset_axioms;

    let leq = |a: SpecLabel, b: SpecLabel| label_le(a, b);
    lemma_singleton_multiset(x);
    if s.len() == 0 {
    } else if label_le(x, s[0]) {
        let r = seq![x] + s;
        lemma_multiset_commutative(seq![x], s);
        assert forall|i: int, j: int| 0 <= i < j < r.len() implies #[trigger] leq(r[i], r[j]) by {
            if i == 0 {
                if j > 1 {
                    assert(leq(s[0], s[j - 1]));
                    assert(leq(x, s[0]));
                }
            } else {
                assert(leq(s[i - 1], s[j - 1]));
            }
        }
    } else {
        let t = s.drop_first();
        assert(sorted_by(t, leq)) by {
            assert forall|i: int, j: int| 0 <= i < j < t.len() implies #[trigger] leq(t[i], t[j]) by {
                assert(leq(s[i + 1], s[j + 1]));
            }
        }
        lemma_insert_sorted_sorted(x, t);
        let u = insert_sorted(x, t);
        let r = seq![s[0]] + u;
        assert(leq(s[0], x)) by {
            assert(leq(x, s[0]) || leq(s[0], x));
        }
        lemma_singleton_multiset(s[0]);
        lemma_multiset_commutative(seq![s[0]], u);
        assert(s =~= seq![s[0]] + t);
        lemma_multiset_commutative(seq![s[0]], t);
        assert forall|j: int| 0 <= j < u.len() implies #[trigger] leq(s[0], u[j]) by {
            assert(u.to_multiset().contains(u[j]));
            if u[j] != x {
                assert(t.to_multiset().contains(u[j]));
                assert(t.contains(u[j]));
                let k = choose|k: int| 0 <= k < t.len() && t[k] == u[j];
                assert(leq(s[0], s[k + 1]));
            }
        }
        assert forall|i: int, j: int| 0 <= i < j < r.len() implies #[trigger] leq(r[i], r[j]) by {
            if i == 0 {
                assert(leq(s[0], u[j - 1]));
            } else {
                assert(leq(u[i - 1], u[j - 1]));
            }
        }
    }
}

/// Sorting gives a sorted sequence of the same pairs.
proof fn lemma_sort_labels(s: Seq<SpecLabel>)
    requires
        total_ordering(|a: SpecLabel, b: SpecLabel| label_le(a, b)),
    ensures
        sorted_by(sort_labels(s), |a: SpecLabel, b: SpecLabel| label_le(a, b)),
        sort_labels(s).to_multiset() =~= s.to_multiset(),
    decreases s.len(),
{
    broadcast use vstd::seq_lib::group_to_multiset_ensures;
    broadcast use vstd::multiset::group_multiset_axioms;

    if s.len() > 0 {
        let t = s.drop_first();
        lemma_sort_labels(t);
        lemma_insert_sorted_sorted(s[0], sort_labels(t));
        lemma_singleton_multiset(s[0]);
        assert(s =~= seq![s[0]] + t);
        lemma_multiset_commutative(seq![s[0]], t);
    } else {
        assert(s.to_multiset() =~= Multiset::<SpecLabel>::empty());
    }
}

/// The grouping key does not depend on the order in which a sample line
/// writes its labels: two label sets holding the same pairs have the same
/// key.
pub proof fn law_group_key_order_independent(a: Seq<SpecLabel>, b: Seq<SpecLabel>)
    requires
        a.to_multiset() == b.to_multiset(),
    ensures
        spec_group_key(a) == spec_group_key(b),
{
    lemma_label_le_total_order();
    lemma_sort_labels(a);
    lemma_sort_labels(b);
    lemma_sorted_unique(sort_labels(a), sort_labels(b), |x: SpecLabel, y: SpecLabel| label_le(x, y));
}

} // verus!
