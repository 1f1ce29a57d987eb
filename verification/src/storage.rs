//! Data model for labels, samples and time series, and the storage contracts.
//!
//! A series is identified by a 64-bit fingerprint of its label set, hashed in
//! the order the labels were given: two label sets with the same pairs in a
//! different order fingerprint differently, and do not merge.

pub mod memory;

use vstd::prelude::*;
use vstd::string::StringExecFns;

use crate::matchers::LabelMatcher;

pub use memory::MemoryStorage;

verus! {

/// A metric label: a name paired with a value.
#[derive(Debug, PartialEq, Eq, Hash, PartialOrd, Ord)]
pub struct Label {
    pub name: String,
    pub value: String,
}

/// The content of a label: its name and its value, as character sequences.
pub type LabelV = (Seq<char>, Seq<char>);

/// The content of one label.
pub open spec fn label_view(l: Label) -> LabelV {
    (l.name@, l.value@)
}

/// The content of a label set, in order.
pub open spec fn labels_view(ls: Seq<Label>) -> Seq<LabelV> {
    ls.map_values(|l: Label| label_view(l))
}

impl Label {
    /// Create a new label with the given name and value.
    pub fn new(name: &str, value: &str) -> (r: Label)
        ensures
            label_view(r) == (name@, value@),
    {
        Label { name: String::from_str(name), value: String::from_str(value) }
    }
}

impl Clone for Label {
    fn clone(&self) -> (r: Label)
        ensures
            r == *self,
    {
        Label { name: self.name.clone(), value: self.value.clone() }
    }
}

/// A single metric sample. `value` holds the sample's scalar as the raw bit
/// pattern of an IEEE-754 double: the store never interprets it, so the bits
/// pass through unchanged.
#[derive(Debug, Clone, Copy, PartialEq, Eq)]
pub struct Sample {
    /// Milliseconds since the Unix epoch.
    pub timestamp: i64,
    /// The sample's scalar, as IEEE-754 double bits.
    pub value: u64,
}

impl Sample {
    /// Create a new sample with the given timestamp (milliseconds) and value bits.
    pub fn new(timestamp: i64, value: u64) -> (r: Sample)
        ensures
            r.timestamp == timestamp,
            r.value == value,
    {
        Sample { timestamp, value }
    }
}

/// A time series: a label set and its samples, kept sorted by timestamp with
/// at most one sample per timestamp.
#[derive(Debug)]
pub struct TimeSeries {
    pub labels: Vec<Label>,
    pub samples: Vec<Sample>,
}

/// Samples are strictly increasing by timestamp: sorted, with no duplicates.
pub open spec fn sorted_by_timestamp(s: Seq<Sample>) -> bool {
    forall|i: int, j: int| 0 <= i < j < s.len() ==> s[i].timestamp < s[j].timestamp
}

/// Whether a sample's timestamp lies in `[start, end]`, both inclusive.
pub open spec fn range_pred(start: i64, end: i64) -> spec_fn(Sample) -> bool {
    |y: Sample| start <= y.timestamp <= end
}

/// The samples of `s` whose timestamps lie in `[start, end]`, both inclusive,
/// in their original order.
pub open spec fn in_range(s: Seq<Sample>, start: i64, end: i64) -> Seq<Sample> {
    s.filter(range_pred(start, end))
}

/// `s` with `x` placed at its timestamp: an existing sample at the same
/// timestamp is overwritten, otherwise `x` is inserted in timestamp order.
pub open spec fn insert_sample(s: Seq<Sample>, x: Sample) -> Seq<Sample>
    decreases s.len(),
{
    if s.len() == 0 {
        seq![x]
    } else if x.timestamp < s[0].timestamp {
        seq![x] + s
    } else if x.timestamp == s[0].timestamp {
        seq![x] + s.drop_first()
    } else {
        seq![s[0]] + insert_sample(s.drop_first(), x)
    }
}

/// Each sample of `b` inserted into `a` in turn, later samples overwriting
/// earlier ones at equal timestamps.
pub open spec fn merge_samples(a: Seq<Sample>, b: Seq<Sample>) -> Seq<Sample>
    decreases b.len(),
{
    if b.len() == 0 {
        a
    } else {
        merge_samples(insert_sample(a, b[0]), b.drop_first())
    }
}

/// Where a scan for the first timestamp at or past `x.timestamp` stops at `i`,
/// `insert_sample` either overwrites index `i` or inserts before it.
pub proof fn lemma_insert_sample_at(s: Seq<Sample>, x: Sample, i: int)
    requires
        0 <= i <= s.len(),
        forall|k: int| 0 <= k < i ==> s[k].timestamp < x.timestamp,
        i < s.len() ==> s[i].timestamp >= x.timestamp,
    ensures
        i < s.len() && s[i].timestamp == x.timestamp ==> insert_sample(s, x) == s.update(i, x),
        (i == s.len() || s[i].timestamp > x.timestamp) ==> insert_sample(s, x) == s.take(i)
            + seq![x] + s.skip(i),
    decreases i,
{
    if i == 0 {
        if s.len() == 0 {
            assert(insert_sample(s, x) =~= s.take(0) + seq![x] + s.skip(0));
        } else if s[0].timestamp == x.timestamp {
            assert(seq![x] + s.drop_first() =~= s.update(0, x));
        } else {
            assert(seq![x] + s =~= s.take(0) + seq![x] + s.skip(0));
        }
    } else {
        let t = s.drop_first();
        lemma_insert_sample_at(t, x, i - 1);
        assert(insert_sample(s, x) == seq![s[0]] + insert_sample(t, x));
        if i < s.len() && s[i].timestamp == x.timestamp {
            assert(t[i - 1].timestamp == x.timestamp);
            assert(seq![s[0]] + t.update(i - 1, x) =~= s.update(i, x));
        } else {
            assert(seq![s[0]] + (t.take(i - 1) + seq![x] + t.skip(i - 1)) =~= s.take(i) + seq![x]
                + s.skip(i));
        }
    }
}

/// Inserting into a sorted sample sequence keeps it sorted.
pub proof fn lemma_insert_sample_sorted(s: Seq<Sample>, x: Sample)
    requires
        sorted_by_timestamp(s),
    ensures
        sorted_by_timestamp(insert_sample(s, x)),
    decreases s.len(),
{
    if s.len() == 0 {
    } else if x.timestamp < s[0].timestamp {
    } else if x.timestamp == s[0].timestamp {
        assert(seq![x] + s.drop_first() =~= s.update(0, x));
    } else {
        let t = s.drop_first();
        lemma_insert_sample_sorted(t, x);
        lemma_insert_sample_members(t, x);
        let r = seq![s[0]] + insert_sample(t, x);
        assert forall|i: int, j: int| 0 <= i < j < r.len() implies r[i].timestamp
            < r[j].timestamp by {
            if i == 0 {
                let y = insert_sample(t, x)[j - 1];
                assert(r[j] == y);
                if y != x {
                    assert(t.contains(y));
                    let k = choose|k: int| 0 <= k < t.len() && t[k] == y;
                    assert(s[k + 1] == y);
                }
            } else {
                assert(r[i] == insert_sample(t, x)[i - 1]);
                assert(r[j] == insert_sample(t, x)[j - 1]);
            }
        }
        assert(insert_sample(s, x) == r);
    }
}

/// Every sample of `insert_sample(s, x)` is `x` or comes from `s`.
pub proof fn lemma_insert_sample_members(s: Seq<Sample>, x: Sample)
    ensures
        forall|i: int| 0 <= i < insert_sample(s, x).len() ==> insert_sample(s, x)[i] == x
            || s.contains(insert_sample(s, x)[i]),
        insert_sample(s, x).len() == s.len() || insert_sample(s, x).len() == s.len() + 1,
    decreases s.len(),
{
    if s.len() == 0 {
    } else if x.timestamp < s[0].timestamp {
    } else if x.timestamp == s[0].timestamp {
        assert forall|i: int| 0 <= i < insert_sample(s, x).len() implies insert_sample(s, x)[i]
            == x || s.contains(insert_sample(s, x)[i]) by {
            if i > 0 {
                assert(insert_sample(s, x)[i] == s[i]);
            }
        }
    } else {
        lemma_insert_sample_members(s.drop_first(), x);
        let t = s.drop_first();
        assert forall|i: int| 0 <= i < insert_sample(s, x).len() implies insert_sample(s, x)[i]
            == x || s.contains(insert_sample(s, x)[i]) by {
            if i > 0 {
                let y = insert_sample(t, x)[i - 1];
                assert(insert_sample(s, x)[i] == y);
                if y != x {
                    let k = choose|k: int| 0 <= k < t.len() && t[k] == y;
                    assert(s[k + 1] == y);
                }
            }
        }
    }
}

/// Writing a sample at a timestamp, then writing another sample at the same
/// timestamp, leaves exactly what writing only the second one leaves: the
/// last write wins and no duplicate timestamp appears.
pub proof fn lemma_last_write_wins(s: Seq<Sample>, x1: Sample, x2: Sample)
    requires
        x1.timestamp == x2.timestamp,
    ensures
        insert_sample(insert_sample(s, x1), x2) == insert_sample(s, x2),
    decreases s.len(),
{
    if s.len() == 0 {
        assert(insert_sample(insert_sample(s, x1), x2) =~= insert_sample(s, x2));
    } else if x1.timestamp < s[0].timestamp {
        assert((seq![x1] + s).drop_first() =~= s);
        assert(insert_sample(insert_sample(s, x1), x2) =~= insert_sample(s, x2));
    } else if x1.timestamp == s[0].timestamp {
        assert((seq![x1] + s.drop_first()).drop_first() =~= s.drop_first());
        assert(insert_sample(insert_sample(s, x1), x2) =~= insert_sample(s, x2));
    } else {
        lemma_last_write_wins(s.drop_first(), x1, x2);
        let u = seq![s[0]] + insert_sample(s.drop_first(), x1);
        assert(u.drop_first() =~= insert_sample(s.drop_first(), x1));
        assert(insert_sample(u, x2) == seq![s[0]] + insert_sample(u.drop_first(), x2));
        assert(insert_sample(insert_sample(s, x1), x2) =~= insert_sample(s, x2));
    }
}

/// Merging a sample batch one sample longer folds the last sample in last.
pub proof fn lemma_merge_samples_push(a: Seq<Sample>, b: Seq<Sample>, x: Sample)
    ensures
        merge_samples(a, b.push(x)) == insert_sample(merge_samples(a, b), x),
    decreases b.len(),
{
    if b.len() == 0 {
        assert(b.push(x).drop_first() =~= b);
        assert(merge_samples(a, b.push(x)) == merge_samples(insert_sample(a, x), b));
    } else {
        assert(b.push(x)[0] == b[0]);
        assert(b.push(x).drop_first() =~= b.drop_first().push(x));
        lemma_merge_samples_push(insert_sample(a, b[0]), b.drop_first(), x);
    }
}

/// Merging a sorted batch into a sorted series keeps it sorted.
pub proof fn lemma_merge_samples_sorted(a: Seq<Sample>, b: Seq<Sample>)
    requires
        sorted_by_timestamp(a),
    ensures
        sorted_by_timestamp(merge_samples(a, b)),
    decreases b.len(),
{
    if b.len() == 0 {
    } else {
        lemma_insert_sample_sorted(a, b[0]);
        lemma_merge_samples_sorted(insert_sample(a, b[0]), b.drop_first());
    }
}

impl TimeSeries {
    /// The samples are sorted by timestamp, one sample per timestamp.
    pub open spec fn wf(self) -> bool {
        sorted_by_timestamp(self.samples@)
    }

    /// Create a new time series with the given labels and no samples.
    pub fn new(labels: Vec<Label>) -> (r: TimeSeries)
        ensures
            r.labels == labels,
            r.samples@ == Seq::<Sample>::empty(),
            r.wf(),
    {
        TimeSeries { labels, samples: Vec::new() }
    }

    /// Add a sample, keeping the samples sorted by timestamp. A sample at an
    /// existing timestamp overwrites the value there; it is never duplicated.
    pub fn add_sample(&mut self, sample: Sample)
        ensures
            final(self).labels == old(self).labels,
            final(self).samples@ == insert_sample(old(self).samples@, sample),
            old(self).wf() ==> final(self).wf(),
    {
        let mut i: usize = 0;
        while i < self.samples.len() && self.samples[i].timestamp < sample.timestamp
            invariant
                i <= self.samples.len(),
                forall|k: int| 0 <= k < i ==> self.samples@[k].timestamp < sample.timestamp,
                self.samples@ == old(self).samples@,
                self.labels == old(self).labels,
            decreases self.samples.len() - i,
        {
            i += 1;
        }
        proof {
            lemma_insert_sample_at(old(self).samples@, sample, i as int);
            if old(self).wf() {
                lemma_insert_sample_sorted(old(self).samples@, sample);
            }
        }
        if i < self.samples.len() && self.samples[i].timestamp == sample.timestamp {
            self.samples[i] = sample;
        } else {
            self.samples.insert(i, sample);
            proof {
                assert(self.samples@ =~= old(self).samples@.take(i as int) + seq![sample]
                    + old(self).samples@.skip(i as int));
            }
        }
    }

    /// The samples with timestamps in `[start, end]`, both ends inclusive.
    pub fn samples_in_range(&self, start: i64, end: i64) -> (r: Vec<Sample>)
        ensures
            r@ == in_range(self.samples@, start, end),
    {
        let mut r: Vec<Sample> = Vec::new();
        let mut i: usize = 0;
        while i < self.samples.len()
            invariant
                i <= self.samples.len(),
                r@ == self.samples@.take(i as int).filter(range_pred(start, end)),
            decreases self.samples.len() - i,
        {
            let y = self.samples[i];
            proof {
                self.samples@.lemma_take_succ_push(i as int);
                self.samples@.take(i as int).lemma_filter_push(y, range_pred(start, end));
            }
            if start <= y.timestamp && y.timestamp <= end {
                r.push(y);
            }
            i += 1;
        }
        proof {
            assert(self.samples@.take(self.samples@.len() as int) =~= self.samples@);
        }
        r
    }
}

impl Clone for TimeSeries {
    fn clone(&self) -> (r: TimeSeries)
        ensures
            r.labels@ == self.labels@,
            r.samples@ == self.samples@,
    {
        let mut labels: Vec<Label> = Vec::new();
        let mut i: usize = 0;
        while i < self.labels.len()
            invariant
                i <= self.labels.len(),
                labels@ =~= self.labels@.take(i as int),
            decreases self.labels.len() - i,
        {
            labels.push(self.labels[i].clone());
            i += 1;
        }
        let mut samples: Vec<Sample> = Vec::new();
        let mut j: usize = 0;
        while j < self.samples.len()
            invariant
                j <= self.samples.len(),
                samples@ =~= self.samples@.take(j as int),
            decreases self.samples.len() - j,
        {
            samples.push(self.samples[j]);
            j += 1;
        }
        proof {
            assert(labels@ =~= self.labels@);
            assert(samples@ =~= self.samples@);
        }
        TimeSeries { labels, samples }
    }
}

/// The content of a series: its labels' content and its samples.
pub type SeriesV = (Seq<LabelV>, Seq<Sample>);

/// The content of one series.
pub open spec fn ts_view(ts: TimeSeries) -> SeriesV {
    (labels_view(ts.labels@), ts.samples@)
}

/// The content of a whole store, in storage order.
pub open spec fn store_view(s: Seq<TimeSeries>) -> Seq<SeriesV> {
    s.map_values(|ts: TimeSeries| ts_view(ts))
}

/// The FNV-1a offset basis, the fingerprint of the empty label set.
pub const FNV_OFFSET_BASIS: u64 = 0xcbf2_9ce4_8422_2325;

/// The 64-bit FNV prime.
pub const FNV_PRIME: u64 = 0x0000_0100_0000_01b3;

/// Mixed in after a label's name; not a character, so names and values
/// cannot run into each other.
pub const LABEL_NAME_SEP: u64 = 0x11_0000;

/// Mixed in after a label's value.
pub const LABEL_VALUE_SEP: u64 = 0x11_0001;

/// One FNV-1a step: fold `v` into the running hash.
pub open spec fn fnv_mix(h: u64, v: u64) -> u64 {
    vstd::wrapping::u64_specs::wrapping_mul(h ^ v, FNV_PRIME)
}

/// A character sequence folded into the running hash, first character first.
pub open spec fn fnv_chars(h: u64, s: Seq<char>) -> u64
    decreases s.len(),
{
    if s.len() == 0 {
        h
    } else {
        fnv_mix(fnv_chars(h, s.drop_last()), s.last() as u64)
    }
}

/// One label folded into the running hash: name, separator, value, separator.
pub open spec fn fnv_label(h: u64, l: LabelV) -> u64 {
    fnv_mix(fnv_chars(fnv_mix(fnv_chars(h, l.0), LABEL_NAME_SEP), l.1), LABEL_VALUE_SEP)
}

/// A label sequence folded into the running hash, first label first.
pub open spec fn fnv_labels(h: u64, ls: Seq<LabelV>) -> u64
    decreases ls.len(),
{
    if ls.len() == 0 {
        h
    } else {
        fnv_label(fnv_labels(h, ls.drop_last()), ls.last())
    }
}

/// The fingerprint of a label set: an FNV-1a hash of its labels in the order
/// they were given. Equal label sequences always fingerprint equally; two
/// label sets with the same pairs in a different order do not.
pub open spec fn spec_fingerprint(ls: Seq<LabelV>) -> u64 {
    fnv_labels(FNV_OFFSET_BASIS, ls)
}

/// Some stored series has this label-set fingerprint.
pub open spec fn has_fp(s: Seq<SeriesV>, fp: u64) -> bool {
    exists|i: int| 0 <= i < s.len() && spec_fingerprint(s[i].0) == fp
}

/// An index of a stored series with this fingerprint.
pub open spec fn fp_index(s: Seq<SeriesV>, fp: u64) -> int {
    choose|i: int| 0 <= i < s.len() && spec_fingerprint(s[i].0) == fp
}

/// No two stored series share a fingerprint.
pub open spec fn fps_unique(s: Seq<SeriesV>) -> bool {
    forall|i: int, j: int| 0 <= i < j < s.len() ==> spec_fingerprint(s[i].0)
        != spec_fingerprint(s[j].0)
}

/// A series added to a store: merged sample by sample into the series with
/// the same label-set fingerprint if one is stored, appended as a new series
/// otherwise. This is the store's only mutation.
pub open spec fn spec_add_series(
    s: Seq<SeriesV>,
    labels: Seq<LabelV>,
    samples: Seq<Sample>,
) -> Seq<SeriesV> {
    let fp = spec_fingerprint(labels);
    if has_fp(s, fp) {
        let i = fp_index(s, fp);
        s.update(i, (s[i].0, merge_samples(s[i].1, samples)))
    } else {
        s.push((labels, samples))
    }
}

/// The values seen for one label name: each value with the fingerprints of
/// the series that carry it.
pub type ValuesV = Seq<(Seq<char>, Seq<u64>)>;

/// The label index: for each label name ever indexed, its values.
pub type IndexV = Seq<(Seq<char>, ValuesV)>;

/// A fingerprint added to a value's series list, unless already listed.
pub open spec fn fps_add(fps: Seq<u64>, fp: u64) -> Seq<u64> {
    if fps.contains(fp) {
        fps
    } else {
        fps.push(fp)
    }
}

/// A value recorded under a name: added to the first entry with this value,
/// or appended as a new value.
pub open spec fn values_add(vals: ValuesV, value: Seq<char>, fp: u64) -> ValuesV
    decreases vals.len(),
{
    if vals.len() == 0 {
        seq![(value, seq![fp])]
    } else if vals[0].0 == value {
        seq![(vals[0].0, fps_add(vals[0].1, fp))] + vals.drop_first()
    } else {
        seq![vals[0]] + values_add(vals.drop_first(), value, fp)
    }
}

/// A label recorded in the index: under the first entry with its name, or
/// appended as a new name.
pub open spec fn index_add(ix: IndexV, name: Seq<char>, value: Seq<char>, fp: u64) -> IndexV
    decreases ix.len(),
{
    if ix.len() == 0 {
        seq![(name, seq![(value, seq![fp])])]
    } else if ix[0].0 == name {
        seq![(ix[0].0, values_add(ix[0].1, value, fp))] + ix.drop_first()
    } else {
        seq![ix[0]] + index_add(ix.drop_first(), name, value, fp)
    }
}

/// A whole label set recorded in the index, first label first.
pub open spec fn index_add_labels(ix: IndexV, labels: Seq<LabelV>, fp: u64) -> IndexV
    decreases labels.len(),
{
    if labels.len() == 0 {
        ix
    } else {
        index_add_labels(index_add(ix, labels[0].0, labels[0].1, fp), labels.drop_first(), fp)
    }
}

/// The values recorded for a name: those of the first index entry bearing it.
pub open spec fn index_lookup(ix: IndexV, name: Seq<char>) -> Option<ValuesV>
    decreases ix.len(),
{
    if ix.len() == 0 {
        None
    } else if ix[0].0 == name {
        Some(ix[0].1)
    } else {
        index_lookup(ix.drop_first(), name)
    }
}

/// Whether all of `ms` accept a series' labels, as a predicate on series
/// content.
pub open spec fn accepted_by(ms: Seq<LabelMatcher>) -> spec_fn(SeriesV) -> bool {
    |sv: SeriesV| crate::matchers::matches_all(ms, sv.0)
}

/// The names of the index's entries, in order.
pub open spec fn entry_names(ix: IndexV) -> Seq<Seq<char>> {
    ix.map_values(|e: (Seq<char>, ValuesV)| e.0)
}

/// The values of one name's entry, in recorded order.
pub open spec fn value_names(vals: ValuesV) -> Seq<Seq<char>> {
    vals.map_values(|p: (Seq<char>, Seq<u64>)| p.0)
}

/// A filter whose predicate holds of every element keeps the sequence whole.
pub proof fn lemma_filter_true_id<A>(s: Seq<A>, pred: spec_fn(A) -> bool)
    requires
        forall|i: int| 0 <= i < s.len() ==> pred(s[i]),
    ensures
        s.filter(pred) == s,
    decreases s.len(),
{
    reveal(Seq::filter);
    if s.len() == 0 {
        assert(s.filter(pred) =~= s);
    } else {
        lemma_filter_true_id(s.drop_last(), pred);
        assert(pred(s.last()));
        assert(s.drop_last().push(s.last()) =~= s);
    }
}

/// With no matchers a query keeps every stored series: the matcher
/// conjunction is vacuously true of an empty matcher list.
pub proof fn lemma_empty_matchers_keep_all(m: Seq<SeriesV>)
    ensures
        m.filter(accepted_by(Seq::<LabelMatcher>::empty())) == m,
{
    assert forall|i: int| 0 <= i < m.len() implies accepted_by(Seq::<LabelMatcher>::empty())(
        m[i],
    ) by {
        assert(crate::matchers::matches_all(Seq::<LabelMatcher>::empty(), m[i].0));
    }
    lemma_filter_true_id(m, accepted_by(Seq::<LabelMatcher>::empty()));
}

/// In a sorted series, after a sample is written, exactly one stored sample
/// carries its timestamp, and that sample holds the written value.
pub proof fn lemma_insert_sample_once(s: Seq<Sample>, x: Sample)
    requires
        sorted_by_timestamp(s),
    ensures
        exists|k: int| 0 <= k < insert_sample(s, x).len() && insert_sample(s, x)[k] == x,
        forall|k: int|
            0 <= k < insert_sample(s, x).len() && insert_sample(s, x)[k].timestamp == x.timestamp
                ==> insert_sample(s, x)[k] == x,
    decreases s.len(),
{
    let r = insert_sample(s, x);
    if s.len() == 0 {
        assert(r[0] == x);
    } else if x.timestamp < s[0].timestamp {
        assert(r[0] == x);
        assert forall|k: int| 0 <= k < r.len() && r[k].timestamp == x.timestamp implies r[k]
            == x by {
            if k > 0 {
                assert(r[k] == s[k - 1]);
                if k - 1 > 0 {
                    assert(s[0].timestamp < s[k - 1].timestamp);
                }
            }
        }
    } else if x.timestamp == s[0].timestamp {
        assert(r[0] == x);
        assert forall|k: int| 0 <= k < r.len() && r[k].timestamp == x.timestamp implies r[k]
            == x by {
            if k > 0 {
                assert(r[k] == s.drop_first()[k - 1]);
                assert(s[0].timestamp < s[k].timestamp);
            }
        }
    } else {
        let t = s.drop_first();
        lemma_insert_sample_once(t, x);
        let k0 = choose|k: int|
            0 <= k < insert_sample(t, x).len() && insert_sample(t, x)[k] == x;
        assert(r[k0 + 1] == x);
        assert forall|k: int| 0 <= k < r.len() && r[k].timestamp == x.timestamp implies r[k]
            == x by {
            if k == 0 {
                assert(r[0] == s[0]);
            } else {
                assert(r[k] == insert_sample(t, x)[k - 1]);
            }
        }
    }
}

/// Merging a one-sample batch is one sample write.
pub proof fn lemma_merge_single(a: Seq<Sample>, x: Sample)
    ensures
        merge_samples(a, seq![x]) == insert_sample(a, x),
{
    assert(seq![x].drop_first() =~= Seq::<Sample>::empty());
    assert(merge_samples(insert_sample(a, x), Seq::<Sample>::empty()) == insert_sample(a, x));
}

/// Adding a series whose fingerprint is already stored merges it and keeps
/// the series count; a new fingerprint appends exactly one series. Because
/// the first add stores the fingerprint, adding a series with the same label
/// set twice never creates a second entry.
pub proof fn lemma_add_series_count(
    m: Seq<SeriesV>,
    labels: Seq<LabelV>,
    b1: Seq<Sample>,
    b2: Seq<Sample>,
)
    ensures
        ({
            let fp = spec_fingerprint(labels);
            let m1 = spec_add_series(m, labels, b1);
            let m2 = spec_add_series(m1, labels, b2);
            &&& (has_fp(m, fp) ==> m1.len() == m.len())
            &&& (!has_fp(m, fp) ==> m1.len() == m.len() + 1)
            &&& m2.len() == m1.len()
        }),
{
    let fp = spec_fingerprint(labels);
    let m1 = spec_add_series(m, labels, b1);
    if has_fp(m, fp) {
        let i = fp_index(m, fp);
        assert(m1[i].0 == m[i].0);
        assert(has_fp(m1, fp));
    } else {
        assert(m1[m.len() as int].0 == labels);
        assert(has_fp(m1, fp));
    }
}

/// Inserting the same series and sample twice leaves the store with the same
/// number of series as one insert, and the stored series holds exactly one
/// sample at that timestamp, carrying the value written last.
pub proof fn lemma_store_last_write_wins(
    m: Seq<SeriesV>,
    labels: Seq<LabelV>,
    x1: Sample,
    x2: Sample,
)
    requires
        x1.timestamp == x2.timestamp,
        fps_unique(m),
        forall|i: int| 0 <= i < m.len() ==> sorted_by_timestamp(#[trigger] m[i].1),
    ensures
        ({
            let fp = spec_fingerprint(labels);
            let m1 = spec_add_series(m, labels, seq![x1]);
            let m2 = spec_add_series(m1, labels, seq![x2]);
            &&& m2.len() == m1.len()
            &&& has_fp(m2, fp)
            &&& ({
                let t = m2[fp_index(m2, fp)].1;
                &&& (exists|k: int| 0 <= k < t.len() && t[k] == x2)
                &&& (forall|k: int|
                    0 <= k < t.len() && t[k].timestamp == x2.timestamp ==> t[k] == x2)
            })
        }),
{
    let fp = spec_fingerprint(labels);
    let m1 = spec_add_series(m, labels, seq![x1]);
    let m2 = spec_add_series(m1, labels, seq![x2]);
    let a: Seq<Sample> = if has_fp(m, fp) {
        m[fp_index(m, fp)].1
    } else {
        Seq::<Sample>::empty()
    };
    let i: int = if has_fp(m, fp) {
        fp_index(m, fp)
    } else {
        m.len() as int
    };
    assert(m1[i].0 == if has_fp(m, fp) {
        m[i].0
    } else {
        labels
    });
    lemma_merge_single(a, x1);
    assert(spec_fingerprint(m1[i].0) == fp);
    assert(has_fp(m1, fp));
    assert(fps_unique(m1)) by {
        if has_fp(m, fp) {
            assert(forall|k: int| 0 <= k < m1.len() ==> (#[trigger] m1[k]).0 == m[k].0);
        }
    }
    let j = fp_index(m1, fp);
    assert(0 <= j < m1.len() && spec_fingerprint(m1[j].0) == fp);
    assert(j == i);
    assert(m1[i].1 == insert_sample(a, x1));
    assert(m2 == m1.update(i, (m1[i].0, merge_samples(m1[i].1, seq![x2]))));
    lemma_merge_single(insert_sample(a, x1), x2);
    lemma_last_write_wins(a, x1, x2);
    assert(m2[i].1 == insert_sample(a, x2));
    assert(has_fp(m2, fp)) by {
        assert(m2[i].0 == m1[i].0);
    }
    assert(fps_unique(m2)) by {
        assert(forall|k: int| 0 <= k < m2.len() ==> (#[trigger] m2[k]).0 == m1[k].0);
    }
    assert(fp_index(m2, fp) == i);
    assert(sorted_by_timestamp(a));
    lemma_insert_sample_once(a, x2);
}

/// With samples at three increasing timestamps, querying the inclusive range
/// that starts and ends at the middle timestamp returns exactly the middle
/// sample, and querying from the first to the third returns all three: both
/// range ends are inclusive.
pub proof fn lemma_range_inclusive_three(s: Seq<Sample>)
    requires
        s.len() == 3,
        sorted_by_timestamp(s),
    ensures
        in_range(s, s[1].timestamp, s[1].timestamp) == seq![s[1]],
        in_range(s, s[0].timestamp, s[2].timestamp) == s,
{
    let p = range_pred(s[1].timestamp, s[1].timestamp);
    let e = Seq::<Sample>::empty();
    assert(s =~= e.push(s[0]).push(s[1]).push(s[2]));
    e.lemma_filter_len(p);
    assert(e.filter(p) =~= e);
    e.lemma_filter_push(s[0], p);
    assert(!p(s[0]));
    e.push(s[0]).lemma_filter_push(s[1], p);
    assert(p(s[1]));
    e.push(s[0]).push(s[1]).lemma_filter_push(s[2], p);
    assert(!p(s[2]));
    assert(s.filter(p) =~= seq![s[1]]);
    let q = range_pred(s[0].timestamp, s[2].timestamp);
    assert(forall|i: int| 0 <= i < s.len() ==> q(s[i]));
    lemma_filter_true_id(s, q);
}

/// Storage for time series, keyed by label-set fingerprint.
pub trait Storage {
    /// The invariant that every mutation preserves: fingerprints are unique
    /// and every stored series keeps its samples sorted.
    spec fn inv(&self) -> bool;

    /// The stored series' content, in storage order.
    spec fn model(&self) -> Seq<SeriesV>;

    /// The label index's content.
    spec fn index_model(&self) -> IndexV;

    /// Add a time series: its samples merge into the stored series with the
    /// same label-set fingerprint, last write winning on equal timestamps; a
    /// series with a new fingerprint is appended and its labels are indexed.
    /// A merged (duplicate) series is not re-indexed.
    fn add_series(&mut self, ts: TimeSeries)
        requires
            old(self).inv(),
            ts.wf(),
        ensures
            final(self).inv(),
            final(self).model() == spec_add_series(
                old(self).model(),
                labels_view(ts.labels@),
                ts.samples@,
            ),
            final(self).index_model() == if has_fp(old(self).model(), spec_fingerprint(labels_view(ts.labels@))) {
                old(self).index_model()
            } else {
                index_add_labels(
                    old(self).index_model(),
                    labels_view(ts.labels@),
                    spec_fingerprint(labels_view(ts.labels@)),
                )
            },
    ;

    /// Every stored series that all the given matchers accept — the
    /// conjunction is vacuously true for an empty matcher list — as
    /// independent copies, in storage order.
    fn query_series(&self, matchers: &[LabelMatcher]) -> (r: Vec<TimeSeries>)
        ensures
            store_view(r@) == self.model().filter(accepted_by(matchers@)),
    ;
}

/// Metadata lookups over the label index.
pub trait MetadataStorage {
    /// The label index's content.
    spec fn metadata_model(&self) -> IndexV;

    /// Every label name ever indexed, in first-indexed order.
    fn label_names(&self) -> (r: Vec<String>)
        ensures
            crate::strutil::str_views(r@) == entry_names(self.metadata_model()),
    ;

    /// The values known for a label name, sorted lexicographically; empty if
    /// the name was never indexed.
    fn label_values(&self, name: &str) -> (r: Vec<String>)
        ensures
            crate::strutil::str_views(r@) == match index_lookup(self.metadata_model(), name@) {
                Some(vals) => value_names(vals).sort_by(crate::strutil::lex_leq()),
                None => Seq::<Seq<char>>::empty(),
            },
    ;
}

/// Storage offering both the data and the metadata operations.
pub trait FullStorage: Storage + MetadataStorage {

}

} // verus!
