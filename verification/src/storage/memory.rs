//! The in-memory storage engine: series keyed by label-set fingerprint, with
//! a secondary label index for metadata queries.

use vstd::prelude::*;
use vstd::string::StrSliceExecFns;

use crate::matchers::{matches_all, LabelMatcher};
use crate::storage::{
    accepted_by, entry_names, fnv_chars, fnv_labels, fp_index, fps_add, fps_unique, has_fp,
    index_add, index_add_labels, index_lookup, labels_view, merge_samples, sorted_by_timestamp,
    spec_fingerprint, store_view, ts_view, value_names, values_add, FullStorage, IndexV, Label,
    MetadataStorage, Sample, SeriesV, Storage, TimeSeries, ValuesV, FNV_OFFSET_BASIS,
    FNV_PRIME, LABEL_NAME_SEP, LABEL_VALUE_SEP,
};
use crate::storage::lemma_merge_samples_push;
use crate::storage::lemma_merge_samples_sorted;
use crate::strutil::{lex_le, lex_leq, sorted_lex, str_eq, str_lex_le, str_views};
use crate::strutil::{
    lemma_lex_le_connected, lemma_lex_le_total_ordering, lemma_lex_le_transitive,
};

verus! {

/// The series fingerprints known for one label value.
pub struct ValueEntry {
    pub value: String,
    pub fps: Vec<u64>,
}

/// The values seen for one label name.
pub struct IndexEntry {
    pub name: String,
    pub values: Vec<ValueEntry>,
}

/// The content of a value list.
pub open spec fn values_view(vals: Seq<ValueEntry>) -> ValuesV {
    vals.map_values(|v: ValueEntry| (v.value@, v.fps@))
}

/// The content of the label index.
pub open spec fn index_view(ix: Seq<IndexEntry>) -> IndexV {
    ix.map_values(|e: IndexEntry| (e.name@, values_view(e.values@)))
}

/// In-memory storage for time series data with label indexing.
pub struct MemoryStorage {
    series: Vec<TimeSeries>,
    index: Vec<IndexEntry>,
}

/// Where a scan for the first entry with this value stops at `p`,
/// `values_add` either updates entry `p` or appends a new one.
proof fn lemma_values_add_at(vals: ValuesV, value: Seq<char>, fp: u64, p: int)
    requires
        0 <= p <= vals.len(),
        forall|k: int| 0 <= k < p ==> vals[k].0 != value,
        p < vals.len() ==> vals[p].0 == value,
    ensures
        p < vals.len() ==> values_add(vals, value, fp) == vals.update(
            p,
            (vals[p].0, fps_add(vals[p].1, fp)),
        ),
        p == vals.len() ==> values_add(vals, value, fp) == vals.push((value, seq![fp])),
    decreases p,
{
    if p == 0 {
        if vals.len() == 0 {
            assert(values_add(vals, value, fp) =~= vals.push((value, seq![fp])));
        } else if vals[0].0 == value {
            assert(seq![(vals[0].0, fps_add(vals[0].1, fp))] + vals.drop_first() =~= vals.update(
                0,
                (vals[0].0, fps_add(vals[0].1, fp)),
            ));
        }
    } else {
        let t = vals.drop_first();
        lemma_values_add_at(t, value, fp, p - 1);
        if p < vals.len() {
            assert(seq![vals[0]] + t.update(p - 1, (t[p - 1].0, fps_add(t[p - 1].1, fp)))
                =~= vals.update(p, (vals[p].0, fps_add(vals[p].1, fp))));
        } else {
            assert(seq![vals[0]] + t.push((value, seq![fp])) =~= vals.push((value, seq![fp])));
        }
    }
}

/// Where a scan for the first entry with this name stops at `p`, `index_add`
/// either updates entry `p` or appends a new one.
proof fn lemma_index_add_at(ix: IndexV, name: Seq<char>, value: Seq<char>, fp: u64, p: int)
    requires
        0 <= p <= ix.len(),
        forall|k: int| 0 <= k < p ==> ix[k].0 != name,
        p < ix.len() ==> ix[p].0 == name,
    ensures
        p < ix.len() ==> index_add(ix, name, value, fp) == ix.update(
            p,
            (ix[p].0, values_add(ix[p].1, value, fp)),
        ),
        p == ix.len() ==> index_add(ix, name, value, fp) == ix.push(
            (name, seq![(value, seq![fp])]),
        ),
    decreases p,
{
    if p == 0 {
        if ix.len() == 0 {
            assert(index_add(ix, name, value, fp) =~= ix.push((name, seq![(value, seq![fp])])));
        } else if ix[0].0 == name {
            assert(seq![(ix[0].0, values_add(ix[0].1, value, fp))] + ix.drop_first() =~= ix.update(
                0,
                (ix[0].0, values_add(ix[0].1, value, fp)),
            ));
        }
    } else {
        let t = ix.drop_first();
        lemma_index_add_at(t, name, value, fp, p - 1);
        if p < ix.len() {
            assert(seq![ix[0]] + t.update(p - 1, (t[p - 1].0, values_add(t[p - 1].1, value, fp)))
                =~= ix.update(p, (ix[p].0, values_add(ix[p].1, value, fp))));
        } else {
            assert(seq![ix[0]] + t.push((name, seq![(value, seq![fp])])) =~= ix.push(
                (name, seq![(value, seq![fp])]),
            ));
        }
    }
}

/// Where a scan for the first entry with this name stops at `p`,
/// `index_lookup` answers with entry `p`, or with nothing past the end.
proof fn lemma_index_lookup_at(ix: IndexV, name: Seq<char>, p: int)
    requires
        0 <= p <= ix.len(),
        forall|k: int| 0 <= k < p ==> ix[k].0 != name,
        p < ix.len() ==> ix[p].0 == name,
    ensures
        p < ix.len() ==> index_lookup(ix, name) == Some(ix[p].1),
        p == ix.len() ==> index_lookup(ix, name) is None,
    decreases p,
{
    if p > 0 {
        lemma_index_lookup_at(ix.drop_first(), name, p - 1);
    }
}

/// Recording one more label folds it in last.
proof fn lemma_index_add_labels_push(
    ix: IndexV,
    labels: Seq<(Seq<char>, Seq<char>)>,
    l: (Seq<char>, Seq<char>),
    fp: u64,
)
    ensures
        index_add_labels(ix, labels.push(l), fp) == index_add(
            index_add_labels(ix, labels, fp),
            l.0,
            l.1,
            fp,
        ),
    decreases labels.len(),
{
    if labels.len() == 0 {
        let s = labels.push(l);
        assert(s[0] == l);
        assert(s.drop_first() =~= labels);
        assert(index_add_labels(ix, s, fp) == index_add_labels(
            index_add(ix, l.0, l.1, fp),
            labels,
            fp,
        ));
        assert(index_add_labels(index_add(ix, l.0, l.1, fp), labels, fp) == index_add(
            ix,
            l.0,
            l.1,
            fp,
        ));
    } else {
        assert(labels.push(l)[0] == labels[0]);
        assert(labels.push(l).drop_first() =~= labels.drop_first().push(l));
        lemma_index_add_labels_push(
            index_add(ix, labels[0].0, labels[0].1, fp),
            labels.drop_first(),
            l,
            fp,
        );
    }
}

/// Fold one string into a running FNV-1a hash.
fn fnv_str(h0: u64, s: &String) -> (r: u64)
    ensures
        r == fnv_chars(h0, s@),
{
    let mut h = h0;
    let n = s.as_str().unicode_len();
    let mut i: usize = 0;
    while i < n
        invariant
            i <= n,
            n == s@.len(),
            h == fnv_chars(h0, s@.take(i as int)),
        decreases n - i,
    {
        let c = s.as_str().get_char(i);
        proof {
            assert(s@.take((i + 1) as int).drop_last() =~= s@.take(i as int));
            assert(s@.take((i + 1) as int).last() == s@[i as int]);
        }
        h = (h ^ (c as u64)).wrapping_mul(FNV_PRIME);
        i += 1;
    }
    proof {
        assert(s@.take(n as int) =~= s@);
    }
    h
}

/// Add a fingerprint to a value's series list unless it is already there.
fn add_fp(fps: &mut Vec<u64>, fp: u64)
    ensures
        final(fps)@ == fps_add(old(fps)@, fp),
{
    let mut i: usize = 0;
    while i < fps.len()
        invariant
            i <= fps@.len(),
            fps@ == old(fps)@,
            forall|k: int| 0 <= k < i ==> fps@[k] != fp,
        decreases fps@.len() - i,
    {
        if fps[i] == fp {
            proof {
                assert(old(fps)@.contains(fp));
            }
            return ;
        }
        i += 1;
    }
    proof {
        if old(fps)@.contains(fp) {
            let k = choose|k: int| 0 <= k < old(fps)@.len() && old(fps)@[k] == fp;
            assert(false);
        }
    }
    fps.push(fp);
}

/// Record a value under one index entry.
fn add_value(vals: &mut Vec<ValueEntry>, value: &String, fp: u64)
    ensures
        values_view(final(vals)@) == values_add(values_view(old(vals)@), value@, fp),
{
    let mut p: usize = 0;
    while p < vals.len() && !str_eq(vals[p].value.as_str(), value.as_str())
        invariant
            p <= vals@.len(),
            vals@ == old(vals)@,
            forall|k: int| 0 <= k < p ==> values_view(vals@)[k].0 != value@,
        decreases vals@.len() - p,
    {
        p += 1;
    }
    proof {
        lemma_values_add_at(values_view(old(vals)@), value@, fp, p as int);
    }
    if p < vals.len() {
        let e = &mut vals[p];
        add_fp(&mut e.fps, fp);
        proof {
            assert(values_view(vals@) =~= values_add(values_view(old(vals)@), value@, fp));
        }
    } else {
        let mut fps: Vec<u64> = Vec::new();
        fps.push(fp);
        vals.push(ValueEntry { value: value.clone(), fps });
        proof {
            assert(values_view(vals@) =~= values_add(values_view(old(vals)@), value@, fp));
        }
    }
}

/// Record one label in the index.
fn add_label(ix: &mut Vec<IndexEntry>, name: &String, value: &String, fp: u64)
    ensures
        index_view(final(ix)@) == index_add(index_view(old(ix)@), name@, value@, fp),
{
    let mut p: usize = 0;
    while p < ix.len() && !str_eq(ix[p].name.as_str(), name.as_str())
        invariant
            p <= ix@.len(),
            ix@ == old(ix)@,
            forall|k: int| 0 <= k < p ==> index_view(ix@)[k].0 != name@,
        decreases ix@.len() - p,
    {
        p += 1;
    }
    proof {
        lemma_index_add_at(index_view(old(ix)@), name@, value@, fp, p as int);
    }
    if p < ix.len() {
        let e = &mut ix[p];
        add_value(&mut e.values, value, fp);
        proof {
            assert(index_view(ix@) =~= index_add(index_view(old(ix)@), name@, value@, fp));
        }
    } else {
        let mut fps: Vec<u64> = Vec::new();
        fps.push(fp);
        let mut values: Vec<ValueEntry> = Vec::new();
        values.push(ValueEntry { value: value.clone(), fps });
        ix.push(IndexEntry { name: name.clone(), values });
        proof {
            assert(values_view(ix@[ix@.len() - 1].values@) =~= seq![(value@, seq![fp])]);
            assert(index_view(ix@) =~= index_add(index_view(old(ix)@), name@, value@, fp));
        }
    }
}

/// Merge a batch of samples into a series, one at a time.
fn merge_new_samples(dst: &mut TimeSeries, src: &Vec<Sample>)
    ensures
        final(dst).labels == old(dst).labels,
        final(dst).samples@ == merge_samples(old(dst).samples@, src@),
{
    let mut j: usize = 0;
    while j < src.len()
        invariant
            j <= src@.len(),
            dst.labels == old(dst).labels,
            dst.samples@ == merge_samples(old(dst).samples@, src@.take(j as int)),
        decreases src@.len() - j,
    {
        proof {
            src@.lemma_take_succ_push(j as int);
            lemma_merge_samples_push(old(dst).samples@, src@.take(j as int), src@[j as int]);
        }
        dst.add_sample(src[j]);
        j += 1;
    }
    proof {
        assert(src@.take(src@.len() as int) =~= src@);
    }
}

/// Keep only the strings `s` with `lex_le(r[k], s)` for what stands before
/// them: insert in lexicographic order.
fn sorted_insert(r: &mut Vec<String>, s: String)
    requires
        sorted_lex(str_views(old(r)@)),
    ensures
        sorted_lex(str_views(final(r)@)),
        str_views(final(r)@).to_multiset() == str_views(old(r)@).to_multiset().insert(s@),
{
    broadcast use vstd::seq_lib::group_to_multiset_ensures;
    broadcast use vstd::multiset::group_multiset_axioms;

    let ghost leq = lex_leq();
    let mut p: usize = 0;
    while p < r.len() && str_lex_le(r[p].as_str(), s.as_str())
        invariant
            p <= r@.len(),
            r@ == old(r)@,
            forall|k: int| 0 <= k < p ==> lex_le(str_views(r@)[k], s@),
        decreases r@.len() - p,
    {
        p += 1;
    }
    r.insert(p, s);
    proof {
        let ov = str_views(old(r)@);
        let nv = str_views(r@);
        assert(nv =~= ov.insert(p as int, s@));
        assert forall|i: int, j: int| 0 <= i < j < nv.len() implies leq(nv[i], nv[j]) by {
            if j < p {
                assert(leq(ov[i], ov[j]));
            } else if i > p {
                assert(leq(ov[i - 1], ov[j - 1]));
            } else if i < p && j == p {
                assert(leq(ov[i], s@));
            } else if i == p && j > p {
                if p < ov.len() {
                    lemma_lex_le_connected(ov[p as int], s@);
                    assert(leq(s@, ov[p as int]));
                    if j - 1 > p {
                        assert(leq(ov[p as int], ov[j - 1]));
                        lemma_lex_le_transitive(s@, ov[p as int], ov[j - 1]);
                    }
                }
            } else if i < p && j > p {
                assert(leq(ov[i], ov[j - 1]));
            }
        }
        assert(sorted_lex(nv));
        let t = ov.insert(p as int, s@);
        assert(t.remove(p as int) =~= ov);
        assert(t[p as int] == s@);
        assert(t.remove(p as int).to_multiset() =~= t.to_multiset().remove(s@));
        assert(t.to_multiset().contains(s@)) by {
            assert(t[p as int] == s@);
        }
        assert(t.to_multiset() =~= ov.to_multiset().insert(s@));
    }
}

impl MemoryStorage {
    /// Create a new empty in-memory storage.
    pub fn new() -> (r: MemoryStorage)
        ensures
            r.inv(),
            r.model() == Seq::<SeriesV>::empty(),
            r.index_model() == Seq::<(Seq<char>, ValuesV)>::empty(),
    {
        let r = MemoryStorage { series: Vec::new(), index: Vec::new() };
        proof {
            assert(r.model() =~= Seq::<SeriesV>::empty());
            assert(r.index_model() =~= Seq::<(Seq<char>, ValuesV)>::empty());
        }
        r
    }

    /// The fingerprint of a label set: an FNV-1a hash of the labels in the
    /// order given.
    pub fn fingerprint(labels: &[Label]) -> (r: u64)
        ensures
            r == spec_fingerprint(labels_view(labels@)),
    {
        let ghost lv = labels_view(labels@);
        let mut h: u64 = FNV_OFFSET_BASIS;
        let mut i: usize = 0;
        while i < labels.len()
            invariant
                i <= labels@.len(),
                lv == labels_view(labels@),
                h == fnv_labels(FNV_OFFSET_BASIS, lv.take(i as int)),
            decreases labels@.len() - i,
        {
            proof {
                assert(lv.take((i + 1) as int).drop_last() =~= lv.take(i as int));
                assert(lv.take((i + 1) as int).last() == lv[i as int]);
            }
            h = fnv_str(h, &labels[i].name);
            h = (h ^ LABEL_NAME_SEP).wrapping_mul(FNV_PRIME);
            h = fnv_str(h, &labels[i].value);
            h = (h ^ LABEL_VALUE_SEP).wrapping_mul(FNV_PRIME);
            i += 1;
        }
        proof {
            assert(lv.take(labels@.len() as int) =~= lv);
        }
        h
    }

    /// Check whether a series' labels satisfy all of the given matchers.
    fn matches_series(ts: &TimeSeries, matchers: &[LabelMatcher]) -> (r: bool)
        ensures
            r == matches_all(matchers@, labels_view(ts.labels@)),
    {
        let mut j: usize = 0;
        while j < matchers.len()
            invariant
                j <= matchers@.len(),
                forall|k: int| 0 <= k < j ==> matchers@[k].spec_matches(labels_view(ts.labels@)),
            decreases matchers@.len() - j,
        {
            if !matchers[j].matches(ts.labels.as_slice()) {
                return false;
            }
            j += 1;
        }
        true
    }

    /// Record every label of a new series in the index.
    fn update_label_index(&mut self, labels: &Vec<Label>, fp: u64)
        ensures
            final(self).series == old(self).series,
            index_view(final(self).index@) == index_add_labels(
                index_view(old(self).index@),
                labels_view(labels@),
                fp,
            ),
    {
        let ghost lv = labels_view(labels@);
        let mut i: usize = 0;
        while i < labels.len()
            invariant
                i <= labels@.len(),
                lv == labels_view(labels@),
                self.series == old(self).series,
                index_view(self.index@) == index_add_labels(
                    index_view(old(self).index@),
                    lv.take(i as int),
                    fp,
                ),
            decreases labels@.len() - i,
        {
            proof {
                lv.lemma_take_succ_push(i as int);
                lemma_index_add_labels_push(
                    index_view(old(self).index@),
                    lv.take(i as int),
                    lv[i as int],
                    fp,
                );
            }
            add_label(&mut self.index, &labels[i].name, &labels[i].value, fp);
            i += 1;
        }
        proof {
            assert(lv.take(labels@.len() as int) =~= lv);
        }
    }
}

impl Default for MemoryStorage {
    fn default() -> (r: MemoryStorage)
        ensures
            r.inv(),
            r.model() == Seq::<SeriesV>::empty(),
            r.index_model() == Seq::<(Seq<char>, ValuesV)>::empty(),
    {
        MemoryStorage::new()
    }
}

impl Storage for MemoryStorage {
    closed spec fn inv(&self) -> bool {
        &&& fps_unique(store_view(self.series@))
        &&& forall|i: int| 0 <= i < self.series@.len() ==> sorted_by_timestamp(
            self.series@[i].samples@,
        )
    }

    closed spec fn model(&self) -> Seq<SeriesV> {
        store_view(self.series@)
    }

    closed spec fn index_model(&self) -> IndexV {
        index_view(self.index@)
    }

    fn add_series(&mut self, ts: TimeSeries) {
        let fp = MemoryStorage::fingerprint(ts.labels.as_slice());
        let ghost m0 = store_view(old(self).series@);
        let mut i: usize = 0;
        while i < self.series.len() && MemoryStorage::fingerprint(self.series[i].labels.as_slice())
            != fp
            invariant
                i <= self.series@.len(),
                self.series == old(self).series,
                self.index == old(self).index,
                fp == spec_fingerprint(labels_view(ts.labels@)),
                forall|k: int| 0 <= k < i ==> spec_fingerprint(m0[k].0) != fp,
                m0 == store_view(self.series@),
            decreases self.series@.len() - i,
        {
            i += 1;
        }
        if i < self.series.len() {
            proof {
                assert(spec_fingerprint(m0[i as int].0) == fp);
                assert(has_fp(m0, fp));
                let j = fp_index(m0, fp);
                assert(0 <= j < m0.len() && spec_fingerprint(m0[j].0) == fp);
                if j != i as int {
                    assert(false);
                }
            }
            let dst = &mut self.series[i];
            merge_new_samples(dst, &ts.samples);
            proof {
                let iv = i as int;
                assert(self.series@ =~= old(self).series@.update(
                    iv,
                    self.series@[iv],
                ));
                assert(ts_view(self.series@[iv]) == (
                    m0[iv].0,
                    merge_samples(m0[iv].1, ts.samples@),
                ));
                assert(store_view(self.series@) =~= m0.update(
                    iv,
                    (m0[iv].0, merge_samples(m0[iv].1, ts.samples@)),
                ));
                lemma_merge_samples_sorted(old(self).series@[iv].samples@, ts.samples@);
                assert(fps_unique(store_view(self.series@)));
            }
        } else {
            proof {
                if has_fp(m0, fp) {
                    let j = fp_index(m0, fp);
                    assert(false);
                }
            }
            self.update_label_index(&ts.labels, fp);
            proof {
                assert(store_view(self.series@) == m0);
            }
            self.series.push(ts);
            proof {
                assert(store_view(self.series@) =~= m0.push(
                    (labels_view(ts.labels@), ts.samples@),
                ));
                assert(fps_unique(store_view(self.series@)));
            }
        }
    }

    fn query_series(&self, matchers: &[LabelMatcher]) -> (r: Vec<TimeSeries>)
    {
        let mut r: Vec<TimeSeries> = Vec::new();
        let mut i: usize = 0;
        proof {
            assert(store_view(r@) =~= store_view(self.series@).take(0).filter(
                accepted_by(matchers@),
            ));
        }
        while i < self.series.len()
            invariant
                i <= self.series@.len(),
                store_view(r@) == store_view(self.series@).take(i as int).filter(
                    accepted_by(matchers@),
                ),
            decreases self.series@.len() - i,
        {
            let ghost m = store_view(self.series@);
            proof {
                m.lemma_take_succ_push(i as int);
                m.take(i as int).lemma_filter_push(m[i as int], accepted_by(matchers@));
            }
            if MemoryStorage::matches_series(&self.series[i], matchers) {
                let copied = self.series[i].clone();
                r.push(copied);
                proof {
                    assert(ts_view(r@[r@.len() - 1]) == m[i as int]);
                    assert(store_view(r@) =~= m.take(i as int).filter(
                        accepted_by(matchers@),
                    ).push(m[i as int]));
                }
            }
            i += 1;
        }
        proof {
            assert(store_view(self.series@).take(self.series@.len() as int) =~= store_view(
                self.series@,
            ));
        }
        r
    }
}

impl MetadataStorage for MemoryStorage {
    closed spec fn metadata_model(&self) -> IndexV {
        index_view(self.index@)
    }

    fn label_names(&self) -> (r: Vec<String>)
    {
        let mut r: Vec<String> = Vec::new();
        let mut i: usize = 0;
        while i < self.index.len()
            invariant
                i <= self.index@.len(),
                str_views(r@) =~= entry_names(index_view(self.index@)).take(i as int),
            decreases self.index@.len() - i,
        {
            let ghost r0 = r@;
            r.push(self.index[i].name.clone());
            proof {
                let full = entry_names(index_view(self.index@));
                assert(full[i as int] == self.index@[i as int].name@);
                assert(r@ == r0.push(r@[r0.len() as int]));
                assert(r@[r0.len() as int]@ == self.index@[i as int].name@);
                assert(str_views(r0).len() == full.take(i as int).len());
                assert(r0.len() == i);
                assert(r@.len() == r0.len() + 1);
                assert(str_views(r@).len() == i + 1);
                assert forall|k: int| 0 <= k < i + 1 implies str_views(r@)[k] == full.take(
                    (i + 1) as int,
                )[k] by {
                    if k < i {
                        assert(str_views(r@)[k] == str_views(r0)[k]);
                        assert(str_views(r0)[k] == full.take(i as int)[k]);
                    } else {
                        assert(str_views(r@)[k] == r@[k]@);
                    }
                }
                assert(str_views(r@) =~= full.take((i + 1) as int));
            }
            i += 1;
        }
        proof {
            let full = entry_names(index_view(self.index@));
            assert(full.take(full.len() as int) =~= full);
        }
        r
    }

    fn label_values(&self, name: &str) -> (r: Vec<String>)
    {
        let ghost ixv = index_view(self.index@);
        let mut p: usize = 0;
        while p < self.index.len() && !str_eq(self.index[p].name.as_str(), name)
            invariant
                p <= self.index@.len(),
                ixv == index_view(self.index@),
                forall|k: int| 0 <= k < p ==> ixv[k].0 != name@,
            decreases self.index@.len() - p,
        {
            p += 1;
        }
        proof {
            lemma_index_lookup_at(ixv, name@, p as int);
        }
        let mut r: Vec<String> = Vec::new();
        if p == self.index.len() {
            proof {
                assert(str_views(r@) =~= Seq::<Seq<char>>::empty());
            }
            return r;
        }
        let vals = &self.index[p].values;
        let ghost vv = value_names(values_view(vals@));
        proof {
            broadcast use vstd::seq_lib::group_to_multiset_ensures;

            assert(ixv[p as int].1 == values_view(vals@));
            assert(str_views(r@) =~= vv.take(0));
        }
        let mut j: usize = 0;
        while j < vals.len()
            invariant
                j <= vals@.len(),
                vv == value_names(values_view(vals@)),
                sorted_lex(str_views(r@)),
                str_views(r@).to_multiset() == vv.take(j as int).to_multiset(),
            decreases vals@.len() - j,
        {
            proof {
                broadcast use vstd::seq_lib::group_to_multiset_ensures;

                vv.lemma_take_succ_push(j as int);
                assert(vv[j as int] == vals@[j as int].value@);
            }
            sorted_insert(&mut r, vals[j].value.clone());
            j += 1;
        }
        proof {
            broadcast use vstd::seq_lib::group_to_multiset_ensures;

            assert(vv.take(vals@.len() as int) =~= vv);
            let leq = lex_leq();
            lemma_lex_le_total_ordering();
            vv.lemma_sort_by_ensures(leq);
            let rv = str_views(r@);
            assert(rv.to_multiset() == vv.sort_by(leq).to_multiset());
            vstd::seq_lib::lemma_sorted_unique(rv, vv.sort_by(leq), leq);
            assert(rv =~= vv.sort_by(leq));
        }
        r
    }
}

impl FullStorage for MemoryStorage {

}

/// For the in-memory store, the index the metadata lookups answer from is
/// the very index the mutations describe: `metadata_model` and `index_model`
/// name the same content. With it, what `add_series` states of the index
/// carries over to `label_names` and `label_values` — a fresh store, for
/// one, has no label names.
pub proof fn lemma_metadata_model_is_index_model(s: MemoryStorage)
    ensures
        s.metadata_model() == s.index_model(),
{
}

} // verus!
