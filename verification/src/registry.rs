//! In-memory store of named, labelled gauge samples.  A sample's identity
//! is its family name together with its canonically ordered label pairs;
//! writing to an existing identity overwrites the value and never creates
//! a duplicate series.  Series are never removed.

use vstd::prelude::*;
use crate::text::{
    lex_le, lex_lt, lemma_lex_total, lemma_lex_trans, chars_lt, chars_eq, to_chars,
};

verus! {

/// One label pair at the specification level: key and value.
pub type LabelV = (Seq<char>, Seq<char>);

/// One sample at the specification level.
pub struct SampleV {
    pub labels: Seq<LabelV>,
    pub value: u64,
}

/// One metric family at the specification level.
pub struct FamilyV {
    pub name: Seq<char>,
    pub help: Seq<char>,
    pub samples: Seq<SampleV>,
}

/// View of a label list.
pub open spec fn labels_view(labels: Seq<(String, String)>) -> Seq<LabelV> {
    labels.map_values(|p: (String, String)| (p.0@, p.1@))
}

/// One (label set, value) observation within a family.
pub struct MetricSample {
    pub labels: Vec<(String, String)>,
    pub value: u64,
}

impl View for MetricSample {
    type V = SampleV;

    open spec fn view(&self) -> SampleV {
        SampleV { labels: labels_view(self.labels@), value: self.value }
    }
}

/// A named group of samples sharing a help text; the type is always gauge.
pub struct MetricFamily {
    pub name: String,
    pub help: String,
    pub samples: Vec<MetricSample>,
}

impl View for MetricFamily {
    type V = FamilyV;

    open spec fn view(&self) -> FamilyV {
        FamilyV {
            name: self.name@,
            help: self.help@,
            samples: self.samples@.map_values(|s: MetricSample| s@),
        }
    }
}

/// The registry: families in order of first appearance.
pub struct MetricRegistry {
    families: Vec<MetricFamily>,
}

impl View for MetricRegistry {
    type V = Seq<FamilyV>;

    closed spec fn view(&self) -> Seq<FamilyV> {
        self.families@.map_values(|f: MetricFamily| f@)
    }
}

/// Label pairs ordered by key, non-strictly.
pub open spec fn labels_sorted(labels: Seq<LabelV>) -> bool {
    forall|i: int, j: int| 0 <= i < j < labels.len() ==> lex_le(labels[i].0, labels[j].0)
}

/// Inserts a pair into a key-ordered pair sequence, after any equal keys.
pub open spec fn insert_pair(p: LabelV, s: Seq<LabelV>) -> Seq<LabelV>
    decreases s.len(),
{
    if s.len() == 0 {
        seq![p]
    } else if lex_le(s[0].0, p.0) {
        seq![s[0]] + insert_pair(p, s.drop_first())
    } else {
        seq![p] + s
    }
}

/// Canonical form of a label list: stable insertion sort by key.
pub open spec fn sort_pairs(s: Seq<LabelV>) -> Seq<LabelV>
    decreases s.len(),
{
    if s.len() == 0 {
        Seq::empty()
    } else {
        insert_pair(s.last(), sort_pairs(s.drop_last()))
    }
}

/// A sample is well formed when its labels are in canonical order.
pub open spec fn sample_wf(s: SampleV) -> bool {
    labels_sorted(s.labels)
}

/// A family is well formed when its samples are well formed and no two
/// share a label set.
pub open spec fn family_wf(f: FamilyV) -> bool {
    &&& forall|i: int| 0 <= i < f.samples.len() ==> sample_wf(#[trigger] f.samples[i])
    &&& forall|i: int, j: int|
        0 <= i < j < f.samples.len() ==> f.samples[i].labels != f.samples[j].labels
}

/// The registry is well formed when its families are and no two share a
/// name.
pub open spec fn registry_wf(reg: Seq<FamilyV>) -> bool {
    &&& forall|i: int| 0 <= i < reg.len() ==> family_wf(#[trigger] reg[i])
    &&& forall|i: int, j: int| 0 <= i < j < reg.len() ==> reg[i].name != reg[j].name
}

/// Index of the family called `name`, or -1.
pub open spec fn find_family(reg: Seq<FamilyV>, name: Seq<char>) -> int
    decreases reg.len(),
{
    if reg.len() == 0 {
        -1
    } else if reg[0].name == name {
        0
    } else {
        let r = find_family(reg.drop_first(), name);
        if r == -1 {
            -1
        } else {
            r + 1
        }
    }
}

pub proof fn lemma_find_family(reg: Seq<FamilyV>, name: Seq<char>)
    ensures
        -1 <= find_family(reg, name) < reg.len(),
        find_family(reg, name) >= 0 ==> reg[find_family(reg, name)].name == name,
        find_family(reg, name) == -1 ==> forall|i: int|
            0 <= i < reg.len() ==> (#[trigger] reg[i]).name != name,
        forall|i: int| 0 <= i < find_family(reg, name) ==> (#[trigger] reg[i]).name != name,
    decreases reg.len(),
{
    if reg.len() > 0 && reg[0].name != name {
        let d = reg.drop_first();
        lemma_find_family(d, name);
        assert forall|i: int|
            0 <= i < reg.len() && (find_family(reg, name) == -1 || i < find_family(reg, name))
            implies (#[trigger] reg[i]).name != name by {
            if i > 0 {
                assert(d[i - 1] == reg[i]);
                assert(d[i - 1].name != name);
            }
        }
    }
}

/// Index of the sample with exactly these labels, or -1.
pub open spec fn find_sample(samples: Seq<SampleV>, labels: Seq<LabelV>) -> int
    decreases samples.len(),
{
    if samples.len() == 0 {
        -1
    } else if samples[0].labels == labels {
        0
    } else {
        let r = find_sample(samples.drop_first(), labels);
        if r == -1 {
            -1
        } else {
            r + 1
        }
    }
}

pub proof fn lemma_find_sample(samples: Seq<SampleV>, labels: Seq<LabelV>)
    ensures
        -1 <= find_sample(samples, labels) < samples.len(),
        find_sample(samples, labels) >= 0 ==> samples[find_sample(samples, labels)].labels
            == labels,
        find_sample(samples, labels) == -1 ==> forall|i: int|
            0 <= i < samples.len() ==> (#[trigger] samples[i]).labels != labels,
        forall|i: int| 0 <= i < find_sample(samples, labels) ==> (#[trigger] samples[i]).labels
            != labels,
    decreases samples.len(),
{
    if samples.len() > 0 && samples[0].labels != labels {
        let d = samples.drop_first();
        lemma_find_sample(d, labels);
        assert forall|i: int|
            0 <= i < samples.len() && (find_sample(samples, labels) == -1 || i < find_sample(
                samples,
                labels,
            )) implies (#[trigger] samples[i]).labels != labels by {
            if i > 0 {
                assert(d[i - 1] == samples[i]);
                assert(d[i - 1].labels != labels);
            }
        }
    }
}

/// A family after writing `(labels, value)` into it.
pub open spec fn family_upsert(f: FamilyV, labels: Seq<LabelV>, value: u64) -> FamilyV {
    let k = find_sample(f.samples, labels);
    if k >= 0 {
        FamilyV { samples: f.samples.update(k, SampleV { labels, value }), ..f }
    } else {
        FamilyV { samples: f.samples.push(SampleV { labels, value }), ..f }
    }
}

/// The registry after an upsert: the labels are first brought into
/// canonical order; an existing series is overwritten, a new one appended.
pub open spec fn spec_upsert(
    reg: Seq<FamilyV>,
    name: Seq<char>,
    help: Seq<char>,
    labels: Seq<LabelV>,
    value: u64,
) -> Seq<FamilyV> {
    let canon = sort_pairs(labels);
    let k = find_family(reg, name);
    if k >= 0 {
        reg.update(k, family_upsert(reg[k], canon, value))
    } else {
        reg.push(FamilyV { name, help, samples: seq![SampleV { labels: canon, value }] })
    }
}

/// A batch of upserts into one family, applied in order.
pub open spec fn spec_upsert_all(
    reg: Seq<FamilyV>,
    name: Seq<char>,
    help: Seq<char>,
    entries: Seq<(Seq<LabelV>, u64)>,
) -> Seq<FamilyV>
    decreases entries.len(),
{
    if entries.len() == 0 {
        reg
    } else {
        spec_upsert_all(
            spec_upsert(reg, name, help, entries[0].0, entries[0].1),
            name,
            help,
            entries.drop_first(),
        )
    }
}

/// Every element of `insert_pair(p, s)` is `p` or drawn from `s`.
proof fn lemma_insert_pair_elems(p: LabelV, s: Seq<LabelV>)
    ensures
        insert_pair(p, s).len() == s.len() + 1,
        forall|i: int| 0 <= i < insert_pair(p, s).len() ==> (#[trigger] insert_pair(p, s)[i]) == p
            || s.contains(insert_pair(p, s)[i]),
    decreases s.len(),
{
    if s.len() == 0 {
    } else if lex_le(s[0].0, p.0) {
        lemma_insert_pair_elems(p, s.drop_first());
        let r = insert_pair(p, s);
        let tail = insert_pair(p, s.drop_first());
        assert forall|i: int| 0 <= i < r.len() implies (#[trigger] r[i]) == p
            || s.contains(r[i]) by {
            if i == 0 {
                assert(r[0] == s[0]);
                assert(s.contains(s[0]));
            } else {
                assert(r[i] == tail[i - 1]);
                if tail[i - 1] != p {
                    let m = choose|m: int| 0 <= m < s.drop_first().len()
                        && s.drop_first()[m] == tail[i - 1];
                    assert(s[m + 1] == tail[i - 1]);
                    assert(s.contains(s[m + 1]));
                }
            }
        }
    } else {
        let r = seq![p] + s;
        assert forall|i: int| 0 <= i < r.len() implies (#[trigger] r[i]) == p
            || s.contains(r[i]) by {
            if i > 0 {
                assert(r[i] == s[i - 1]);
                assert(s.contains(s[i - 1]));
            }
        }
    }
}

proof fn lemma_insert_pair_sorted(p: LabelV, s: Seq<LabelV>)
    requires
        labels_sorted(s),
    ensures
        labels_sorted(insert_pair(p, s)),
        insert_pair(p, s).len() == s.len() + 1,
    decreases s.len(),
{
    lemma_insert_pair_elems(p, s);
    if s.len() == 0 {
    } else if lex_le(s[0].0, p.0) {
        assert(labels_sorted(s.drop_first())) by {
            assert forall|i: int, j: int| 0 <= i < j < s.drop_first().len()
                implies lex_le(s.drop_first()[i].0, s.drop_first()[j].0) by {
                assert(s[i + 1] == s.drop_first()[i]);
                assert(s[j + 1] == s.drop_first()[j]);
            }
        }
        lemma_insert_pair_sorted(p, s.drop_first());
        lemma_insert_pair_elems(p, s.drop_first());
        let r = insert_pair(p, s);
        let tail = insert_pair(p, s.drop_first());
        assert forall|i: int, j: int| 0 <= i < j < r.len() implies lex_le(r[i].0, r[j].0) by {
            if i == 0 {
                assert(r[j] == tail[j - 1]);
                if tail[j - 1] == p {
                    assert(lex_le(s[0].0, p.0));
                } else {
                    let m = choose|m: int| 0 <= m < s.drop_first().len()
                        && s.drop_first()[m] == tail[j - 1];
                    assert(lex_le(s[0].0, s[m + 1].0));
                }
            } else {
                assert(r[i] == tail[i - 1]);
                assert(r[j] == tail[j - 1]);
            }
        }
    } else {
        lemma_lex_total(s[0].0, p.0);
        let r = seq![p] + s;
        assert forall|i: int, j: int| 0 <= i < j < r.len() implies lex_le(r[i].0, r[j].0) by {
            if i == 0 {
                if j == 1 {
                    assert(r[j] == s[0]);
                } else {
                    assert(r[j] == s[j - 1]);
                    lemma_lex_trans(p.0, s[0].0, s[j - 1].0);
                }
            } else {
                assert(r[i] == s[i - 1]);
                assert(r[j] == s[j - 1]);
            }
        }
    }
}

pub proof fn lemma_sort_pairs_sorted(s: Seq<LabelV>)
    ensures
        labels_sorted(sort_pairs(s)),
        sort_pairs(s).len() == s.len(),
    decreases s.len(),
{
    if s.len() > 0 {
        lemma_sort_pairs_sorted(s.drop_last());
        lemma_insert_pair_sorted(s.last(), sort_pairs(s.drop_last()));
    }
}

/// Where `insert_pair` puts the new element: right before the first key
/// that must follow it.
proof fn lemma_insert_pair_at(p: LabelV, s: Seq<LabelV>, pos: int)
    requires
        0 <= pos <= s.len(),
        forall|i: int| 0 <= i < pos ==> lex_le((#[trigger] s[i]).0, p.0),
        pos < s.len() ==> !lex_le(s[pos].0, p.0),
    ensures
        insert_pair(p, s) == s.subrange(0, pos) + seq![p] + s.subrange(pos, s.len() as int),
    decreases s.len(),
{
    if pos == 0 {
        if s.len() == 0 {
            assert(insert_pair(p, s) =~= s.subrange(0, 0) + seq![p] + s.subrange(0, 0));
        } else {
            assert(insert_pair(p, s) =~= s.subrange(0, 0) + seq![p]
                + s.subrange(0, s.len() as int));
        }
    } else {
        assert(lex_le(s[0].0, p.0));
        lemma_insert_pair_at(p, s.drop_first(), pos - 1);
        let d = s.drop_first();
        assert(insert_pair(p, s) == seq![s[0]] + insert_pair(p, d));
        assert(seq![s[0]] + (d.subrange(0, pos - 1) + seq![p]
            + d.subrange(pos - 1, d.len() as int))
            =~= s.subrange(0, pos) + seq![p] + s.subrange(pos, s.len() as int));
    }
}

/// Position at which a key belongs in a key-sorted pair list: after all
/// keys at or below it.
fn find_insert_pos(r: &Vec<(String, String)>, pc: &Vec<char>) -> (pos: usize)
    ensures
        pos <= r@.len(),
        forall|i: int| 0 <= i < pos ==> lex_le((#[trigger] labels_view(r@)[i]).0, pc@),
        pos < r@.len() ==> lex_lt(pc@, labels_view(r@)[pos as int].0),
{
    let mut pos: usize = 0;
    while pos < r.len()
        invariant
            pos <= r@.len(),
            forall|i: int| 0 <= i < pos ==> lex_le((#[trigger] labels_view(r@)[i]).0, pc@),
        decreases r@.len() - pos,
    {
        let kc = to_chars(r[pos].0.as_str());
        proof {
            assert(labels_view(r@)[pos as int].0 == r@[pos as int].0@);
        }
        if chars_lt(pc, &kc) {
            return pos;
        }
        proof {
            lemma_lex_total(pc@, labels_view(r@)[pos as int].0);
        }
        pos = pos + 1;
    }
    pos
}

/// Sorts label pairs by key, stably, matching `sort_pairs`.
pub fn sort_pairs_by_key(labels: Vec<(String, String)>) -> (r: Vec<(String, String)>)
    ensures
        labels_view(r@) == sort_pairs(labels_view(labels@)),
{
    let ghost orig = labels_view(labels@);
    let mut r: Vec<(String, String)> = Vec::new();
    let mut idx: usize = 0;
    proof {
        assert(labels_view(r@) =~= sort_pairs(orig.subrange(0, 0)));
    }
    while idx < labels.len()
        invariant
            idx <= labels@.len(),
            orig == labels_view(labels@),
            labels_view(r@) == sort_pairs(orig.subrange(0, idx as int)),
        decreases labels@.len() - idx,
    {
        let p = (labels[idx].0.clone(), labels[idx].1.clone());
        let ghost pv = (p.0@, p.1@);
        proof {
            assert(pv == orig[idx as int]);
        }
        let pc = to_chars(p.0.as_str());
        let pos = find_insert_pos(&r, &pc);
        let ghost rv_old = labels_view(r@);
        proof {
            if (pos as int) < rv_old.len() {
                lemma_lex_total(rv_old[pos as int].0, pv.0);
            }
            lemma_insert_pair_at(pv, rv_old, pos as int);
        }
        let ghost r_vec_old = r@;
        r.insert(pos, p);
        idx = idx + 1;
        proof {
            let prev = orig.subrange(0, idx - 1);
            let cur = orig.subrange(0, idx as int);
            assert(cur.drop_last() =~= prev);
            assert(cur.last() == pv);
            assert(labels_view(r@) =~= rv_old.subrange(0, pos as int) + seq![pv]
                + rv_old.subrange(pos as int, rv_old.len() as int));
            assert(labels_view(r@) == insert_pair(pv, rv_old));
            assert(sort_pairs(cur) == insert_pair(pv, sort_pairs(prev)));
        }
    }
    proof {
        assert(orig.subrange(0, labels@.len() as int) =~= orig);
    }
    r
}

impl MetricRegistry {
    /// A fresh, empty registry.
    pub fn new() -> (r: MetricRegistry)
        ensures
            r@ == Seq::<FamilyV>::empty(),
            registry_wf(r@),
    {
        let r = MetricRegistry { families: Vec::new() };
        proof {
            assert(r@ =~= Seq::<FamilyV>::empty());
        }
        r
    }

    /// The current families, in order of first appearance.
    pub fn snapshot_all(&self) -> (r: &Vec<MetricFamily>)
        ensures
            r@.map_values(|f: MetricFamily| f@) == self@,
    {
        &self.families
    }

    /// Index of the family called `name`, as `find_family` finds it.
    fn find_family_idx(&self, nc: &Vec<char>) -> (r: Option<usize>)
        ensures
            match r {
                Some(k) => k < self@.len() && find_family(self@, nc@) == k,
                None => find_family(self@, nc@) == -1,
            },
    {
        proof {
            lemma_find_family(self@, nc@);
        }
        let mut i: usize = 0;
        while i < self.families.len()
            invariant
                i <= self@.len(),
                forall|j: int| 0 <= j < i ==> (#[trigger] self@[j]).name != nc@,
            decreases self@.len() - i,
        {
            let fc = to_chars(self.families[i].name.as_str());
            proof {
                assert(self@[i as int].name == self.families@[i as int].name@);
            }
            if chars_eq(&fc, nc) {
                proof {
                    lemma_find_family(self@, nc@);
                    assert(self@[i as int].name == nc@);
                    let f = find_family(self@, nc@);
                    assert(f != -1);
                    if 0 <= f < (i as int) {
                        assert(self@[f].name == nc@);
                        assert(false);
                    }
                    if (i as int) < f {
                        assert(self@[i as int].name != nc@);
                        assert(false);
                    }
                    assert(f == i as int);
                }
                return Some(i);
            }
            i = i + 1;
        }
        None
    }

    /// Writes one gauge observation.  The family is created on first use
    /// with the given help text; the label pairs are stored sorted by key;
    /// an existing (name, label set) series is overwritten in place.
    pub fn upsert(&mut self, name: &str, help: &str, labels: Vec<(String, String)>, value: u64)
        requires
            registry_wf(old(self)@),
        ensures
            registry_wf(final(self)@),
            final(self)@ == spec_upsert(old(self)@, name@, help@, labels_view(labels@), value),
    {
        proof {
            lemma_sort_pairs_sorted(labels_view(labels@));
        }
        let canon = sort_pairs_by_key(labels);
        let ghost canon_v = labels_view(canon@);
        let nc = to_chars(name);
        let k_opt = self.find_family_idx(&nc);
        match k_opt {
            Some(k) => {
                proof {
                    lemma_find_sample(self@[k as int].samples, canon_v);
                }
                let ghost reg_old = self@;
                let ghost fam_old = self@[k as int];
                let j_opt = find_sample_idx(&self.families[k].samples, &canon);
                match j_opt {
                    Some(j) => {
                        self.families[k].samples[j] = MetricSample { labels: canon, value };
                        proof {
                            assert(self@[k as int].samples =~= fam_old.samples.update(
                                j as int,
                                SampleV { labels: canon_v, value },
                            ));
                            assert(self@[k as int] == family_upsert(fam_old, canon_v, value));
                        }
                    }
                    None => {
                        self.families[k].samples.push(MetricSample { labels: canon, value });
                        proof {
                            assert(self@[k as int].samples =~= fam_old.samples.push(
                                SampleV { labels: canon_v, value },
                            ));
                            assert(self@[k as int] == family_upsert(fam_old, canon_v, value));
                        }
                    }
                }
            }
            None => {
                let mut samples: Vec<MetricSample> = Vec::new();
                samples.push(MetricSample { labels: canon, value });
                let fam = MetricFamily { name: name.to_owned(), help: help.to_owned(), samples };
                proof {
                    assert(fam@.samples =~= seq![SampleV { labels: canon_v, value }]);
                }
                self.families.push(fam);
            }
        }
        proof {
            assert(final(self)@ =~= spec_upsert(
                old(self)@,
                name@,
                help@,
                labels_view(labels@),
                value,
            ));
            lemma_upsert_wf(old(self)@, name@, help@, labels_view(labels@), value);
        }
    }
}

/// Index of the sample whose labels match, as `find_sample` finds it.
fn find_sample_idx(samples: &Vec<MetricSample>, canon: &Vec<(String, String)>) -> (r: Option<
    usize,
>)
    ensures
        ({
            let sv = samples@.map_values(|s: MetricSample| s@);
            match r {
                Some(j) => j < sv.len() && find_sample(sv, labels_view(canon@)) == j,
                None => find_sample(sv, labels_view(canon@)) == -1,
            }
        }),
{
    let ghost sv = samples@.map_values(|s: MetricSample| s@);
    let ghost cv = labels_view(canon@);
    proof {
        lemma_find_sample(sv, cv);
    }
    let mut j: usize = 0;
    while j < samples.len()
        invariant
            j <= sv.len(),
            sv == samples@.map_values(|s: MetricSample| s@),
            cv == labels_view(canon@),
            forall|m: int| 0 <= m < j ==> (#[trigger] sv[m]).labels != cv,
        decreases sv.len() - j,
    {
        proof {
            assert(sv[j as int] == samples@[j as int]@);
        }
        if labels_eq(&samples[j].labels, canon) {
            proof {
                lemma_find_sample(sv, cv);
                let f = find_sample(sv, cv);
                if f != j as int {
                    if f == -1 {
                        assert(sv[j as int].labels != cv);
                    } else if f < j as int {
                        assert(sv[f].labels != cv);
                    } else {
                        assert(sv[j as int].labels != cv);
                    }
                }
            }
            return Some(j);
        }
        j = j + 1;
    }
    None
}

/// Compares a stored label list with a candidate, at the view level.
fn labels_eq(a: &Vec<(String, String)>, b: &Vec<(String, String)>) -> (r: bool)
    ensures
        r == (labels_view(a@) == labels_view(b@)),
{
    if a.len() != b.len() {
        proof {
            assert(labels_view(a@).len() != labels_view(b@).len());
        }
        return false;
    }
    let mut i: usize = 0;
    while i < a.len()
        invariant
            a@.len() == b@.len(),
            i <= a@.len(),
            forall|j: int| 0 <= j < i ==> labels_view(a@)[j] == labels_view(b@)[j],
        decreases a@.len() - i,
    {
        let ka = &a[i];
        let kb = &b[i];
        if !(ka.0 == kb.0) || !(ka.1 == kb.1) {
            proof {
                assert(labels_view(a@)[i as int] == (a@[i as int].0@, a@[i as int].1@));
                assert(labels_view(b@)[i as int] == (b@[i as int].0@, b@[i as int].1@));
            }
            return false;
        }
        proof {
            assert(labels_view(a@)[i as int] == (a@[i as int].0@, a@[i as int].1@));
            assert(labels_view(b@)[i as int] == (b@[i as int].0@, b@[i as int].1@));
        }
        i = i + 1;
    }
    proof {
        assert(labels_view(a@) =~= labels_view(b@));
    }
    true
}

/// Law: upserting the same (name, label set) twice, with any values and
/// help texts, leaves exactly the registry a single upsert of the last
/// value leaves: the value is overwritten in place, no duplicate series
/// or family appears, and the first help text is kept.
pub proof fn lemma_upsert_overwrites(
    reg: Seq<FamilyV>,
    name: Seq<char>,
    help: Seq<char>,
    help2: Seq<char>,
    labels: Seq<LabelV>,
    v1: u64,
    v2: u64,
)
    requires
        registry_wf(reg),
    ensures
        spec_upsert(spec_upsert(reg, name, help, labels, v1), name, help2, labels, v2)
            == spec_upsert(reg, name, help, labels, v2),
        registry_wf(spec_upsert(spec_upsert(reg, name, help, labels, v1), name, help2, labels, v2)),
{
    lemma_sort_pairs_sorted(labels);
    let canon = sort_pairs(labels);
    let r1 = spec_upsert(reg, name, help, labels, v1);
    lemma_upsert_wf(reg, name, help, labels, v1);
    lemma_upsert_wf(r1, name, help2, labels, v2);
    lemma_find_family(reg, name);
    lemma_find_family(r1, name);
    let k = find_family(reg, name);
    let k1 = find_family(r1, name);
    if k >= 0 {
        let f0 = reg[k];
        let f1 = family_upsert(f0, canon, v1);
        assert(r1 == reg.update(k, f1));
        assert(r1[k].name == name);
        if k1 == -1 {
            assert(r1[k].name != name);
        }
        if 0 <= k1 < k {
            assert(r1[k1] == reg[k1]);
            assert(reg[k1].name != name);
        }
        if k < k1 {
            assert(r1[k].name != name);
        }
        assert(k1 == k);
        lemma_find_sample(f0.samples, canon);
        lemma_find_sample(f1.samples, canon);
        let j = find_sample(f0.samples, canon);
        let j1 = find_sample(f1.samples, canon);
        if j >= 0 {
            assert(f1.samples == f0.samples.update(j, SampleV { labels: canon, value: v1 }));
            assert(f1.samples[j].labels == canon);
            if j1 == -1 {
                assert(f1.samples[j].labels != canon);
            }
            if 0 <= j1 < j {
                assert(f1.samples[j1] == f0.samples[j1]);
                assert(f0.samples[j1].labels != canon);
            }
            if j < j1 {
                assert(f1.samples[j].labels != canon);
            }
            assert(j1 == j);
            assert(family_upsert(f1, canon, v2).samples =~= f0.samples.update(
                j,
                SampleV { labels: canon, value: v2 },
            ));
            assert(family_upsert(f1, canon, v2) == family_upsert(f0, canon, v2));
            assert(spec_upsert(r1, name, help2, labels, v2) =~= spec_upsert(
                reg,
                name,
                help,
                labels,
                v2,
            ));
        } else {
            let n0 = f0.samples.len() as int;
            assert(f1.samples == f0.samples.push(SampleV { labels: canon, value: v1 }));
            assert(f1.samples[n0].labels == canon);
            if j1 == -1 {
                assert(f1.samples[n0].labels != canon);
            }
            if 0 <= j1 < n0 {
                assert(f1.samples[j1] == f0.samples[j1]);
                assert(f0.samples[j1].labels != canon);
            }
            assert(j1 == n0);
            assert(family_upsert(f1, canon, v2).samples =~= f0.samples.push(
                SampleV { labels: canon, value: v2 },
            ));
            assert(family_upsert(f1, canon, v2) == family_upsert(f0, canon, v2));
            assert(spec_upsert(r1, name, help2, labels, v2) =~= spec_upsert(
                reg,
                name,
                help,
                labels,
                v2,
            ));
        }
    } else {
        let nf = FamilyV { name, help, samples: seq![SampleV { labels: canon, value: v1 }] };
        assert(r1 == reg.push(nf));
        let nr = reg.len() as int;
        assert(r1[nr].name == name);
        if k1 == -1 {
            assert(r1[nr].name != name);
        }
        if 0 <= k1 < nr {
            assert(r1[k1] == reg[k1]);
            assert(reg[k1].name != name);
        }
        assert(k1 == nr);
        assert(find_sample(nf.samples, canon) == 0);
        assert(family_upsert(nf, canon, v2).samples =~= seq![
            SampleV { labels: canon, value: v2 },
        ]);
        assert(family_upsert(nf, canon, v2) == FamilyV {
            name,
            help,
            samples: seq![SampleV { labels: canon, value: v2 }],
        });
        assert(spec_upsert(r1, name, help2, labels, v2) =~= spec_upsert(
            reg,
            name,
            help,
            labels,
            v2,
        ));
    }
}

/// An upsert preserves registry well-formedness.
proof fn lemma_upsert_wf(
    reg: Seq<FamilyV>,
    name: Seq<char>,
    help: Seq<char>,
    labels: Seq<LabelV>,
    value: u64,
)
    requires
        registry_wf(reg),
    ensures
        registry_wf(spec_upsert(reg, name, help, labels, value)),
{
    lemma_sort_pairs_sorted(labels);
    lemma_find_family(reg, name);
    let canon = sort_pairs(labels);
    let k = find_family(reg, name);
    if k >= 0 {
        lemma_find_sample(reg[k].samples, canon);
        let f2 = family_upsert(reg[k], canon, value);
        assert(family_wf(f2));
    }
}

} // verus!
