//! Fan-out aggregation: turns a list of (key, weight) observations into
//! one summed bucket per distinct key, keys kept in order of first
//! appearance, and writes the buckets into the registry as one labelled
//! sample each.

use vstd::prelude::*;
use crate::registry::{LabelV, MetricRegistry, registry_wf, spec_upsert_all, labels_view};
use crate::text::{to_chars, chars_eq};

verus! {

/// View of a (key, weight) list.
pub open spec fn kw_view(ps: Seq<(String, u64)>) -> Seq<(Seq<char>, u64)> {
    ps.map_values(|p: (String, u64)| (p.0@, p.1))
}

/// The distinct keys of `ps`, in order of first appearance.
pub open spec fn gkeys(ps: Seq<(Seq<char>, u64)>) -> Seq<Seq<char>>
    decreases ps.len(),
{
    if ps.len() == 0 {
        Seq::empty()
    } else {
        let ks = gkeys(ps.drop_last());
        if ks.contains(ps.last().0) {
            ks
        } else {
            ks.push(ps.last().0)
        }
    }
}

/// The summed weight of all observations under `key`.
pub open spec fn gsum(ps: Seq<(Seq<char>, u64)>, key: Seq<char>) -> int
    decreases ps.len(),
{
    if ps.len() == 0 {
        0
    } else {
        gsum(ps.drop_last(), key) + if ps.last().0 == key {
            ps.last().1 as int
        } else {
            0
        }
    }
}

/// A mathematical sum clamped into `u64`.
pub open spec fn clamp64(x: int) -> u64 {
    if x > u64::MAX {
        u64::MAX
    } else if x < 0 {
        0
    } else {
        x as u64
    }
}

/// The registry entries of a grouped batch: one single-label sample per
/// distinct key, its value the clamped sum.
pub open spec fn grouped_entries(ps: Seq<(Seq<char>, u64)>, lk: Seq<char>) -> Seq<
    (Seq<LabelV>, u64),
> {
    Seq::new(
        gkeys(ps).len(),
        |i: int| (seq![(lk, gkeys(ps)[i])], clamp64(gsum(ps, gkeys(ps)[i]))),
    )
}

/// Saturating addition with an exact contract.
pub fn sat_add(a: u64, b: u64) -> (r: u64)
    ensures
        r == clamp64(a as int + b as int),
{
    if a > u64::MAX - b {
        u64::MAX
    } else {
        a + b
    }
}

pub proof fn lemma_gkeys_distinct(ps: Seq<(Seq<char>, u64)>)
    ensures
        forall|i: int, j: int| 0 <= i < j < gkeys(ps).len() ==> gkeys(ps)[i] != gkeys(ps)[j],
        forall|k: int| 0 <= k < ps.len() ==> gkeys(ps).contains((#[trigger] ps[k]).0),
        forall|i: int| 0 <= i < gkeys(ps).len() ==> exists|k: int|
            0 <= k < ps.len() && (#[trigger] gkeys(ps)[i]) == ps[k].0,
    decreases ps.len(),
{
    if ps.len() > 0 {
        let d = ps.drop_last();
        lemma_gkeys_distinct(d);
        let ks = gkeys(d);
        assert forall|k: int| 0 <= k < ps.len() implies gkeys(ps).contains(
            (#[trigger] ps[k]).0,
        ) by {
            if k < ps.len() - 1 {
                assert(d[k] == ps[k]);
                assert(ks.contains(d[k].0));
                let w = choose|w: int| 0 <= w < ks.len() && ks[w] == d[k].0;
                if !ks.contains(ps.last().0) {
                    assert(gkeys(ps)[w] == d[k].0);
                }
            } else {
                if ks.contains(ps.last().0) {
                } else {
                    assert(gkeys(ps).last() == ps.last().0);
                }
            }
        }
        assert forall|i: int| 0 <= i < gkeys(ps).len() implies exists|k: int|
            0 <= k < ps.len() && (#[trigger] gkeys(ps)[i]) == ps[k].0 by {
            if i < ks.len() {
                assert(gkeys(ps)[i] == ks[i]);
                let k = choose|k: int| 0 <= k < d.len() && ks[i] == (#[trigger] d[k]).0;
                assert(ps[k].0 == gkeys(ps)[i]);
            } else {
                assert(gkeys(ps)[i] == ps.last().0);
                assert(ps[ps.len() - 1].0 == gkeys(ps)[i]);
            }
        }
        assert forall|i: int, j: int| 0 <= i < j < gkeys(ps).len() implies gkeys(ps)[i]
            != gkeys(ps)[j] by {
            if j < ks.len() {
            } else if !ks.contains(ps.last().0) {
                assert(gkeys(ps)[j] == ps.last().0);
                assert(gkeys(ps)[i] == ks[i]);
                assert(ks.contains(ks[i]));
            }
        }
    }
}

/// Groups observations: one row per distinct key in first-appearance
/// order, carrying the clamped sum of its weights.
pub fn group_sums(ps: &Vec<(String, u64)>) -> (r: Vec<(String, u64)>)
    ensures
        r@.len() == gkeys(kw_view(ps@)).len(),
        forall|i: int| 0 <= i < r@.len() ==> (#[trigger] r@[i]).0@ == gkeys(kw_view(ps@))[i]
            && r@[i].1 == clamp64(gsum(kw_view(ps@), gkeys(kw_view(ps@))[i])),
{
    let ghost full = kw_view(ps@);
    let mut r: Vec<(String, u64)> = Vec::new();
    let mut idx: usize = 0;
    while idx < ps.len()
        invariant
            idx <= ps@.len(),
            full == kw_view(ps@),
            r@.len() == gkeys(full.subrange(0, idx as int)).len(),
            forall|i: int| 0 <= i < r@.len() ==> (#[trigger] r@[i]).0@ == gkeys(
                full.subrange(0, idx as int),
            )[i] && r@[i].1 == clamp64(
                gsum(full.subrange(0, idx as int), gkeys(full.subrange(0, idx as int))[i]),
            ),
        decreases ps@.len() - idx,
    {
        let key = &ps[idx].0;
        let w = ps[idx].1;
        let kc = to_chars(key.as_str());
        let ghost pre = full.subrange(0, idx as int);
        let ghost cur = full.subrange(0, idx + 1);
        proof {
            assert(cur.drop_last() =~= pre);
            assert(cur.last() == (ps@[idx as int].0@, ps@[idx as int].1));
            lemma_gkeys_distinct(pre);
        }
        // look for the key among the existing buckets
        let mut j: usize = 0;
        let mut found = false;
        while j < r.len() && !found
            invariant
                j <= r@.len(),
                kc@ == ps@[idx as int].0@,
                r@.len() == gkeys(pre).len(),
                forall|i: int| 0 <= i < r@.len() ==> (#[trigger] r@[i]).0@ == gkeys(pre)[i]
                    && r@[i].1 == clamp64(gsum(pre, gkeys(pre)[i])),
                !found ==> forall|m: int| 0 <= m < j ==> gkeys(pre)[m] != kc@,
                found ==> j < r@.len() && gkeys(pre)[j as int] == kc@,
                pre == full.subrange(0, idx as int),
                full == kw_view(ps@),
                idx < ps@.len(),
            decreases r@.len() + 1 - j - (if found { 1int } else { 0 }),
        {
            let rc = to_chars(r[j].0.as_str());
            if chars_eq(&rc, &kc) {
                found = true;
            } else {
                j = j + 1;
            }
        }
        if found {
            let newsum = sat_add(r[j].1, w);
            let newkey = r[j].0.clone();
            let ghost r_old = r@;
            r[j] = (newkey, newsum);
            proof {
                lemma_gkeys_distinct(pre);
                assert(gkeys(pre).contains(cur.last().0)) by {
                    assert(gkeys(pre)[j as int] == cur.last().0);
                }
                assert(gkeys(cur) == gkeys(pre));
                assert forall|i: int| 0 <= i < r@.len() implies (#[trigger] r@[i]).0@ == gkeys(
                    cur,
                )[i] && r@[i].1 == clamp64(gsum(cur, gkeys(cur)[i])) by {
                    if i == j as int {
                        lemma_gsum_nonneg(pre, gkeys(pre)[i]);
                        assert(gsum(cur, gkeys(cur)[i]) == gsum(pre, gkeys(pre)[i])
                            + w as int);
                        assert(r@[i].1 == clamp64(r_old[i].1 as int + w as int));
                        assert(r_old[i].1 == clamp64(gsum(pre, gkeys(pre)[i])));
                        assert(clamp64(clamp64(gsum(pre, gkeys(pre)[i])) as int + w as int)
                            == clamp64(gsum(pre, gkeys(pre)[i]) + w as int));
                    } else {
                        assert(r@[i] == r_old[i]);
                        assert(gkeys(pre)[i] != gkeys(pre)[j as int]);
                        assert(gsum(cur, gkeys(cur)[i]) == gsum(pre, gkeys(pre)[i]));
                    }
                }
            }
        } else {
            let ghost r_old = r@;
            let newkey = key.clone();
            r.push((newkey, w));
            proof {
                lemma_gkeys_distinct(pre);
                assert(!gkeys(pre).contains(cur.last().0)) by {
                    if gkeys(pre).contains(cur.last().0) {
                        let m = choose|m: int|
                            0 <= m < gkeys(pre).len() && gkeys(pre)[m] == cur.last().0;
                        assert(gkeys(pre)[m] != kc@);
                    }
                }
                assert(gkeys(cur) == gkeys(pre).push(cur.last().0));
                assert forall|i: int| 0 <= i < r@.len() implies (#[trigger] r@[i]).0@ == gkeys(
                    cur,
                )[i] && r@[i].1 == clamp64(gsum(cur, gkeys(cur)[i])) by {
                    if i < r@.len() - 1 {
                        assert(r@[i] == r_old[i]);
                        assert(gkeys(cur)[i] == gkeys(pre)[i]);
                        assert(gkeys(pre).contains(gkeys(pre)[i]));
                        assert(gkeys(pre)[i] != cur.last().0) by {
                            if gkeys(pre)[i] == cur.last().0 {
                                assert(gkeys(pre).contains(cur.last().0));
                            }
                        }
                        assert(gsum(cur, gkeys(cur)[i]) == gsum(pre, gkeys(pre)[i]));
                    } else {
                        assert(gkeys(cur)[i] == cur.last().0);
                        assert(!gkeys(pre).contains(cur.last().0));
                        assert(gsum(pre, cur.last().0) == 0) by {
                            lemma_gsum_absent(pre, cur.last().0);
                        }
                        assert(gsum(cur, cur.last().0) == w as int);
                    }
                }
            }
        }
        idx = idx + 1;
    }
    proof {
        assert(full.subrange(0, ps@.len() as int) =~= full);
    }
    r
}

/// Weights are unsigned, so every group sum is non-negative.
proof fn lemma_gsum_nonneg(ps: Seq<(Seq<char>, u64)>, key: Seq<char>)
    ensures
        gsum(ps, key) >= 0,
    decreases ps.len(),
{
    if ps.len() > 0 {
        lemma_gsum_nonneg(ps.drop_last(), key);
    }
}

/// A key that appears nowhere sums to zero.
proof fn lemma_gsum_absent(ps: Seq<(Seq<char>, u64)>, key: Seq<char>)
    requires
        !gkeys(ps).contains(key),
    ensures
        gsum(ps, key) == 0,
    decreases ps.len(),
{
    if ps.len() > 0 {
        let d = ps.drop_last();
        lemma_gkeys_distinct(d);
        if gkeys(d).contains(key) {
            let m = choose|m: int| 0 <= m < gkeys(d).len() && gkeys(d)[m] == key;
            if gkeys(d).contains(ps.last().0) {
                assert(gkeys(ps)[m] == key);
                assert(gkeys(ps).contains(key));
            } else {
                assert(gkeys(ps)[m] == key);
                assert(gkeys(ps).contains(key));
            }
        }
        lemma_gsum_absent(d, key);
        if ps.last().0 == key {
            assert(gkeys(ps).contains(key)) by {
                lemma_gkeys_distinct(ps);
            }
        }
    }
}

/// Writes one single-label sample per grouped bucket into the registry.
pub fn upsert_grouped(
    reg: &mut MetricRegistry,
    name: &str,
    help: &str,
    label_key: &str,
    pairs: &Vec<(String, u64)>,
)
    requires
        registry_wf(old(reg)@),
    ensures
        registry_wf(final(reg)@),
        final(reg)@ == spec_upsert_all(
            old(reg)@,
            name@,
            help@,
            grouped_entries(kw_view(pairs@), label_key@),
        ),
{
    let groups = group_sums(pairs);
    let ghost entries = grouped_entries(kw_view(pairs@), label_key@);
    let ghost reg0 = old(reg)@;
    let mut i: usize = 0;
    proof {
        assert(entries.skip(0) =~= entries);
    }
    while i < groups.len()
        invariant
            i <= groups@.len(),
            groups@.len() == entries.len(),
            registry_wf(reg@),
            forall|q: int| 0 <= q < groups@.len() ==> entries[q]
                == (seq![(label_key@, (#[trigger] groups@[q]).0@)], groups@[q].1),
            spec_upsert_all(reg0, name@, help@, entries) == spec_upsert_all(
                reg@,
                name@,
                help@,
                entries.skip(i as int),
            ),
        decreases groups@.len() - i,
    {
        let mut labels: Vec<(String, String)> = Vec::new();
        labels.push((label_key.to_owned(), groups[i].0.clone()));
        let ghost lv = labels_view(labels@);
        proof {
            assert(lv =~= seq![(label_key@, groups@[i as int].0@)]);
            assert(entries.skip(i as int)[0] == entries[i as int]);
            assert(entries.skip(i as int).drop_first() =~= entries.skip(i + 1));
        }
        reg.upsert(name, help, labels, groups[i].1);
        i = i + 1;
    }
    proof {
        assert(entries.skip(entries.len() as int) =~= Seq::<(Seq<LabelV>, u64)>::empty());
    }
}

} // verus!
