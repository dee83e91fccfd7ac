//! Item extractor: a JSON array of item records becomes a total count and
//! counts per vault, per tag and per category.

use vstd::prelude::*;
use crate::ParseError;
use crate::json::{
    parse_json, spec_parse_json, str_field, int_field, jv_get, jfields_view, jsons_view,
    json_view, lemma_jsons_view_index, Json, JsonV, has_str_field, has_int_field,
    get_str_field, obj_get, all_strs, all_strings, str_of,
};
use crate::registry::{
    FamilyV, MetricRegistry, registry_wf, spec_upsert, spec_upsert_all, labels_view,
};
use crate::metrics_collector::extract_err;
use crate::metrics_collector::document::{
    rec_vault, rec_vault_ok, rec_tags, rec_tags_ok, tag1, vault_count_pairs, tag_count_pairs,
};
use crate::aggregate::{clamp64, kw_view, grouped_entries, upsert_grouped};

verus! {

/// The optional extra information field: absent, null, or a string.
pub open spec fn item_addinfo_ok(v: JsonV) -> bool {
    match jv_get(v, "additional_information"@) {
        Option::None => true,
        Option::Some(JsonV::Null) => true,
        Option::Some(JsonV::Str(_)) => true,
        _ => false,
    }
}

/// One item record against its schema.
pub open spec fn item_ok(v: JsonV) -> bool {
    &&& str_field(v, "id"@) is Some
    &&& str_field(v, "title"@) is Some
    &&& str_field(v, "category"@) is Some
    &&& int_field(v, "version"@) is Some
    &&& str_field(v, "last_edited_by"@) is Some
    &&& str_field(v, "created_at"@) is Some
    &&& str_field(v, "updated_at"@) is Some
    &&& rec_vault_ok(v)
    &&& rec_tags_ok(v)
    &&& item_addinfo_ok(v)
}

/// Every element of the array is a well-formed item record.
pub open spec fn all_items_ok(els: Seq<JsonV>) -> bool {
    forall|i: int| 0 <= i < els.len() ==> item_ok(#[trigger] els[i])
}

/// Whether the output is a JSON array of well-formed item records.
pub open spec fn spec_items_ok(s: Seq<char>) -> bool {
    match spec_parse_json(s) {
        Option::Some(JsonV::Arr(els)) => all_items_ok(els),
        _ => false,
    }
}

/// One (category, 1) observation per item.
pub open spec fn cat_pairs(els: Seq<JsonV>) -> Seq<(Seq<char>, u64)> {
    Seq::new(els.len(), |i: int| (str_field(els[i], "category"@).unwrap(), 1u64))
}

/// The registry after a successful item extraction: the total count, then
/// the per-vault, per-tag and per-category counts.
pub open spec fn item_apply(reg: Seq<FamilyV>, s: Seq<char>) -> Seq<FamilyV> {
    match spec_parse_json(s) {
        Option::Some(JsonV::Arr(els)) => {
            let r1 = spec_upsert(
                reg,
                "op_item_count_total"@,
                "Total number of items."@,
                Seq::empty(),
                clamp64(els.len() as int),
            );
            let r2 = spec_upsert_all(
                r1,
                "op_item_count_per_vault"@,
                "Number of items per vault."@,
                grouped_entries(vault_count_pairs(els), "vault"@),
            );
            let r3 = spec_upsert_all(
                r2,
                "op_item_count_per_tag"@,
                "Number of items per tag."@,
                grouped_entries(tag_count_pairs(els), "tag"@),
            );
            spec_upsert_all(
                r3,
                "op_item_count_per_category"@,
                "Number of items per category."@,
                grouped_entries(cat_pairs(els), "category"@),
            )
        },
        _ => reg,
    }
}

/// Reads `item list` JSON output and publishes the item metrics.
/// Nothing is written unless every record is well formed.
pub fn read_item(reg: &mut MetricRegistry, output: &str) -> (r: Result<(), ParseError>)
    requires
        registry_wf(old(reg)@),
    ensures
        registry_wf(final(reg)@),
        match r {
            Ok(_) => spec_items_ok(output@) && final(reg)@ == item_apply(old(reg)@, output@),
            Err(e) => !spec_items_ok(output@) && final(reg)@ == old(reg)@ && e == extract_err(
                output@,
            ),
        },
{
    let j = match parse_json(output) {
        Ok(j) => j,
        Err(e) => {
            return Err(e);
        }
    };
    match j {
        Json::Arr(els) => {
            let ghost ev = jsons_view(els@);
            // First pass: validate every record.
            let mut i: usize = 0;
            while i < els.len()
                invariant
                    i <= els@.len(),
                    ev == jsons_view(els@),
                    spec_parse_json(output@) == Some(JsonV::Arr(ev)),
                    reg@ == old(reg)@,
                    registry_wf(reg@),
                    forall|m: int| 0 <= m < i ==> item_ok(#[trigger] ev[m]),
                decreases els@.len() - i,
            {
                proof {
                    lemma_jsons_view_index(els@);
                }
                let el = &els[i];
                proof {
                    assert(ev[i as int] == json_view(els@[i as int]));
                }
                let ok = match el {
                    Json::Obj(fs) => {
                        proof {
                            assert(ev[i as int] == JsonV::Obj(jfields_view(fs@)));
                        }
                        let vault_ok = match obj_get(fs, "vault") {
                            Some(o) => match o {
                                Json::Obj(vfs) => has_str_field(vfs, "id") && has_str_field(
                                    vfs,
                                    "name",
                                ),
                                _ => false,
                            },
                            None => false,
                        };
                        let tags_ok = match obj_get(fs, "tags") {
                            None => true,
                            Some(t) => match t {
                                Json::Null => true,
                                Json::Arr(ts) => all_strings(ts),
                                _ => false,
                            },
                        };
                        let addinfo_ok = match obj_get(fs, "additional_information") {
                            None => true,
                            Some(t) => match t {
                                Json::Null => true,
                                Json::Str(_) => true,
                                _ => false,
                            },
                        };
                        has_str_field(fs, "id") && has_str_field(fs, "title") && has_str_field(
                            fs,
                            "category",
                        ) && has_int_field(fs, "version") && has_str_field(
                            fs,
                            "last_edited_by",
                        ) && has_str_field(fs, "created_at") && has_str_field(
                            fs,
                            "updated_at",
                        ) && vault_ok && tags_ok && addinfo_ok
                    }
                    _ => false,
                };
                if !ok {
                    proof {
                        assert(!item_ok(ev[i as int]));
                        assert(!all_items_ok(ev)) by {
                            if all_items_ok(ev) {
                                assert(item_ok(ev[i as int]));
                            }
                        }
                    }
                    return Err(ParseError::SchemaMismatch);
                }
                i = i + 1;
            }
            proof {
                lemma_jsons_view_index(els@);
            }
            // Second pass: gather the observations.
            let mut vp: Vec<(String, u64)> = Vec::new();
            let mut tp: Vec<(String, u64)> = Vec::new();
            let mut cp: Vec<(String, u64)> = Vec::new();
            let mut k: usize = 0;
            proof {
                assert(kw_view(vp@) =~= vault_count_pairs(ev.subrange(0, 0)));
                assert(kw_view(tp@) =~= tag_count_pairs(ev.subrange(0, 0)));
                assert(kw_view(cp@) =~= cat_pairs(ev.subrange(0, 0)));
            }
            while k < els.len()
                invariant
                    k <= els@.len(),
                    ev == jsons_view(els@),
                    ev.len() == els@.len(),
                    spec_parse_json(output@) == Some(JsonV::Arr(ev)),
                    reg@ == old(reg)@,
                    registry_wf(reg@),
                    forall|m: int| 0 <= m < ev.len() ==> item_ok(#[trigger] ev[m]),
                    vp@.len() == k,
                    cp@.len() == k,
                    tp@.len() == tag_count_pairs(ev.subrange(0, k as int)).len(),
                    kw_view(vp@) == vault_count_pairs(ev.subrange(0, k as int)),
                    kw_view(tp@) == tag_count_pairs(ev.subrange(0, k as int)),
                    kw_view(cp@) == cat_pairs(ev.subrange(0, k as int)),
                decreases els@.len() - k,
            {
                proof {
                    lemma_jsons_view_index(els@);
                    assert(ev[k as int] == json_view(els@[k as int]));
                    assert(item_ok(ev[k as int]));
                }
                let ghost pre = ev.subrange(0, k as int);
                let ghost cur = ev.subrange(0, k + 1);
                proof {
                    assert(cur.drop_last() =~= pre);
                    assert(cur.last() == ev[k as int]);
                }
                let el = &els[k];
                match el {
                    Json::Obj(fs) => {
                        proof {
                            assert(ev[k as int] == JsonV::Obj(jfields_view(fs@)));
                        }
                        let vault_id = match obj_get(fs, "vault") {
                            Some(o) => match o {
                                Json::Obj(vfs) => match get_str_field(vfs, "id") {
                                    Ok(s) => s,
                                    Err(_) => {
                                        proof {
                                            assert(false);
                                        }
                                        return Err(ParseError::SchemaMismatch);
                                    }
                                },
                                _ => {
                                    proof {
                                        assert(false);
                                    }
                                    return Err(ParseError::SchemaMismatch);
                                }
                            },
                            None => {
                                proof {
                                    assert(false);
                                }
                                return Err(ParseError::SchemaMismatch);
                            }
                        };
                        let category = match get_str_field(fs, "category") {
                            Ok(s) => s,
                            Err(_) => {
                                proof {
                                    assert(false);
                                }
                                return Err(ParseError::SchemaMismatch);
                            }
                        };
                        proof {
                            assert(vault_id@ == rec_vault(ev[k as int]));
                            assert(category@ == str_field(ev[k as int], "category"@).unwrap());
                        }
                        let ghost vpv = kw_view(vp@);
                        let ghost cpv = kw_view(cp@);
                        let ghost vp_old = vp@;
                        let ghost cp_old = cp@;
                        vp.push((vault_id, 1));
                        cp.push((category, 1));
                        proof {
                            assert(kw_view(vp@).len() == k + 1);
                            assert forall|q2: int| 0 <= q2 < k + 1 implies kw_view(vp@)[q2]
                                == vault_count_pairs(cur)[q2] by {
                                assert(kw_view(vp@)[q2] == (vp@[q2].0@, vp@[q2].1));
                                assert(vault_count_pairs(cur)[q2] == (rec_vault(cur[q2]), 1u64));
                                assert(cur[q2] == ev[q2]);
                                if q2 < k {
                                    assert(vp@[q2] == vp_old[q2]);
                                    assert(vpv[q2] == (vp_old[q2].0@, vp_old[q2].1));
                                    assert(vpv[q2] == vault_count_pairs(pre)[q2]);
                                    assert(pre[q2] == ev[q2]);
                                }
                            }
                            assert(kw_view(vp@) =~~= vault_count_pairs(cur));
                            assert(kw_view(cp@).len() == k + 1);
                            assert forall|q2: int| 0 <= q2 < k + 1 implies kw_view(cp@)[q2]
                                == cat_pairs(cur)[q2] by {
                                assert(kw_view(cp@)[q2] == (cp@[q2].0@, cp@[q2].1));
                                assert(cat_pairs(cur)[q2] == (str_field(
                                    cur[q2],
                                    "category"@,
                                ).unwrap(), 1u64));
                                assert(cur[q2] == ev[q2]);
                                if q2 < k {
                                    assert(cp@[q2] == cp_old[q2]);
                                    assert(cpv[q2] == (cp_old[q2].0@, cp_old[q2].1));
                                    assert(cpv[q2] == cat_pairs(pre)[q2]);
                                    assert(pre[q2] == ev[q2]);
                                }
                            }
                            assert(kw_view(cp@) =~~= cat_pairs(cur));
                        }
                        // tags
                        match obj_get(fs, "tags") {
                            Some(t) => match t {
                                Json::Arr(ts) => {
                                    let ghost tsv = jsons_view(ts@);
                                    proof {
                                        lemma_jsons_view_index(ts@);
                                        assert(rec_tags(ev[k as int]) == Seq::new(
                                            tsv.len(),
                                            |q: int| str_of(tsv[q]),
                                        ));
                                        assert(all_strs(tsv));
                                    }
                                    let mut q: usize = 0;
                                    while q < ts.len()
                                        invariant
                                            q <= ts@.len(),
                                            tsv == jsons_view(ts@),
                                            tsv.len() == ts@.len(),
                                            all_strs(tsv),
                                            rec_tags(ev[k as int]) == Seq::new(
                                                tsv.len(),
                                                |m: int| str_of(tsv[m]),
                                            ),
                                            cur == ev.subrange(0, k + 1),
                                            pre == ev.subrange(0, k as int),
                                            cur.drop_last() == pre,
                                            cur.last() == ev[k as int],
                                            tp@.len() == tag_count_pairs(pre).len() + q,
                                            kw_view(tp@) == tag_count_pairs(pre) + tag1(
                                                ev[k as int],
                                                1,
                                            ).subrange(0, q as int),
                                        decreases ts@.len() - q,
                                    {
                                        proof {
                                            lemma_jsons_view_index(ts@);
                                            assert(tsv[q as int] == json_view(ts@[q as int]));
                                            assert(tsv[q as int] is Str);
                                        }
                                        let tag = match &ts[q] {
                                            Json::Str(t2) => t2.clone(),
                                            _ => {
                                                proof {
                                                    assert(false);
                                                }
                                                return Err(ParseError::SchemaMismatch);
                                            }
                                        };
                                        proof {
                                            assert(tag@ == rec_tags(ev[k as int])[q as int]);
                                        }
                                        let ghost tpv = kw_view(tp@);
                                        let ghost tp_old = tp@;
                                        tp.push((tag, 1));
                                        proof {
                                            let el0 = ev[k as int];
                                            let t1a = tag1(el0, 1);
                                            let target1 = tag_count_pairs(pre) + t1a.subrange(
                                                0,
                                                q + 1,
                                            );
                                            assert(kw_view(tp@).len() == tpv.len() + 1);
                                            assert(t1a[q as int] == (rec_tags(el0)[q as int],
                                                1u64));
                                            assert forall|q2: int| 0 <= q2 < kw_view(tp@).len()
                                                implies kw_view(tp@)[q2] == target1[q2] by {
                                                assert(kw_view(tp@)[q2] == (tp@[q2].0@,
                                                    tp@[q2].1));
                                                if q2 < tpv.len() {
                                                    assert(tp@[q2] == tp_old[q2]);
                                                    assert(tpv[q2] == (tp_old[q2].0@,
                                                        tp_old[q2].1));
                                                    assert(target1[q2] == (tag_count_pairs(pre)
                                                        + t1a.subrange(0, q as int))[q2]);
                                                }
                                            }
                                            assert(kw_view(tp@) =~~= target1);
                                        }
                                        q = q + 1;
                                    }
                                    proof {
                                        let t1 = tag1(ev[k as int], 1);
                                        assert(t1.subrange(0, t1.len() as int) =~= t1);
                                        assert(kw_view(tp@) =~~= tag_count_pairs(cur));
                                    }
                                }
                                _ => {
                                    proof {
                                        assert(rec_tags(ev[k as int]) =~= Seq::<
                                            Seq<char>,
                                        >::empty());
                                        assert(tag1(ev[k as int], 1) =~= Seq::<
                                            (Seq<char>, u64),
                                        >::empty());
                                        assert(kw_view(tp@) =~~= tag_count_pairs(cur));
                                    }
                                }
                            },
                            None => {
                                proof {
                                    assert(rec_tags(ev[k as int]) =~= Seq::<Seq<char>>::empty());
                                    assert(tag1(ev[k as int], 1) =~= Seq::<
                                        (Seq<char>, u64),
                                    >::empty());
                                    assert(kw_view(tp@) =~~= tag_count_pairs(cur));
                                }
                            }
                        }
                    }
                    _ => {
                        proof {
                            assert(false);
                        }
                        return Err(ParseError::SchemaMismatch);
                    }
                }
                k = k + 1;
            }
            proof {
                assert(ev.subrange(0, ev.len() as int) =~= ev);
            }
            // Publish: total, then counts per vault, tag and category.
            let labels: Vec<(String, String)> = Vec::new();
            proof {
                assert(labels_view(labels@) =~= Seq::<(Seq<char>, Seq<char>)>::empty());
                assert(els@.len() <= u64::MAX);
            }
            let total: u64 = els.len() as u64;
            reg.upsert("op_item_count_total", "Total number of items.", labels, total);
            upsert_grouped(
                reg,
                "op_item_count_per_vault",
                "Number of items per vault.",
                "vault",
                &vp,
            );
            upsert_grouped(reg, "op_item_count_per_tag", "Number of items per tag.", "tag", &tp);
            upsert_grouped(
                reg,
                "op_item_count_per_category",
                "Number of items per category.",
                "category",
                &cp,
            );
            Ok(())
        }
        _ => Err(ParseError::SchemaMismatch),
    }
}

} // verus!
