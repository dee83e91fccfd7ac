//! Document extractor: a JSON array of document records becomes a total
//! count, per-vault and per-tag counts, and per-vault and per-tag sums of
//! the declared file sizes.  Declared sizes are human-truncated text such
//! as `"1 KB"`; one that cannot be read counts as zero rather than
//! failing the extraction.

use vstd::prelude::*;
use crate::ParseError;
use crate::json::{
    parse_json, spec_parse_json, str_field, int_field, jv_get, jfields_view, jsons_view,
    json_view, lemma_jsons_view_index, Json, JsonV, has_str_field, has_int_field,
    get_str_field, obj_get, all_strs, all_strings, str_of,
};
use crate::registry::{
    FamilyV, LabelV, MetricRegistry, registry_wf, spec_upsert, spec_upsert_all, labels_view,
};
use crate::metrics_collector::extract_err;
use crate::aggregate::{clamp64, kw_view, grouped_entries, upsert_grouped};
use crate::text::{find_char, find_char_at, lemma_find_char_bounds, all_digits, digits_val,
    parse_u64_digits, to_chars, lemma_digits_val_nonneg};

verus! {

/// The byte multiplier a size unit stands for.
pub open spec fn unit_mult(u: Seq<char>) -> Option<int> {
    if u == "bytes"@ {
        Option::Some(1)
    } else if u == "KB"@ {
        Option::Some(1024)
    } else if u == "MB"@ {
        Option::Some(1048576)
    } else if u == "GB"@ {
        Option::Some(1073741824)
    } else {
        Option::None
    }
}

/// The byte count a declared size denotes: a digit run, one space, a
/// known unit; `None` when any part is missing, unknown or out of range.
pub open spec fn spec_file_size_bytes(s: Seq<char>) -> Option<int> {
    let k = find_char(s, ' ', 0);
    if k == s.len() {
        Option::None
    } else {
        let mag = s.subrange(0, k);
        let unit = s.subrange(k + 1, s.len() as int);
        if mag.len() == 0 || !all_digits(mag) {
            Option::None
        } else {
            match unit_mult(unit) {
                Option::None => Option::None,
                Option::Some(m) => {
                    let val = digits_val(mag) * m;
                    if val > u64::MAX {
                        Option::None
                    } else {
                        Option::Some(val)
                    }
                },
            }
        }
    }
}

/// Parses a declared file size such as `"10 bytes"` or `"1 KB"` into
/// bytes, with binary multipliers; `None` on any failure.
pub fn parse_file_size_bytes(s: &str) -> (r: Option<u64>)
    ensures
        match r {
            Some(n) => spec_file_size_bytes(s@) == Some(n as int),
            None => spec_file_size_bytes(s@) is None,
        },
{
    let v = to_chars(s);
    let k = find_char_at(&v, ' ', 0);
    if k == v.len() {
        return None;
    }
    let ghost mag = v@.subrange(0, k as int);
    let ghost unit = v@.subrange(k + 1, v@.len() as int);
    let mag_val = match parse_u64_digits(&v, 0, k) {
        Some(n) => n,
        None => {
            proof {
                if k > 0 && all_digits(mag) && digits_val(mag) > u64::MAX {
                    lemma_digits_val_nonneg(mag);
                    if unit_mult(unit) is Some {
                        let m = unit_mult(unit).unwrap();
                        assert(digits_val(mag) * m > u64::MAX) by (nonlinear_arith)
                            requires
                                digits_val(mag) > u64::MAX,
                                m >= 1,
                        ;
                    }
                }
            }
            return None;
        }
    };
    // recognize the unit
    let ulen = v.len() - (k + 1);
    let mult: u64 = if ulen == 5 && v[k + 1] == 'b' && v[k + 2] == 'y' && v[k + 3] == 't'
        && v[k + 4] == 'e' && v[k + 5] == 's' {
        proof {
            reveal_strlit("bytes");
            assert(unit =~= "bytes"@);
        }
        1
    } else if ulen == 2 && v[k + 1] == 'K' && v[k + 2] == 'B' {
        proof {
            reveal_strlit("KB");
            assert(unit =~= "KB"@);
        }
        1024
    } else if ulen == 2 && v[k + 1] == 'M' && v[k + 2] == 'B' {
        proof {
            reveal_strlit("MB");
            assert(unit =~= "MB"@);
        }
        1048576
    } else if ulen == 2 && v[k + 1] == 'G' && v[k + 2] == 'B' {
        proof {
            reveal_strlit("GB");
            assert(unit =~= "GB"@);
        }
        1073741824
    } else {
        proof {
            reveal_strlit("bytes");
            reveal_strlit("KB");
            reveal_strlit("MB");
            reveal_strlit("GB");
            assert(unit_mult(unit) is None) by {
                if unit == "bytes"@ {
                    assert(unit.len() == 5);
                    assert(unit[0] == 'b' && unit[1] == 'y' && unit[2] == 't' && unit[3] == 'e'
                        && unit[4] == 's');
                }
                if unit == "KB"@ {
                    assert(unit[0] == 'K' && unit[1] == 'B');
                }
                if unit == "MB"@ {
                    assert(unit[0] == 'M' && unit[1] == 'B');
                }
                if unit == "GB"@ {
                    assert(unit[0] == 'G' && unit[1] == 'B');
                }
            }
        }
        return None;
    };
    proof {
        reveal_strlit("bytes");
        reveal_strlit("KB");
        reveal_strlit("MB");
        reveal_strlit("GB");
        assert(unit_mult(unit) == Some(mult as int));
    }
    if mag_val > u64::MAX / mult {
        proof {
            assert(digits_val(mag) * (mult as int) > u64::MAX) by (nonlinear_arith)
                requires
                    digits_val(mag) == mag_val as int,
                    mag_val > u64::MAX / mult,
                    1 <= mult <= 1073741824,
            ;
        }
        return None;
    }
    proof {
        assert((mag_val * mult) as int == digits_val(mag) * (mult as int)
            && digits_val(mag) * (mult as int) <= u64::MAX) by (nonlinear_arith)
            requires
                digits_val(mag) == mag_val as int,
                mag_val <= u64::MAX / mult,
                1 <= mult <= 1073741824,
        ;
    }
    Some(mag_val * mult)
}

/// The document's vault reference: an object with string id and name.
pub open spec fn rec_vault_ok(v: JsonV) -> bool {
    match jv_get(v, "vault"@) {
        Option::Some(o) => str_field(o, "id"@) is Some && str_field(o, "name"@) is Some,
        Option::None => false,
    }
}

/// The optional tag list: absent or null means no tags; otherwise an
/// array of strings.
pub open spec fn rec_tags_ok(v: JsonV) -> bool {
    match jv_get(v, "tags"@) {
        Option::None => true,
        Option::Some(JsonV::Null) => true,
        Option::Some(JsonV::Arr(ts)) => all_strs(ts),
        _ => false,
    }
}

/// The optional declared size: absent, null, or a string.
pub open spec fn doc_ainfo_ok(v: JsonV) -> bool {
    match jv_get(v, "overview.ainfo"@) {
        Option::None => true,
        Option::Some(JsonV::Null) => true,
        Option::Some(JsonV::Str(_)) => true,
        _ => false,
    }
}

/// One document record against its schema.
pub open spec fn document_ok(v: JsonV) -> bool {
    &&& str_field(v, "id"@) is Some
    &&& str_field(v, "title"@) is Some
    &&& int_field(v, "version"@) is Some
    &&& str_field(v, "last_edited_by"@) is Some
    &&& str_field(v, "created_at"@) is Some
    &&& str_field(v, "updated_at"@) is Some
    &&& rec_vault_ok(v)
    &&& rec_tags_ok(v)
    &&& doc_ainfo_ok(v)
}

/// Every element of the array is a well-formed document record.
pub open spec fn all_docs_ok(els: Seq<JsonV>) -> bool {
    forall|i: int| 0 <= i < els.len() ==> document_ok(#[trigger] els[i])
}

/// Whether the output is a JSON array of well-formed document records.
pub open spec fn spec_documents_ok(s: Seq<char>) -> bool {
    match spec_parse_json(s) {
        Option::Some(JsonV::Arr(els)) => all_docs_ok(els),
        _ => false,
    }
}

/// The document's vault identifier.
pub open spec fn rec_vault(v: JsonV) -> Seq<char> {
    str_field(jv_get(v, "vault"@).unwrap(), "id"@).unwrap()
}

/// The document's tags, in input order; empty when absent or null.
pub open spec fn rec_tags(v: JsonV) -> Seq<Seq<char>> {
    match jv_get(v, "tags"@) {
        Option::Some(JsonV::Arr(ts)) => Seq::new(ts.len(), |i: int| str_of(ts[i])),
        _ => Seq::empty(),
    }
}

/// The document's declared size in bytes; zero when absent, null or
/// unreadable.
pub open spec fn doc_size(v: JsonV) -> int {
    match jv_get(v, "overview.ainfo"@) {
        Option::Some(JsonV::Str(t)) => match spec_file_size_bytes(t) {
            Option::Some(n) => n,
            Option::None => 0,
        },
        _ => 0,
    }
}

/// One (vault, 1) observation per document.
pub open spec fn vault_count_pairs(els: Seq<JsonV>) -> Seq<(Seq<char>, u64)> {
    Seq::new(els.len(), |i: int| (rec_vault(els[i]), 1u64))
}

/// One (vault, size) observation per document.
pub open spec fn vault_size_pairs(els: Seq<JsonV>) -> Seq<(Seq<char>, u64)> {
    Seq::new(els.len(), |i: int| (rec_vault(els[i]), clamp64(doc_size(els[i]))))
}

/// One (tag, w) observation per tag of one document.
pub open spec fn tag1(v: JsonV, w: u64) -> Seq<(Seq<char>, u64)> {
    Seq::new(rec_tags(v).len(), |i: int| (rec_tags(v)[i], w))
}

/// One (tag, 1) observation per tag occurrence, across all documents.
pub open spec fn tag_count_pairs(els: Seq<JsonV>) -> Seq<(Seq<char>, u64)>
    decreases els.len(),
{
    if els.len() == 0 {
        Seq::empty()
    } else {
        tag_count_pairs(els.drop_last()) + tag1(els.last(), 1)
    }
}

/// One (tag, size) observation per tag occurrence.
pub open spec fn tag_size_pairs(els: Seq<JsonV>) -> Seq<(Seq<char>, u64)>
    decreases els.len(),
{
    if els.len() == 0 {
        Seq::empty()
    } else {
        tag_size_pairs(els.drop_last()) + tag1(els.last(), clamp64(doc_size(els.last())))
    }
}

/// The registry after a successful document extraction: the total count,
/// then the per-vault counts, per-tag counts, per-vault size sums and
/// per-tag size sums, buckets in first-appearance order.
pub open spec fn document_apply(reg: Seq<FamilyV>, s: Seq<char>) -> Seq<FamilyV> {
    match spec_parse_json(s) {
        Option::Some(JsonV::Arr(els)) => {
            let r1 = spec_upsert(
                reg,
                "op_document_count_total"@,
                "Total number of documents."@,
                Seq::empty(),
                clamp64(els.len() as int),
            );
            let r2 = spec_upsert_all(
                r1,
                "op_document_count_per_vault"@,
                "Number of documents per vault."@,
                grouped_entries(vault_count_pairs(els), "vault"@),
            );
            let r3 = spec_upsert_all(
                r2,
                "op_document_count_per_tag"@,
                "Number of documents per tag."@,
                grouped_entries(tag_count_pairs(els), "tag"@),
            );
            let r4 = spec_upsert_all(
                r3,
                "op_document_file_size_per_vault_bytes"@,
                "Size of file in documents per vault, in bytes."@,
                grouped_entries(vault_size_pairs(els), "vault"@),
            );
            spec_upsert_all(
                r4,
                "op_document_file_size_per_tag_bytes"@,
                "Size of file in documents per tag, in bytes."@,
                grouped_entries(tag_size_pairs(els), "tag"@),
            )
        },
        _ => reg,
    }
}

/// Reads `document list` JSON output and publishes the document metrics.
/// Nothing is written unless every record is well formed.
pub fn read_document(reg: &mut MetricRegistry, output: &str) -> (r: Result<(), ParseError>)
    requires
        registry_wf(old(reg)@),
    ensures
        registry_wf(final(reg)@),
        match r {
            Ok(_) => spec_documents_ok(output@) && final(reg)@ == document_apply(
                old(reg)@,
                output@,
            ),
            Err(e) => !spec_documents_ok(output@) && final(reg)@ == old(reg)@ && e
                == extract_err(output@),
        },
{
    let j = match parse_json(output) {
        Ok(j) => j,
        Err(e) => {
            return Err(e);
        }
    };
    match j {
        Json::Arr(els) => {
            let ghost ev = jsons_view(els@);
            // First pass: validate every record.
            let mut i: usize = 0;
            while i < els.len()
                invariant
                    i <= els@.len(),
                    ev == jsons_view(els@),
                    spec_parse_json(output@) == Some(JsonV::Arr(ev)),
                    reg@ == old(reg)@,
                    registry_wf(reg@),
                    forall|m: int| 0 <= m < i ==> document_ok(#[trigger] ev[m]),
                decreases els@.len() - i,
            {
                proof {
                    lemma_jsons_view_index(els@);
                }
                let el = &els[i];
                proof {
                    assert(ev[i as int] == json_view(els@[i as int]));
                }
                let ok = match el {
                    Json::Obj(fs) => {
                        proof {
                            assert(ev[i as int] == JsonV::Obj(jfields_view(fs@)));
                        }
                        let vault_ok = match obj_get(fs, "vault") {
                            Some(o) => match o {
                                Json::Obj(vfs) => has_str_field(vfs, "id") && has_str_field(
                                    vfs,
                                    "name",
                                ),
                                _ => false,
                            },
                            None => false,
                        };
                        let tags_ok = match obj_get(fs, "tags") {
                            None => true,
                            Some(t) => match t {
                                Json::Null => true,
                                Json::Arr(ts) => all_strings(ts),
                                _ => false,
                            },
                        };
                        let ainfo_ok = match obj_get(fs, "overview.ainfo") {
                            None => true,
                            Some(t) => match t {
                                Json::Null => true,
                                Json::Str(_) => true,
                                _ => false,
                            },
                        };
                        has_str_field(fs, "id") && has_str_field(fs, "title") && has_int_field(
                            fs,
                            "version",
                        ) && has_str_field(fs, "last_edited_by") && has_str_field(
                            fs,
                            "created_at",
                        ) && has_str_field(fs, "updated_at") && vault_ok && tags_ok && ainfo_ok
                    }
                    _ => false,
                };
                if !ok {
                    proof {
                        assert(!document_ok(ev[i as int]));
                        assert(!all_docs_ok(ev)) by {
                            if all_docs_ok(ev) {
                                assert(document_ok(ev[i as int]));
                            }
                        }
                    }
                    return Err(ParseError::SchemaMismatch);
                }
                i = i + 1;
            }
            proof {
                lemma_jsons_view_index(els@);
            }
            // Second pass: gather the observations.
            let mut vp: Vec<(String, u64)> = Vec::new();
            let mut svp: Vec<(String, u64)> = Vec::new();
            let mut tp: Vec<(String, u64)> = Vec::new();
            let mut stp: Vec<(String, u64)> = Vec::new();
            let mut k: usize = 0;
            proof {
                assert(kw_view(vp@) =~= vault_count_pairs(ev.subrange(0, 0)));
                assert(kw_view(svp@) =~= vault_size_pairs(ev.subrange(0, 0)));
                assert(kw_view(tp@) =~= tag_count_pairs(ev.subrange(0, 0)));
                assert(kw_view(stp@) =~= tag_size_pairs(ev.subrange(0, 0)));
            }
            while k < els.len()
                invariant
                    k <= els@.len(),
                    ev == jsons_view(els@),
                    ev.len() == els@.len(),
                    spec_parse_json(output@) == Some(JsonV::Arr(ev)),
                    reg@ == old(reg)@,
                    registry_wf(reg@),
                    forall|m: int| 0 <= m < ev.len() ==> document_ok(#[trigger] ev[m]),
                    vp@.len() == k,
                    svp@.len() == k,
                    tp@.len() == tag_count_pairs(ev.subrange(0, k as int)).len(),
                    stp@.len() == tag_size_pairs(ev.subrange(0, k as int)).len(),
                    kw_view(vp@) == vault_count_pairs(ev.subrange(0, k as int)),
                    kw_view(svp@) == vault_size_pairs(ev.subrange(0, k as int)),
                    kw_view(tp@) == tag_count_pairs(ev.subrange(0, k as int)),
                    kw_view(stp@) == tag_size_pairs(ev.subrange(0, k as int)),
                decreases els@.len() - k,
            {
                proof {
                    lemma_jsons_view_index(els@);
                    assert(ev[k as int] == json_view(els@[k as int]));
                    assert(document_ok(ev[k as int]));
                }
                let ghost pre = ev.subrange(0, k as int);
                let ghost cur = ev.subrange(0, k + 1);
                proof {
                    assert(cur.drop_last() =~= pre);
                    assert(cur.last() == ev[k as int]);
                }
                let el = &els[k];
                match el {
                    Json::Obj(fs) => {
                        proof {
                            assert(ev[k as int] == JsonV::Obj(jfields_view(fs@)));
                        }
                        // vault id
                        let vault_id = match obj_get(fs, "vault") {
                            Some(o) => match o {
                                Json::Obj(vfs) => match get_str_field(vfs, "id") {
                                    Ok(s) => s,
                                    Err(_) => {
                                        proof {
                                            assert(false);
                                        }
                                        return Err(ParseError::SchemaMismatch);
                                    }
                                },
                                _ => {
                                    proof {
                                        assert(false);
                                    }
                                    return Err(ParseError::SchemaMismatch);
                                }
                            },
                            None => {
                                proof {
                                    assert(false);
                                }
                                return Err(ParseError::SchemaMismatch);
                            }
                        };
                        proof {
                            assert(vault_id@ == rec_vault(ev[k as int]));
                        }
                        // declared size
                        let size: u64 = match obj_get(fs, "overview.ainfo") {
                            Some(t) => match t {
                                Json::Str(txt) => match parse_file_size_bytes(txt.as_str()) {
                                    Some(n) => n,
                                    None => 0,
                                },
                                _ => 0,
                            },
                            None => 0,
                        };
                        proof {
                            assert(size == clamp64(doc_size(ev[k as int])));
                        }
                        let ghost vpv = kw_view(vp@);
                        let ghost svpv = kw_view(svp@);
                        let ghost vp_old = vp@;
                        let ghost svp_old = svp@;
                        vp.push((vault_id.clone(), 1));
                        svp.push((vault_id, size));
                        proof {
                            assert(vp@ == vp_old.push((vp@[k as int].0, 1u64)));
                            assert(vp@[k as int].0@ == rec_vault(ev[k as int]));
                            assert(kw_view(vp@).len() == k + 1);
                            assert(vault_count_pairs(cur).len() == k + 1);
                            assert forall|q2: int| 0 <= q2 < k + 1 implies kw_view(vp@)[q2]
                                == vault_count_pairs(cur)[q2] by {
                                assert(kw_view(vp@)[q2] == (vp@[q2].0@, vp@[q2].1));
                                assert(vault_count_pairs(cur)[q2] == (rec_vault(cur[q2]), 1u64));
                                assert(cur[q2] == ev[q2]);
                                if q2 < k {
                                    assert(vp@[q2] == vp_old[q2]);
                                    assert(vpv[q2] == (vp_old[q2].0@, vp_old[q2].1));
                                    assert(vpv[q2] == vault_count_pairs(pre)[q2]);
                                    assert(vault_count_pairs(pre)[q2] == (rec_vault(pre[q2]),
                                        1u64));
                                    assert(pre[q2] == ev[q2]);
                                }
                            }
                            assert(kw_view(vp@) =~~= vault_count_pairs(cur));
                            assert(svp@[k as int].0@ == rec_vault(ev[k as int]));
                            assert(kw_view(svp@).len() == k + 1);
                            assert forall|q2: int| 0 <= q2 < k + 1 implies kw_view(svp@)[q2]
                                == vault_size_pairs(cur)[q2] by {
                                assert(kw_view(svp@)[q2] == (svp@[q2].0@, svp@[q2].1));
                                assert(vault_size_pairs(cur)[q2] == (rec_vault(cur[q2]),
                                    clamp64(doc_size(cur[q2]))));
                                assert(cur[q2] == ev[q2]);
                                if q2 < k {
                                    assert(svp@[q2] == svp_old[q2]);
                                    assert(svpv[q2] == (svp_old[q2].0@, svp_old[q2].1));
                                    assert(svpv[q2] == vault_size_pairs(pre)[q2]);
                                    assert(vault_size_pairs(pre)[q2] == (rec_vault(pre[q2]),
                                        clamp64(doc_size(pre[q2]))));
                                    assert(pre[q2] == ev[q2]);
                                }
                            }
                            assert(kw_view(svp@) =~~= vault_size_pairs(cur));
                        }
                        // tags
                        match obj_get(fs, "tags") {
                            Some(t) => match t {
                                Json::Arr(ts) => {
                                    let ghost tsv = jsons_view(ts@);
                                    proof {
                                        lemma_jsons_view_index(ts@);
                                        assert(rec_tags(ev[k as int]) == Seq::new(
                                            tsv.len(),
                                            |q: int| str_of(tsv[q]),
                                        ));
                                        assert(all_strs(tsv));
                                    }
                                    let mut q: usize = 0;
                                    while q < ts.len()
                                        invariant
                                            q <= ts@.len(),
                                            tsv == jsons_view(ts@),
                                            tsv.len() == ts@.len(),
                                            all_strs(tsv),
                                            rec_tags(ev[k as int]) == Seq::new(
                                                tsv.len(),
                                                |m: int| str_of(tsv[m]),
                                            ),
                                            size == clamp64(doc_size(ev[k as int])),
                                            cur == ev.subrange(0, k + 1),
                                            pre == ev.subrange(0, k as int),
                                            cur.drop_last() == pre,
                                            cur.last() == ev[k as int],
                                            tp@.len() == tag_count_pairs(pre).len() + q,
                                            stp@.len() == tag_size_pairs(pre).len() + q,
                                            kw_view(tp@) == tag_count_pairs(pre) + tag1(
                                                ev[k as int],
                                                1,
                                            ).subrange(0, q as int),
                                            kw_view(stp@) == tag_size_pairs(pre) + tag1(
                                                ev[k as int],
                                                clamp64(doc_size(ev[k as int])),
                                            ).subrange(0, q as int),
                                        decreases ts@.len() - q,
                                    {
                                        proof {
                                            lemma_jsons_view_index(ts@);
                                            assert(tsv[q as int] == json_view(ts@[q as int]));
                                            assert(tsv[q as int] is Str);
                                        }
                                        let tag = match &ts[q] {
                                            Json::Str(t2) => t2.clone(),
                                            _ => {
                                                proof {
                                                    assert(false);
                                                }
                                                return Err(ParseError::SchemaMismatch);
                                            }
                                        };
                                        proof {
                                            assert(tag@ == rec_tags(ev[k as int])[q as int]);
                                        }
                                        let ghost tpv = kw_view(tp@);
                                        let ghost stpv = kw_view(stp@);
                                        let ghost tp_old = tp@;
                                        let ghost stp_old = stp@;
                                        let ghost w1 = clamp64(doc_size(ev[k as int]));
                                        tp.push((tag.clone(), 1));
                                        stp.push((tag, size));
                                        proof {
                                            let el0 = ev[k as int];
                                            let t1a = tag1(el0, 1);
                                            let t2a = tag1(el0, w1);
                                            let target1 = tag_count_pairs(pre) + t1a.subrange(
                                                0,
                                                q + 1,
                                            );
                                            let target2 = tag_size_pairs(pre) + t2a.subrange(
                                                0,
                                                q + 1,
                                            );
                                            assert(kw_view(tp@).len() == tpv.len() + 1);
                                            assert(kw_view(stp@).len() == stpv.len() + 1);
                                            assert(t1a[q as int] == (rec_tags(el0)[q as int],
                                                1u64));
                                            assert(t2a[q as int] == (rec_tags(el0)[q as int],
                                                w1));
                                            assert forall|q2: int| 0 <= q2 < kw_view(tp@).len()
                                                implies kw_view(tp@)[q2] == target1[q2] by {
                                                assert(kw_view(tp@)[q2] == (tp@[q2].0@,
                                                    tp@[q2].1));
                                                if q2 < tpv.len() {
                                                    assert(tp@[q2] == tp_old[q2]);
                                                    assert(tpv[q2] == (tp_old[q2].0@,
                                                        tp_old[q2].1));
                                                    assert(target1[q2] == (tag_count_pairs(pre)
                                                        + t1a.subrange(0, q as int))[q2]);
                                                }
                                            }
                                            assert forall|q2: int| 0 <= q2 < kw_view(stp@).len()
                                                implies kw_view(stp@)[q2] == target2[q2] by {
                                                assert(kw_view(stp@)[q2] == (stp@[q2].0@,
                                                    stp@[q2].1));
                                                if q2 < stpv.len() {
                                                    assert(stp@[q2] == stp_old[q2]);
                                                    assert(stpv[q2] == (stp_old[q2].0@,
                                                        stp_old[q2].1));
                                                    assert(target2[q2] == (tag_size_pairs(pre)
                                                        + t2a.subrange(0, q as int))[q2]);
                                                }
                                            }
                                            assert(kw_view(tp@) =~~= target1);
                                            assert(kw_view(stp@) =~~= target2);
                                        }
                                        q = q + 1;
                                    }
                                    proof {
                                        let t1 = tag1(ev[k as int], 1);
                                        let t2 = tag1(
                                            ev[k as int],
                                            clamp64(doc_size(ev[k as int])),
                                        );
                                        assert(t1.subrange(0, t1.len() as int) =~= t1);
                                        assert(t2.subrange(0, t2.len() as int) =~= t2);
                                        assert(kw_view(tp@) == tag_count_pairs(cur));
                                        assert(kw_view(stp@) == tag_size_pairs(cur));
                                    }
                                }
                                _ => {
                                    proof {
                                        assert(rec_tags(ev[k as int]) =~= Seq::<
                                            Seq<char>,
                                        >::empty());
                                        assert(tag1(ev[k as int], 1) =~= Seq::<
                                            (Seq<char>, u64),
                                        >::empty());
                                        assert(tag1(ev[k as int], clamp64(doc_size(
                                            ev[k as int],
                                        ))) =~= Seq::<(Seq<char>, u64)>::empty());
                                        assert(kw_view(tp@) =~~= tag_count_pairs(cur));
                                        assert(kw_view(stp@) =~~= tag_size_pairs(cur));
                                    }
                                }
                            },
                            None => {
                                proof {
                                    assert(rec_tags(ev[k as int]) =~= Seq::<Seq<char>>::empty());
                                    assert(tag1(ev[k as int], 1) =~= Seq::<
                                        (Seq<char>, u64),
                                    >::empty());
                                    assert(tag1(ev[k as int], clamp64(doc_size(ev[k as int])))
                                        =~= Seq::<(Seq<char>, u64)>::empty());
                                    assert(kw_view(tp@) =~~= tag_count_pairs(cur));
                                    assert(kw_view(stp@) =~~= tag_size_pairs(cur));
                                }
                            }
                        }
                    }
                    _ => {
                        proof {
                            assert(false);
                        }
                        return Err(ParseError::SchemaMismatch);
                    }
                }
                k = k + 1;
            }
            proof {
                assert(ev.subrange(0, ev.len() as int) =~= ev);
            }
            // Publish: total, counts per vault and tag, sizes per vault and tag.
            let labels: Vec<(String, String)> = Vec::new();
            proof {
                assert(labels_view(labels@) =~= Seq::<(Seq<char>, Seq<char>)>::empty());
                assert(els@.len() <= u64::MAX);
            }
            let total: u64 = els.len() as u64;
            reg.upsert("op_document_count_total", "Total number of documents.", labels, total);
            upsert_grouped(
                reg,
                "op_document_count_per_vault",
                "Number of documents per vault.",
                "vault",
                &vp,
            );
            upsert_grouped(
                reg,
                "op_document_count_per_tag",
                "Number of documents per tag.",
                "tag",
                &tp,
            );
            upsert_grouped(
                reg,
                "op_document_file_size_per_vault_bytes",
                "Size of file in documents per vault, in bytes.",
                "vault",
                &svp,
            );
            upsert_grouped(
                reg,
                "op_document_file_size_per_tag_bytes",
                "Size of file in documents per tag, in bytes.",
                "tag",
                &stp,
            );
            Ok(())
        }
        _ => Err(ParseError::SchemaMismatch),
    }
}

} // verus!
