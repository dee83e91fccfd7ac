//! Group extractor: a JSON array of group records becomes one unlabelled
//! count sample.

use vstd::prelude::*;
use crate::ParseError;
use crate::json::{
    parse_json, spec_parse_json, str_field, jfields_view, jsons_view, json_view,
    lemma_jsons_view_index, Json, JsonV, has_str_field,
};
use crate::registry::{FamilyV, MetricRegistry, registry_wf, spec_upsert, labels_view};
use crate::metrics_collector::extract_err;
use crate::aggregate::clamp64;

verus! {

/// One group record: the required fields, all strings.
pub open spec fn group_ok(v: JsonV) -> bool {
    &&& str_field(v, "id"@) is Some
    &&& str_field(v, "name"@) is Some
    &&& str_field(v, "description"@) is Some
    &&& str_field(v, "state"@) is Some
    &&& str_field(v, "created_at"@) is Some
}

/// Every element of the array is a well-formed group record.
pub open spec fn all_groups_ok(els: Seq<JsonV>) -> bool {
    forall|i: int| 0 <= i < els.len() ==> group_ok(#[trigger] els[i])
}

/// Whether the output is a JSON array of well-formed group records.
pub open spec fn spec_groups_ok(s: Seq<char>) -> bool {
    match spec_parse_json(s) {
        Option::Some(JsonV::Arr(els)) => all_groups_ok(els),
        _ => false,
    }
}

/// The number of groups in the output.
pub open spec fn spec_groups_len(s: Seq<char>) -> int {
    match spec_parse_json(s) {
        Option::Some(JsonV::Arr(els)) => els.len() as int,
        _ => 0,
    }
}

/// The registry after a successful group extraction.
pub open spec fn group_apply(reg: Seq<FamilyV>, s: Seq<char>) -> Seq<FamilyV> {
    spec_upsert(
        reg,
        "op_group_count_total"@,
        "Total number of groups."@,
        Seq::empty(),
        clamp64(spec_groups_len(s)),
    )
}

/// Reads `group list` JSON output and publishes the total count.
pub fn read_group(reg: &mut MetricRegistry, output: &str) -> (r: Result<(), ParseError>)
    requires
        registry_wf(old(reg)@),
    ensures
        registry_wf(final(reg)@),
        match r {
            Ok(_) => spec_groups_ok(output@) && final(reg)@ == group_apply(old(reg)@, output@),
            Err(e) => !spec_groups_ok(output@) && final(reg)@ == old(reg)@ && e == extract_err(
                output@,
            ),
        },
{
    let j = match parse_json(output) {
        Ok(j) => j,
        Err(e) => {
            return Err(e);
        }
    };
    match j {
        Json::Arr(els) => {
            let ghost ev = jsons_view(els@);
            let mut i: usize = 0;
            while i < els.len()
                invariant
                    i <= els@.len(),
                    ev == jsons_view(els@),
                    spec_parse_json(output@) == Some(JsonV::Arr(ev)),
                    reg@ == old(reg)@,
                    registry_wf(reg@),
                    forall|m: int| 0 <= m < i ==> group_ok(#[trigger] ev[m]),
                decreases els@.len() - i,
            {
                proof {
                    lemma_jsons_view_index(els@);
                }
                let el = &els[i];
                proof {
                    assert(ev[i as int] == json_view(els@[i as int]));
                }
                let ok = match el {
                    Json::Obj(fs) => {
                        proof {
                            assert(ev[i as int] == JsonV::Obj(jfields_view(fs@)));
                        }
                        has_str_field(fs, "id") && has_str_field(fs, "name") && has_str_field(
                            fs,
                            "description",
                        ) && has_str_field(fs, "state") && has_str_field(fs, "created_at")
                    }
                    _ => false,
                };
                if !ok {
                    proof {
                        assert(!group_ok(ev[i as int]));
                        assert(0 <= (i as int) && (i as int) < ev.len());
                        assert(!all_groups_ok(ev)) by {
                            if all_groups_ok(ev) {
                                assert(group_ok(ev[i as int]));
                            }
                        }
                    }
                    return Err(ParseError::SchemaMismatch);
                }
                i = i + 1;
            }
            let labels: Vec<(String, String)> = Vec::new();
            proof {
                lemma_jsons_view_index(els@);
                assert(labels_view(labels@) =~= Seq::<(Seq<char>, Seq<char>)>::empty());
                assert(els@.len() <= u64::MAX);
            }
            let count: u64 = els.len() as u64;
            reg.upsert("op_group_count_total", "Total number of groups.", labels, count);
            Ok(())
        }
        _ => Err(ParseError::SchemaMismatch),
    }
}

} // verus!
