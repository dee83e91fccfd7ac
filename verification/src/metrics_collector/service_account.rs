//! Service-account extractors: the API rate-limit table (JSON form, four
//! gauge families keyed by resource type and action) and the identity
//! ("whoami") presence sample.

use vstd::prelude::*;
use crate::ParseError;
use crate::json::{
    parse_json, spec_parse_json, str_field, int_field, jfields_view, jsons_view, json_view,
    lemma_jsons_view_index, Json, JsonV, has_str_field, get_str_field, get_int_field,
};
use crate::registry::{FamilyV, LabelV, MetricRegistry, registry_wf, spec_upsert, labels_view};
use crate::metrics_collector::extract_err;
use crate::aggregate::clamp64;

verus! {

/// One rate-limit row: resource type and action as strings; limit, used,
/// remaining and reset seconds as non-negative integers.
pub open spec fn rl_ok(v: JsonV) -> bool {
    &&& str_field(v, "type"@) is Some
    &&& str_field(v, "action"@) is Some
    &&& int_field(v, "limit"@) is Some && int_field(v, "limit"@).unwrap() >= 0
    &&& int_field(v, "used"@) is Some && int_field(v, "used"@).unwrap() >= 0
    &&& int_field(v, "remaining"@) is Some && int_field(v, "remaining"@).unwrap() >= 0
    &&& int_field(v, "reset"@) is Some && int_field(v, "reset"@).unwrap() >= 0
}

/// Every element of the array is a well-formed rate-limit row.
pub open spec fn all_rl_ok(els: Seq<JsonV>) -> bool {
    forall|i: int| 0 <= i < els.len() ==> rl_ok(#[trigger] els[i])
}

/// Whether the output is a JSON array of well-formed rate-limit rows.
pub open spec fn spec_ratelimit_ok(s: Seq<char>) -> bool {
    match spec_parse_json(s) {
        Option::Some(JsonV::Arr(els)) => all_rl_ok(els),
        _ => false,
    }
}

/// The (type, action) labels of one row.
pub open spec fn rl_labels(v: JsonV) -> Seq<LabelV> {
    seq![
        ("type"@, str_field(v, "type"@).unwrap()),
        ("action"@, str_field(v, "action"@).unwrap()),
    ]
}

/// The registry after publishing one row: its limit, used, remaining and
/// reset-seconds samples, in that order.
pub open spec fn rl_row_apply(reg: Seq<FamilyV>, v: JsonV) -> Seq<FamilyV> {
    let l = rl_labels(v);
    let reg1 = spec_upsert(
        reg,
        "op_serviceaccount_ratelimit_limit"@,
        "API rate limit."@,
        l,
        clamp64(int_field(v, "limit"@).unwrap()),
    );
    let reg2 = spec_upsert(
        reg1,
        "op_serviceaccount_ratelimit_used"@,
        "API rate limit used."@,
        l,
        clamp64(int_field(v, "used"@).unwrap()),
    );
    let reg3 = spec_upsert(
        reg2,
        "op_serviceaccount_ratelimit_remaining"@,
        "API rate limit remaining."@,
        l,
        clamp64(int_field(v, "remaining"@).unwrap()),
    );
    spec_upsert(
        reg3,
        "op_serviceaccount_ratelimit_reset_seconds"@,
        "API rate limit remaining."@,
        l,
        clamp64(int_field(v, "reset"@).unwrap()),
    )
}

/// The registry after publishing the rows from index `i` on.
pub open spec fn rl_apply_from(reg: Seq<FamilyV>, els: Seq<JsonV>, i: int) -> Seq<FamilyV>
    decreases els.len() - i,
{
    if i < 0 || i >= els.len() {
        reg
    } else {
        rl_apply_from(rl_row_apply(reg, els[i]), els, i + 1)
    }
}

/// The registry after a successful rate-limit extraction.
pub open spec fn ratelimit_apply(reg: Seq<FamilyV>, s: Seq<char>) -> Seq<FamilyV> {
    match spec_parse_json(s) {
        Option::Some(JsonV::Arr(els)) => rl_apply_from(reg, els, 0),
        _ => reg,
    }
}

/// Reads `service-account ratelimit` JSON output and publishes four
/// samples per row.  Nothing is written unless every row is well formed.
pub fn read_ratelimit(reg: &mut MetricRegistry, output: &str) -> (r: Result<(), ParseError>)
    requires
        registry_wf(old(reg)@),
    ensures
        registry_wf(final(reg)@),
        match r {
            Ok(_) => spec_ratelimit_ok(output@) && final(reg)@ == ratelimit_apply(
                old(reg)@,
                output@,
            ),
            Err(e) => !spec_ratelimit_ok(output@) && final(reg)@ == old(reg)@ && e
                == extract_err(output@),
        },
{
    let j = match parse_json(output) {
        Ok(j) => j,
        Err(e) => {
            return Err(e);
        }
    };
    match j {
        Json::Arr(els) => {
            let ghost ev = jsons_view(els@);
            // First pass: validate every row, so a bad row writes nothing.
            let mut i: usize = 0;
            while i < els.len()
                invariant
                    i <= els@.len(),
                    ev == jsons_view(els@),
                    spec_parse_json(output@) == Some(JsonV::Arr(ev)),
                    reg@ == old(reg)@,
                    registry_wf(reg@),
                    forall|m: int| 0 <= m < i ==> rl_ok(#[trigger] ev[m]),
                decreases els@.len() - i,
            {
                proof {
                    lemma_jsons_view_index(els@);
                }
                let el = &els[i];
                proof {
                    assert(ev[i as int] == json_view(els@[i as int]));
                }
                let ok = match el {
                    Json::Obj(fs) => {
                        proof {
                            assert(ev[i as int] == JsonV::Obj(jfields_view(fs@)));
                        }
                        let limit_ok = match get_int_field(fs, "limit") {
                            Ok(n) => n >= 0,
                            Err(_) => false,
                        };
                        let used_ok = match get_int_field(fs, "used") {
                            Ok(n) => n >= 0,
                            Err(_) => false,
                        };
                        let rem_ok = match get_int_field(fs, "remaining") {
                            Ok(n) => n >= 0,
                            Err(_) => false,
                        };
                        let reset_ok = match get_int_field(fs, "reset") {
                            Ok(n) => n >= 0,
                            Err(_) => false,
                        };
                        has_str_field(fs, "type") && has_str_field(fs, "action") && limit_ok
                            && used_ok && rem_ok && reset_ok
                    }
                    _ => false,
                };
                if !ok {
                    proof {
                        assert(!rl_ok(ev[i as int]));
                        assert(!all_rl_ok(ev)) by {
                            if all_rl_ok(ev) {
                                assert(rl_ok(ev[i as int]));
                            }
                        }
                    }
                    return Err(ParseError::SchemaMismatch);
                }
                i = i + 1;
            }
            proof {
                lemma_jsons_view_index(els@);
            }
            // Second pass: publish each row's four samples.
            let ghost reg0 = reg@;
            let mut k: usize = 0;
            while k < els.len()
                invariant
                    k <= els@.len(),
                    ev == jsons_view(els@),
                    registry_wf(reg@),
                    forall|m: int| 0 <= m < ev.len() ==> rl_ok(#[trigger] ev[m]),
                    rl_apply_from(reg0, ev, 0) == rl_apply_from(reg@, ev, k as int),
                decreases els@.len() - k,
            {
                proof {
                    lemma_jsons_view_index(els@);
                    assert(ev[k as int] == json_view(els@[k as int]));
                    assert(rl_ok(ev[k as int]));
                }
                let ghost reg_entry = reg@;
                let el = &els[k];
                match el {
                    Json::Obj(fs) => {
                        proof {
                            assert(ev[k as int] == JsonV::Obj(jfields_view(fs@)));
                        }
                        let t = match get_str_field(fs, "type") {
                            Ok(s) => s,
                            Err(_) => {
                                proof {
                                    assert(false);
                                }
                                return Err(ParseError::SchemaMismatch);
                            }
                        };
                        let a = match get_str_field(fs, "action") {
                            Ok(s) => s,
                            Err(_) => {
                                proof {
                                    assert(false);
                                }
                                return Err(ParseError::SchemaMismatch);
                            }
                        };
                        let limit = match get_int_field(fs, "limit") {
                            Ok(n) => n,
                            Err(_) => {
                                proof {
                                    assert(false);
                                }
                                return Err(ParseError::SchemaMismatch);
                            }
                        };
                        let used = match get_int_field(fs, "used") {
                            Ok(n) => n,
                            Err(_) => {
                                proof {
                                    assert(false);
                                }
                                return Err(ParseError::SchemaMismatch);
                            }
                        };
                        let remaining = match get_int_field(fs, "remaining") {
                            Ok(n) => n,
                            Err(_) => {
                                proof {
                                    assert(false);
                                }
                                return Err(ParseError::SchemaMismatch);
                            }
                        };
                        let reset = match get_int_field(fs, "reset") {
                            Ok(n) => n,
                            Err(_) => {
                                proof {
                                    assert(false);
                                }
                                return Err(ParseError::SchemaMismatch);
                            }
                        };
                        let mut l1: Vec<(String, String)> = Vec::new();
                        l1.push(("type".to_owned(), t.clone()));
                        l1.push(("action".to_owned(), a.clone()));
                        proof {
                            assert(labels_view(l1@) =~= rl_labels(ev[k as int]));
                        }
                        reg.upsert(
                            "op_serviceaccount_ratelimit_limit",
                            "API rate limit.",
                            l1,
                            limit as u64,
                        );
                        let mut l2: Vec<(String, String)> = Vec::new();
                        l2.push(("type".to_owned(), t.clone()));
                        l2.push(("action".to_owned(), a.clone()));
                        proof {
                            assert(labels_view(l2@) =~= rl_labels(ev[k as int]));
                        }
                        reg.upsert(
                            "op_serviceaccount_ratelimit_used",
                            "API rate limit used.",
                            l2,
                            used as u64,
                        );
                        let mut l3: Vec<(String, String)> = Vec::new();
                        l3.push(("type".to_owned(), t.clone()));
                        l3.push(("action".to_owned(), a.clone()));
                        proof {
                            assert(labels_view(l3@) =~= rl_labels(ev[k as int]));
                        }
                        reg.upsert(
                            "op_serviceaccount_ratelimit_remaining",
                            "API rate limit remaining.",
                            l3,
                            remaining as u64,
                        );
                        let mut l4: Vec<(String, String)> = Vec::new();
                        l4.push(("type".to_owned(), t));
                        l4.push(("action".to_owned(), a));
                        proof {
                            assert(labels_view(l4@) =~= rl_labels(ev[k as int]));
                        }
                        reg.upsert(
                            "op_serviceaccount_ratelimit_reset_seconds",
                            "API rate limit remaining.",
                            l4,
                            reset as u64,
                        );
                        proof {
                            assert(reg@ == rl_row_apply(reg_entry, ev[k as int]));
                            assert(rl_apply_from(reg_entry, ev, k as int) == rl_apply_from(
                                reg@,
                                ev,
                                k + 1,
                            ));
                        }
                    }
                    _ => {
                        proof {
                            assert(false);
                        }
                        return Err(ParseError::SchemaMismatch);
                    }
                }
                k = k + 1;
            }
            Ok(())
        }
        _ => Err(ParseError::SchemaMismatch),
    }
}

/// Checks the rate-limit output without writing anything.
pub fn ratelimit_valid(output: &str) -> (r: Result<(), ParseError>)
    ensures
        match r {
            Ok(_) => spec_ratelimit_ok(output@),
            Err(e) => !spec_ratelimit_ok(output@) && e == extract_err(output@),
        },
{
    let j = match parse_json(output) {
        Ok(j) => j,
        Err(e) => {
            return Err(e);
        }
    };
    match j {
        Json::Arr(els) => {
            let ghost ev = jsons_view(els@);
            let mut i: usize = 0;
            while i < els.len()
                invariant
                    i <= els@.len(),
                    ev == jsons_view(els@),
                    spec_parse_json(output@) == Some(JsonV::Arr(ev)),
                    forall|m: int| 0 <= m < i ==> rl_ok(#[trigger] ev[m]),
                decreases els@.len() - i,
            {
                proof {
                    lemma_jsons_view_index(els@);
                }
                let el = &els[i];
                proof {
                    assert(ev[i as int] == json_view(els@[i as int]));
                }
                let ok = match el {
                    Json::Obj(fs) => {
                        proof {
                            assert(ev[i as int] == JsonV::Obj(jfields_view(fs@)));
                        }
                        let limit_ok = match get_int_field(fs, "limit") {
                            Ok(n) => n >= 0,
                            Err(_) => false,
                        };
                        let used_ok = match get_int_field(fs, "used") {
                            Ok(n) => n >= 0,
                            Err(_) => false,
                        };
                        let rem_ok = match get_int_field(fs, "remaining") {
                            Ok(n) => n >= 0,
                            Err(_) => false,
                        };
                        let reset_ok = match get_int_field(fs, "reset") {
                            Ok(n) => n >= 0,
                            Err(_) => false,
                        };
                        has_str_field(fs, "type") && has_str_field(fs, "action") && limit_ok
                            && used_ok && rem_ok && reset_ok
                    }
                    _ => false,
                };
                if !ok {
                    proof {
                        assert(!rl_ok(ev[i as int]));
                        assert(!all_rl_ok(ev)) by {
                            if all_rl_ok(ev) {
                                assert(rl_ok(ev[i as int]));
                            }
                        }
                    }
                    return Err(ParseError::SchemaMismatch);
                }
                i = i + 1;
            }
            proof {
                lemma_jsons_view_index(els@);
            }
            Ok(())
        }
        _ => Err(ParseError::SchemaMismatch),
    }
}

/// All fields the identity schema requires, each a string.
pub open spec fn whoami_ok(v: JsonV) -> bool {
    &&& str_field(v, "url"@) is Some
    &&& str_field(v, "user_uuid"@) is Some
    &&& str_field(v, "account_uuid"@) is Some
    &&& str_field(v, "user_type"@) is Some
}

/// The labels of the identity presence sample.
pub open spec fn whoami_labels(v: JsonV) -> Seq<LabelV> {
    seq![
        ("url"@, str_field(v, "url"@).unwrap()),
        ("user_uuid"@, str_field(v, "user_uuid"@).unwrap()),
        ("account_uuid"@, str_field(v, "account_uuid"@).unwrap()),
        ("user_type"@, str_field(v, "user_type"@).unwrap()),
    ]
}

/// Whether the output parses and matches the identity schema.
pub open spec fn spec_whoami_ok(s: Seq<char>) -> bool {
    match spec_parse_json(s) {
        Option::Some(v) => whoami_ok(v),
        Option::None => false,
    }
}

/// The registry after a successful identity extraction.
pub open spec fn whoami_apply(reg: Seq<FamilyV>, s: Seq<char>) -> Seq<FamilyV> {
    spec_upsert(
        reg,
        "op_serviceaccount_whoami"@,
        "Current service account information."@,
        whoami_labels(spec_parse_json(s).unwrap()),
        1,
    )
}

/// Checks the identity output without writing anything.
pub fn whoami_valid(output: &str) -> (r: Result<(), ParseError>)
    ensures
        match r {
            Ok(_) => spec_whoami_ok(output@),
            Err(e) => !spec_whoami_ok(output@) && e == extract_err(output@),
        },
{
    let j = match parse_json(output) {
        Ok(j) => j,
        Err(e) => {
            return Err(e);
        }
    };
    match j {
        Json::Obj(fields) => {
            if has_str_field(&fields, "url") && has_str_field(&fields, "user_uuid")
                && has_str_field(&fields, "account_uuid") && has_str_field(
                &fields,
                "user_type",
            ) {
                Ok(())
            } else {
                Err(ParseError::SchemaMismatch)
            }
        }
        _ => Err(ParseError::SchemaMismatch),
    }
}

/// Reads `whoami` JSON output and publishes the identity sample.
pub fn read_whoami(reg: &mut MetricRegistry, output: &str) -> (r: Result<(), ParseError>)
    requires
        registry_wf(old(reg)@),
    ensures
        registry_wf(final(reg)@),
        match r {
            Ok(_) => spec_whoami_ok(output@) && final(reg)@ == whoami_apply(
                old(reg)@,
                output@,
            ),
            Err(e) => !spec_whoami_ok(output@) && final(reg)@ == old(reg)@ && e == extract_err(
                output@,
            ),
        },
{
    let j = match parse_json(output) {
        Ok(j) => j,
        Err(e) => {
            return Err(e);
        }
    };
    match j {
        Json::Obj(fields) => {
            let url = match get_str_field(&fields, "url") {
                Ok(s) => s,
                Err(e) => {
                    return Err(e);
                }
            };
            let user_uuid = match get_str_field(&fields, "user_uuid") {
                Ok(s) => s,
                Err(e) => {
                    return Err(e);
                }
            };
            let account_uuid = match get_str_field(&fields, "account_uuid") {
                Ok(s) => s,
                Err(e) => {
                    return Err(e);
                }
            };
            let user_type = match get_str_field(&fields, "user_type") {
                Ok(s) => s,
                Err(e) => {
                    return Err(e);
                }
            };
            let mut labels: Vec<(String, String)> = Vec::new();
            labels.push(("url".to_owned(), url));
            labels.push(("user_uuid".to_owned(), user_uuid));
            labels.push(("account_uuid".to_owned(), account_uuid));
            labels.push(("user_type".to_owned(), user_type));
            proof {
                assert(labels_view(labels@) =~= whoami_labels(j@));
            }
            reg.upsert(
                "op_serviceaccount_whoami",
                "Current service account information.",
                labels,
                1,
            );
            Ok(())
        }
        _ => Err(ParseError::SchemaMismatch),
    }
}

} // verus!
