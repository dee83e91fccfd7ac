//! Current-account extractor: one presence sample, value 1, labelled by
//! the account's identity fields.

use vstd::prelude::*;
use crate::ParseError;
use crate::json::{parse_json, spec_parse_json, str_field, jfields_view, Json, JsonV,
    get_str_field};
use crate::registry::{FamilyV, LabelV, MetricRegistry, registry_wf, spec_upsert, labels_view};
use crate::metrics_collector::extract_err;

verus! {

/// All fields the account schema requires, each a string.
pub open spec fn account_ok(v: JsonV) -> bool {
    &&& str_field(v, "id"@) is Some
    &&& str_field(v, "name"@) is Some
    &&& str_field(v, "domain"@) is Some
    &&& str_field(v, "type"@) is Some
    &&& str_field(v, "state"@) is Some
    &&& str_field(v, "created_at"@) is Some
}

/// The labels of the presence sample.
pub open spec fn account_labels(v: JsonV) -> Seq<LabelV> {
    seq![
        ("id"@, str_field(v, "id"@).unwrap()),
        ("name"@, str_field(v, "name"@).unwrap()),
        ("domain"@, str_field(v, "domain"@).unwrap()),
        ("type"@, str_field(v, "type"@).unwrap()),
        ("state"@, str_field(v, "state"@).unwrap()),
        ("created_at"@, str_field(v, "created_at"@).unwrap()),
    ]
}

/// Whether the output parses and matches the account schema.
pub open spec fn spec_account_ok(s: Seq<char>) -> bool {
    match spec_parse_json(s) {
        Option::Some(v) => account_ok(v),
        Option::None => false,
    }
}

/// The registry after a successful account extraction.
pub open spec fn account_apply(reg: Seq<FamilyV>, s: Seq<char>) -> Seq<FamilyV> {
    spec_upsert(
        reg,
        "op_account_current"@,
        "Current 1Password account information."@,
        account_labels(spec_parse_json(s).unwrap()),
        1,
    )
}

/// Reads `account get` JSON output and publishes the presence sample.
pub fn read_account(reg: &mut MetricRegistry, output: &str) -> (r: Result<(), ParseError>)
    requires
        registry_wf(old(reg)@),
    ensures
        registry_wf(final(reg)@),
        match r {
            Ok(_) => spec_account_ok(output@) && final(reg)@ == account_apply(
                old(reg)@,
                output@,
            ),
            Err(e) => !spec_account_ok(output@) && final(reg)@ == old(reg)@ && e == extract_err(
                output@,
            ),
        },
{
    let j = match parse_json(output) {
        Ok(j) => j,
        Err(e) => {
            return Err(e);
        }
    };
    match j {
        Json::Obj(fields) => {
            let id = match get_str_field(&fields, "id") {
                Ok(s) => s,
                Err(e) => {
                    return Err(e);
                }
            };
            let name = match get_str_field(&fields, "name") {
                Ok(s) => s,
                Err(e) => {
                    return Err(e);
                }
            };
            let domain = match get_str_field(&fields, "domain") {
                Ok(s) => s,
                Err(e) => {
                    return Err(e);
                }
            };
            let type_ = match get_str_field(&fields, "type") {
                Ok(s) => s,
                Err(e) => {
                    return Err(e);
                }
            };
            let state = match get_str_field(&fields, "state") {
                Ok(s) => s,
                Err(e) => {
                    return Err(e);
                }
            };
            let created_at = match get_str_field(&fields, "created_at") {
                Ok(s) => s,
                Err(e) => {
                    return Err(e);
                }
            };
            let mut labels: Vec<(String, String)> = Vec::new();
            labels.push(("id".to_owned(), id));
            labels.push(("name".to_owned(), name));
            labels.push(("domain".to_owned(), domain));
            labels.push(("type".to_owned(), type_));
            labels.push(("state".to_owned(), state));
            labels.push(("created_at".to_owned(), created_at));
            proof {
                assert(labels_view(labels@) =~= account_labels(j@));
            }
            reg.upsert(
                "op_account_current",
                "Current 1Password account information.",
                labels,
                1,
            );
            Ok(())
        }
        _ => Err(ParseError::SchemaMismatch),
    }
}

} // verus!
