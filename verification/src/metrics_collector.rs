//! The per-entity extractors and the orchestrator-facing dispatch: which
//! commands each entity kind needs, and how one entity's command output
//! becomes registry samples.

use vstd::prelude::*;
use crate::ParseError;
use crate::registry::{MetricRegistry, registry_wf};
use crate::text::str_eq;

pub mod account;
pub mod build_info;
pub mod document;
pub mod group;
pub mod item;
pub mod rate_limit;
pub mod service_account;
pub mod user;
pub mod vault;

verus! {

/// The error an extractor reports: the parser's failure when the output
/// is not JSON at all, the schema's otherwise.
pub open spec fn extract_err(s: Seq<char>) -> ParseError {
    if crate::json::spec_parse_json(s) is None {
        ParseError::MalformedRecord
    } else {
        ParseError::SchemaMismatch
    }
}

/// The entity kinds a scrape can be asked to collect.
#[derive(Copy, Clone, Debug, PartialEq, Eq, Structural)]
pub enum Metrics {
    // Metrics that do not consume read quota
    Account,
    BuildInfo,
    Group,
    ServiceAccount,
    User,
    // Metrics that consume quota by read
    Document,
    Item,
    Vault,
}

/// How many command outputs an entity kind consumes.
pub open spec fn n_outputs(m: Metrics) -> int {
    match m {
        Metrics::BuildInfo => 0,
        Metrics::ServiceAccount => 2,
        _ => 1,
    }
}

/// The fixed argument lists the gateway must run for an entity kind, in
/// order; their outputs feed `collect` in the same order.
pub open spec fn spec_command_args(m: Metrics) -> Seq<Seq<Seq<char>>> {
    match m {
        Metrics::Account => seq![seq!["account"@, "get"@, "--format"@, "json"@]],
        Metrics::BuildInfo => Seq::empty(),
        Metrics::Group => seq![seq!["group"@, "list"@, "--format"@, "json"@]],
        Metrics::ServiceAccount => seq![
            seq!["service-account"@, "ratelimit"@, "--format"@, "json"@],
            seq!["whoami"@, "--format"@, "json"@],
        ],
        Metrics::User => seq![seq!["user"@, "list"@, "--format"@, "json"@]],
        Metrics::Document => seq![
            seq!["document"@, "list"@, "--format"@, "json"@, "--include-archive"@],
        ],
        Metrics::Item => seq![
            seq!["item"@, "list"@, "--format"@, "json"@, "--include-archive"@],
        ],
        Metrics::Vault => seq![seq!["vault"@, "list"@, "--format"@, "json"@]],
    }
}

/// View of a command list.
pub open spec fn cmds_view(c: Seq<Vec<String>>) -> Seq<Seq<Seq<char>>> {
    c.map_values(|v: Vec<String>| crate::utils::strs_view(v@))
}

/// Whether an entity kind's outputs all pass parsing and its schema.
pub open spec fn spec_collect_ok(m: Metrics, outputs: Seq<Seq<char>>) -> bool {
    match m {
        Metrics::Account => crate::metrics_collector::account::spec_account_ok(outputs[0]),
        Metrics::BuildInfo => true,
        Metrics::Group => crate::metrics_collector::group::spec_groups_ok(outputs[0]),
        Metrics::ServiceAccount => crate::metrics_collector::service_account::spec_ratelimit_ok(
            outputs[0],
        ) && crate::metrics_collector::service_account::spec_whoami_ok(outputs[1]),
        Metrics::User => crate::metrics_collector::user::spec_users_ok(outputs[0]),
        Metrics::Document => crate::metrics_collector::document::spec_documents_ok(outputs[0]),
        Metrics::Item => crate::metrics_collector::item::spec_items_ok(outputs[0]),
        Metrics::Vault => crate::metrics_collector::vault::spec_vaults_ok(outputs[0]),
    }
}

/// The registry after a successful collection for one entity kind.
pub open spec fn spec_collect_apply(
    reg: Seq<crate::registry::FamilyV>,
    m: Metrics,
    outputs: Seq<Seq<char>>,
    version: Seq<char>,
) -> Seq<crate::registry::FamilyV> {
    match m {
        Metrics::Account => crate::metrics_collector::account::account_apply(reg, outputs[0]),
        Metrics::BuildInfo => crate::metrics_collector::build_info::buildinfo_apply(
            reg,
            version,
        ),
        Metrics::Group => crate::metrics_collector::group::group_apply(reg, outputs[0]),
        Metrics::ServiceAccount => crate::metrics_collector::service_account::whoami_apply(
            crate::metrics_collector::service_account::ratelimit_apply(reg, outputs[0]),
            outputs[1],
        ),
        Metrics::User => crate::metrics_collector::user::user_apply(reg, outputs[0]),
        Metrics::Document => crate::metrics_collector::document::document_apply(
            reg,
            outputs[0],
        ),
        Metrics::Item => crate::metrics_collector::item::item_apply(reg, outputs[0]),
        Metrics::Vault => crate::metrics_collector::vault::vault_apply(reg, outputs[0]),
    }
}

/// The error a failed collection reports: the first failing output's.
pub open spec fn spec_collect_err(m: Metrics, outputs: Seq<Seq<char>>) -> ParseError {
    match m {
        Metrics::ServiceAccount => {
            if !crate::metrics_collector::service_account::spec_ratelimit_ok(outputs[0]) {
                extract_err(outputs[0])
            } else {
                extract_err(outputs[1])
            }
        },
        _ => extract_err(outputs[0]),
    }
}

/// The argument lists to run for one entity kind.
pub fn command_args(m: Metrics) -> (r: Vec<Vec<String>>)
    ensures
        cmds_view(r@) == spec_command_args(m),
        r@.len() == n_outputs(m),
{
    let mut cmds: Vec<Vec<String>> = Vec::new();
    match m {
        Metrics::Account => {
            let mut c: Vec<String> = Vec::new();
            c.push("account".to_owned());
            c.push("get".to_owned());
            c.push("--format".to_owned());
            c.push("json".to_owned());
            proof {
                assert(crate::utils::strs_view(c@) =~= seq!["account"@, "get"@, "--format"@,
                    "json"@]);
            }
            cmds.push(c);
        }
        Metrics::BuildInfo => {}
        Metrics::Group => {
            let mut c: Vec<String> = Vec::new();
            c.push("group".to_owned());
            c.push("list".to_owned());
            c.push("--format".to_owned());
            c.push("json".to_owned());
            proof {
                assert(crate::utils::strs_view(c@) =~= seq!["group"@, "list"@, "--format"@,
                    "json"@]);
            }
            cmds.push(c);
        }
        Metrics::ServiceAccount => {
            let mut c: Vec<String> = Vec::new();
            c.push("service-account".to_owned());
            c.push("ratelimit".to_owned());
            c.push("--format".to_owned());
            c.push("json".to_owned());
            proof {
                assert(crate::utils::strs_view(c@) =~= seq!["service-account"@, "ratelimit"@,
                    "--format"@, "json"@]);
            }
            cmds.push(c);
            let mut c2: Vec<String> = Vec::new();
            c2.push("whoami".to_owned());
            c2.push("--format".to_owned());
            c2.push("json".to_owned());
            proof {
                assert(crate::utils::strs_view(c2@) =~= seq!["whoami"@, "--format"@, "json"@]);
            }
            cmds.push(c2);
        }
        Metrics::User => {
            let mut c: Vec<String> = Vec::new();
            c.push("user".to_owned());
            c.push("list".to_owned());
            c.push("--format".to_owned());
            c.push("json".to_owned());
            proof {
                assert(crate::utils::strs_view(c@) =~= seq!["user"@, "list"@, "--format"@,
                    "json"@]);
            }
            cmds.push(c);
        }
        Metrics::Document => {
            let mut c: Vec<String> = Vec::new();
            c.push("document".to_owned());
            c.push("list".to_owned());
            c.push("--format".to_owned());
            c.push("json".to_owned());
            c.push("--include-archive".to_owned());
            proof {
                assert(crate::utils::strs_view(c@) =~= seq!["document"@, "list"@, "--format"@,
                    "json"@, "--include-archive"@]);
            }
            cmds.push(c);
        }
        Metrics::Item => {
            let mut c: Vec<String> = Vec::new();
            c.push("item".to_owned());
            c.push("list".to_owned());
            c.push("--format".to_owned());
            c.push("json".to_owned());
            c.push("--include-archive".to_owned());
            proof {
                assert(crate::utils::strs_view(c@) =~= seq!["item"@, "list"@, "--format"@,
                    "json"@, "--include-archive"@]);
            }
            cmds.push(c);
        }
        Metrics::Vault => {
            let mut c: Vec<String> = Vec::new();
            c.push("vault".to_owned());
            c.push("list".to_owned());
            c.push("--format".to_owned());
            c.push("json".to_owned());
            proof {
                assert(crate::utils::strs_view(c@) =~= seq!["vault"@, "list"@, "--format"@,
                    "json"@]);
            }
            cmds.push(c);
        }
    }
    proof {
        assert(cmds_view(cmds@) =~~= spec_command_args(m));
    }
    cmds
}

/// Runs one entity kind's extraction over its command outputs.  A failed
/// extraction writes nothing and reports the first failing output's
/// error; `version` labels the build-information sample.
pub fn collect(
    reg: &mut MetricRegistry,
    m: Metrics,
    outputs: &Vec<String>,
    version: &str,
) -> (r: Result<(), ParseError>)
    requires
        registry_wf(old(reg)@),
        outputs@.len() == n_outputs(m),
    ensures
        registry_wf(final(reg)@),
        ({
            let ov = crate::utils::strs_view(outputs@);
            match r {
                Ok(_) => spec_collect_ok(m, ov) && final(reg)@ == spec_collect_apply(
                    old(reg)@,
                    m,
                    ov,
                    version@,
                ),
                Err(e) => !spec_collect_ok(m, ov) && final(reg)@ == old(reg)@ && e
                    == spec_collect_err(m, ov),
            }
        }),
{
    proof {
        if outputs@.len() > 0 {
            assert(crate::utils::strs_view(outputs@)[0] == outputs@[0]@);
        }
        if outputs@.len() > 1 {
            assert(crate::utils::strs_view(outputs@)[1] == outputs@[1]@);
        }
    }
    match m {
        Metrics::Account => crate::metrics_collector::account::read_account(
            reg,
            outputs[0].as_str(),
        ),
        Metrics::BuildInfo => {
            crate::metrics_collector::build_info::read_buildinfo(reg, version);
            Ok(())
        }
        Metrics::Group => crate::metrics_collector::group::read_group(reg, outputs[0].as_str()),
        Metrics::ServiceAccount => {
            match crate::metrics_collector::service_account::ratelimit_valid(
                outputs[0].as_str(),
            ) {
                Err(e) => {
                    return Err(e);
                }
                Ok(_) => {}
            }
            match crate::metrics_collector::service_account::whoami_valid(outputs[1].as_str()) {
                Err(e) => {
                    return Err(e);
                }
                Ok(_) => {}
            }
            match crate::metrics_collector::service_account::read_ratelimit(
                reg,
                outputs[0].as_str(),
            ) {
                Err(_) => {
                    proof {
                        assert(false);
                    }
                    return Err(ParseError::SchemaMismatch);
                }
                Ok(_) => {}
            }
            match crate::metrics_collector::service_account::read_whoami(
                reg,
                outputs[1].as_str(),
            ) {
                Err(_) => {
                    proof {
                        assert(false);
                    }
                    return Err(ParseError::SchemaMismatch);
                }
                Ok(_) => {}
            }
            Ok(())
        }
        Metrics::User => crate::metrics_collector::user::read_user(reg, outputs[0].as_str()),
        Metrics::Document => crate::metrics_collector::document::read_document(
            reg,
            outputs[0].as_str(),
        ),
        Metrics::Item => crate::metrics_collector::item::read_item(reg, outputs[0].as_str()),
        Metrics::Vault => crate::metrics_collector::vault::read_vault(reg, outputs[0].as_str()),
    }
}

impl core::str::FromStr for Metrics {
    type Err = ();

    fn from_str(input: &str) -> Result<Self, Self::Err> {
        if str_eq(input, "account") {
            Ok(Metrics::Account)
        } else if str_eq(input, "build-info") {
            Ok(Metrics::BuildInfo)
        } else if str_eq(input, "document") {
            Ok(Metrics::Document)
        } else if str_eq(input, "group") {
            Ok(Metrics::Group)
        } else if str_eq(input, "item") {
            Ok(Metrics::Item)
        } else if str_eq(input, "service-account") {
            Ok(Metrics::ServiceAccount)
        } else if str_eq(input, "user") {
            Ok(Metrics::User)
        } else if str_eq(input, "vault") {
            Ok(Metrics::Vault)
        } else {
            Err(())
        }
    }
}

} // verus!
