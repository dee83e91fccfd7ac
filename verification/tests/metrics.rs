//! Tests for the registry, the renderer and the per-entity extractors,
//! ending with a full scrape against fixture data.

use op_exporter::registry::MetricRegistry;
use op_exporter::render::render;
use op_exporter::metrics_collector::{collect, command_args, Metrics};
use op_exporter::metrics_collector::account::read_account;
use op_exporter::metrics_collector::build_info::read_buildinfo;
use op_exporter::metrics_collector::document::read_document;
use op_exporter::metrics_collector::group::read_group;
use op_exporter::metrics_collector::item::read_item;
use op_exporter::metrics_collector::service_account::{read_ratelimit, read_whoami};
use op_exporter::metrics_collector::user::read_user;
use op_exporter::metrics_collector::vault::read_vault;
use op_exporter::ParseError;

const ACCOUNT_JSON: &str = r#"{
  "id": "??????????????????????????",
  "name": "**********",
  "domain": "my",
  "type": "FAMILY",
  "state": "ACTIVE",
  "created_at": "2023-03-19T05:06:27Z"
}"#;

const GROUP_JSON: &str = r#"[
  {"id": "g1", "name": "Owners", "description": "", "state": "ACTIVE", "created_at": "2023-03-19T05:06:27Z"},
  {"id": "g2", "name": "Administrators", "description": "", "state": "ACTIVE", "created_at": "2023-03-19T05:06:27Z"},
  {"id": "g3", "name": "Recovery", "description": "", "state": "ACTIVE", "created_at": "2023-03-19T05:06:27Z"},
  {"id": "g4", "name": "Members", "description": "", "state": "ACTIVE", "created_at": "2023-03-19T05:06:27Z"}
]"#;

const USER_JSON: &str = r#"[
  {"id": "u1", "name": "Service Account", "email": "", "type": "SERVICE_ACCOUNT", "state": "ACTIVE"}
]"#;

const VAULT_JSON: &str = r#"[
  {"id": "36vhq4xz3r6hnemzadk33evi4a", "name": "Private", "content_version": 1}
]"#;

const DOCUMENT_JSON: &str = r#"[
  {"id": "d1", "title": "Doc 1", "tags": ["test"], "version": 1,
   "vault": {"id": "36vhq4xz3r6hnemzadk33evi4a", "name": "Private"},
   "overview.ainfo": "10 MB", "last_edited_by": "u1",
   "created_at": "2023-03-19T05:06:27Z", "updated_at": "2023-03-19T05:06:27Z"},
  {"id": "d2", "title": "Doc 2", "tags": ["test"], "version": 1,
   "vault": {"id": "36vhq4xz3r6hnemzadk33evi4a", "name": "Private"},
   "overview.ainfo": "9 KB", "last_edited_by": "u1",
   "created_at": "2023-03-19T05:06:27Z", "updated_at": "2023-03-19T05:06:27Z"},
  {"id": "d3", "title": "Doc 3", "tags": ["test"], "version": 1,
   "vault": {"id": "36vhq4xz3r6hnemzadk33evi4a", "name": "Private"},
   "overview.ainfo": "5 bytes", "last_edited_by": "u1",
   "created_at": "2023-03-19T05:06:27Z", "updated_at": "2023-03-19T05:06:27Z"},
  {"id": "d4", "title": "Doc 4", "tags": ["test"], "version": 1,
   "vault": {"id": "36vhq4xz3r6hnemzadk33evi4a", "name": "Private"},
   "overview.ainfo": "5 bytes", "last_edited_by": "u1",
   "created_at": "2023-03-19T05:06:27Z", "updated_at": "2023-03-19T05:06:27Z"}
]"#;

const ITEM_JSON: &str = r#"[
  {"id": "i1", "title": "Item 1", "tags": ["test"], "version": 1,
   "vault": {"id": "36vhq4xz3r6hnemzadk33evi4a", "name": "Private"},
   "category": "DOCUMENT", "last_edited_by": "u1",
   "created_at": "2023-03-19T05:06:27Z", "updated_at": "2023-03-19T05:06:27Z"},
  {"id": "i2", "title": "Item 2", "tags": ["test"], "version": 1,
   "vault": {"id": "36vhq4xz3r6hnemzadk33evi4a", "name": "Private"},
   "category": "LOGIN", "last_edited_by": "u1",
   "created_at": "2023-03-19T05:06:27Z", "updated_at": "2023-03-19T05:06:27Z"},
  {"id": "i3", "title": "Item 3", "tags": ["test"], "version": 1,
   "vault": {"id": "36vhq4xz3r6hnemzadk33evi4a", "name": "Private"},
   "category": "LOGIN", "last_edited_by": "u1",
   "created_at": "2023-03-19T05:06:27Z", "updated_at": "2023-03-19T05:06:27Z"},
  {"id": "i4", "title": "Item 4", "tags": ["test"], "version": 1,
   "vault": {"id": "36vhq4xz3r6hnemzadk33evi4a", "name": "Private"},
   "category": "SECURE_NOTE", "last_edited_by": "u1",
   "created_at": "2023-03-19T05:06:27Z", "updated_at": "2023-03-19T05:06:27Z"},
  {"id": "i5", "title": "Item 5", "tags": ["dev"], "version": 1,
   "vault": {"id": "36vhq4xz3r6hnemzadk33evi4a", "name": "Private"},
   "category": "SSH_KEY", "last_edited_by": "u1",
   "created_at": "2023-03-19T05:06:27Z", "updated_at": "2023-03-19T05:06:27Z"}
]"#;

const RATELIMIT_JSON: &str = r#"[
  {"type": "token", "action": "write", "limit": 100, "used": 0, "remaining": 100, "reset": 0},
  {"type": "token", "action": "read", "limit": 1000, "used": 1, "remaining": 999, "reset": 308},
  {"type": "account", "action": "read_write", "limit": 1000, "used": 1, "remaining": 999, "reset": 83108}
]"#;

const WHOAMI_JSON: &str = r#"{
  "url": "https://my.1password.com",
  "user_uuid": "!!!!!!!!!!!!!!!!!!!!!!!!!!",
  "account_uuid": "++++++++++++++++++++++++++",
  "user_type": "SERVICE_ACCOUNT"
}"#;

fn family_value(reg: &MetricRegistry, name: &str, labels: &[(&str, &str)]) -> Option<u64> {
    for f in reg.snapshot_all() {
        if f.name == name {
            for s in &f.samples {
                let got: Vec<(&str, &str)> =
                    s.labels.iter().map(|p| (p.0.as_str(), p.1.as_str())).collect();
                let mut want: Vec<(&str, &str)> = labels.to_vec();
                want.sort();
                if got == want {
                    return Some(s.value);
                }
            }
        }
    }
    None
}

#[test]
fn test_registry_upsert_overwrite() {
    let mut reg = MetricRegistry::new();
    let labels = vec![("vault".to_owned(), "V1".to_owned())];
    reg.upsert("op_test_gauge", "A test gauge.", labels.clone(), 1);
    reg.upsert("op_test_gauge", "A test gauge.", labels, 7);
    let fams = reg.snapshot_all();
    assert_eq!(fams.len(), 1);
    assert_eq!(fams[0].samples.len(), 1);
    assert_eq!(fams[0].samples[0].value, 7);
}

#[test]
fn test_render_deterministic() {
    let mut reg = MetricRegistry::new();
    reg.upsert(
        "op_b",
        "Second family.",
        vec![("z".to_owned(), "1".to_owned()), ("a".to_owned(), "2".to_owned())],
        5,
    );
    reg.upsert("op_a", "First family.", Vec::new(), 3);
    let one = render(&reg);
    let two = render(&reg);
    assert_eq!(one, two);
    assert_eq!(
        one,
        "# HELP op_a First family.\n# TYPE op_a gauge\nop_a 3\n\
         # HELP op_b Second family.\n# TYPE op_b gauge\nop_b{a=\"2\",z=\"1\"} 5\n"
    );
}

#[test]
fn test_read_account_labels() {
    let mut reg = MetricRegistry::new();
    read_account(&mut reg, ACCOUNT_JSON).unwrap();
    assert_eq!(
        family_value(
            &reg,
            "op_account_current",
            &[
                ("id", "??????????????????????????"),
                ("name", "**********"),
                ("domain", "my"),
                ("type", "FAMILY"),
                ("state", "ACTIVE"),
                ("created_at", "2023-03-19T05:06:27Z"),
            ],
        ),
        Some(1)
    );
}

#[test]
fn test_read_account_schema_mismatch() {
    let mut reg = MetricRegistry::new();
    assert_eq!(
        read_account(&mut reg, "{\"id\": \"x\"}"),
        Err(ParseError::SchemaMismatch)
    );
    assert_eq!(
        read_account(&mut reg, "not json"),
        Err(ParseError::MalformedRecord)
    );
    assert!(reg.snapshot_all().is_empty());
}

#[test]
fn test_document_aggregation() {
    let mut reg = MetricRegistry::new();
    read_document(&mut reg, DOCUMENT_JSON).unwrap();
    assert_eq!(family_value(&reg, "op_document_count_total", &[]), Some(4));
    assert_eq!(
        family_value(
            &reg,
            "op_document_count_per_vault",
            &[("vault", "36vhq4xz3r6hnemzadk33evi4a")],
        ),
        Some(4)
    );
    assert_eq!(
        family_value(&reg, "op_document_count_per_tag", &[("tag", "test")]),
        Some(4)
    );
    assert_eq!(
        family_value(
            &reg,
            "op_document_file_size_per_vault_bytes",
            &[("vault", "36vhq4xz3r6hnemzadk33evi4a")],
        ),
        Some(10494986)
    );
    assert_eq!(
        family_value(&reg, "op_document_file_size_per_tag_bytes", &[("tag", "test")]),
        Some(10494986)
    );
}

#[test]
fn test_read_item_counts() {
    let mut reg = MetricRegistry::new();
    read_item(&mut reg, ITEM_JSON).unwrap();
    assert_eq!(family_value(&reg, "op_item_count_total", &[]), Some(5));
    assert_eq!(
        family_value(
            &reg,
            "op_item_count_per_vault",
            &[("vault", "36vhq4xz3r6hnemzadk33evi4a")],
        ),
        Some(5)
    );
    assert_eq!(family_value(&reg, "op_item_count_per_tag", &[("tag", "dev")]), Some(1));
    assert_eq!(family_value(&reg, "op_item_count_per_tag", &[("tag", "test")]), Some(4));
    assert_eq!(
        family_value(&reg, "op_item_count_per_category", &[("category", "DOCUMENT")]),
        Some(1)
    );
    assert_eq!(
        family_value(&reg, "op_item_count_per_category", &[("category", "LOGIN")]),
        Some(2)
    );
    assert_eq!(
        family_value(&reg, "op_item_count_per_category", &[("category", "SECURE_NOTE")]),
        Some(1)
    );
    assert_eq!(
        family_value(&reg, "op_item_count_per_category", &[("category", "SSH_KEY")]),
        Some(1)
    );
}

#[test]
fn test_rate_limit_table_reader() {
    let input = "\nTYPE       ACTION        LIMIT    USED    REMAINING    RESET\n\
                 token      write         100      0       100          N/A\n";
    let rows = op_exporter::metrics_collector::rate_limit::read_rate_limit(input).unwrap();
    assert_eq!(rows.len(), 1);
    assert_eq!(rows[0].type_, "token");
    assert_eq!(rows[0].reset, "N/A");
    let mut reg = MetricRegistry::new();
    op_exporter::metrics_collector::rate_limit::collect_rate_limit(&mut reg, input).unwrap();
    assert_eq!(
        family_value(&reg, "op_ratelimit_limit", &[("type", "token"), ("action", "write")]),
        Some(100)
    );
}

#[test]
fn test_command_args_catalog() {
    let c = command_args(Metrics::Account);
    assert_eq!(c, vec![vec!["account", "get", "--format", "json"]]);
    let c = command_args(Metrics::ServiceAccount);
    assert_eq!(c.len(), 2);
    assert_eq!(c[1], vec!["whoami", "--format", "json"]);
    assert!(command_args(Metrics::BuildInfo).is_empty());
}

#[test]
fn test_metrics_end_to_end() {
    let mut reg = MetricRegistry::new();
    let runs: Vec<(Metrics, Vec<String>)> = vec![
        (Metrics::Account, vec![ACCOUNT_JSON.to_owned()]),
        (Metrics::BuildInfo, Vec::new()),
        (Metrics::Document, vec![DOCUMENT_JSON.to_owned()]),
        (Metrics::Group, vec![GROUP_JSON.to_owned()]),
        (Metrics::Item, vec![ITEM_JSON.to_owned()]),
        (
            Metrics::ServiceAccount,
            vec![RATELIMIT_JSON.to_owned(), WHOAMI_JSON.to_owned()],
        ),
        (Metrics::User, vec![USER_JSON.to_owned()]),
        (Metrics::Vault, vec![VAULT_JSON.to_owned()]),
    ];
    for (metric, outputs) in &runs {
        collect(&mut reg, *metric, outputs, "0.3.1").unwrap();
    }

    let body = render(&reg);
    assert_eq!(
        body,
        r#"
# HELP op_account_current Current 1Password account information.
# TYPE op_account_current gauge
op_account_current{created_at="2023-03-19T05:06:27Z",domain="my",id="??????????????????????????",name="**********",state="ACTIVE",type="FAMILY"} 1
# HELP op_document_count_per_tag Number of documents per tag.
# TYPE op_document_count_per_tag gauge
op_document_count_per_tag{tag="test"} 4
# HELP op_document_count_per_vault Number of documents per vault.
# TYPE op_document_count_per_vault gauge
op_document_count_per_vault{vault="36vhq4xz3r6hnemzadk33evi4a"} 4
# HELP op_document_count_total Total number of documents.
# TYPE op_document_count_total gauge
op_document_count_total 4
# HELP op_document_file_size_per_tag_bytes Size of file in documents per tag, in bytes.
# TYPE op_document_file_size_per_tag_bytes gauge
op_document_file_size_per_tag_bytes{tag="test"} 10494986
# HELP op_document_file_size_per_vault_bytes Size of file in documents per vault, in bytes.
# TYPE op_document_file_size_per_vault_bytes gauge
op_document_file_size_per_vault_bytes{vault="36vhq4xz3r6hnemzadk33evi4a"} 10494986
# HELP op_exporter_buildinfo Build information of this exporter.
# TYPE op_exporter_buildinfo gauge
op_exporter_buildinfo{version="0.3.1"} 1
# HELP op_group_count_total Total number of groups.
# TYPE op_group_count_total gauge
op_group_count_total 4
# HELP op_item_count_per_category Number of items per category.
# TYPE op_item_count_per_category gauge
op_item_count_per_category{category="DOCUMENT"} 1
op_item_count_per_category{category="LOGIN"} 2
op_item_count_per_category{category="SECURE_NOTE"} 1
op_item_count_per_category{category="SSH_KEY"} 1
# HELP op_item_count_per_tag Number of items per tag.
# TYPE op_item_count_per_tag gauge
op_item_count_per_tag{tag="dev"} 1
op_item_count_per_tag{tag="test"} 4
# HELP op_item_count_per_vault Number of items per vault.
# TYPE op_item_count_per_vault gauge
op_item_count_per_vault{vault="36vhq4xz3r6hnemzadk33evi4a"} 5
# HELP op_item_count_total Total number of items.
# TYPE op_item_count_total gauge
op_item_count_total 5
# HELP op_serviceaccount_ratelimit_limit API rate limit.
# TYPE op_serviceaccount_ratelimit_limit gauge
op_serviceaccount_ratelimit_limit{action="read",type="token"} 1000
op_serviceaccount_ratelimit_limit{action="read_write",type="account"} 1000
op_serviceaccount_ratelimit_limit{action="write",type="token"} 100
# HELP op_serviceaccount_ratelimit_remaining API rate limit remaining.
# TYPE op_serviceaccount_ratelimit_remaining gauge
op_serviceaccount_ratelimit_remaining{action="read",type="token"} 999
op_serviceaccount_ratelimit_remaining{action="read_write",type="account"} 999
op_serviceaccount_ratelimit_remaining{action="write",type="token"} 100
# HELP op_serviceaccount_ratelimit_reset_seconds API rate limit remaining.
# TYPE op_serviceaccount_ratelimit_reset_seconds gauge
op_serviceaccount_ratelimit_reset_seconds{action="read",type="token"} 308
op_serviceaccount_ratelimit_reset_seconds{action="read_write",type="account"} 83108
op_serviceaccount_ratelimit_reset_seconds{action="write",type="token"} 0
# HELP op_serviceaccount_ratelimit_used API rate limit used.
# TYPE op_serviceaccount_ratelimit_used gauge
op_serviceaccount_ratelimit_used{action="read",type="token"} 1
op_serviceaccount_ratelimit_used{action="read_write",type="account"} 1
op_serviceaccount_ratelimit_used{action="write",type="token"} 0
# HELP op_serviceaccount_whoami Current service account information.
# TYPE op_serviceaccount_whoami gauge
op_serviceaccount_whoami{account_uuid="++++++++++++++++++++++++++",url="https://my.1password.com",user_type="SERVICE_ACCOUNT",user_uuid="!!!!!!!!!!!!!!!!!!!!!!!!!!"} 1
# HELP op_user_count_total Total number of users.
# TYPE op_user_count_total gauge
op_user_count_total 1
# HELP op_vault_count_total Total number of vaults.
# TYPE op_vault_count_total gauge
op_vault_count_total 1
"#
        .strip_prefix('\n')
        .unwrap()
    );
}

#[test]
fn test_whoami_presence() {
    let mut reg = MetricRegistry::new();
    read_whoami(&mut reg, WHOAMI_JSON).unwrap();
    assert_eq!(
        family_value(
            &reg,
            "op_serviceaccount_whoami",
            &[
                ("url", "https://my.1password.com"),
                ("user_uuid", "!!!!!!!!!!!!!!!!!!!!!!!!!!"),
                ("account_uuid", "++++++++++++++++++++++++++"),
                ("user_type", "SERVICE_ACCOUNT"),
            ],
        ),
        Some(1)
    );
}

#[test]
fn test_ratelimit_no_partial_writes() {
    let mut reg = MetricRegistry::new();
    // last row lacks the "reset" field, so nothing may be written
    let bad = r#"[
      {"type": "token", "action": "write", "limit": 100, "used": 0, "remaining": 100, "reset": 0},
      {"type": "token", "action": "read", "limit": 1000, "used": 1, "remaining": 999}
    ]"#;
    assert_eq!(read_ratelimit(&mut reg, bad), Err(ParseError::SchemaMismatch));
    assert!(reg.snapshot_all().is_empty());
}

#[test]
fn test_counts_simple() {
    let mut reg = MetricRegistry::new();
    read_group(&mut reg, GROUP_JSON).unwrap();
    read_user(&mut reg, USER_JSON).unwrap();
    read_vault(&mut reg, VAULT_JSON).unwrap();
    read_buildinfo(&mut reg, "0.3.1");
    assert_eq!(family_value(&reg, "op_group_count_total", &[]), Some(4));
    assert_eq!(family_value(&reg, "op_user_count_total", &[]), Some(1));
    assert_eq!(family_value(&reg, "op_vault_count_total", &[]), Some(1));
    assert_eq!(
        family_value(&reg, "op_exporter_buildinfo", &[("version", "0.3.1")]),
        Some(1)
    );
}

#[test]
fn test_render_escapes_label_values() {
    let mut reg = MetricRegistry::new();
    reg.upsert(
        "op_esc",
        "Escaping.",
        vec![("k".to_owned(), "a\"b\\c\nd".to_owned())],
        1,
    );
    let body = render(&reg);
    assert_eq!(
        body,
        "# HELP op_esc Escaping.\n# TYPE op_esc gauge\nop_esc{k=\"a\\\"b\\\\c\\nd\"} 1\n"
    );
}

#[test]
fn test_ratelimit_rejects_negative_values() {
    let mut reg = MetricRegistry::new();
    let bad = r#"[{"type": "t", "action": "a", "limit": 10, "used": -1, "remaining": 11, "reset": 0}]"#;
    assert_eq!(read_ratelimit(&mut reg, bad), Err(ParseError::SchemaMismatch));
    assert!(reg.snapshot_all().is_empty());
}

#[test]
fn test_document_unreadable_size_counts_zero() {
    let mut reg = MetricRegistry::new();
    let docs = r#"[
      {"id": "d1", "title": "Doc", "tags": ["test"], "version": 1,
       "vault": {"id": "v1", "name": "Private"},
       "overview.ainfo": "a few KB", "last_edited_by": "u1",
       "created_at": "2023-03-19T05:06:27Z", "updated_at": "2023-03-19T05:06:27Z"}
    ]"#;
    read_document(&mut reg, docs).unwrap();
    assert_eq!(family_value(&reg, "op_document_count_total", &[]), Some(1));
    assert_eq!(
        family_value(&reg, "op_document_file_size_per_vault_bytes", &[("vault", "v1")]),
        Some(0)
    );
}

#[test]
fn test_document_missing_field_writes_nothing() {
    let mut reg = MetricRegistry::new();
    let docs = r#"[{"id": "d1", "title": "Doc", "version": 1,
       "vault": {"id": "v1", "name": "Private"}}]"#;
    assert_eq!(read_document(&mut reg, docs), Err(ParseError::SchemaMismatch));
    assert!(reg.snapshot_all().is_empty());
}
