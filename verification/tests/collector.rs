//! Tests for the entity-kind names and the standalone rate-limit reader.

use std::str::FromStr;

use op_exporter::metrics_collector::Metrics;
use op_exporter::op::{read_ratelimit, RateLimit};

#[test]
fn test_metrics_from_str() {
    assert_eq!(Metrics::from_str("account"), Ok(Metrics::Account));
    assert_eq!(Metrics::from_str("build-info"), Ok(Metrics::BuildInfo));
    assert_eq!(Metrics::from_str("document"), Ok(Metrics::Document));
    assert_eq!(Metrics::from_str("group"), Ok(Metrics::Group));
    assert_eq!(Metrics::from_str("item"), Ok(Metrics::Item));
    assert_eq!(
        Metrics::from_str("service-account"),
        Ok(Metrics::ServiceAccount)
    );
    assert_eq!(Metrics::from_str("user"), Ok(Metrics::User));
    assert_eq!(Metrics::from_str("vault"), Ok(Metrics::Vault));

    assert_eq!(Metrics::from_str("unknown"), Err(()));
}

#[test]
fn mytest() {
    let output = r#"
TYPE       ACTION        LIMIT    USED    REMAINING    RESET
token      write         100      0       100          N/A
token      read          1000     0       1000         N/A
account    read_write    1000     4       996          1 hour from now
"#;

    let ratelimit = read_ratelimit(output).unwrap();

    assert_eq!(ratelimit.len(), 3);
    assert_eq!(
        ratelimit[0],
        RateLimit {
            type_: "token".to_string(),
            action: "write".to_string(),
            limit: 100,
            used: 0,
            remaining: 100,
            reset: "N/A".to_string(),
        }
    );
    assert_eq!(
        ratelimit[1],
        RateLimit {
            type_: "token".to_string(),
            action: "read".to_string(),
            limit: 1000,
            used: 0,
            remaining: 1000,
            reset: "N/A".to_string(),
        }
    );
    assert_eq!(
        ratelimit[2],
        RateLimit {
            type_: "account".to_string(),
            action: "read_write".to_string(),
            limit: 1000,
            used: 4,
            remaining: 996,
            reset: "1 hour from now".to_string(),
        }
    );
}
