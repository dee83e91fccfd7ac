//! Reader for the tool's rate-limit table, kept as a standalone entry
//! point: parses the tabular `service-account ratelimit` output into
//! typed rows.

use vstd::prelude::*;
use crate::ParseError;
use crate::metrics_collector::rate_limit;
use crate::metrics_collector::rate_limit::{RateLimitV, rows_view, spec_read_rate_limit};

verus! {

/// API rate limit data, one table row.
///
/// Retrieved from the tool's `service-account ratelimit` table output.
#[derive(Debug, PartialEq)]
pub struct RateLimit {
    pub type_: String,
    pub action: String,
    pub limit: i32,
    pub used: i32,
    pub remaining: i32,
    pub reset: String,
}

impl View for RateLimit {
    type V = RateLimitV;

    open spec fn view(&self) -> RateLimitV {
        RateLimitV {
            type_: self.type_@,
            action: self.action@,
            limit: self.limit as int,
            used: self.used as int,
            remaining: self.remaining as int,
            reset: self.reset@,
        }
    }
}

/// Parses the rate-limit table output: the first line is the header,
/// every later line one row.
pub fn read_ratelimit(output: &str) -> (r: Result<Vec<RateLimit>, ParseError>)
    ensures
        match r {
            Ok(rows) => spec_read_rate_limit(output@) == Some(
                rows@.map_values(|x: RateLimit| x@),
            ),
            Err(e) => spec_read_rate_limit(output@) is None && e == ParseError::MalformedRecord,
        },
{
    let parsed = match rate_limit::read_rate_limit(output) {
        Ok(rows) => rows,
        Err(e) => {
            return Err(e);
        }
    };
    let mut rows: Vec<RateLimit> = Vec::new();
    let mut i: usize = 0;
    proof {
        assert(rows@.map_values(|x: RateLimit| x@) =~= rows_view(parsed@).subrange(0, 0));
    }
    while i < parsed.len()
        invariant
            i <= parsed@.len(),
            spec_read_rate_limit(output@) == Some(rows_view(parsed@)),
            rows@.len() == i,
            rows@.map_values(|x: RateLimit| x@) == rows_view(parsed@).subrange(0, i as int),
        decreases parsed@.len() - i,
    {
        let p = &parsed[i];
        let ghost before = rows@.map_values(|x: RateLimit| x@);
        rows.push(
            RateLimit {
                type_: p.type_.clone(),
                action: p.action.clone(),
                limit: p.limit,
                used: p.used,
                remaining: p.remaining,
                reset: p.reset.clone(),
            },
        );
        i = i + 1;
        proof {
            assert(rows@.map_values(|x: RateLimit| x@) =~~= rows_view(parsed@).subrange(
                0,
                i as int,
            ));
        }
    }
    proof {
        assert(rows_view(parsed@).subrange(0, parsed@.len() as int) =~= rows_view(parsed@));
    }
    Ok(rows)
}

} // verus!
