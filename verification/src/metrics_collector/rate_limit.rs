//! Rate-limit extractor over the tool's tabular output: each data row is
//! split on single whitespace runs; the first five fields are typed and
//! the rest form the free-text reset column.

use vstd::prelude::*;
use crate::ParseError;
use crate::registry::{
    FamilyV, LabelV, MetricRegistry, registry_wf, spec_upsert, labels_view,
};
use crate::text::{
    find_char, find_char_at, lemma_find_char_bounds, spec_trim, trim_range, subvec, sub_string,
    to_chars, skip_spaces_at, lemma_skip_spaces_bounds, find_space_at, lemma_find_space_bounds,
    all_digits, digits_val, parse_u64_digits,
};
use crate::utils::{ws1_run, strs_view};
use vstd::string::StringExecFns;

verus! {

/// API rate limit data, one table row.
///
/// Retrieved from the tool's `service-account ratelimit` table output.
#[derive(Debug, PartialEq)]
pub struct RateLimit {
    pub type_: String,
    pub action: String,
    pub limit: i32,
    pub used: i32,
    pub remaining: i32,
    pub reset: String,
}

/// One rate-limit row at the specification level.
pub struct RateLimitV {
    pub type_: Seq<char>,
    pub action: Seq<char>,
    pub limit: int,
    pub used: int,
    pub remaining: int,
    pub reset: Seq<char>,
}

impl View for RateLimit {
    type V = RateLimitV;

    open spec fn view(&self) -> RateLimitV {
        RateLimitV {
            type_: self.type_@,
            action: self.action@,
            limit: self.limit as int,
            used: self.used as int,
            remaining: self.remaining as int,
            reset: self.reset@,
        }
    }
}

/// View of a row list.
pub open spec fn rows_view(rows: Seq<RateLimit>) -> Seq<RateLimitV> {
    rows.map_values(|r: RateLimit| r@)
}

/// A digit run read as a non-negative count that fits in `i32`.
pub open spec fn i32_digits(sq: Seq<char>) -> Option<int> {
    if sq.len() > 0 && all_digits(sq) && digits_val(sq) <= i32::MAX {
        Option::Some(digits_val(sq))
    } else {
        Option::None
    }
}

/// Fields from `from` on, joined with single spaces.
pub open spec fn join_sp(fs: Seq<Seq<char>>, from: int) -> Seq<char>
    decreases fs.len() - from,
{
    if from < 0 || from >= fs.len() {
        Seq::empty()
    } else if from == fs.len() - 1 {
        fs[from]
    } else {
        fs[from] + " "@ + join_sp(fs, from + 1)
    }
}

/// One data row: at least six whitespace-separated fields, the third to
/// fifth numeric.
pub open spec fn rl_row_of(line: Seq<char>) -> Option<RateLimitV> {
    let fs = ws1_run(line, 0, Seq::empty());
    if fs.len() < 6 {
        Option::None
    } else {
        match (i32_digits(fs[2]), i32_digits(fs[3]), i32_digits(fs[4])) {
            (Option::Some(l), Option::Some(u), Option::Some(r)) => Option::Some(
                RateLimitV {
                    type_: fs[0],
                    action: fs[1],
                    limit: l,
                    used: u,
                    remaining: r,
                    reset: join_sp(fs, 5),
                },
            ),
            _ => Option::None,
        }
    }
}

/// Walks the data rows from position `p`.
pub open spec fn rl_rows(t: Seq<char>, p: int, acc: Seq<RateLimitV>) -> Option<Seq<RateLimitV>>
    decreases t.len() - p,
    when 0 <= p <= t.len()
    via rl_rows_decreases
{
    let k = find_char(t, '\n', p);
    match rl_row_of(t.subrange(p, k)) {
        Option::None => Option::None,
        Option::Some(r) => {
            if k == t.len() {
                Option::Some(acc.push(r))
            } else {
                rl_rows(t, k + 1, acc.push(r))
            }
        },
    }
}

#[via_fn]
proof fn rl_rows_decreases(t: Seq<char>, p: int, acc: Seq<RateLimitV>) {
    lemma_find_char_bounds(t, '\n', p);
}

/// The rows of the trimmed output, the first line being the header.
pub open spec fn spec_read_rate_limit(s: Seq<char>) -> Option<Seq<RateLimitV>> {
    let t = spec_trim(s);
    let hk = find_char(t, '\n', 0);
    if hk == t.len() {
        Option::Some(Seq::empty())
    } else {
        rl_rows(t, hk + 1, Seq::empty())
    }
}

/// Joins the fields from `from` on with single spaces.
fn join_from(fields: &Vec<String>, from: usize) -> (r: String)
    requires
        from <= fields@.len(),
    ensures
        r@ == join_sp(strs_view(fields@), from as int),
    decreases fields@.len() - from,
{
    if from >= fields.len() {
        String::new()
    } else if from == fields.len() - 1 {
        fields[from].clone()
    } else {
        let mut s = fields[from].clone();
        s.append(" ");
        let rest = join_from(fields, from + 1);
        s.append(rest.as_str());
        s
    }
}

/// Parses the rate-limit table: the first line is the header; every later
/// line carries type, action, three counts and a free-text reset column
/// that may contain single spaces.
pub fn read_rate_limit(output: &str) -> (r: Result<Vec<RateLimit>, ParseError>)
    ensures
        match r {
            Ok(rows) => spec_read_rate_limit(output@) == Some(rows_view(rows@)) && forall|i: int|
                0 <= i < rows@.len() ==> 0 <= (#[trigger] rows@[i])@.limit <= i32::MAX && 0
                    <= rows@[i]@.used <= i32::MAX && 0 <= rows@[i]@.remaining <= i32::MAX,
            Err(e) => spec_read_rate_limit(output@) is None && e == ParseError::MalformedRecord,
        },
{
    let v = to_chars(output);
    let (a0, b0) = trim_range(&v);
    let t = subvec(&v, a0, b0);
    let hk = find_char_at(&t, '\n', 0);
    let mut rows: Vec<RateLimit> = Vec::new();
    if hk == t.len() {
        proof {
            assert(rows_view(rows@) =~= Seq::<RateLimitV>::empty());
        }
        return Ok(rows);
    }
    let mut p: usize = hk + 1;
    proof {
        assert(rows_view(rows@) =~= Seq::<RateLimitV>::empty());
    }
    loop
        invariant
            p <= t@.len(),
            t@ == spec_trim(output@),
            find_char(t@, '\n', 0) != t@.len(),
            spec_read_rate_limit(output@) == rl_rows(t@, p as int, rows_view(rows@)),
            forall|i: int| 0 <= i < rows@.len() ==> 0 <= (#[trigger] rows@[i])@.limit
                <= i32::MAX && 0 <= rows@[i]@.used <= i32::MAX && 0 <= rows@[i]@.remaining
                <= i32::MAX,
        decreases t@.len() - p,
    {
        let k = find_char_at(&t, '\n', p);
        let line = subvec(&t, p, k);
        let ghost lv = line@;

        // split the row on whitespace runs
        let mut fields: Vec<String> = Vec::new();
        let mut c: usize = 0;
        proof {
            assert(strs_view(fields@) =~= Seq::<Seq<char>>::empty());
        }
        loop
            invariant
                c <= lv.len(),
                lv == line@,
                ws1_run(lv, 0, Seq::empty()) == ws1_run(lv, c as int, strs_view(fields@)),
            ensures
                ws1_run(lv, 0, Seq::empty()) == strs_view(fields@),
            decreases lv.len() - c,
        {
            let a = skip_spaces_at(&line, c);
            if a == line.len() {
                break;
            }
            proof {
                lemma_skip_spaces_bounds(lv, c as int);
                lemma_find_space_bounds(lv, a as int);
            }
            let b = find_space_at(&line, a);
            let ghost fv = strs_view(fields@);
            fields.push(sub_string(&line, a, b));
            c = b;
            proof {
                assert(strs_view(fields@) =~= fv.push(lv.subrange(a as int, b as int)));
            }
        }
        let ghost fsv = strs_view(fields@);
        if fields.len() < 6 {
            proof {
                assert(rl_row_of(lv) is None);
            }
            return Err(ParseError::MalformedRecord);
        }
        let limit = match parse_i32_field(&fields, 2) {
            Some(n) => n,
            None => {
                proof {
                    assert(rl_row_of(lv) is None);
                }
                return Err(ParseError::MalformedRecord);
            }
        };
        let used = match parse_i32_field(&fields, 3) {
            Some(n) => n,
            None => {
                proof {
                    assert(rl_row_of(lv) is None);
                }
                return Err(ParseError::MalformedRecord);
            }
        };
        let remaining = match parse_i32_field(&fields, 4) {
            Some(n) => n,
            None => {
                proof {
                    assert(rl_row_of(lv) is None);
                }
                return Err(ParseError::MalformedRecord);
            }
        };
        let reset = join_from(&fields, 5);
        let ghost rv_old = rows_view(rows@);
        let row = RateLimit {
            type_: fields[0].clone(),
            action: fields[1].clone(),
            limit,
            used,
            remaining,
            reset,
        };
        proof {
            assert(row@ == rl_row_of(lv).unwrap());
        }
        rows.push(row);
        proof {
            assert(rows_view(rows@) =~= rv_old.push(rl_row_of(lv).unwrap()));
        }
        if k == t.len() {
            return Ok(rows);
        }
        p = k + 1;
    }
}

/// Reads one numeric field as a non-negative `i32`.
fn parse_i32_field(fields: &Vec<String>, idx: usize) -> (r: Option<i32>)
    requires
        idx < fields@.len(),
    ensures
        match r {
            Some(n) => i32_digits(strs_view(fields@)[idx as int]) == Some(n as int) && n >= 0,
            None => i32_digits(strs_view(fields@)[idx as int]) is None,
        },
{
    let fc = to_chars(fields[idx].as_str());
    proof {
        assert(fc@ == strs_view(fields@)[idx as int]);
    }
    match parse_u64_digits(&fc, 0, fc.len()) {
        Some(n) => {
            proof {
                assert(fc@.subrange(0, fc@.len() as int) =~= fc@);
            }
            if n <= 0x7fffffffu64 {
                Some(n as i32)
            } else {
                None
            }
        }
        None => {
            proof {
                assert(fc@.subrange(0, fc@.len() as int) =~= fc@);
                if fc@.len() > 0 && all_digits(fc@) {
                    crate::text::lemma_digits_val_nonneg(fc@);
                }
            }
            None
        }
    }
}

/// The registry after publishing the rows from index `i` on: per row its
/// limit, used and remaining samples, labelled by type and action.
pub open spec fn rl_table_apply(reg: Seq<FamilyV>, rows: Seq<RateLimitV>, i: int) -> Seq<
    FamilyV,
>
    decreases rows.len() - i,
{
    if i < 0 || i >= rows.len() {
        reg
    } else {
        let row = rows[i];
        let l = seq![("type"@, row.type_), ("action"@, row.action)];
        let r1 = spec_upsert(
            reg,
            "op_ratelimit_limit"@,
            "1Password API rate limit."@,
            l,
            crate::aggregate::clamp64(row.limit),
        );
        let r2 = spec_upsert(
            r1,
            "op_ratelimit_used"@,
            "1Password API rate limit used."@,
            l,
            crate::aggregate::clamp64(row.used),
        );
        let r3 = spec_upsert(
            r2,
            "op_ratelimit_remaining"@,
            "1Password API rate limit remaining."@,
            l,
            crate::aggregate::clamp64(row.remaining),
        );
        rl_table_apply(r3, rows, i + 1)
    }
}

/// Parses the rate-limit table and publishes three samples per row.
/// Nothing is written when the table is malformed.
pub fn collect_rate_limit(reg: &mut MetricRegistry, output: &str) -> (r: Result<(), ParseError>)
    requires
        registry_wf(old(reg)@),
    ensures
        registry_wf(final(reg)@),
        match r {
            Ok(_) => spec_read_rate_limit(output@) is Some && final(reg)@ == rl_table_apply(
                old(reg)@,
                spec_read_rate_limit(output@).unwrap(),
                0,
            ),
            Err(e) => spec_read_rate_limit(output@) is None && final(reg)@ == old(reg)@ && e
                == ParseError::MalformedRecord,
        },
{
    let rows = match read_rate_limit(output) {
        Ok(rows) => rows,
        Err(e) => {
            return Err(e);
        }
    };
    let ghost rv = rows_view(rows@);
    let ghost reg0 = reg@;
    let mut i: usize = 0;
    while i < rows.len()
        invariant
            i <= rows@.len(),
            rv == rows_view(rows@),
            registry_wf(reg@),
            forall|m: int| 0 <= m < rows@.len() ==> 0 <= (#[trigger] rows@[m])@.limit
                <= i32::MAX && 0 <= rows@[m]@.used <= i32::MAX && 0 <= rows@[m]@.remaining
                <= i32::MAX,
            rl_table_apply(reg0, rv, 0) == rl_table_apply(reg@, rv, i as int),
        decreases rows@.len() - i,
    {
        proof {
            assert(rv[i as int] == rows@[i as int]@);
        }
        let ghost reg_entry = reg@;
        let rl = &rows[i];
        let mut l1: Vec<(String, String)> = Vec::new();
        l1.push(("type".to_owned(), rl.type_.clone()));
        l1.push(("action".to_owned(), rl.action.clone()));
        proof {
            assert(labels_view(l1@) =~= seq![("type"@, rv[i as int].type_),
                ("action"@, rv[i as int].action)]);
        }
        reg.upsert("op_ratelimit_limit", "1Password API rate limit.", l1, rl.limit as u64);
        let mut l2: Vec<(String, String)> = Vec::new();
        l2.push(("type".to_owned(), rl.type_.clone()));
        l2.push(("action".to_owned(), rl.action.clone()));
        proof {
            assert(labels_view(l2@) =~= seq![("type"@, rv[i as int].type_),
                ("action"@, rv[i as int].action)]);
        }
        reg.upsert("op_ratelimit_used", "1Password API rate limit used.", l2, rl.used as u64);
        let mut l3: Vec<(String, String)> = Vec::new();
        l3.push(("type".to_owned(), rl.type_.clone()));
        l3.push(("action".to_owned(), rl.action.clone()));
        proof {
            assert(labels_view(l3@) =~= seq![("type"@, rv[i as int].type_),
                ("action"@, rv[i as int].action)]);
        }
        reg.upsert(
            "op_ratelimit_remaining",
            "1Password API rate limit remaining.",
            l3,
            rl.remaining as u64,
        );
        proof {
            assert(rl_table_apply(reg_entry, rv, i as int) == rl_table_apply(reg@, rv, i + 1));
        }
        i = i + 1;
    }
    Ok(())
}

} // verus!
