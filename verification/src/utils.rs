//! Text parsers for the command-line tool's non-JSON output: `Key: Value`
//! blocks and whitespace-aligned tables whose last column may contain
//! single spaces.

use vstd::prelude::*;
use vstd::string::StrSliceExecFns;
use crate::ParseError;
use crate::text::{
    find_char, find_char_at, lemma_find_char_bounds, find_space, find_space_at,
    lemma_find_space_bounds, find_gap, find_gap_at, lemma_find_gap_bounds, is_space, skip_spaces,
    skip_spaces_at, lemma_skip_spaces_bounds, spec_trim, trim_range, subvec, sub_string,
    to_chars, str_eq,
};

verus! {

/// View of a list of string pairs.
pub open spec fn pairs_view(entries: Seq<(String, String)>) -> Seq<(Seq<char>, Seq<char>)> {
    entries.map_values(|p: (String, String)| (p.0@, p.1@))
}

/// A parsed record: field names mapped to field values, in input order.
/// Lookup is last-wins, so a duplicated field name takes its final value.
#[derive(Debug, PartialEq)]
pub struct KeyValueRecord {
    pub entries: Vec<(String, String)>,
}

impl View for KeyValueRecord {
    type V = Seq<(Seq<char>, Seq<char>)>;

    open spec fn view(&self) -> Seq<(Seq<char>, Seq<char>)> {
        pairs_view(self.entries@)
    }
}

/// Last-wins lookup in a pair sequence.
pub open spec fn kv_lookup(entries: Seq<(Seq<char>, Seq<char>)>, key: Seq<char>) -> Option<
    Seq<char>,
>
    decreases entries.len(),
{
    if entries.len() == 0 {
        None
    } else if entries.last().0 == key {
        Some(entries.last().1)
    } else {
        kv_lookup(entries.drop_last(), key)
    }
}

impl KeyValueRecord {
    /// The value recorded under `key`, if any; the latest one wins.
    pub fn get(&self, key: &str) -> (r: Option<&String>)
        ensures
            match r {
                Some(v) => kv_lookup(self@, key@) == Some(v@),
                None => kv_lookup(self@, key@) is None,
            },
    {
        let mut i: usize = self.entries.len();
        proof {
            assert(self@.subrange(0, i as int) =~= self@);
        }
        while i > 0
            invariant
                i <= self.entries@.len(),
                kv_lookup(self@, key@) == kv_lookup(self@.subrange(0, i as int), key@),
            decreases i,
        {
            i = i - 1;
            proof {
                assert(self@.subrange(0, i + 1).drop_last() =~= self@.subrange(0, i as int));
                assert(self@.subrange(0, i + 1).last() == self@[i as int]);
                assert(self@[i as int] == (self.entries@[i as int].0@,
                    self.entries@[i as int].1@));
            }
            if str_eq(self.entries[i].0.as_str(), key) {
                return Some(&self.entries[i].1);
            }
        }
        proof {
            assert(self@.subrange(0, 0) =~= Seq::<(Seq<char>, Seq<char>)>::empty());
        }
        None
    }
}

/// One line of a key-value block: `None` means the line is malformed
/// (non-blank without a colon), `Some(None)` a blank line, `Some(Some(p))`
/// a parsed pair, key and value trimmed.
pub open spec fn kv_line(line: Seq<char>) -> Option<Option<(Seq<char>, Seq<char>)>> {
    if spec_trim(line).len() == 0 {
        Some(None)
    } else {
        let k = find_char(line, ':', 0);
        if k == line.len() {
            None
        } else {
            Some(
                Some(
                    (
                        spec_trim(line.subrange(0, k)),
                        spec_trim(line.subrange(k + 1, line.len() as int)),
                    ),
                ),
            )
        }
    }
}

/// Walks the input line by line from position `p`, accumulating pairs.
pub open spec fn kv_run(s: Seq<char>, p: int, acc: Seq<(Seq<char>, Seq<char>)>) -> Option<
    Seq<(Seq<char>, Seq<char>)>,
>
    decreases s.len() - p,
    when 0 <= p <= s.len()
    via kv_run_decreases
{
    let k = find_char(s, '\n', p);
    let line = s.subrange(p, k);
    match kv_line(line) {
        Option::None => Option::None,
        Option::Some(entry) => {
            let acc2 = match entry {
                Option::None => acc,
                Option::Some(pair) => acc.push(pair),
            };
            if k == s.len() {
                Option::Some(acc2)
            } else {
                kv_run(s, k + 1, acc2)
            }
        },
    }
}

#[via_fn]
proof fn kv_run_decreases(s: Seq<char>, p: int, acc: Seq<(Seq<char>, Seq<char>)>) {
    lemma_find_char_bounds(s, '\n', p);
}

/// The pairs of a `Key: Value` block, in input order; `None` when some
/// non-blank line has no colon.
pub open spec fn spec_parse_kv(s: Seq<char>) -> Option<Seq<(Seq<char>, Seq<char>)>> {
    kv_run(s, 0, Seq::empty())
}

/// Parses a block of `Key: Value` lines into a record.  Keys and values
/// are trimmed of surrounding whitespace; blank lines are skipped; a
/// non-blank line without a colon fails the whole block.
pub fn parse_kv(input: &str) -> (r: Result<KeyValueRecord, ParseError>)
    ensures
        match r {
            Ok(rec) => spec_parse_kv(input@) == Some(rec@),
            Err(e) => spec_parse_kv(input@) is None && e == ParseError::MalformedRecord,
        },
{
    let v = to_chars(input);
    let mut entries: Vec<(String, String)> = Vec::new();
    let mut p: usize = 0;
    proof {
        assert(pairs_view(entries@) =~= Seq::<(Seq<char>, Seq<char>)>::empty());
    }
    loop
        invariant
            p <= v@.len(),
            v@ == input@,
            spec_parse_kv(input@) == kv_run(v@, p as int, pairs_view(entries@)),
        decreases v@.len() - p,
    {
        let k = find_char_at(&v, '\n', p);
        let line = subvec(&v, p, k);
        let (ta, tb) = trim_range(&line);
        if ta == tb {
            // blank line
        } else {
            let c = find_char_at(&line, ':', 0);
            if c == line.len() {
                return Err(ParseError::MalformedRecord);
            }
            let keyv = subvec(&line, 0, c);
            let valv = subvec(&line, c + 1, line.len());
            let (ka, kb) = trim_range(&keyv);
            let (va, vb) = trim_range(&valv);
            let key = sub_string(&keyv, ka, kb);
            let val = sub_string(&valv, va, vb);
            let ghost pv = pairs_view(entries@);
            entries.push((key, val));
            proof {
                assert(spec_trim(line@).len() != 0);
                assert(pairs_view(entries@) =~= pv.push(
                    (spec_trim(line@.subrange(0, c as int)),
                        spec_trim(line@.subrange(c + 1, line@.len() as int))),
                ));
            }
        }
        if k == v.len() {
            return Ok(KeyValueRecord { entries });
        }
        p = k + 1;
    }
}

/// View of a string list.
pub open spec fn strs_view(s: Seq<String>) -> Seq<Seq<char>> {
    s.map_values(|x: String| x@)
}

/// Header fields: maximal runs of non-space characters, from position `c`.
pub open spec fn ws1_run(s: Seq<char>, c: int, acc: Seq<Seq<char>>) -> Seq<Seq<char>>
    decreases s.len() - c,
    when 0 <= c <= s.len()
    via ws1_run_decreases
{
    let a = skip_spaces(s, c);
    if a == s.len() {
        acc
    } else {
        let b = find_space(s, a);
        ws1_run(s, b, acc.push(s.subrange(a, b)))
    }
}

#[via_fn]
proof fn ws1_run_decreases(s: Seq<char>, c: int, acc: Seq<Seq<char>>) {
    lemma_skip_spaces_bounds(s, c);
    let a = skip_spaces(s, c);
    if a < s.len() {
        lemma_find_space_bounds(s, a);
    }
}

/// Row fields: split on runs of two or more spaces, at most `n` pieces;
/// the last piece keeps the rest of the line, single spaces included.
pub open spec fn gap_run(s: Seq<char>, c: int, n: int, acc: Seq<Seq<char>>) -> Seq<Seq<char>>
    decreases s.len() - c,
    when 0 <= c <= s.len()
    via gap_run_decreases
{
    if n <= 1 {
        acc.push(s.subrange(c, s.len() as int))
    } else {
        let g = find_gap(s, c);
        if g == s.len() {
            acc.push(s.subrange(c, s.len() as int))
        } else {
            gap_run(s, skip_spaces(s, g), n - 1, acc.push(s.subrange(c, g)))
        }
    }
}

#[via_fn]
proof fn gap_run_decreases(s: Seq<char>, c: int, n: int, acc: Seq<Seq<char>>) {
    lemma_find_gap_bounds(s, c);
    let g = find_gap(s, c);
    if n > 1 && g < s.len() {
        lemma_skip_spaces_bounds(s, g);
        let e = skip_spaces(s, g);
        if e <= g + 1 {
            assert(is_space(s[e]));
        }
    }
}

/// One data row zipped against the header; `None` when the row has fewer
/// fields than the header has columns.
pub open spec fn row_of(line: Seq<char>, header: Seq<Seq<char>>) -> Option<
    Seq<(Seq<char>, Seq<char>)>,
> {
    let fields = gap_run(line, 0, header.len() as int, Seq::empty());
    if fields.len() < header.len() {
        Option::None
    } else {
        Option::Some(Seq::new(header.len(), |i: int| (header[i], fields[i])))
    }
}

/// Walks the data rows from position `p`, accumulating parsed rows.
pub open spec fn rows_run(
    t: Seq<char>,
    p: int,
    header: Seq<Seq<char>>,
    acc: Seq<Seq<(Seq<char>, Seq<char>)>>,
) -> Option<Seq<Seq<(Seq<char>, Seq<char>)>>>
    decreases t.len() - p,
    when 0 <= p <= t.len()
    via rows_run_decreases
{
    let k = find_char(t, '\n', p);
    match row_of(t.subrange(p, k), header) {
        Option::None => Option::None,
        Option::Some(r) => {
            if k == t.len() {
                Option::Some(acc.push(r))
            } else {
                rows_run(t, k + 1, header, acc.push(r))
            }
        },
    }
}

#[via_fn]
proof fn rows_run_decreases(
    t: Seq<char>,
    p: int,
    header: Seq<Seq<char>>,
    acc: Seq<Seq<(Seq<char>, Seq<char>)>>,
) {
    lemma_find_char_bounds(t, '\n', p);
}

/// The parsed table: the trimmed input's first line is the header, split
/// on single spaces; each later line is a row, split on runs of two or
/// more spaces into at most as many fields as there are columns.
pub open spec fn spec_parse_table(s: Seq<char>) -> Option<Seq<Seq<(Seq<char>, Seq<char>)>>> {
    let t = spec_trim(s);
    let hk = find_char(t, '\n', 0);
    let header = ws1_run(t.subrange(0, hk), 0, Seq::empty());
    if hk == t.len() {
        Option::Some(Seq::empty())
    } else {
        rows_run(t, hk + 1, header, Seq::empty())
    }
}

/// Law: every row of a parsed table has exactly one cell per header
/// column, keyed by that column; in particular the final free-text
/// column, embedded single spaces and all, stays one cell.
pub proof fn lemma_table_rows_shape(s: Seq<char>)
    requires
        spec_parse_table(s) is Some,
    ensures
        ({
            let t = spec_trim(s);
            let header = ws1_run(t.subrange(0, find_char(t, '\n', 0)), 0, Seq::empty());
            let rows = spec_parse_table(s).unwrap();
            forall|r: int| 0 <= r < rows.len() ==> (#[trigger] rows[r]).len() == header.len()
                && forall|c: int| 0 <= c < header.len() ==> rows[r][c].0 == header[c]
        }),
{
    let t = spec_trim(s);
    let hk = find_char(t, '\n', 0);
    let header = ws1_run(t.subrange(0, hk), 0, Seq::empty());
    if hk == t.len() {
    } else {
        lemma_find_char_bounds(t, '\n', 0);
        lemma_rows_run_shape(t, hk + 1, header, Seq::empty());
    }
}

/// Rows accumulated by `rows_run` keep the header's shape.
proof fn lemma_rows_run_shape(
    t: Seq<char>,
    p: int,
    header: Seq<Seq<char>>,
    acc: Seq<Seq<(Seq<char>, Seq<char>)>>,
)
    requires
        0 <= p <= t.len(),
        rows_run(t, p, header, acc) is Some,
        forall|r: int| 0 <= r < acc.len() ==> (#[trigger] acc[r]).len() == header.len()
            && forall|c: int| 0 <= c < header.len() ==> acc[r][c].0 == header[c],
    ensures
        ({
            let rows = rows_run(t, p, header, acc).unwrap();
            forall|r: int| 0 <= r < rows.len() ==> (#[trigger] rows[r]).len() == header.len()
                && forall|c: int| 0 <= c < header.len() ==> rows[r][c].0 == header[c]
        }),
    decreases t.len() - p,
{
    lemma_find_char_bounds(t, '\n', p);
    let k = find_char(t, '\n', p);
    let row = row_of(t.subrange(p, k), header).unwrap();
    assert(row.len() == header.len());
    assert(forall|c: int| 0 <= c < header.len() ==> row[c].0 == header[c]);
    let acc2 = acc.push(row);
    assert(forall|r: int| 0 <= r < acc2.len() ==> (#[trigger] acc2[r]).len() == header.len()
        && forall|c: int| 0 <= c < header.len() ==> acc2[r][c].0 == header[c]);
    if k == t.len() {
    } else {
        lemma_rows_run_shape(t, k + 1, header, acc2);
    }
}

/// Parses a whitespace-aligned table.  The first non-blank line names the
/// columns; data rows are split on runs of two or more spaces, so the
/// last column may contain single embedded spaces and is kept intact.  A
/// row with fewer fields than columns fails the table.
pub fn parse_table(input: &str) -> (r: Result<Vec<KeyValueRecord>, ParseError>)
    ensures
        match r {
            Ok(rows) => spec_parse_table(input@) == Some(
                rows@.map_values(|x: KeyValueRecord| x@),
            ),
            Err(e) => spec_parse_table(input@) is None && e == ParseError::MalformedRecord,
        },
{
    let v = to_chars(input);
    let (a0, b0) = trim_range(&v);
    let t = subvec(&v, a0, b0);
    let hk = find_char_at(&t, '\n', 0);
    let headerline = subvec(&t, 0, hk);
    let ghost hl = headerline@;

    // Split the header on runs of one or more spaces.
    let mut header: Vec<String> = Vec::new();
    let mut c: usize = 0;
    proof {
        assert(strs_view(header@) =~= Seq::<Seq<char>>::empty());
    }
    loop
        invariant
            c <= hl.len(),
            hl == headerline@,
            ws1_run(hl, 0, Seq::empty()) == ws1_run(hl, c as int, strs_view(header@)),
        ensures
            ws1_run(hl, 0, Seq::empty()) == strs_view(header@),
        decreases hl.len() - c,
    {
        let a = skip_spaces_at(&headerline, c);
        if a == headerline.len() {
            break;
        }
        proof {
            lemma_skip_spaces_bounds(hl, c as int);
            lemma_find_space_bounds(hl, a as int);
        }
        let b = find_space_at(&headerline, a);
        let ghost hv = strs_view(header@);
        header.push(sub_string(&headerline, a, b));
        c = b;
        proof {
            assert(strs_view(header@) =~= hv.push(hl.subrange(a as int, b as int)));
        }
    }
    let ghost headerv = strs_view(header@);
    proof {
        assert(headerv == ws1_run(hl, 0, Seq::empty()));
    }

    let n = header.len();
    let mut rows: Vec<KeyValueRecord> = Vec::new();
    if hk == t.len() {
        proof {
            assert(rows@.map_values(|x: KeyValueRecord| x@) =~= Seq::<
                Seq<(Seq<char>, Seq<char>)>,
            >::empty());
        }
        return Ok(rows);
    }
    let mut p: usize = hk + 1;
    proof {
        assert(rows@.map_values(|x: KeyValueRecord| x@) =~= Seq::<
            Seq<(Seq<char>, Seq<char>)>,
        >::empty());
    }
    loop
        invariant
            p <= t@.len(),
            t@ == spec_trim(input@),
            n == header@.len(),
            headerv == strs_view(header@),
            spec_parse_table(input@) == rows_run(
                t@,
                p as int,
                headerv,
                rows@.map_values(|x: KeyValueRecord| x@),
            ),
        decreases t@.len() - p,
    {
        let k = find_char_at(&t, '\n', p);
        let line = subvec(&t, p, k);
        let ghost lv = line@;

        // Split the row on runs of two or more spaces, at most n fields.
        let mut fields: Vec<String> = Vec::new();
        let mut c2: usize = 0;
        let mut m: usize = n;
        let mut done: bool = false;
        proof {
            assert(strs_view(fields@) =~= Seq::<Seq<char>>::empty());
        }
        while !done && m > 1
            invariant
                c2 <= lv.len(),
                lv == line@,
                !done ==> gap_run(lv, 0, n as int, Seq::empty()) == gap_run(
                    lv,
                    c2 as int,
                    m as int,
                    strs_view(fields@),
                ),
                done ==> gap_run(lv, 0, n as int, Seq::empty()) == strs_view(fields@),
            decreases (if done { 0int } else { m + 1 }),
        {
            let g = find_gap_at(&line, c2);
            let ghost fv = strs_view(fields@);
            if g == line.len() {
                fields.push(sub_string(&line, c2, g));
                done = true;
                proof {
                    assert(strs_view(fields@) =~= fv.push(lv.subrange(c2 as int, lv.len() as int)));
                }
            } else {
                proof {
                    lemma_find_gap_bounds(lv, c2 as int);
                    lemma_skip_spaces_bounds(lv, g as int);
                }
                let ghost c_old = c2 as int;
                fields.push(sub_string(&line, c2, g));
                let e = skip_spaces_at(&line, g);
                c2 = e;
                m = m - 1;
                proof {
                    assert(strs_view(fields@) =~= fv.push(lv.subrange(c_old, g as int)));
                }
            }
        }
        if !done {
            let ghost fv = strs_view(fields@);
            fields.push(sub_string(&line, c2, line.len()));
            proof {
                assert(strs_view(fields@) =~= fv.push(lv.subrange(c2 as int, lv.len() as int)));
            }
        }
        proof {
            assert(strs_view(fields@) == gap_run(lv, 0, n as int, Seq::empty()));
        }

        if fields.len() < n {
            proof {
                assert(row_of(lv, headerv) is None);
            }
            return Err(ParseError::MalformedRecord);
        }
        // Zip the header onto the fields.
        let mut cells: Vec<(String, String)> = Vec::new();
        let mut j: usize = 0;
        while j < n
            invariant
                j <= n,
                n == header@.len(),
                n <= fields@.len(),
                headerv == strs_view(header@),
                lv == line@,
                cells@.len() == j,
                forall|q: int| 0 <= q < j ==> pairs_view(cells@)[q] == (strs_view(header@)[q],
                    strs_view(fields@)[q]),
            decreases n - j,
        {
            let ghost cells_old = cells@;
            cells.push((header[j].clone(), fields[j].clone()));
            j = j + 1;
            proof {
                let hv2 = strs_view(header@);
                let fv2 = strs_view(fields@);
                assert forall|q: int| 0 <= q < j implies pairs_view(cells@)[q] == (hv2[q],
                    fv2[q]) by {
                    assert(pairs_view(cells@)[q] == (cells@[q].0@, cells@[q].1@));
                    if q < j - 1 {
                        assert(cells@[q] == cells_old[q]);
                        assert(pairs_view(cells_old)[q] == (cells_old[q].0@, cells_old[q].1@));
                    } else {
                        assert(cells@[q].0@ == header@[q]@);
                        assert(cells@[q].1@ == fields@[q]@);
                    }
                }
            }
        }
        let ghost rowsv = rows@.map_values(|x: KeyValueRecord| x@);
        let rec = KeyValueRecord { entries: cells };
        proof {
            assert(row_of(lv, headerv) == Option::Some(
                Seq::new(headerv.len() as nat, |i: int| (headerv[i], strs_view(fields@)[i])),
            ));
            assert(rec@ =~= Seq::new(
                headerv.len() as nat,
                |i: int| (headerv[i], strs_view(fields@)[i]),
            ));
        }
        rows.push(rec);
        proof {
            assert(rows@.map_values(|x: KeyValueRecord| x@) =~= rowsv.push(rec@));
        }
        if k == t.len() {
            return Ok(rows);
        }
        p = k + 1;
    }
}

} // verus!
