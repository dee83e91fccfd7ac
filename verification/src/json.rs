//! A small JSON reader covering the shapes the command-line tool emits:
//! null, booleans, integers, strings with simple escapes, arrays and
//! objects.  Fractional or exponent number forms and `\u` escapes are not
//! accepted; integers must fit in `i64`.

use vstd::prelude::*;
use crate::ParseError;
use crate::text::{
    is_digit, digit, skip_spaces, skip_spaces_at, to_chars, push_char, digits_val, all_digits,
    parse_u64_digits,
};

verus! {

/// A JSON document at the specification level.
pub enum JsonV {
    Null,
    Bool(bool),
    Int(int),
    Str(Seq<char>),
    Arr(Seq<JsonV>),
    Obj(Seq<(Seq<char>, JsonV)>),
}

/// A parsed JSON document.
#[derive(Debug, PartialEq)]
pub enum Json {
    Null,
    Bool(bool),
    Int(i64),
    Str(String),
    Arr(Vec<Json>),
    Obj(Vec<(String, Json)>),
}

/// Views of an element sequence.
pub open spec fn jsons_view(s: Seq<Json>) -> Seq<JsonV>
    decreases s,
    via jsons_view_dec
{
    if s.len() == 0 {
        Seq::empty()
    } else {
        jsons_view(s.drop_last()).push(json_view(s.last()))
    }
}

#[via_fn]
proof fn jsons_view_dec(s: Seq<Json>) {
    if s.len() > 0 {
        vstd::seq::axiom_seq_index_decreases(s, s.len() - 1);
        vstd::seq::axiom_seq_subrange_decreases(s, 0, s.len() - 1);
        assert(s.drop_last() == s.subrange(0, s.len() - 1));
    }
}

/// Views of an object's field list.
pub open spec fn jfields_view(s: Seq<(String, Json)>) -> Seq<(Seq<char>, JsonV)>
    decreases s,
    via jfields_view_dec
{
    if s.len() == 0 {
        Seq::empty()
    } else {
        jfields_view(s.drop_last()).push((s.last().0@, json_view(s.last().1)))
    }
}

#[via_fn]
proof fn jfields_view_dec(s: Seq<(String, Json)>) {
    if s.len() > 0 {
        vstd::seq::axiom_seq_index_decreases(s, s.len() - 1);
        vstd::seq::axiom_seq_subrange_decreases(s, 0, s.len() - 1);
        assert(s.drop_last() == s.subrange(0, s.len() - 1));
        assert(decreases_to!(s.last() => s.last().1));
    }
}

/// The mathematical value of a parsed document.
pub open spec fn json_view(j: Json) -> JsonV
    decreases j,
    via json_view_dec
{
    match j {
        Json::Null => JsonV::Null,
        Json::Bool(b) => JsonV::Bool(b),
        Json::Int(n) => JsonV::Int(n as int),
        Json::Str(s) => JsonV::Str(s@),
        Json::Arr(elems) => JsonV::Arr(jsons_view(elems@)),
        Json::Obj(fields) => JsonV::Obj(jfields_view(fields@)),
    }
}

#[via_fn]
proof fn json_view_dec(j: Json) {
    match j {
        Json::Arr(elems) => {
            assert(decreases_to!(j => elems));
            vstd::std_specs::vec::axiom_vec_decreases_to_view(elems);
            assert(decreases_to!(j => elems@));
        }
        Json::Obj(fields) => {
            assert(decreases_to!(j => fields));
            vstd::std_specs::vec::axiom_vec_decreases_to_view(fields);
            assert(decreases_to!(j => fields@));
        }
        _ => {}
    }
}

/// Length and elementwise reading of `jsons_view`.
pub proof fn lemma_jsons_view_index(s: Seq<Json>)
    ensures
        jsons_view(s).len() == s.len(),
        forall|i: int| 0 <= i < s.len() ==> jsons_view(s)[i] == json_view(s[i]),
    decreases s.len(),
{
    if s.len() > 0 {
        lemma_jsons_view_index(s.drop_last());
    }
}

/// Length and elementwise reading of `jfields_view`.
pub proof fn lemma_jfields_view_index(s: Seq<(String, Json)>)
    ensures
        jfields_view(s).len() == s.len(),
        forall|i: int| 0 <= i < s.len() ==> jfields_view(s)[i] == ((#[trigger] s[i]).0@,
            json_view(s[i].1)),
    decreases s.len(),
{
    if s.len() > 0 {
        lemma_jfields_view_index(s.drop_last());
        assert forall|i: int| 0 <= i < s.len() implies jfields_view(s)[i] == ((#[trigger] s[i]).0@,
            json_view(s[i].1)) by {
            if i < s.len() - 1 {
                assert(s.drop_last()[i] == s[i]);
            }
        }
    }
}

impl View for Json {
    type V = JsonV;

    open spec fn view(&self) -> JsonV {
        json_view(*self)
    }
}

/// `null` spelled out at position `i`.
pub open spec fn null_at(s: Seq<char>, i: int) -> bool {
    i + 4 <= s.len() && s[i] == 'n' && s[i + 1] == 'u' && s[i + 2] == 'l' && s[i + 3] == 'l'
}

/// `true` spelled out at position `i`.
pub open spec fn true_at(s: Seq<char>, i: int) -> bool {
    i + 4 <= s.len() && s[i] == 't' && s[i + 1] == 'r' && s[i + 2] == 'u' && s[i + 3] == 'e'
}

/// `false` spelled out at position `i`.
pub open spec fn false_at(s: Seq<char>, i: int) -> bool {
    i + 5 <= s.len() && s[i] == 'f' && s[i + 1] == 'a' && s[i + 2] == 'l' && s[i + 3] == 's'
        && s[i + 4] == 'e'
}

/// The character denoted by a backslash escape, if the escape is known.
pub open spec fn esc_of(c: char) -> Option<char> {
    if c == '"' {
        Option::Some('"')
    } else if c == '\\' {
        Option::Some('\\')
    } else if c == '/' {
        Option::Some('/')
    } else if c == 'n' {
        Option::Some('\n')
    } else if c == 't' {
        Option::Some('\t')
    } else if c == 'r' {
        Option::Some('\r')
    } else if c == 'b' {
        Option::Some('\u{0008}')
    } else if c == 'f' {
        Option::Some('\u{000C}')
    } else {
        Option::None
    }
}

/// Reads string content from `i` (just inside the opening quote) to the
/// closing quote; `None` on an unterminated string or unknown escape.
pub open spec fn sp_str_chars(s: Seq<char>, i: int, acc: Seq<char>) -> Option<(Seq<char>, int)>
    decreases s.len() - i,
    when 0 <= i
{
    if i >= s.len() {
        Option::None
    } else if s[i] == '"' {
        Option::Some((acc, i + 1))
    } else if s[i] == '\\' {
        if i + 1 >= s.len() {
            Option::None
        } else {
            match esc_of(s[i + 1]) {
                Option::None => Option::None,
                Option::Some(c) => sp_str_chars(s, i + 2, acc.push(c)),
            }
        }
    } else {
        sp_str_chars(s, i + 1, acc.push(s[i]))
    }
}

/// Reads a quoted string starting at `i`.
pub open spec fn sp_string(s: Seq<char>, i: int) -> Option<(Seq<char>, int)> {
    if 0 <= i < s.len() && s[i] == '"' {
        sp_str_chars(s, i + 1, Seq::empty())
    } else {
        Option::None
    }
}

/// Index of the first non-digit at or after `i`.
pub open spec fn skip_digits(s: Seq<char>, i: int) -> int
    decreases s.len() - i,
{
    if i < 0 {
        i
    } else if i < s.len() && is_digit(s[i]) {
        skip_digits(s, i + 1)
    } else {
        i
    }
}

pub proof fn lemma_skip_digits_bounds(s: Seq<char>, i: int)
    requires
        0 <= i <= s.len(),
    ensures
        i <= skip_digits(s, i) <= s.len(),
        forall|j: int| i <= j < skip_digits(s, i) ==> is_digit(s[j]),
        skip_digits(s, i) < s.len() ==> !is_digit(s[skip_digits(s, i)]),
    decreases s.len() - i,
{
    if i < s.len() && is_digit(s[i]) {
        lemma_skip_digits_bounds(s, i + 1);
    }
}

/// Executable counterpart of `skip_digits`.
pub fn skip_digits_at(v: &Vec<char>, i: usize) -> (r: usize)
    requires
        i <= v@.len(),
    ensures
        r == skip_digits(v@, i as int),
        i <= r <= v@.len(),
    decreases v@.len() - i,
{
    proof {
        lemma_skip_digits_bounds(v@, i as int);
    }
    if i < v.len() && digit(v[i]) {
        skip_digits_at(v, i + 1)
    } else {
        i
    }
}

/// Reads an integer literal at `i`: an optional minus sign and a digit
/// run whose value fits in `i64`.
pub open spec fn sp_number(s: Seq<char>, i: int) -> Option<(JsonV, int)> {
    let neg = 0 <= i < s.len() && s[i] == '-';
    let a = if neg {
        i + 1
    } else {
        i
    };
    let b = skip_digits(s, a);
    if a == b {
        Option::None
    } else {
        let val = digits_val(s.subrange(a, b));
        if neg {
            if val > 9223372036854775808 {
                Option::None
            } else {
                Option::Some((JsonV::Int(-val), b))
            }
        } else {
            if val > 9223372036854775807 {
                Option::None
            } else {
                Option::Some((JsonV::Int(val), b))
            }
        }
    }
}

/// Reads one value whose first character stands at `i`; `d` bounds the
/// nesting depth and exceeds the remaining text length at every call.
pub open spec fn sp_value(s: Seq<char>, i: int, d: int) -> Option<(JsonV, int)>
    decreases d,
{
    if d <= 0 || !(0 <= i < s.len()) {
        Option::None
    } else {
        let c = s[i];
        if c == 'n' {
            if null_at(s, i) {
                Option::Some((JsonV::Null, i + 4))
            } else {
                Option::None
            }
        } else if c == 't' {
            if true_at(s, i) {
                Option::Some((JsonV::Bool(true), i + 4))
            } else {
                Option::None
            }
        } else if c == 'f' {
            if false_at(s, i) {
                Option::Some((JsonV::Bool(false), i + 5))
            } else {
                Option::None
            }
        } else if c == '"' {
            match sp_string(s, i) {
                Option::None => Option::None,
                Option::Some((t, j)) => Option::Some((JsonV::Str(t), j)),
            }
        } else if c == '-' || is_digit(c) {
            sp_number(s, i)
        } else if c == '[' {
            let a = skip_spaces(s, i + 1);
            if a < s.len() && s[a] == ']' {
                Option::Some((JsonV::Arr(Seq::empty()), a + 1))
            } else {
                sp_items(s, a, d - 1, Seq::empty())
            }
        } else if c == '{' {
            let a = skip_spaces(s, i + 1);
            if a < s.len() && s[a] == '}' {
                Option::Some((JsonV::Obj(Seq::empty()), a + 1))
            } else {
                sp_fields(s, a, d - 1, Seq::empty())
            }
        } else {
            Option::None
        }
    }
}

/// Reads the remaining elements of a non-empty array, the next starting
/// at `i`.
pub open spec fn sp_items(s: Seq<char>, i: int, d: int, acc: Seq<JsonV>) -> Option<(JsonV, int)>
    decreases d,
{
    if d <= 0 {
        Option::None
    } else {
        match sp_value(s, i, d - 1) {
            Option::None => Option::None,
            Option::Some((v, j)) => {
                let k = skip_spaces(s, j);
                if k < s.len() && s[k] == ',' {
                    sp_items(s, skip_spaces(s, k + 1), d - 1, acc.push(v))
                } else if k < s.len() && s[k] == ']' {
                    Option::Some((JsonV::Arr(acc.push(v)), k + 1))
                } else {
                    Option::None
                }
            },
        }
    }
}

/// Reads the remaining fields of a non-empty object, the next key
/// starting at `i`.
pub open spec fn sp_fields(s: Seq<char>, i: int, d: int, acc: Seq<(Seq<char>, JsonV)>) -> Option<
    (JsonV, int),
>
    decreases d,
{
    if d <= 0 {
        Option::None
    } else {
        match sp_string(s, i) {
            Option::None => Option::None,
            Option::Some((key, j)) => {
                let k = skip_spaces(s, j);
                if !(k < s.len() && s[k] == ':') {
                    Option::None
                } else {
                    match sp_value(s, skip_spaces(s, k + 1), d - 1) {
                        Option::None => Option::None,
                        Option::Some((v, m)) => {
                            let q = skip_spaces(s, m);
                            if q < s.len() && s[q] == ',' {
                                sp_fields(s, skip_spaces(s, q + 1), d - 1, acc.push((key, v)))
                            } else if q < s.len() && s[q] == '}' {
                                Option::Some((JsonV::Obj(acc.push((key, v))), q + 1))
                            } else {
                                Option::None
                            }
                        },
                    }
                }
            },
        }
    }
}

/// The document denoted by the whole text: one value surrounded only by
/// whitespace.
pub open spec fn spec_parse_json(s: Seq<char>) -> Option<JsonV> {
    let a = skip_spaces(s, 0);
    match sp_value(s, a, 2 * (s.len() as int) + 4) {
        Option::None => Option::None,
        Option::Some((v, j)) => {
            if skip_spaces(s, j) == s.len() {
                Option::Some(v)
            } else {
                Option::None
            }
        },
    }
}

/// Reads a quoted string; returns the content and the index after the
/// closing quote.
fn p_string(v: &Vec<char>, i: usize) -> (r: Result<(String, usize), ParseError>)
    requires
        i <= v@.len(),
    ensures
        match r {
            Ok((t, k)) => sp_string(v@, i as int) == Some((t@, k as int)) && i < k <= v@.len(),
            Err(e) => sp_string(v@, i as int) is None && e == ParseError::MalformedRecord,
        },
{
    if !(i < v.len() && v[i] == '"') {
        return Err(ParseError::MalformedRecord);
    }
    let mut acc = String::new();
    let mut c: usize = i + 1;
    loop
        invariant
            i + 1 <= c <= v@.len(),
            sp_string(v@, i as int) == sp_str_chars(v@, c as int, acc@),
        decreases v@.len() - c,
    {
        if c >= v.len() {
            return Err(ParseError::MalformedRecord);
        }
        let ch = v[c];
        if ch == '"' {
            return Ok((acc, c + 1));
        } else if ch == '\\' {
            if c + 1 >= v.len() {
                return Err(ParseError::MalformedRecord);
            }
            let e = v[c + 1];
            let mapped: Option<char> = if e == '"' {
                Some('"')
            } else if e == '\\' {
                Some('\\')
            } else if e == '/' {
                Some('/')
            } else if e == 'n' {
                Some('\n')
            } else if e == 't' {
                Some('\t')
            } else if e == 'r' {
                Some('\r')
            } else if e == 'b' {
                Some('\u{0008}')
            } else if e == 'f' {
                Some('\u{000C}')
            } else {
                None
            };
            match mapped {
                None => {
                    return Err(ParseError::MalformedRecord);
                }
                Some(mc) => {
                    push_char(&mut acc, mc);
                    c = c + 2;
                }
            }
        } else {
            push_char(&mut acc, ch);
            c = c + 1;
        }
    }
}

/// Reads an integer literal.
fn p_number(v: &Vec<char>, i: usize) -> (r: Result<(Json, usize), ParseError>)
    requires
        i <= v@.len(),
    ensures
        match r {
            Ok((j, k)) => sp_number(v@, i as int) == Some((j@, k as int)) && i < k <= v@.len(),
            Err(e) => sp_number(v@, i as int) is None && e == ParseError::MalformedRecord,
        },
{
    let neg = i < v.len() && v[i] == '-';
    let a: usize = if neg {
        i + 1
    } else {
        i
    };
    let b = skip_digits_at(v, a);
    proof {
        lemma_skip_digits_bounds(v@, a as int);
    }
    if a == b {
        return Err(ParseError::MalformedRecord);
    }
    let parsed = parse_u64_digits(v, a, b);
    proof {
        assert(all_digits(v@.subrange(a as int, b as int)));
    }
    match parsed {
        None => {
            proof {
                crate::text::lemma_digits_val_nonneg(v@.subrange(a as int, b as int));
            }
            return Err(ParseError::MalformedRecord);
        }
        Some(n) => {
            if neg {
                if n > 9223372036854775808u64 {
                    return Err(ParseError::MalformedRecord);
                }
                let m: i64 = if n == 9223372036854775808u64 {
                    i64::MIN
                } else {
                    -(n as i64)
                };
                Ok((Json::Int(m), b))
            } else {
                if n > 9223372036854775807u64 {
                    return Err(ParseError::MalformedRecord);
                }
                Ok((Json::Int(n as i64), b))
            }
        }
    }
}

/// Reads one value starting at `i`; the ghost depth bound `d` always
/// exceeds the remaining text length by two.
fn p_value(v: &Vec<char>, i: usize, Ghost(d): Ghost<int>) -> (r: Result<
    (Json, usize),
    ParseError,
>)
    requires
        i <= v@.len(),
        d >= 2 * (v@.len() - i) + 2,
    ensures
        match r {
            Ok((j, k)) => sp_value(v@, i as int, d) == Some((j@, k as int)) && i < k <= v@.len(),
            Err(e) => sp_value(v@, i as int, d) is None && e == ParseError::MalformedRecord,
        },
    decreases d,
{
    if !(i < v.len()) {
        return Err(ParseError::MalformedRecord);
    }
    let c = v[i];
    if c == 'n' {
        if v.len() - i >= 4 && v[i + 1] == 'u' && v[i + 2] == 'l' && v[i + 3] == 'l' {
            Ok((Json::Null, i + 4))
        } else {
            Err(ParseError::MalformedRecord)
        }
    } else if c == 't' {
        if v.len() - i >= 4 && v[i + 1] == 'r' && v[i + 2] == 'u' && v[i + 3] == 'e' {
            Ok((Json::Bool(true), i + 4))
        } else {
            Err(ParseError::MalformedRecord)
        }
    } else if c == 'f' {
        if v.len() - i >= 5 && v[i + 1] == 'a' && v[i + 2] == 'l' && v[i + 3] == 's' && v[i + 4]
            == 'e' {
            Ok((Json::Bool(false), i + 5))
        } else {
            Err(ParseError::MalformedRecord)
        }
    } else if c == '"' {
        match p_string(v, i) {
            Ok((t, k)) => Ok((Json::Str(t), k)),
            Err(e) => Err(e),
        }
    } else if c == '-' || digit(c) {
        p_number(v, i)
    } else if c == '[' {
        let a = skip_spaces_at(v, i + 1);
        if a < v.len() && v[a] == ']' {
            let elems: Vec<Json> = Vec::new();
            proof {
                assert(jsons_view(elems@) =~= Seq::<JsonV>::empty());
            }
            return Ok((Json::Arr(elems), a + 1));
        }
        let mut elems: Vec<Json> = Vec::new();
        let mut p: usize = a;
        let ghost mut dd: int = d - 1;
        proof {
            assert(jsons_view(elems@) =~= Seq::<JsonV>::empty());
        }
        loop
            invariant
                p <= v@.len(),
                (i as int) < p as int,
                dd >= 2 * (v@.len() - p) + 3,
                dd <= d - 1,
                sp_value(v@, i as int, d) == sp_items(v@, p as int, dd, jsons_view(elems@)),
            decreases dd,
        {
            match p_value(v, p, Ghost(dd - 1)) {
                Err(e) => {
                    return Err(e);
                }
                Ok((j, jend)) => {
                    let k = skip_spaces_at(v, jend);
                    if k < v.len() && v[k] == ',' {
                        let ghost ev = jsons_view(elems@);
                        let ghost eo = elems@;
                        elems.push(j);
                        proof {
                            assert(elems@.drop_last() =~= eo);
                            assert(jsons_view(elems@) == ev.push(j@));
                        }
                        p = skip_spaces_at(v, k + 1);
                        proof {
                            dd = dd - 1;
                        }
                    } else if k < v.len() && v[k] == ']' {
                        let ghost ev = jsons_view(elems@);
                        let ghost eo = elems@;
                        elems.push(j);
                        proof {
                            assert(elems@.drop_last() =~= eo);
                            assert(jsons_view(elems@) == ev.push(j@));
                        }
                        return Ok((Json::Arr(elems), k + 1));
                    } else {
                        return Err(ParseError::MalformedRecord);
                    }
                }
            }
        }
    } else if c == '{' {
        let a = skip_spaces_at(v, i + 1);
        if a < v.len() && v[a] == '}' {
            let fields: Vec<(String, Json)> = Vec::new();
            proof {
                assert(jfields_view(fields@) =~= Seq::<(Seq<char>, JsonV)>::empty());
            }
            return Ok((Json::Obj(fields), a + 1));
        }
        let mut fields: Vec<(String, Json)> = Vec::new();
        let mut p: usize = a;
        let ghost mut dd: int = d - 1;
        proof {
            assert(jfields_view(fields@) =~= Seq::<(Seq<char>, JsonV)>::empty());
        }
        loop
            invariant
                p <= v@.len(),
                (i as int) < p as int,
                dd >= 2 * (v@.len() - p) + 3,
                dd <= d - 1,
                sp_value(v@, i as int, d) == sp_fields(v@, p as int, dd, jfields_view(fields@)),
            decreases dd,
        {
            match p_string(v, p) {
                Err(e) => {
                    return Err(e);
                }
                Ok((key, jend)) => {
                    let k = skip_spaces_at(v, jend);
                    if !(k < v.len() && v[k] == ':') {
                        return Err(ParseError::MalformedRecord);
                    }
                    let vs = skip_spaces_at(v, k + 1);
                    match p_value(v, vs, Ghost(dd - 1)) {
                        Err(e) => {
                            return Err(e);
                        }
                        Ok((j, m)) => {
                            let q = skip_spaces_at(v, m);
                            if q < v.len() && v[q] == ',' {
                                let ghost fv = jfields_view(fields@);
                                let ghost fo = fields@;
                                let ghost kv = key@;
                                fields.push((key, j));
                                proof {
                                    assert(fields@.drop_last() =~= fo);
                                    assert(jfields_view(fields@) == fv.push((kv, j@)));
                                }
                                p = skip_spaces_at(v, q + 1);
                                proof {
                                    dd = dd - 1;
                                }
                            } else if q < v.len() && v[q] == '}' {
                                let ghost fv = jfields_view(fields@);
                                let ghost fo = fields@;
                                let ghost kv = key@;
                                fields.push((key, j));
                                proof {
                                    assert(fields@.drop_last() =~= fo);
                                    assert(jfields_view(fields@) == fv.push((kv, j@)));
                                }
                                return Ok((Json::Obj(fields), q + 1));
                            } else {
                                return Err(ParseError::MalformedRecord);
                            }
                        }
                    }
                }
            }
        }
    } else {
        Err(ParseError::MalformedRecord)
    }
}

/// First-match lookup of a field in an object's field list.
pub open spec fn obj_lookup(fs: Seq<(Seq<char>, JsonV)>, key: Seq<char>) -> Option<JsonV>
    decreases fs.len(),
{
    if fs.len() == 0 {
        Option::None
    } else if fs[0].0 == key {
        Option::Some(fs[0].1)
    } else {
        obj_lookup(fs.drop_first(), key)
    }
}

pub proof fn lemma_obj_lookup(fs: Seq<(Seq<char>, JsonV)>, key: Seq<char>)
    ensures
        obj_lookup(fs, key) is None ==> forall|i: int|
            0 <= i < fs.len() ==> (#[trigger] fs[i]).0 != key,
        obj_lookup(fs, key) is Some ==> exists|i: int|
            0 <= i < fs.len() && (#[trigger] fs[i]).0 == key && fs[i].1 == obj_lookup(
                fs,
                key,
            ).unwrap() && forall|m: int| 0 <= m < i ==> (#[trigger] fs[m]).0 != key,
    decreases fs.len(),
{
    if fs.len() > 0 && fs[0].0 != key {
        lemma_obj_lookup(fs.drop_first(), key);
        let d = fs.drop_first();
        if obj_lookup(fs, key) is Some {
            let i = choose|i: int|
                0 <= i < d.len() && (#[trigger] d[i]).0 == key && d[i].1 == obj_lookup(
                    d,
                    key,
                ).unwrap() && forall|m: int| 0 <= m < i ==> (#[trigger] d[m]).0 != key;
            assert(fs[i + 1].0 == key && fs[i + 1].1 == obj_lookup(fs, key).unwrap());
            assert(forall|m: int| 0 <= m < i + 1 ==> (#[trigger] fs[m]).0 != key) by {
                assert(forall|m: int| 1 <= m < i + 1 ==> fs[m] == d[m - 1]);
            }
        } else {
            assert(forall|i: int| 1 <= i < fs.len() ==> (#[trigger] fs[i]).0 == d[i - 1].0);
        }
    }
}

/// The field named `key` of an object value.
pub open spec fn jv_get(v: JsonV, key: Seq<char>) -> Option<JsonV> {
    match v {
        JsonV::Obj(fs) => obj_lookup(fs, key),
        _ => Option::None,
    }
}

/// A field that must be a string.
pub open spec fn str_field(v: JsonV, key: Seq<char>) -> Option<Seq<char>> {
    match jv_get(v, key) {
        Option::Some(JsonV::Str(s)) => Option::Some(s),
        _ => Option::None,
    }
}

/// A field that must be an integer.
pub open spec fn int_field(v: JsonV, key: Seq<char>) -> Option<int> {
    match jv_get(v, key) {
        Option::Some(JsonV::Int(n)) => Option::Some(n),
        _ => Option::None,
    }
}

/// The content of a string value (empty for other shapes).
pub open spec fn str_of(v: JsonV) -> Seq<char> {
    match v {
        JsonV::Str(s) => s,
        _ => Seq::empty(),
    }
}

/// Finds a field of an object by name, first match.
pub fn obj_get<'a>(fields: &'a Vec<(String, Json)>, key: &str) -> (r: Option<&'a Json>)
    ensures
        match r {
            Some(j) => obj_lookup(jfields_view(fields@), key@) == Some(j@),
            None => obj_lookup(jfields_view(fields@), key@) is None,
        },
{
    let ghost fv = jfields_view(fields@);
    proof {
        lemma_jfields_view_index(fields@);
        lemma_obj_lookup(fv, key@);
    }
    let mut i: usize = 0;
    while i < fields.len()
        invariant
            i <= fields@.len(),
            fv == jfields_view(fields@),
            forall|m: int| 0 <= m < i ==> (#[trigger] fv[m]).0 != key@,
        decreases fields@.len() - i,
    {
        proof {
            lemma_jfields_view_index(fields@);
        }
        if crate::text::str_eq(fields[i].0.as_str(), key) {
            proof {
                lemma_obj_lookup(fv, key@);
                if obj_lookup(fv, key@) is None {
                    assert(fv[i as int].0 != key@);
                }
                let w = choose|w: int|
                    0 <= w < fv.len() && (#[trigger] fv[w]).0 == key@ && fv[w].1 == obj_lookup(
                        fv,
                        key@,
                    ).unwrap() && forall|m: int| 0 <= m < w ==> (#[trigger] fv[m]).0 != key@;
                if w < i as int {
                    assert(fv[w].0 != key@);
                }
                if (i as int) < w {
                    assert(fv[i as int].0 != key@);
                }
                assert(obj_lookup(fv, key@) == Some(fv[i as int].1));
            }
            return Some(&fields[i].1);
        }
        i = i + 1;
    }
    None
}

/// Reads a required string field of an object's field list.
pub fn get_str_field(fields: &Vec<(String, Json)>, key: &str) -> (r: Result<String, ParseError>)
    ensures
        match r {
            Ok(s) => str_field(JsonV::Obj(jfields_view(fields@)), key@) == Some(s@),
            Err(e) => str_field(JsonV::Obj(jfields_view(fields@)), key@) is None && e
                == ParseError::SchemaMismatch,
        },
{
    match obj_get(fields, key) {
        Some(j) => {
            match j {
                Json::Str(s) => Ok(s.clone()),
                _ => Err(ParseError::SchemaMismatch),
            }
        }
        None => Err(ParseError::SchemaMismatch),
    }
}

/// Reads a required integer field of an object's field list.
pub fn get_int_field(fields: &Vec<(String, Json)>, key: &str) -> (r: Result<i64, ParseError>)
    ensures
        match r {
            Ok(n) => int_field(JsonV::Obj(jfields_view(fields@)), key@) == Some(n as int),
            Err(e) => int_field(JsonV::Obj(jfields_view(fields@)), key@) is None && e
                == ParseError::SchemaMismatch,
        },
{
    match obj_get(fields, key) {
        Some(j) => {
            match j {
                Json::Int(n) => Ok(*n),
                _ => Err(ParseError::SchemaMismatch),
            }
        }
        None => Err(ParseError::SchemaMismatch),
    }
}

/// Every element of the sequence is a string value.
pub open spec fn all_strs(els: Seq<JsonV>) -> bool {
    forall|i: int| 0 <= i < els.len() ==> (#[trigger] els[i]) is Str
}

/// Executable counterpart of `all_strs`.
pub fn all_strings(ts: &Vec<Json>) -> (b: bool)
    ensures
        b == all_strs(jsons_view(ts@)),
{
    let ghost tv = jsons_view(ts@);
    proof {
        lemma_jsons_view_index(ts@);
    }
    let mut i: usize = 0;
    while i < ts.len()
        invariant
            i <= ts@.len(),
            tv == jsons_view(ts@),
            tv.len() == ts@.len(),
            forall|m: int| 0 <= m < i ==> (#[trigger] tv[m]) is Str,
        decreases ts@.len() - i,
    {
        proof {
            lemma_jsons_view_index(ts@);
        }
        let is_str = match &ts[i] {
            Json::Str(_) => true,
            _ => false,
        };
        if !is_str {
            proof {
                assert(!(tv[i as int] is Str));
                assert(!all_strs(tv)) by {
                    if all_strs(tv) {
                        assert(tv[i as int] is Str);
                    }
                }
            }
            return false;
        }
        i = i + 1;
    }
    true
}

/// Tests for a string field without copying it.
pub fn has_str_field(fields: &Vec<(String, Json)>, key: &str) -> (b: bool)
    ensures
        b == (str_field(JsonV::Obj(jfields_view(fields@)), key@) is Some),
{
    match obj_get(fields, key) {
        Some(j) => match j {
            Json::Str(_) => true,
            _ => false,
        },
        None => false,
    }
}

/// Tests for an integer field.
pub fn has_int_field(fields: &Vec<(String, Json)>, key: &str) -> (b: bool)
    ensures
        b == (int_field(JsonV::Obj(jfields_view(fields@)), key@) is Some),
{
    match obj_get(fields, key) {
        Some(j) => match j {
            Json::Int(_) => true,
            _ => false,
        },
        None => false,
    }
}

/// Parses a complete JSON document: one value, surrounding whitespace
/// allowed, nothing after it.
pub fn parse_json(input: &str) -> (r: Result<Json, ParseError>)
    ensures
        match r {
            Ok(j) => spec_parse_json(input@) == Some(j@),
            Err(e) => spec_parse_json(input@) is None && e == ParseError::MalformedRecord,
        },
{
    let v = to_chars(input);
    let a = skip_spaces_at(&v, 0);
    let ghost d0: int = 2 * (v@.len() as int) + 4;
    match p_value(&v, a, Ghost(d0)) {
        Err(e) => Err(e),
        Ok((j, k)) => {
            let rest = skip_spaces_at(&v, k);
            if rest == v.len() {
                Ok(j)
            } else {
                Err(ParseError::MalformedRecord)
            }
        }
    }
}

} // verus!
