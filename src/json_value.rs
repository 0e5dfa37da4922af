//! A JSON reader: text to a tree of values. Numbers keep their text.
use vstd::prelude::*;
use crate::error::NP_Error;

verus! {

/// A parsed JSON value.
#[derive(Debug)]
pub enum JsonValue {
    Null,
    Bool(bool),
    Number(Vec<u8>),
    Str(Vec<u8>),
    Array(Vec<JsonValue>),
    Object(Vec<(Vec<u8>, JsonValue)>),
}

/// Space, tab, line feed or carriage return.
pub open spec fn is_ws(c: u8) -> bool {
    c == 32 || c == 9 || c == 10 || c == 13
}

/// The first position at or after `p` that holds no whitespace.
pub fn skip_ws(s: &[u8], p: usize) -> (r: usize)
    requires
        p <= s@.len(),
    ensures
        p <= r <= s@.len(),
        forall|i: int| p <= i < r ==> is_ws(#[trigger] s@[i]),
        r < s@.len() ==> !is_ws(s@[r as int]),
{
    let mut i = p;
    while i < s.len() && (s[i] == 32 || s[i] == 9 || s[i] == 10 || s[i] == 13)
        invariant
            p <= i <= s@.len(),
            forall|j: int| p <= j < i ==> is_ws(#[trigger] s@[j]),
        decreases s@.len() - i,
    {
        i = i + 1;
    }
    i
}

/// Reads a string whose opening quote is at `pos`; returns its bytes, with
/// the escapes \" \\ \/ \b \f \n \r \t resolved, and the position after the
/// closing quote.
fn parse_string(s: &[u8], pos: usize) -> (r: Result<(Vec<u8>, usize), NP_Error>)
    requires
        pos < s@.len(),
    ensures
        r matches Ok((v, end)) ==> pos < end <= s@.len(),
        r matches Err(e) ==> e == NP_Error::SchemaInvalid,
{
    let n: usize = s.len();
    let mut out: Vec<u8> = Vec::new();
    let mut i = pos + 1;
    while i < n
        invariant
            n == s@.len(),
            pos < i <= s@.len(),
        decreases s@.len() - i,
    {
        let c = s[i];
        if c == 34 {
            return Ok((out, i + 1));
        }
        if c == 92 {
            if i + 1 >= n {
                return Err(NP_Error::SchemaInvalid);
            }
            let e = s[i + 1];
            let d: u8 = if e == 34 || e == 92 || e == 47 {
                e
            } else if e == 98 {
                8
            } else if e == 102 {
                12
            } else if e == 110 {
                10
            } else if e == 114 {
                13
            } else if e == 116 {
                9
            } else {
                return Err(NP_Error::SchemaInvalid);
            };
            out.push(d);
            i = i + 2;
        } else {
            out.push(c);
            i = i + 1;
        }
    }
    Err(NP_Error::SchemaInvalid)
}

/// Whether `lit` stands in `s` at `p`.
fn has_lit(s: &[u8], p: usize, lit: &Vec<u8>) -> (r: bool)
    requires
        p <= s@.len(),
    ensures
        r ==> p + lit@.len() <= s@.len(),
{
    let n: usize = s.len();
    if n - p < lit.len() {
        return false;
    }
    let mut i: usize = 0;
    while i < lit.len()
        invariant
            n == s@.len(),
            p + lit@.len() <= s@.len(),
            i <= lit@.len(),
        decreases lit@.len() - i,
    {
        if s[p + i] != lit[i] {
            return false;
        }
        i = i + 1;
    }
    true
}

/// Reads the value that starts at `pos` (no leading whitespace); returns it
/// and the position after it.
pub fn parse_value(s: &[u8], pos: usize) -> (r: Result<(JsonValue, usize), NP_Error>)
    requires
        pos <= s@.len(),
    ensures
        r matches Ok((v, end)) ==> pos < end <= s@.len(),
        r matches Err(e) ==> e == NP_Error::SchemaInvalid,
    decreases s@.len() - pos,
{
    if pos >= s.len() {
        return Err(NP_Error::SchemaInvalid);
    }
    let c = s[pos];
    if c == 34 {
        let (b, end) = parse_string(s, pos)?;
        return Ok((JsonValue::Str(b), end));
    }
    if c == 123 {
        let mut fields: Vec<(Vec<u8>, JsonValue)> = Vec::new();
        let mut p = skip_ws(s, pos + 1);
        if p < s.len() && s[p] == 125 {
            return Ok((JsonValue::Object(fields), p + 1));
        }
        loop
            invariant
                pos < p <= s@.len(),
            decreases s@.len() - p,
        {
            if p >= s.len() || s[p] != 34 {
                return Err(NP_Error::SchemaInvalid);
            }
            let (k, p1) = parse_string(s, p)?;
            let p2 = skip_ws(s, p1);
            if p2 >= s.len() || s[p2] != 58 {
                return Err(NP_Error::SchemaInvalid);
            }
            let p3 = skip_ws(s, p2 + 1);
            let (v, p4) = parse_value(s, p3)?;
            fields.push((k, v));
            let p5 = skip_ws(s, p4);
            if p5 >= s.len() {
                return Err(NP_Error::SchemaInvalid);
            }
            if s[p5] == 125 {
                return Ok((JsonValue::Object(fields), p5 + 1));
            }
            if s[p5] != 44 {
                return Err(NP_Error::SchemaInvalid);
            }
            p = skip_ws(s, p5 + 1);
        }
    }
    if c == 91 {
        let mut items: Vec<JsonValue> = Vec::new();
        let mut p = skip_ws(s, pos + 1);
        if p < s.len() && s[p] == 93 {
            return Ok((JsonValue::Array(items), p + 1));
        }
        loop
            invariant
                pos < p <= s@.len(),
            decreases s@.len() - p,
        {
            let (v, p1) = parse_value(s, p)?;
            items.push(v);
            let p2 = skip_ws(s, p1);
            if p2 >= s.len() {
                return Err(NP_Error::SchemaInvalid);
            }
            if s[p2] == 93 {
                return Ok((JsonValue::Array(items), p2 + 1));
            }
            if s[p2] != 44 {
                return Err(NP_Error::SchemaInvalid);
            }
            p = skip_ws(s, p2 + 1);
        }
    }
    if c == 116 {
        let lit = vec![116u8, 114u8, 117u8, 101u8];
        if has_lit(s, pos, &lit) {
            return Ok((JsonValue::Bool(true), pos + 4));
        }
        return Err(NP_Error::SchemaInvalid);
    }
    if c == 102 {
        let lit = vec![102u8, 97u8, 108u8, 115u8, 101u8];
        if has_lit(s, pos, &lit) {
            return Ok((JsonValue::Bool(false), pos + 5));
        }
        return Err(NP_Error::SchemaInvalid);
    }
    if c == 110 {
        let lit = vec![110u8, 117u8, 108u8, 108u8];
        if has_lit(s, pos, &lit) {
            return Ok((JsonValue::Null, pos + 4));
        }
        return Err(NP_Error::SchemaInvalid);
    }
    if c == 45 || (48 <= c && c <= 57) {
        let mut num: Vec<u8> = Vec::new();
        num.push(c);
        let mut i = pos + 1;
        while i < s.len() && (s[i] == 45 || s[i] == 43 || s[i] == 46 || s[i] == 101 || s[i] == 69
            || (48 <= s[i] && s[i] <= 57))
            invariant
                pos < i <= s@.len(),
            decreases s@.len() - i,
        {
            num.push(s[i]);
            i = i + 1;
        }
        return Ok((JsonValue::Number(num), i));
    }
    Err(NP_Error::SchemaInvalid)
}

/// Reads a whole text as one JSON value, whitespace allowed around it.
pub fn parse_json(s: &[u8]) -> (r: Result<JsonValue, NP_Error>)
    ensures
        r matches Err(e) ==> e == NP_Error::SchemaInvalid,
{
    let p = skip_ws(s, 0);
    let (v, end) = parse_value(s, p)?;
    let q = skip_ws(s, end);
    if q != s.len() {
        return Err(NP_Error::SchemaInvalid);
    }
    Ok(v)
}

} // verus!
