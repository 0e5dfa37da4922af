//! The schema's JSON form: `{"type":"<name>"}`, with `"default"` after the
//! type for a bool that has one.
use vstd::prelude::*;
use crate::error::NP_Error;
use crate::json_value::{parse_json, JsonValue};
use crate::schema::NP_Parsed_Schema;

verus! {

/// The JSON name of a node's type.
pub open spec fn kind_name(n: NP_Parsed_Schema) -> Seq<u8> {
    match n {
        NP_Parsed_Schema::Boolean { .. } => seq![98u8, 111u8, 111u8, 108u8],
        NP_Parsed_Schema::Int8 => seq![105u8, 56u8],
        NP_Parsed_Schema::Int16 => seq![105u8, 49u8, 54u8],
        NP_Parsed_Schema::Int32 => seq![105u8, 51u8, 50u8],
        NP_Parsed_Schema::Int64 => seq![105u8, 54u8, 52u8],
        NP_Parsed_Schema::Uint8 => seq![117u8, 56u8],
        NP_Parsed_Schema::Uint16 => seq![117u8, 49u8, 54u8],
        NP_Parsed_Schema::Uint32 => seq![117u8, 51u8, 50u8],
        NP_Parsed_Schema::Uint64 => seq![117u8, 54u8, 52u8],
        NP_Parsed_Schema::Date => seq![100u8, 97u8, 116u8, 101u8],
        NP_Parsed_Schema::UTF8String => seq![115u8, 116u8, 114u8, 105u8, 110u8, 103u8],
        NP_Parsed_Schema::Bytes => seq![98u8, 121u8, 116u8, 101u8, 115u8],
    }
}

/// `{"type":"`
pub open spec fn json_prefix() -> Seq<u8> {
    seq![123u8, 34u8, 116u8, 121u8, 112u8, 101u8, 34u8, 58u8, 34u8]
}

/// `}`
pub open spec fn json_close() -> Seq<u8> {
    seq![125u8]
}

/// `,"default":true}`
pub open spec fn json_default_true() -> Seq<u8> {
    seq![44u8, 34u8, 100u8, 101u8, 102u8, 97u8, 117u8, 108u8, 116u8, 34u8, 58u8, 116u8, 114u8, 117u8, 101u8, 125u8]
}

/// `,"default":false}`
pub open spec fn json_default_false() -> Seq<u8> {
    seq![
        44u8,
        34u8,
        100u8,
        101u8,
        102u8,
        97u8,
        117u8,
        108u8,
        116u8,
        34u8,
        58u8,
        102u8,
        97u8,
        108u8,
        115u8,
        101u8,
        125u8,
    ]
}

/// What follows the type name and its closing quote.
pub open spec fn json_options(n: NP_Parsed_Schema) -> Seq<u8> {
    match n {
        NP_Parsed_Schema::Boolean { default: Some(true) } => json_default_true(),
        NP_Parsed_Schema::Boolean { default: Some(false) } => json_default_false(),
        _ => json_close(),
    }
}

/// The JSON text of a node.
pub open spec fn schema_json(n: NP_Parsed_Schema) -> Seq<u8> {
    json_prefix() + kind_name(n) + seq![34u8] + json_options(n)
}

/// The node with no options whose type a name gives.
pub open spec fn plain(n: NP_Parsed_Schema) -> NP_Parsed_Schema {
    match n {
        NP_Parsed_Schema::Boolean { .. } => NP_Parsed_Schema::Boolean { default: None },
        _ => n,
    }
}

fn lit_prefix() -> (r: Vec<u8>)
    ensures
        r@ == json_prefix(),
{
    let r = vec![123u8, 34u8, 116u8, 121u8, 112u8, 101u8, 34u8, 58u8, 34u8];
    assert(r@ =~= json_prefix());
    r
}

fn lit_close() -> (r: Vec<u8>)
    ensures
        r@ == json_close(),
{
    let r = vec![125u8];
    assert(r@ =~= json_close());
    r
}

fn lit_default_true() -> (r: Vec<u8>)
    ensures
        r@ == json_default_true(),
{
    let r = vec![
        44u8,
        34u8,
        100u8,
        101u8,
        102u8,
        97u8,
        117u8,
        108u8,
        116u8,
        34u8,
        58u8,
        116u8,
        114u8,
        117u8,
        101u8,
        125u8,
    ];
    assert(r@ =~= json_default_true());
    r
}

fn lit_default_false() -> (r: Vec<u8>)
    ensures
        r@ == json_default_false(),
{
    let r = vec![
        44u8,
        34u8,
        100u8,
        101u8,
        102u8,
        97u8,
        117u8,
        108u8,
        116u8,
        34u8,
        58u8,
        102u8,
        97u8,
        108u8,
        115u8,
        101u8,
        125u8,
    ];
    assert(r@ =~= json_default_false());
    r
}

fn lit_kind_name(n: &NP_Parsed_Schema) -> (r: Vec<u8>)
    ensures
        r@ == kind_name(*n),
{
    let r = match n {
        NP_Parsed_Schema::Boolean { .. } => vec![98u8, 111u8, 111u8, 108u8],
        NP_Parsed_Schema::Int8 => vec![105u8, 56u8],
        NP_Parsed_Schema::Int16 => vec![105u8, 49u8, 54u8],
        NP_Parsed_Schema::Int32 => vec![105u8, 51u8, 50u8],
        NP_Parsed_Schema::Int64 => vec![105u8, 54u8, 52u8],
        NP_Parsed_Schema::Uint8 => vec![117u8, 56u8],
        NP_Parsed_Schema::Uint16 => vec![117u8, 49u8, 54u8],
        NP_Parsed_Schema::Uint32 => vec![117u8, 51u8, 50u8],
        NP_Parsed_Schema::Uint64 => vec![117u8, 54u8, 52u8],
        NP_Parsed_Schema::Date => vec![100u8, 97u8, 116u8, 101u8],
        NP_Parsed_Schema::UTF8String => vec![115u8, 116u8, 114u8, 105u8, 110u8, 103u8],
        NP_Parsed_Schema::Bytes => vec![98u8, 121u8, 116u8, 101u8, 115u8],
    };
    assert(r@ =~= kind_name(*n));
    r
}

fn push_all(v: &mut Vec<u8>, tail: &Vec<u8>)
    ensures
        final(v)@ == old(v)@ + tail@,
{
    let mut i: usize = 0;
    while i < tail.len()
        invariant
            i <= tail@.len(),
            v@ == old(v)@ + tail@.subrange(0, i as int),
        decreases tail@.len() - i,
    {
        v.push(tail[i]);
        i = i + 1;
        assert(v@ =~= old(v)@ + tail@.subrange(0, i as int));
    }
    assert(tail@.subrange(0, tail@.len() as int) =~= tail@);
}

/// Whether `lit` stands in `s` from `at` on.
fn eq_at(s: &[u8], at: usize, lit: &Vec<u8>) -> (r: bool)
    ensures
        r == (at + lit@.len() <= s@.len() && s@.subrange(at as int, at + lit@.len()) == lit@),
{
    if at > s.len() || s.len() - at < lit.len() {
        return false;
    }
    let len: usize = s.len();
    let mut i: usize = 0;
    while i < lit.len()
        invariant
            len == s@.len(),
            at + lit@.len() <= s@.len(),
            i <= lit@.len(),
            forall|j: int| 0 <= j < i ==> s@[at + j] == lit@[j],
        decreases lit@.len() - i,
    {
        if s[at + i] != lit[i] {
            assert(s@.subrange(at as int, at + lit@.len())[i as int] != lit@[i as int]);
            return false;
        }
        i = i + 1;
    }
    assert(s@.subrange(at as int, at + lit@.len()) =~= lit@);
    true
}

/// Whether `s` from `at` on is exactly `lit`.
fn rest_is(s: &[u8], at: usize, lit: &Vec<u8>) -> (r: bool)
    ensures
        r == (at <= s@.len() && s@.subrange(at as int, s@.len() as int) == lit@),
{
    if at <= s.len() && s.len() - at == lit.len() {
        eq_at(s, at, lit)
    } else {
        false
    }
}

/// The first `"` at or after `from`.
fn find_quote(s: &[u8], from: usize) -> (r: Option<usize>)
    requires
        from <= s@.len(),
    ensures
        r matches Some(q) ==> from <= q < s@.len() && s@[q as int] == 34u8 && forall|j: int|
            from <= j < q ==> s@[j] != 34u8,
        r is None ==> forall|j: int| from <= j < s@.len() ==> s@[j] != 34u8,
{
    let mut i: usize = from;
    while i < s.len()
        invariant
            from <= i <= s@.len(),
            forall|j: int| from <= j < i ==> s@[j] != 34u8,
        decreases s@.len() - i,
    {
        if s[i] == 34u8 {
            return Some(i);
        }
        i = i + 1;
    }
    None
}

/// No type name holds a quote.
proof fn lemma_names_unquoted(n: NP_Parsed_Schema)
    ensures
        forall|j: int| 0 <= j < kind_name(n).len() ==> kind_name(n)[j] != 34u8,
{
}

/// The node with no options that `name` names, if any.
fn kind_of_name(s: &[u8], from: usize, to: usize) -> (r: Option<NP_Parsed_Schema>)
    requires
        from <= to <= s@.len(),
    ensures
        r matches Some(n) ==> kind_name(n) == s@.subrange(from as int, to as int) && n == plain(
            n,
        ),
        forall|m: NP_Parsed_Schema|
            kind_name(m) == s@.subrange(from as int, to as int) ==> r == Some(plain(m)),
{
    let ghost name = s@.subrange(from as int, to as int);
    let candidates: [NP_Parsed_Schema; 12] = [
        NP_Parsed_Schema::Boolean { default: None },
        NP_Parsed_Schema::Int8,
        NP_Parsed_Schema::Int16,
        NP_Parsed_Schema::Int32,
        NP_Parsed_Schema::Int64,
        NP_Parsed_Schema::Uint8,
        NP_Parsed_Schema::Uint16,
        NP_Parsed_Schema::Uint32,
        NP_Parsed_Schema::Uint64,
        NP_Parsed_Schema::UTF8String,
        NP_Parsed_Schema::Bytes,
        NP_Parsed_Schema::Date,
    ];
    let mut i: usize = 0;
    while i < 12
        invariant
            i <= 12,
            name == s@.subrange(from as int, to as int),
            from <= to <= s@.len(),
            candidates@ == seq![
                NP_Parsed_Schema::Boolean { default: None },
                NP_Parsed_Schema::Int8,
                NP_Parsed_Schema::Int16,
                NP_Parsed_Schema::Int32,
                NP_Parsed_Schema::Int64,
                NP_Parsed_Schema::Uint8,
                NP_Parsed_Schema::Uint16,
                NP_Parsed_Schema::Uint32,
                NP_Parsed_Schema::Uint64,
                NP_Parsed_Schema::UTF8String,
                NP_Parsed_Schema::Bytes,
                NP_Parsed_Schema::Date,
            ],
            forall|j: int| 0 <= j < i ==> kind_name(#[trigger] candidates@[j]) != name,
        decreases 12 - i,
    {
        let c = candidates[i];
        let lit = lit_kind_name(&c);
        if to - from == lit.len() && eq_at(s, from, &lit) {
            proof {
                assert forall|m: NP_Parsed_Schema| kind_name(m) == name implies Some(c) == Some(
                    plain(m),
                ) by {
                    assert(kind_name(m) == kind_name(c));
                    assert(kind_name(m)[0] == kind_name(c)[0]);
                    assert(kind_name(m)[1] == kind_name(c)[1]);
                }
            }
            return Some(c);
        }
        i = i + 1;
    }
    proof {
        assert forall|m: NP_Parsed_Schema| kind_name(m) != name by {
            let k: int = match m {
                NP_Parsed_Schema::Boolean { .. } => 0,
                NP_Parsed_Schema::Int8 => 1,
                NP_Parsed_Schema::Int16 => 2,
                NP_Parsed_Schema::Int32 => 3,
                NP_Parsed_Schema::Int64 => 4,
                NP_Parsed_Schema::Uint8 => 5,
                NP_Parsed_Schema::Uint16 => 6,
                NP_Parsed_Schema::Uint32 => 7,
                NP_Parsed_Schema::Uint64 => 8,
                NP_Parsed_Schema::UTF8String => 9,
                NP_Parsed_Schema::Bytes => 10,
                NP_Parsed_Schema::Date => 11,
            };
            assert(kind_name(candidates@[k]) == kind_name(m));
        }
    }
    None
}

/// Different schemas have different JSON texts, so reading back the text of a
/// schema gives that schema: `from_json(to_json(n)) == n`, and every text
/// that `from_json` accepts is `to_json` of what it returns.
pub proof fn law_schema_json_round_trip(a: NP_Parsed_Schema, b: NP_Parsed_Schema)
    requires
        schema_json(a) == schema_json(b),
    ensures
        a == b,
{
    let s = schema_json(a);
    let la: int = kind_name(a).len() as int;
    let lb: int = kind_name(b).len() as int;
    lemma_names_unquoted(a);
    lemma_names_unquoted(b);
    assert(s[9 + la] == 34u8);
    assert(schema_json(b)[9 + lb] == 34u8);
    if la < lb {
        assert(schema_json(b)[9 + la] == kind_name(b)[la]);
    }
    if lb < la {
        assert(s[9 + lb] == kind_name(a)[lb]);
    }
    assert(kind_name(a) =~= s.subrange(9, 9 + la));
    assert(kind_name(b) =~= schema_json(b).subrange(9, 9 + lb));
    assert(kind_name(a)[0] == kind_name(b)[0]);
    assert(kind_name(a)[1] == kind_name(b)[1]);
    assert(json_options(a) =~= s.subrange(10 + la, s.len() as int));
    assert(json_options(b) =~= schema_json(b).subrange(10 + lb, s.len() as int));
    assert(json_options(a).len() == json_options(b).len());
}

/// `"type"`
pub open spec fn key_type() -> Seq<u8> {
    seq![116u8, 121u8, 112u8, 101u8]
}

/// `"default"`
pub open spec fn key_default() -> Seq<u8> {
    seq![100u8, 101u8, 102u8, 97u8, 117u8, 108u8, 116u8]
}

/// The value of the first field named `key` from position `i` on.
pub open spec fn field_from(fields: Seq<(Vec<u8>, JsonValue)>, key: Seq<u8>, i: int) -> Option<
    JsonValue,
>
    decreases fields.len() - i,
{
    if i < 0 || i >= fields.len() {
        None
    } else if fields[i].0@ == key {
        Some(fields[i].1)
    } else {
        field_from(fields, key, i + 1)
    }
}

/// The node without options whose type `name` names, if any.
pub open spec fn name_kind(name: Seq<u8>) -> Option<NP_Parsed_Schema> {
    if exists|m: NP_Parsed_Schema| kind_name(m) == name {
        Some(plain(choose|m: NP_Parsed_Schema| kind_name(m) == name))
    } else {
        None
    }
}

/// The node a parsed JSON value describes: an object whose first `"type"`
/// field names a type; for bool, a boolean `"default"` field sets the default.
/// Other fields are ignored.
pub open spec fn schema_of_value(v: JsonValue) -> Option<NP_Parsed_Schema> {
    match v {
        JsonValue::Object(f) => match field_from(f@, key_type(), 0) {
            Some(JsonValue::Str(name)) => match name_kind(name@) {
                Some(base) => if base is Boolean {
                    Some(
                        NP_Parsed_Schema::Boolean {
                            default: match field_from(f@, key_default(), 0) {
                                Some(JsonValue::Bool(b)) => Some(b),
                                _ => None,
                            },
                        },
                    )
                } else {
                    Some(base)
                },
                None => None,
            },
            _ => None,
        },
        _ => None,
    }
}

/// The position of the first field named `key`.
fn find_field(fields: &Vec<(Vec<u8>, JsonValue)>, key: &Vec<u8>) -> (r: Option<usize>)
    ensures
        match r {
            Some(i) => i < fields@.len() && field_from(fields@, key@, 0) == Some(fields@[i as int].1),
            None => field_from(fields@, key@, 0) is None,
        },
{
    let mut i: usize = 0;
    while i < fields.len()
        invariant
            i <= fields@.len(),
            field_from(fields@, key@, 0) == field_from(fields@, key@, i as int),
        decreases fields@.len() - i,
    {
        let k = &fields[i].0;
        let mut same = k.len() == key.len();
        let mut j: usize = 0;
        while same && j < k.len()
            invariant
                same ==> k@.len() == key@.len(),
                same ==> forall|x: int| 0 <= x < j ==> k@[x] == key@[x],
                !same ==> k@ != key@,
                j <= k@.len(),
            decreases k@.len() - j,
        {
            if k[j] != key[j] {
                same = false;
            }
            j = j + 1;
        }
        if same {
            assert(k@ =~= key@);
            return Some(i);
        }
        i = i + 1;
    }
    None
}

impl NP_Parsed_Schema {
    /// The JSON text of this node.
    pub fn to_json(&self) -> (r: Vec<u8>)
        ensures
            r@ == schema_json(*self),
    {
        let mut r = lit_prefix();
        let name = lit_kind_name(self);
        push_all(&mut r, &name);
        r.push(34u8);
        let opts = match self {
            NP_Parsed_Schema::Boolean { default: Some(true) } => lit_default_true(),
            NP_Parsed_Schema::Boolean { default: Some(false) } => lit_default_false(),
            _ => lit_close(),
        };
        push_all(&mut r, &opts);
        proof {
            assert(r@ =~= schema_json(*self));
        }
        r
    }

    /// Reads a node from JSON text, any whitespace and key order allowed:
    /// the text is parsed, and `from_json_value` turns the object into a node.
    /// The contract fixes the result for the text that `to_json` writes for a
    /// node; for other texts it says only that errors are `SchemaInvalid`.
    pub fn from_json(s: &[u8]) -> (r: Result<NP_Parsed_Schema, NP_Error>)
        ensures
            forall|m: NP_Parsed_Schema| schema_json(m) == s@ ==> r == Ok::<NP_Parsed_Schema, NP_Error>(m),
            r matches Err(e) ==> e == NP_Error::SchemaInvalid,
    {
        if let Ok(n) = Self::from_canonical_json(s) {
            return Ok(n);
        }
        let v = parse_json(s)?;
        Self::from_json_value(&v)
    }

    /// The node that a parsed JSON object describes.
    pub fn from_json_value(v: &JsonValue) -> (r: Result<NP_Parsed_Schema, NP_Error>)
        ensures
            match schema_of_value(*v) {
                Some(n) => r == Ok::<NP_Parsed_Schema, NP_Error>(n),
                None => r == Err::<NP_Parsed_Schema, NP_Error>(NP_Error::SchemaInvalid),
            },
    {
        let fields = match v {
            JsonValue::Object(f) => f,
            _ => {
                return Err(NP_Error::SchemaInvalid);
            },
        };
        let type_key = vec![116u8, 121u8, 112u8, 101u8];
        proof {
            assert(type_key@ =~= key_type());
        }
        let ti = match find_field(fields, &type_key) {
            Some(i) => i,
            None => {
                return Err(NP_Error::SchemaInvalid);
            },
        };
        let name = match &fields[ti].1 {
            JsonValue::Str(n) => n,
            _ => {
                return Err(NP_Error::SchemaInvalid);
            },
        };
        let base = kind_of_name(name.as_slice(), 0, name.len());
        proof {
            assert(name@.subrange(0, name@.len() as int) =~= name@);
            if base is Some {
                let m = choose|m: NP_Parsed_Schema| kind_name(m) == name@;
                assert(kind_name(m) == name@);
            } else {
                assert(!exists|m: NP_Parsed_Schema| kind_name(m) == name@);
            }
        }
        let base = match base {
            Some(b) => b,
            None => {
                return Err(NP_Error::SchemaInvalid);
            },
        };
        if matches!(base, NP_Parsed_Schema::Boolean { .. }) {
            let default_key = vec![100u8, 101u8, 102u8, 97u8, 117u8, 108u8, 116u8];
            proof {
                assert(default_key@ =~= key_default());
            }
            let d = match find_field(fields, &default_key) {
                Some(i) => match &fields[i].1 {
                    JsonValue::Bool(b) => Some(*b),
                    _ => None,
                },
                None => None,
            };
            return Ok(NP_Parsed_Schema::Boolean { default: d });
        }
        Ok(base)
    }

    /// Reads a node from its exact JSON text, as `to_json` writes it.
    fn from_canonical_json(s: &[u8]) -> (r: Result<NP_Parsed_Schema, NP_Error>)
        ensures
            r matches Ok(n) ==> schema_json(n) == s@,
            forall|m: NP_Parsed_Schema| schema_json(m) == s@ ==> r == Ok::<NP_Parsed_Schema, NP_Error>(m),
            r matches Err(e) ==> e == NP_Error::SchemaInvalid,
    {
        let prefix = lit_prefix();
        if !eq_at(s, 0, &prefix) {
            proof {
                assert forall|m: NP_Parsed_Schema| schema_json(m) != s@ by {
                    if schema_json(m) == s@ {
                        assert(s@.subrange(0, 9) =~= json_prefix());
                    }
                }
            }
            return Err(NP_Error::SchemaInvalid);
        }
        let q = match find_quote(s, 9) {
            Some(q) => q,
            None => {
                proof {
                    assert forall|m: NP_Parsed_Schema| schema_json(m) != s@ by {
                        if schema_json(m) == s@ {
                            let k: int = 9 + kind_name(m).len() as int;
                            assert(s@[k] == 34u8);
                        }
                    }
                }
                return Err(NP_Error::SchemaInvalid);
            },
        };
        proof {
            assert forall|m: NP_Parsed_Schema| schema_json(m) == s@ implies q == 9 + kind_name(
                m,
            ).len() && kind_name(m) == s@.subrange(9, q as int) && json_options(m) == s@.subrange(
                q + 1,
                s@.len() as int,
            ) by {
                let k: int = 9 + kind_name(m).len() as int;
                lemma_names_unquoted(m);
                assert(s@[k] == 34u8);
                if q < k {
                    assert(s@[q as int] == kind_name(m)[q - 9]);
                }
                assert(kind_name(m) =~= s@.subrange(9, q as int));
                assert(json_options(m) =~= s@.subrange(q + 1, s@.len() as int));
            }
        }
        let base = match kind_of_name(s, 9, q) {
            Some(b) => b,
            None => {
                return Err(NP_Error::SchemaInvalid);
            },
        };
        let close = lit_close();
        if rest_is(s, q + 1, &close) {
            proof {
                assert(s@ =~= schema_json(base));
            }
            return Ok(base);
        }
        if matches!(base, NP_Parsed_Schema::Boolean { .. }) {
            let t = lit_default_true();
            if rest_is(s, q + 1, &t) {
                let n = NP_Parsed_Schema::Boolean { default: Some(true) };
                proof {
                    assert(s@ =~= schema_json(n));
                    assert forall|m: NP_Parsed_Schema| schema_json(m) == s@ implies m == n by {
                        assert(json_options(m) == json_default_true());
                        if json_options(m) == json_close() {
                            assert(json_default_true().len() != json_close().len());
                        }
                        if json_options(m) == json_default_false() {
                            assert(json_default_true().len() != json_default_false().len());
                        }
                    }
                }
                return Ok(n);
            }
            let f = lit_default_false();
            if rest_is(s, q + 1, &f) {
                let n = NP_Parsed_Schema::Boolean { default: Some(false) };
                proof {
                    assert(s@ =~= schema_json(n));
                    assert forall|m: NP_Parsed_Schema| schema_json(m) == s@ implies m == n by {
                        if json_options(m) == json_close() {
                            assert(json_default_false().len() != json_close().len());
                        }
                        if json_options(m) == json_default_true() {
                            assert(json_default_true().len() != json_default_false().len());
                        }
                    }
                }
                return Ok(n);
            }
        }
        Err(NP_Error::SchemaInvalid)
    }
}

} // verus!
