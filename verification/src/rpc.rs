//! The JSON-RPC-shaped envelope of the wire protocol.
//!
//! Outbound calls are `{method, id, jsonrpc: "2.0", params}` objects.  An
//! inbound frame that carries a `method` field is a notification; any other
//! frame is a response, keyed by its integer `id`.

use vstd::prelude::*;

use crate::value::obj_has_key;
use crate::value::obj_value;
use crate::value::view_value;
use crate::value::view_fields;
use crate::value::Jv;
use crate::value::JsonValue;

verus! {

// ---------------------------------------------------------------------------
// Decimal text of call ids.
// ---------------------------------------------------------------------------

/// The decimal digit character of `n`, for `n < 10`.
pub open spec fn digit_char(n: nat) -> char {
    if n == 0 {
        '0'
    } else if n == 1 {
        '1'
    } else if n == 2 {
        '2'
    } else if n == 3 {
        '3'
    } else if n == 4 {
        '4'
    } else if n == 5 {
        '5'
    } else if n == 6 {
        '6'
    } else if n == 7 {
        '7'
    } else if n == 8 {
        '8'
    } else {
        '9'
    }
}

/// The decimal text of `n`.
pub open spec fn dec_digits(n: nat) -> Seq<char>
    decreases n,
{
    if n < 10 {
        seq![digit_char(n)]
    } else {
        dec_digits(n / 10).push(digit_char(n % 10))
    }
}

/// One decimal digit as a string slice.
fn digit_str(d: u64) -> (r: &'static str)
    requires
        d < 10,
    ensures
        r@ == seq![digit_char(d as nat)],
{
    if d == 0 {
        proof {
            reveal_strlit("0");
        }
        "0"
    } else if d == 1 {
        proof {
            reveal_strlit("1");
        }
        "1"
    } else if d == 2 {
        proof {
            reveal_strlit("2");
        }
        "2"
    } else if d == 3 {
        proof {
            reveal_strlit("3");
        }
        "3"
    } else if d == 4 {
        proof {
            reveal_strlit("4");
        }
        "4"
    } else if d == 5 {
        proof {
            reveal_strlit("5");
        }
        "5"
    } else if d == 6 {
        proof {
            reveal_strlit("6");
        }
        "6"
    } else if d == 7 {
        proof {
            reveal_strlit("7");
        }
        "7"
    } else if d == 8 {
        proof {
            reveal_strlit("8");
        }
        "8"
    } else {
        proof {
            reveal_strlit("9");
        }
        "9"
    }
}

/// The decimal text of a call id.
pub fn dec_of_u64(n: u64) -> (r: String)
    ensures
        r@ == dec_digits(n as nat),
    decreases n,
{
    let d = n % 10;
    let ds = digit_str(d);
    if n < 10 {
        ds.to_owned()
    } else {
        let mut s = dec_of_u64(n / 10);
        s.append(ds);
        proof {
            assert(s@ =~= dec_digits((n / 10) as nat).push(digit_char((n % 10) as nat)));
        }
        s
    }
}

/// Whether `c` is a decimal digit.
pub open spec fn is_digit(c: char) -> bool {
    ('0' as u32) <= (c as u32) && (c as u32) <= ('9' as u32)
}

/// The value of a digit character.
pub open spec fn digit_value(c: char) -> int {
    (c as u32) - ('0' as u32)
}

/// Reading decimal digits left to right onto `acc`; `None` past the digit
/// alphabet or past the range of an id.
pub open spec fn parse_u64_rec(s: Seq<char>, i: int, acc: u64) -> Option<u64>
    decreases s.len() - i,
{
    if i < 0 || i >= s.len() {
        Some(acc)
    } else if !is_digit(s[i]) {
        None
    } else if acc * 10 + digit_value(s[i]) > u64::MAX {
        None
    } else {
        parse_u64_rec(s, i + 1, (acc * 10 + digit_value(s[i])) as u64)
    }
}

/// The id a decimal text denotes, if it is one: non-empty, digits only, in
/// range.
pub open spec fn spec_parse_u64(s: Seq<char>) -> Option<u64> {
    if s.len() == 0 {
        None
    } else {
        parse_u64_rec(s, 0, 0)
    }
}

/// Reads a call id from its decimal text.
pub fn parse_u64(s: &str) -> (r: Option<u64>)
    ensures
        r == spec_parse_u64(s@),
{
    let n = s.unicode_len();
    if n == 0 {
        return None;
    }
    let mut acc: u64 = 0;
    let mut i: usize = 0;
    while i < n
        invariant
            i <= n,
            n == s@.len(),
            parse_u64_rec(s@, 0, 0) == parse_u64_rec(s@, i as int, acc),
        decreases n - i,
    {
        let c = s.get_char(i);
        let cv = c as u32;
        if cv < '0' as u32 || cv > '9' as u32 {
            return None;
        }
        let d = (cv - '0' as u32) as u64;
        let wide = (acc as u128) * 10 + (d as u128);
        if wide > u64::MAX as u128 {
            return None;
        }
        acc = (wide as u64);
        i = i + 1;
    }
    Some(acc)
}

// ---------------------------------------------------------------------------
// Frame shape.
// ---------------------------------------------------------------------------

/// The value of the field `name` of an object, if the frame is an object
/// that carries it.
pub open spec fn jv_field(v: Jv, name: Seq<char>) -> Option<Jv> {
    if v is Obj && obj_has_key(v->Obj_0, name) {
        Some(obj_value(v->Obj_0, name))
    } else {
        None
    }
}

/// A frame with a `method` field is a notification; anything else is read
/// as a response.
pub open spec fn frame_is_notification(v: Jv) -> bool {
    jv_field(v, "method"@) is Some
}

/// The notification's method name, where it is a string.
pub open spec fn frame_method(v: Jv) -> Option<Seq<char>> {
    match jv_field(v, "method"@) {
        Some(Jv::Str(s)) => Some(s),
        _ => None,
    }
}

/// The notification's payload: its `params` field, or the empty object.
pub open spec fn frame_params(v: Jv) -> Jv {
    match jv_field(v, "params"@) {
        Some(p) => p,
        None => Jv::Obj(Seq::empty()),
    }
}

/// The response's call id, where its `id` field is a decimal number in
/// range.
pub open spec fn frame_id(v: Jv) -> Option<u64> {
    match jv_field(v, "id"@) {
        Some(Jv::Num(s)) => spec_parse_u64(s),
        _ => None,
    }
}

/// The `result` field of a response.
pub open spec fn frame_result(v: Jv) -> Option<Jv> {
    jv_field(v, "result"@)
}

/// The `error` field of a response.
pub open spec fn frame_error(v: Jv) -> Option<Jv> {
    jv_field(v, "error"@)
}

/// The envelope of an outbound call.
pub open spec fn rpc_request(method: Seq<char>, id: u64, params: Jv) -> Jv {
    Jv::Obj(
        seq![
            ("method"@, Jv::Str(method)),
            ("id"@, Jv::Num(dec_digits(id as nat))),
            ("jsonrpc"@, Jv::Str("2.0"@)),
            ("params"@, params),
        ],
    )
}

/// The field `name` of `v`, where `v` is an object that carries it.
#[verifier::loop_isolation(false)]
pub fn get_field<'a>(v: &'a JsonValue, name: &str) -> (r: Option<&'a JsonValue>)
    ensures
        match r {
            Some(f) => jv_field(view_value(*v), name@) == Some(view_value(*f)),
            None => jv_field(view_value(*v), name@) is None,
        },
{
    match v {
        JsonValue::Obj(fields) => {
            proof {
                crate::value::lemma_view_fields(fields@);
                crate::value::lemma_obj_has_key_exists(view_fields(fields@), name@);
            }
            let n = fields.len();
            let mut i: usize = 0;
            while i < n
                invariant
                    i <= n,
                    n == fields@.len(),
                    forall|j: int| 0 <= j < i ==> (#[trigger] fields@[j]).0@ != name@,
                decreases n - i,
            {
                if crate::topic::str_eq(fields[i].0.as_str(), name) {
                    proof {
                        crate::value::lemma_view_fields(fields@);
                        assert(view_fields(fields@)[i as int].0 == name@);
                        assert forall|jj: int| 0 <= jj < i implies view_fields(fields@)[jj].0
                            != name@ by {
                            assert(fields@[jj].0@ != name@);
                        }
                        crate::value::lemma_obj_value_first(view_fields(fields@), name@, i as int);
                        assert(view_fields(fields@)[i as int].1 == view_value(fields@[i as int].1));
                        assert(view_value(*v) == Jv::Obj(view_fields(fields@)));
                    }
                    return Some(&fields[i].1);
                }
                i = i + 1;
            }
            proof {
                crate::value::lemma_view_fields(fields@);
                crate::value::lemma_obj_has_key_exists(view_fields(fields@), name@);
            }
            None
        },
        _ => None,
    }
}

/// Builds the envelope of an outbound call.
pub fn build_request(method: &str, id: u64, params: JsonValue) -> (r: JsonValue)
    ensures
        view_value(r) == rpc_request(method@, id, view_value(params)),
{
    let mut fields: Vec<(String, JsonValue)> = Vec::new();
    fields.push((String::from_str("method"), JsonValue::Str(method.to_owned())));
    fields.push((String::from_str("id"), JsonValue::Num(dec_of_u64(id))));
    fields.push((String::from_str("jsonrpc"), JsonValue::Str(String::from_str("2.0"))));
    fields.push((String::from_str("params"), params));
    let r = JsonValue::Obj(fields);
    proof {
        crate::value::lemma_view_fields(r->Obj_0@);
        assert(view_value(r) matches Jv::Obj(fs) && fs =~= rpc_request(
            method@,
            id,
            view_value(params),
        )->Obj_0);
    }
    r
}

} // verus!