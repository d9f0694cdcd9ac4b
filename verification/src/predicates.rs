//! Type guards that decide which parser handles a schema node. The dispatcher
//! checks them in a fixed order where the first match wins.
use vstd::prelude::*;

use crate::json::{Json, JsonValue, as_str, get, truthy, is_true, opt_is_true, is_truthy};

verus! {

/// Whether `x[k]` is the string `s`.
pub open spec fn member_is(x: Json, k: Seq<char>, s: Seq<char>) -> bool {
    match get(x, k) {
        Some(v) => as_str(v) == Some(s),
        None => false,
    }
}

/// Whether `x[k]` is present and truthy.
pub open spec fn member_truthy(x: Json, k: Seq<char>) -> bool {
    match get(x, k) {
        Some(v) => truthy(v),
        None => false,
    }
}

/// `if`, `then`, and `else` all present and truthy.
pub open spec fn spec_is_conditional(x: Json) -> bool {
    member_truthy(x, "if"@) && member_truthy(x, "then"@) && member_truthy(x, "else"@)
}

/// Whether a `oneOf` member is an object schema whose discriminator property is
/// a required string with a constant value (a `const` or a one-element `enum`).
pub open spec fn discriminated_member(m: Json, prop: Seq<char>) -> bool {
    &&& m is Obj
    &&& member_is(m, "type"@, "object"@)
    &&& match get(m, "properties"@) {
        Some(ps) => ps is Obj && match get(ps, prop) {
            Some(p) => {
                &&& p is Obj
                &&& member_is(p, "type"@, "string"@)
                &&& (get(p, "const"@) is Some || match get(p, "enum"@) {
                    Some(Json::Arr(e)) => e.len() == 1,
                    _ => false,
                })
            },
            None => false,
        },
        None => false,
    }
    &&& match get(m, "required"@) {
        Some(Json::Arr(req)) => exists|i: int| 0 <= i < req.len() && as_str(req[i]) == Some(prop),
        _ => false,
    }
}

/// Every member is discriminated on `prop`.
pub open spec fn all_discriminated(a: Seq<Json>, prop: Seq<char>) -> bool {
    forall|i: int| 0 <= i < a.len() ==> #[trigger] discriminated_member(a[i], prop)
}

/// The discriminated-union guard: a non-empty `oneOf` array, a `discriminator`
/// object with a string `propertyName`, and every member discriminated on it.
pub open spec fn spec_is_simple_discriminated_one_of(x: Json) -> bool {
    match get(x, "oneOf"@) {
        Some(Json::Arr(a)) => a.len() > 0 && match get(x, "discriminator"@) {
            Some(d) => d is Obj && match get(d, "propertyName"@) {
                Some(pn) => match as_str(pn) {
                    Some(prop) => all_discriminated(a, prop),
                    None => false,
                },
                None => false,
            },
            None => false,
        },
        _ => false,
    }
}

/// True when `type === "object"`.
pub fn is_object(x: &JsonValue) -> (r: bool)
    ensures
        r == member_is(x@, "type"@, "object"@),
{
    is_primitive(x, "object")
}

/// True when `type === "array"`.
pub fn is_array(x: &JsonValue) -> (r: bool)
    ensures
        r == member_is(x@, "type"@, "array"@),
{
    is_primitive(x, "array")
}

/// True when `anyOf` is present.
pub fn has_any_of(x: &JsonValue) -> (r: bool)
    ensures
        r == get(x@, "anyOf"@) is Some,
{
    x.get("anyOf").is_some()
}

/// True when `allOf` is present.
pub fn has_all_of(x: &JsonValue) -> (r: bool)
    ensures
        r == get(x@, "allOf"@) is Some,
{
    x.get("allOf").is_some()
}

/// True when `enum` is present.
pub fn has_enum(x: &JsonValue) -> (r: bool)
    ensures
        r == get(x@, "enum"@) is Some,
{
    x.get("enum").is_some()
}

/// True when `oneOf` is present.
pub fn has_one_of(x: &JsonValue) -> (r: bool)
    ensures
        r == get(x@, "oneOf"@) is Some,
{
    x.get("oneOf").is_some()
}

/// True when `not` is present.
pub fn has_not(x: &JsonValue) -> (r: bool)
    ensures
        r == get(x@, "not"@) is Some,
{
    x.get("not").is_some()
}

/// True when `const` is present.
pub fn has_const(x: &JsonValue) -> (r: bool)
    ensures
        r == get(x@, "const"@) is Some,
{
    x.get("const").is_some()
}

/// True when `nullable === true` exactly.
pub fn is_nullable(x: &JsonValue) -> (r: bool)
    ensures
        r == is_true(get(x@, "nullable"@)),
{
    opt_is_true(x.get("nullable"))
}

/// True when `type` is an array.
pub fn is_multiple_type(x: &JsonValue) -> (r: bool)
    ensures
        r == (get(x@, "type"@) matches Some(t) && t is Arr),
{
    match x.get("type") {
        Some(t) => t.is_array(),
        None => false,
    }
}

/// True when `type === p`.
pub fn is_primitive(x: &JsonValue, p: &str) -> (r: bool)
    ensures
        r == member_is(x@, "type"@, p@),
{
    match x.get("type") {
        Some(t) => match t.as_str() {
            Some(s) => {
                let a = String::from_str(s);
                let b = String::from_str(p);
                a == b
            },
            None => false,
        },
        None => false,
    }
}

fn member_truthy_exec(x: &JsonValue, k: &str) -> (r: bool)
    ensures
        r == member_truthy(x@, k@),
{
    match x.get(k) {
        Some(v) => is_truthy(v),
        None => false,
    }
}

/// True when `if`, `then`, and `else` are all present and truthy.
pub fn is_conditional(x: &JsonValue) -> (r: bool)
    ensures
        r == spec_is_conditional(x@),
{
    member_truthy_exec(x, "if") && member_truthy_exec(x, "then") && member_truthy_exec(x, "else")
}

pub(crate) fn str_eq(a: &str, b: &str) -> (r: bool)
    ensures
        r == (a@ == b@),
{
    let x = String::from_str(a);
    let y = String::from_str(b);
    x == y
}

#[verifier::loop_isolation(false)]
fn discriminated_member_exec(m: &JsonValue, prop: &str) -> (r: bool)
    ensures
        r == discriminated_member(m@, prop@),
{
    if !m.is_object() || !is_primitive(m, "object") {
        return false;
    }
    let properties = match m.get("properties") {
        Some(p) => p,
        None => return false,
    };
    if !properties.is_object() {
        return false;
    }
    let property = match properties.get(prop) {
        Some(p) => p,
        None => return false,
    };
    if !property.is_object() || !is_primitive(property, "string") {
        return false;
    }
    let has_const = property.get("const").is_some();
    let single_enum = match property.get("enum") {
        Some(ev) => match ev {
            JsonValue::Array(e) => {
                proof {
                    crate::json::lemma_array_view(*ev);
                }
                e.len() == 1
            },
            _ => false,
        },
        None => false,
    };
    if !has_const && !single_enum {
        return false;
    }
    let rq = m.get("required");
    let rv = match rq {
        Some(v) => v,
        None => return false,
    };
    match rv {
        JsonValue::Array(req) => {
            proof {
                crate::json::lemma_array_view(*rv);
            }
            let mut i: usize = 0;
            while i < req.len()
                invariant
                    i <= req@.len(),
                    rv@ == Json::Arr(rv@->Arr_0),
                    rv@->Arr_0.len() == req@.len(),
                    forall|k: int| 0 <= k < req@.len() ==> #[trigger] rv@->Arr_0[k] == req@[k]@,
                    forall|k: int| 0 <= k < i ==> as_str(req@[k]@) != Some(prop@),
                decreases req@.len() - i,
            {
                if let Some(s) = req[i].as_str() {
                    if str_eq(s, prop) {
                        assert(as_str(rv@->Arr_0[i as int]) == Some(prop@));
                        return true;
                    }
                }
                i += 1;
            }
            proof {
                if exists|k: int| 0 <= k < rv@->Arr_0.len() && as_str(rv@->Arr_0[k]) == Some(prop@) {
                    let k = choose|k: int|
                        0 <= k < rv@->Arr_0.len() && as_str(rv@->Arr_0[k]) == Some(prop@);
                    assert(rv@->Arr_0[k] == req@[k]@);
                }
            }
            false
        },
        _ => false,
    }
}

/// Recognize a discriminated union the library can lower to
/// `z.discriminatedUnion`.
///
/// Requires a non-empty `oneOf` array, a `discriminator` object with a string
/// `propertyName`, and every `oneOf` member to be an object schema whose
/// discriminator property is a required string with a constant value (a `const`
/// or a single-element `enum`).
#[verifier::loop_isolation(false)]
pub fn is_simple_discriminated_one_of(x: &JsonValue) -> (r: bool)
    ensures
        r == spec_is_simple_discriminated_one_of(x@),
{
    let ov = match x.get("oneOf") {
        Some(v) => v,
        None => return false,
    };
    let one_of = match ov {
        JsonValue::Array(arr) => arr,
        _ => return false,
    };
    proof {
        crate::json::lemma_array_view(*ov);
    }
    if one_of.len() == 0 {
        return false;
    }
    let discriminator = match x.get("discriminator") {
        Some(d) => d,
        None => return false,
    };
    if !discriminator.is_object() {
        return false;
    }
    let pn = match discriminator.get("propertyName") {
        Some(p) => p,
        None => return false,
    };
    let prop = match pn.as_str() {
        Some(s) => s,
        None => return false,
    };
    assert(get(discriminator@, "propertyName"@) == Some(pn@));
    assert(as_str(pn@) == Some(prop@));
    let mut i: usize = 0;
    while i < one_of.len()
        invariant
            i <= one_of@.len(),
            ov@ == Json::Arr(ov@->Arr_0),
            ov@->Arr_0.len() == one_of@.len(),
            forall|k: int| 0 <= k < one_of@.len() ==> #[trigger] ov@->Arr_0[k] == one_of@[k]@,
            forall|k: int| 0 <= k < i ==> #[trigger] discriminated_member(ov@->Arr_0[k], prop@),
        decreases one_of@.len() - i,
    {
        if !discriminated_member_exec(&one_of[i], prop) {
            assert(!discriminated_member(ov@->Arr_0[i as int], prop@));
            assert(get(x@, "oneOf"@) == Some(ov@));
            assert(get(x@, "discriminator"@) == Some(discriminator@));
            assert(!(forall|k: int|
                0 <= k < ov@->Arr_0.len() ==> #[trigger] discriminated_member(ov@->Arr_0[k], prop@)));
            assert(!all_discriminated(ov@->Arr_0, prop@));
            return false;
        }
        i += 1;
    }
    assert(all_discriminated(ov@->Arr_0, prop@));
    true
}

} // verus!
