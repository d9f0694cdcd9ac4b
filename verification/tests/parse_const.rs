#![allow(dead_code)]
#![allow(unused_imports)]

use json_schema_to_zod::{
    half, is_simple_discriminated_one_of, json_schema_to_zod, json_schema_to_zod_with_override,
    omit, parse_all_of, parse_any_of, parse_array, parse_boolean, parse_const, parse_default,
    parse_enum, parse_if_then_else, parse_multiple_type, parse_not, parse_nullable, parse_number,
    parse_object, parse_one_of, parse_schema, parse_simple_discriminated_one_of, parse_string,
    JsonNumber, JsonValue, Module, Options, ParserOverride, PathSegment, Refs, TypeExport,
    ZodVersion,
};

fn to_json(v: &serde_json::Value) -> JsonValue {
    match v {
        serde_json::Value::Null => JsonValue::Null,
        serde_json::Value::Bool(b) => JsonValue::Bool(*b),
        serde_json::Value::Number(n) => {
            if let Some(u) = n.as_u64() {
                JsonValue::Number(JsonNumber::PosInt(u))
            } else if let Some(i) = n.as_i64() {
                JsonValue::Number(JsonNumber::NegInt(i))
            } else {
                JsonValue::Number(JsonNumber::Float(serde_json::to_string(n).unwrap()))
            }
        }
        serde_json::Value::String(s) => JsonValue::String(s.clone()),
        serde_json::Value::Array(a) => JsonValue::Array(a.iter().map(to_json).collect()),
        serde_json::Value::Object(o) => {
            JsonValue::Object(o.iter().map(|(k, v)| (k.clone(), to_json(v))).collect())
        }
    }
}

fn j(text: &str) -> JsonValue {
    to_json(&serde_json::from_str::<serde_json::Value>(text).unwrap())
}

fn refs_v4() -> Refs {
    Refs::default_v4()
}

fn refs_v3() -> Refs {
    let mut r = Refs::default_v4();
    r.zod_version = ZodVersion::V3;
    r
}

#[test]
fn parse_const_falsy_constant() {
    assert_eq!(parse_const(&j(r##"{ "const": false }"##)), "z.literal(false)");
}

#[test]
fn parse_const_empty_string_constant() {
    assert_eq!(parse_const(&j(r##"{ "const": "" }"##)), r#"z.literal("")"#);
}
