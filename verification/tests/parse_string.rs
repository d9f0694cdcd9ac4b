#![allow(dead_code)]
#![allow(unused_imports)]

use json_schema_to_zod::{
    half, is_simple_discriminated_one_of, json_schema_to_zod, json_schema_to_zod_with_override,
    omit, parse_all_of, parse_any_of, parse_array, parse_boolean, parse_const, parse_default,
    parse_enum, parse_if_then_else, parse_multiple_type, parse_not, parse_nullable, parse_number,
    parse_object, parse_one_of, parse_schema, parse_simple_discriminated_one_of, parse_string,
    JsonNumber, JsonValue, Module, Options, ParserOverride, PathSegment, Refs, TypeExport,
    ZodVersion,
};

fn to_json(v: &serde_json::Value) -> JsonValue {
    match v {
        serde_json::Value::Null => JsonValue::Null,
        serde_json::Value::Bool(b) => JsonValue::Bool(*b),
        serde_json::Value::Number(n) => {
            if let Some(u) = n.as_u64() {
                JsonValue::Number(JsonNumber::PosInt(u))
            } else if let Some(i) = n.as_i64() {
                JsonValue::Number(JsonNumber::NegInt(i))
            } else {
                JsonValue::Number(JsonNumber::Float(serde_json::to_string(n).unwrap()))
            }
        }
        serde_json::Value::String(s) => JsonValue::String(s.clone()),
        serde_json::Value::Array(a) => JsonValue::Array(a.iter().map(to_json).collect()),
        serde_json::Value::Object(o) => {
            JsonValue::Object(o.iter().map(|(k, v)| (k.clone(), to_json(v))).collect())
        }
    }
}

fn j(text: &str) -> JsonValue {
    to_json(&serde_json::from_str::<serde_json::Value>(text).unwrap())
}

fn refs_v4() -> Refs {
    Refs::default_v4()
}

fn refs_v3() -> Refs {
    let mut r = Refs::default_v4();
    r.zod_version = ZodVersion::V3;
    r
}

#[test]
fn parse_string_date_time_with_message() {
    assert_eq!(
        parse_string(&j(r##"{
            "type": "string",
            "format": "date-time",
            "errorMessage": { "format": "hello" }
        }"##)),
        r#"z.string().datetime({ offset: true, message: "hello" })"#
    );
}

#[test]
fn parse_string_email() {
    assert_eq!(
        parse_string(&j(r##"{ "type": "string", "format": "email" }"##)),
        "z.string().email()"
    );
}

#[test]
fn parse_string_ip_and_ipv6() {
    assert_eq!(
        parse_string(&j(r##"{ "type": "string", "format": "ip" }"##)),
        "z.string().ip()"
    );
    assert_eq!(
        parse_string(&j(r##"{ "type": "string", "format": "ipv6" }"##)),
        r#"z.string().ip({ version: "v6" })"#
    );
}

#[test]
fn parse_string_uri() {
    assert_eq!(
        parse_string(&j(r##"{ "type": "string", "format": "uri" }"##)),
        "z.string().url()"
    );
}

#[test]
fn parse_string_uuid() {
    assert_eq!(
        parse_string(&j(r##"{ "type": "string", "format": "uuid" }"##)),
        "z.string().uuid()"
    );
}

#[test]
fn parse_string_time() {
    assert_eq!(
        parse_string(&j(r##"{ "type": "string", "format": "time" }"##)),
        "z.string().time()"
    );
}

#[test]
fn parse_string_date() {
    assert_eq!(
        parse_string(&j(r##"{ "type": "string", "format": "date" }"##)),
        "z.string().date()"
    );
}

#[test]
fn parse_string_duration() {
    assert_eq!(
        parse_string(&j(r##"{ "type": "string", "format": "duration" }"##)),
        "z.string().duration()"
    );
}

#[test]
fn parse_string_base64_variants() {
    assert_eq!(
        parse_string(&j(r##"{ "type": "string", "contentEncoding": "base64" }"##)),
        "z.string().base64()"
    );
    assert_eq!(
        parse_string(&j(r##"{
            "type": "string",
            "contentEncoding": "base64",
            "errorMessage": { "contentEncoding": "x" }
        }"##)),
        r#"z.string().base64("x")"#
    );
    assert_eq!(
        parse_string(&j(r##"{ "type": "string", "format": "binary" }"##)),
        "z.string().base64()"
    );
    assert_eq!(
        parse_string(&j(r##"{
            "type": "string",
            "format": "binary",
            "errorMessage": { "format": "x" }
        }"##)),
        r#"z.string().base64("x")"#
    );
}

#[test]
fn parse_string_stringified_json() {
    let schema = j(r##"{
        "type": "string",
        "contentMediaType": "application/json",
        "contentSchema": {
            "type": "object",
            "properties": {
                "name": { "type": "string" },
                "age": { "type": "integer" }
            },
            "required": ["name", "age"]
        }
    }"##);
    assert_eq!(
        parse_string(&schema),
        r#"z.string().transform((str, ctx) => { try { return JSON.parse(str); } catch (err) { ctx.addIssue({ code: "custom", message: "Invalid JSON" }); }}).pipe(z.object({ "name": z.string(), "age": z.number().int() }))"#
    );
}

#[test]
fn parse_string_stringified_json_with_messages() {
    let schema = j(r##"{
        "type": "string",
        "contentMediaType": "application/json",
        "contentSchema": {
            "type": "object",
            "properties": {
                "name": { "type": "string" },
                "age": { "type": "integer" }
            },
            "required": ["name", "age"]
        },
        "errorMessage": { "contentMediaType": "x", "contentSchema": "y" }
    }"##);
    assert_eq!(
        parse_string(&schema),
        r#"z.string().transform((str, ctx) => { try { return JSON.parse(str); } catch (err) { ctx.addIssue({ code: "custom", message: "Invalid JSON" }); }}, "x").pipe(z.object({ "name": z.string(), "age": z.number().int() }), "y")"#
    );
}

#[test]
fn parse_string_combined_format_pattern_lengths_with_messages() {
    assert_eq!(
        parse_string(&j(r##"{
            "type": "string",
            "format": "ipv4",
            "pattern": "x",
            "minLength": 1,
            "maxLength": 2,
            "errorMessage": {
                "format": "ayy",
                "pattern": "lmao",
                "minLength": "deez",
                "maxLength": "nuts"
            }
        }"##)),
        r#"z.string().ip({ version: "v4", message: "ayy" }).regex(new RegExp("x"), "lmao").min(1, "deez").max(2, "nuts")"#
    );
}
