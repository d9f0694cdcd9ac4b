#![allow(dead_code)]
#![allow(unused_imports)]

use json_schema_to_zod::{
    half, is_simple_discriminated_one_of, json_schema_to_zod, json_schema_to_zod_with_override,
    omit, parse_all_of, parse_any_of, parse_array, parse_boolean, parse_const, parse_default,
    parse_enum, parse_if_then_else, parse_multiple_type, parse_not, parse_nullable, parse_number,
    parse_object, parse_one_of, parse_schema, parse_simple_discriminated_one_of, parse_string,
    JsonNumber, JsonValue, Module, Options, ParserOverride, PathSegment, Refs, TypeExport,
    ZodVersion,
};

fn to_json(v: &serde_json::Value) -> JsonValue {
    match v {
        serde_json::Value::Null => JsonValue::Null,
        serde_json::Value::Bool(b) => JsonValue::Bool(*b),
        serde_json::Value::Number(n) => {
            if let Some(u) = n.as_u64() {
                JsonValue::Number(JsonNumber::PosInt(u))
            } else if let Some(i) = n.as_i64() {
                JsonValue::Number(JsonNumber::NegInt(i))
            } else {
                JsonValue::Number(JsonNumber::Float(serde_json::to_string(n).unwrap()))
            }
        }
        serde_json::Value::String(s) => JsonValue::String(s.clone()),
        serde_json::Value::Array(a) => JsonValue::Array(a.iter().map(to_json).collect()),
        serde_json::Value::Object(o) => {
            JsonValue::Object(o.iter().map(|(k, v)| (k.clone(), to_json(v))).collect())
        }
    }
}

fn j(text: &str) -> JsonValue {
    to_json(&serde_json::from_str::<serde_json::Value>(text).unwrap())
}

fn refs_v4() -> Refs {
    Refs::default_v4()
}

fn refs_v3() -> Refs {
    let mut r = Refs::default_v4();
    r.zod_version = ZodVersion::V3;
    r
}

fn guard(v: JsonValue) -> bool {
    is_simple_discriminated_one_of(&v)
}

#[test]
fn parse_simple_discriminated_one_of_emit_two_or_more_members() {
    assert_eq!(
        parse_simple_discriminated_one_of(
            &j(r##"{
                "discriminator": { "propertyName": "objectType" },
                "oneOf": [
                    {
                        "type": "object",
                        "properties": { "objectType": { "type": "string", "enum": ["typeA"] } },
                        "required": ["objectType"]
                    },
                    {
                        "type": "object",
                        "properties": { "objectType": { "type": "string", "enum": ["typeB"] } },
                        "required": ["objectType"]
                    }
                ]
            }"##),
            &refs_v4()
        ),
        r#"z.discriminatedUnion("objectType", [z.object({ "objectType": z.literal("typeA") }), z.object({ "objectType": z.literal("typeB") })])"#
    );
}

#[test]
fn parse_simple_discriminated_one_of_emit_single_member_unwraps() {
    assert_eq!(
        parse_simple_discriminated_one_of(
            &j(r##"{
                "discriminator": { "propertyName": "objectType" },
                "oneOf": [
                    {
                        "type": "object",
                        "properties": { "objectType": { "type": "string", "enum": ["typeA"] } },
                        "required": ["objectType"]
                    }
                ]
            }"##),
            &refs_v4()
        ),
        r#"z.object({ "objectType": z.literal("typeA") })"#
    );
}

#[test]
fn parse_simple_discriminated_one_of_emit_empty_is_any() {
    assert_eq!(
        parse_simple_discriminated_one_of(
            &j(r##"{ "oneOf": [], "discriminator": { "propertyName": "objectType" } }"##),
            &refs_v4()
        ),
        "z.any()"
    );
}

#[test]
fn parse_simple_discriminated_one_of_emit_const_discriminator() {
    assert_eq!(
        parse_simple_discriminated_one_of(
            &j(r##"{
                "discriminator": { "propertyName": "kind" },
                "oneOf": [
                    {
                        "type": "object",
                        "properties": {
                            "kind": { "type": "string", "const": "person" },
                            "name": { "type": "string" }
                        },
                        "required": ["kind", "name"]
                    },
                    {
                        "type": "object",
                        "properties": {
                            "kind": { "type": "string", "const": "company" },
                            "companyName": { "type": "string" }
                        },
                        "required": ["kind", "companyName"]
                    }
                ]
            }"##),
            &refs_v4()
        ),
        r#"z.discriminatedUnion("kind", [z.object({ "kind": z.literal("person"), "name": z.string() }), z.object({ "kind": z.literal("company"), "companyName": z.string() })])"#
    );
}

#[test]
fn parse_simple_discriminated_one_of_guard_accepts_const_values() {
    assert!(guard(j(r##"{
        "oneOf": [
            {
                "type": "object",
                "properties": {
                    "type": { "type": "string", "const": "A" },
                    "value": { "type": "string" }
                },
                "required": ["type", "value"]
            },
            {
                "type": "object",
                "properties": {
                    "type": { "type": "string", "const": "B" },
                    "count": { "type": "number" }
                },
                "required": ["type", "count"]
            }
        ],
        "discriminator": { "propertyName": "type" }
    }"##)));
}

#[test]
fn parse_simple_discriminated_one_of_guard_accepts_single_value_enum() {
    assert!(guard(j(r##"{
        "oneOf": [
            {
                "type": "object",
                "properties": {
                    "kind": { "type": "string", "enum": ["person"] },
                    "name": { "type": "string" }
                },
                "required": ["kind", "name"]
            }
        ],
        "discriminator": { "propertyName": "kind" }
    }"##)));
}

#[test]
fn parse_simple_discriminated_one_of_guard_accepts_discriminator_in_required() {
    assert!(guard(j(r##"{
        "oneOf": [
            {
                "type": "object",
                "properties": {
                    "type": { "type": "string", "const": "A" },
                    "value": { "type": "string" }
                },
                "required": ["type", "value"]
            }
        ],
        "discriminator": { "propertyName": "type" }
    }"##)));
}

#[test]
fn parse_simple_discriminated_one_of_guard_rejects_numeric_discriminator() {
    assert!(!guard(j(r##"{
        "oneOf": [
            {
                "type": "object",
                "properties": {
                    "version": { "type": "number", "const": 1 },
                    "data": { "type": "string" }
                }
            }
        ],
        "discriminator": { "propertyName": "version" }
    }"##)));
}

#[test]
fn parse_simple_discriminated_one_of_guard_rejects_no_one_of() {
    assert!(!guard(
        j(r##"{ "discriminator": { "propertyName": "type" } }"##)
    ));
}

#[test]
fn parse_simple_discriminated_one_of_guard_rejects_no_discriminator() {
    assert!(!guard(j(r##"{
        "oneOf": [
            { "type": "object", "properties": { "type": { "type": "string", "const": "A" } } }
        ]
    }"##)));
}

#[test]
fn parse_simple_discriminated_one_of_guard_rejects_empty_one_of() {
    assert!(!guard(j(r##"{
        "oneOf": [],
        "discriminator": { "propertyName": "type" }
    }"##)));
}

#[test]
fn parse_simple_discriminated_one_of_guard_rejects_discriminator_without_property_name() {
    assert!(!guard(j(r##"{
        "oneOf": [
            { "type": "object", "properties": { "type": { "type": "string", "const": "A" } } }
        ],
        "discriminator": {}
    }"##)));
}

#[test]
fn parse_simple_discriminated_one_of_guard_rejects_non_string_property_name() {
    assert!(!guard(j(r##"{
        "oneOf": [
            { "type": "object", "properties": { "type": { "type": "string", "const": "A" } } }
        ],
        "discriminator": { "propertyName": 123 }
    }"##)));
}

#[test]
fn parse_simple_discriminated_one_of_guard_rejects_non_object_one_of_member() {
    assert!(!guard(j(r##"{
        "oneOf": [
            { "type": "string" },
            { "type": "object", "properties": { "type": { "type": "string", "const": "A" } } }
        ],
        "discriminator": { "propertyName": "type" }
    }"##)));
}

#[test]
fn parse_simple_discriminated_one_of_guard_rejects_member_missing_discriminator_prop() {
    assert!(!guard(j(r##"{
        "oneOf": [
            { "type": "object", "properties": { "value": { "type": "string" } } }
        ],
        "discriminator": { "propertyName": "type" }
    }"##)));
}

#[test]
fn parse_simple_discriminated_one_of_guard_rejects_prop_without_const_or_single_enum() {
    assert!(!guard(j(r##"{
        "oneOf": [
            { "type": "object", "properties": { "type": { "type": "string" } } }
        ],
        "discriminator": { "propertyName": "type" }
    }"##)));
}

#[test]
fn parse_simple_discriminated_one_of_guard_rejects_multi_value_enum() {
    assert!(!guard(j(r##"{
        "oneOf": [
            { "type": "object", "properties": { "type": { "type": "string", "enum": ["A", "B"] } } }
        ],
        "discriminator": { "propertyName": "type" }
    }"##)));
}

#[test]
fn parse_simple_discriminated_one_of_guard_rejects_member_without_properties() {
    assert!(!guard(j(r##"{
        "oneOf": [{ "type": "object" }],
        "discriminator": { "propertyName": "type" }
    }"##)));
}

#[test]
fn parse_simple_discriminated_one_of_guard_rejects_unsupported_discriminator_type() {
    assert!(!guard(j(r##"{
        "oneOf": [
            { "type": "object", "properties": { "type": { "type": "boolean", "const": true } } }
        ],
        "discriminator": { "propertyName": "type" }
    }"##)));
}

#[test]
fn parse_simple_discriminated_one_of_guard_rejects_null_and_undefined_one_of() {
    assert!(!guard(j(r##"{
        "oneOf": null,
        "discriminator": { "propertyName": "type" }
    }"##)));
    // Absent oneOf stands in for JS undefined.
    assert!(!guard(j(r##"{
        "discriminator": { "propertyName": "type" }
    }"##)));
}

#[test]
fn parse_simple_discriminated_one_of_guard_rejects_discriminator_not_in_required() {
    assert!(!guard(j(r##"{
        "oneOf": [
            {
                "type": "object",
                "properties": {
                    "type": { "type": "string", "const": "A" },
                    "value": { "type": "string" }
                },
                "required": ["value"]
            }
        ],
        "discriminator": { "propertyName": "type" }
    }"##)));
}

#[test]
fn parse_simple_discriminated_one_of_guard_rejects_no_required_array() {
    assert!(!guard(j(r##"{
        "oneOf": [
            {
                "type": "object",
                "properties": {
                    "type": { "type": "string", "const": "A" },
                    "value": { "type": "string" }
                }
            }
        ],
        "discriminator": { "propertyName": "type" }
    }"##)));
}

#[test]
fn parse_simple_discriminated_one_of_guard_rejects_non_array_required() {
    assert!(!guard(j(r##"{
        "oneOf": [
            {
                "type": "object",
                "properties": {
                    "type": { "type": "string", "const": "A" },
                    "value": { "type": "string" }
                },
                "required": true
            }
        ],
        "discriminator": { "propertyName": "type" }
    }"##)));
}
