#![allow(dead_code)]
#![allow(unused_imports)]

use json_schema_to_zod::{
    half, is_simple_discriminated_one_of, json_schema_to_zod, json_schema_to_zod_with_override,
    omit, parse_all_of, parse_any_of, parse_array, parse_boolean, parse_const, parse_default,
    parse_enum, parse_if_then_else, parse_multiple_type, parse_not, parse_nullable, parse_number,
    parse_object, parse_one_of, parse_schema, parse_simple_discriminated_one_of, parse_string,
    JsonNumber, JsonValue, Module, Options, ParserOverride, PathSegment, Refs, TypeExport,
    ZodVersion,
};

fn to_json(v: &serde_json::Value) -> JsonValue {
    match v {
        serde_json::Value::Null => JsonValue::Null,
        serde_json::Value::Bool(b) => JsonValue::Bool(*b),
        serde_json::Value::Number(n) => {
            if let Some(u) = n.as_u64() {
                JsonValue::Number(JsonNumber::PosInt(u))
            } else if let Some(i) = n.as_i64() {
                JsonValue::Number(JsonNumber::NegInt(i))
            } else {
                JsonValue::Number(JsonNumber::Float(serde_json::to_string(n).unwrap()))
            }
        }
        serde_json::Value::String(s) => JsonValue::String(s.clone()),
        serde_json::Value::Array(a) => JsonValue::Array(a.iter().map(to_json).collect()),
        serde_json::Value::Object(o) => {
            JsonValue::Object(o.iter().map(|(k, v)| (k.clone(), to_json(v))).collect())
        }
    }
}

fn j(text: &str) -> JsonValue {
    to_json(&serde_json::from_str::<serde_json::Value>(text).unwrap())
}

fn refs_v4() -> Refs {
    Refs::default_v4()
}

fn refs_v3() -> Refs {
    let mut r = Refs::default_v4();
    r.zod_version = ZodVersion::V3;
    r
}


use json_schema_to_zod::cli::{help_text, input_arg, options_from_args, params, parse_args};

/// The argument list as the process receives it, with the program name first.
fn argv(v: &[&str]) -> Vec<String> {
    let mut a = vec!["json-schema-to-zod".to_string()];
    a.extend(v.iter().map(|s| s.to_string()));
    a
}

/// What JavaScript `Number()` reads from each argument, as the binary hands
/// it over: truncated, and `None` for text that is not a number.
fn js_numbers(a: &[String]) -> Vec<Option<i64>> {
    a.iter()
        .map(|s| match s.as_str() {
            "Infinity" | "+Infinity" => Some(i64::MAX),
            "-Infinity" => Some(i64::MIN),
            "0x10" => Some(16),
            t => t.parse::<i64>().ok(),
        })
        .collect()
}

fn run_args(v: &[&str], piped: bool) -> Result<String, String> {
    let a = argv(v);
    let parsed = parse_args(&params(!piped), &a, &js_numbers(&a))?;
    let input = input_arg(&parsed).unwrap_or_else(|| "{\"type\": \"string\"}".to_string());
    let schema = j(&input);
    json_schema_to_zod(&schema, options_from_args(&parsed)).map_err(|e| e.message())
}

#[test]
fn help_lists_input() {
    assert!(help_text(&params(true)).contains("--input"));
}

#[test]
fn bad_depth_error() {
    assert_eq!(
        run_args(&["-i", "{}", "-d", "abc"], false).err().unwrap(),
        "Value of argument depth must be a valid number"
    );
}

#[test]
fn missing_depth_value_error() {
    assert_eq!(
        run_args(&["-i", "{}", "-d"], false).err().unwrap(),
        "Expected a value for argument depth"
    );
}

#[test]
fn depth_nan_is_rejected() {
    assert_eq!(
        run_args(&["-i", "{}", "-d", "nan"], false).err().unwrap(),
        "Value of argument depth must be a valid number"
    );
}

#[test]
fn depth_hex_is_accepted() {
    assert!(run_args(&["-i", "{}", "-d", "0x10"], false).is_ok());
}

#[test]
fn depth_infinity_is_accepted() {
    assert!(run_args(&["-i", "{}", "-d", "Infinity"], false).is_ok());
}

#[test]
fn bad_module_error() {
    assert_eq!(
        run_args(&["-i", "{}", "-m", "notAModule"], false).err().unwrap(),
        "Value of argument module must be one of esm,cjs,none"
    );
}

#[test]
fn zod_version_three_record() {
    let out = run_args(&["--zodVersion", "3", "-i", "{\"type\": \"object\"}"], true).unwrap();
    assert!(out.contains("z.record(z.any())"), "stdout: {out}");
}

#[test]
fn name_and_type_export() {
    let out = run_args(&["-n", "s", "-m", "esm", "-t", "S"], true).unwrap();
    assert!(out.contains("export const s ="), "stdout: {out}");
    assert!(out.contains("export type S ="), "stdout: {out}");
}

#[test]
fn missing_input_is_required_on_a_terminal() {
    assert_eq!(
        run_args(&["-n", "s"], false).err().unwrap(),
        "input is required when no JSON or file path is piped"
    );
}
