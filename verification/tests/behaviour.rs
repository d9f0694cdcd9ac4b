#![allow(dead_code)]
#![allow(unused_imports)]

use json_schema_to_zod::{
    half, is_simple_discriminated_one_of, json_schema_to_zod, json_schema_to_zod_with_override,
    omit, parse_all_of, parse_any_of, parse_array, parse_boolean, parse_const, parse_default,
    parse_enum, parse_if_then_else, parse_multiple_type, parse_not, parse_nullable, parse_number,
    parse_object, parse_one_of, parse_schema, parse_simple_discriminated_one_of, parse_string,
    JsonNumber, JsonValue, Module, Options, ParserOverride, PathSegment, Refs, TypeExport,
    ZodVersion,
};

fn to_json(v: &serde_json::Value) -> JsonValue {
    match v {
        serde_json::Value::Null => JsonValue::Null,
        serde_json::Value::Bool(b) => JsonValue::Bool(*b),
        serde_json::Value::Number(n) => {
            if let Some(u) = n.as_u64() {
                JsonValue::Number(JsonNumber::PosInt(u))
            } else if let Some(i) = n.as_i64() {
                JsonValue::Number(JsonNumber::NegInt(i))
            } else {
                JsonValue::Number(JsonNumber::Float(serde_json::to_string(n).unwrap()))
            }
        }
        serde_json::Value::String(s) => JsonValue::String(s.clone()),
        serde_json::Value::Array(a) => JsonValue::Array(a.iter().map(to_json).collect()),
        serde_json::Value::Object(o) => {
            JsonValue::Object(o.iter().map(|(k, v)| (k.clone(), to_json(v))).collect())
        }
    }
}

fn j(text: &str) -> JsonValue {
    to_json(&serde_json::from_str::<serde_json::Value>(text).unwrap())
}

fn refs_v4() -> Refs {
    Refs::default_v4()
}

fn refs_v3() -> Refs {
    let mut r = Refs::default_v4();
    r.zod_version = ZodVersion::V3;
    r
}


use json_schema_to_zod::cli::{
    help_text, input_arg, lookup, options_from_args, params, parse_args, wants_help, Parsed,
};
use json_schema_to_zod::{capitalize_first, json_stringify, json_stringify_str, Error};

struct TagEveryObject;

impl ParserOverride for TagEveryObject {
    fn override_schema(&self, schema: &JsonValue, _refs: &Refs) -> Option<String> {
        if schema.get("x-custom").is_some() {
            Some("custom()".to_string())
        } else {
            None
        }
    }
}

fn args(v: &[&str]) -> Vec<String> {
    v.iter().map(|s| s.to_string()).collect()
}

fn numbers_of(v: &[String]) -> Vec<Option<i64>> {
    v.iter().map(|s| s.parse::<i64>().ok()).collect()
}

#[test]
fn boolean_schema_law_on_values() {
    for r in [refs_v4(), refs_v3()] {
        assert_eq!(parse_schema(&JsonValue::Bool(true), &r), "z.any()");
        assert_eq!(parse_schema(&JsonValue::Bool(false), &r), "z.never()");
    }
}

#[test]
fn override_replaces_node_and_its_metadata() {
    let schema = j(r##"{ "type": "object", "properties": { "a": { "x-custom": 1, "description": "d", "default": 3 } }, "required": ["a"] }"##);
    let out = json_schema_to_zod_with_override(&schema, Options::default(), &TagEveryObject).unwrap();
    assert_eq!(out, r#"z.object({ "a": custom() })"#);
}

#[test]
fn metadata_follows_in_describe_default_readonly_order() {
    let schema = j(r##"{ "type": "string", "readOnly": true, "default": "x", "description": "d" }"##);
    assert_eq!(
        parse_schema(&schema, &refs_v4()),
        r#"z.string().describe("d").default("x").readonly()"#
    );
}

#[test]
fn without_defaults_and_describes_drop_modifiers() {
    let schema = j(r##"{ "type": "string", "default": "x", "description": "d" }"##);
    let opts = Options::default().without_defaults(true).without_describes(true);
    assert_eq!(json_schema_to_zod(&schema, opts).unwrap(), "z.string()");
}

#[test]
fn nullable_puts_metadata_on_wrapper() {
    let schema = j(r##"{ "type": "string", "nullable": true, "description": "d" }"##);
    assert_eq!(
        parse_schema(&schema, &refs_v4()),
        r#"z.string().nullable().describe("d")"#
    );
    assert_eq!(parse_nullable(&schema, &refs_v4()), "z.string().nullable()");
}

#[test]
fn bare_output_is_parse_schema_output() {
    let schema = j(r##"{ "anyOf": [{ "type": "string" }, { "type": "integer", "minimum": 2 }] }"##);
    assert_eq!(
        json_schema_to_zod(&schema, Options::default()).unwrap(),
        parse_schema(&schema, &refs_v4())
    );
}

#[test]
fn type_export_errors_exactly_when_misconfigured() {
    let s = j(r##"{ "type": "string" }"##);
    let flag_no_name = Options::default().module(Module::Esm).type_export(TypeExport::Flag);
    assert_eq!(
        json_schema_to_zod(&s, flag_no_name),
        Err(Error::TypeExportRequiresNameAndEsm)
    );
    let cjs = Options::default().module(Module::Cjs).name("a").type_export(TypeExport::Flag);
    assert_eq!(json_schema_to_zod(&s, cjs), Err(Error::TypeExportRequiresNameAndEsm));
    let ok = Options::default().module(Module::Esm).name("a").type_export(TypeExport::Flag);
    assert_eq!(
        json_schema_to_zod(&s, ok).unwrap(),
        "import { z } from \"zod\"\n\nexport const a = z.string()\nexport type A = z.infer<typeof a>\n"
    );
    assert_eq!(
        Error::TypeExportRequiresNameAndEsm.message(),
        "Option `type` requires `name` to be set and `module` to be `esm`"
    );
}

#[test]
fn no_import_drops_only_the_import_line() {
    let s = j(r##"{ "type": "number", "description": "n" }"##);
    for m in [Module::Esm, Module::Cjs] {
        let with = json_schema_to_zod(&s, Options::default().module(m).with_jsdocs(true)).unwrap();
        let without = json_schema_to_zod(
            &s,
            Options::default().module(m).with_jsdocs(true).no_import(true),
        )
        .unwrap();
        let line = if m == Module::Esm {
            "import { z } from \"zod\"\n\n".to_string()
        } else {
            "/**n*/\nconst { z } = require(\"zod\")\n\n".to_string()
        };
        assert_eq!(with, format!("{line}{without}"));
    }
}

#[test]
fn omit_keeps_other_keys_in_order() {
    let v = j(r##"{ "a": 1, "b": 2, "c": 3 }"##);
    let out = omit(&v, "b");
    assert_eq!(out, j(r##"{ "a": 1, "c": 3 }"##));
    assert_eq!(omit(&JsonValue::Bool(true), "b"), JsonValue::Bool(true));
}

#[test]
fn string_escapes_follow_json_stringify() {
    assert_eq!(
        json_stringify_str("a\"b\\c/d\n\t\u{8}\u{c}\r\u{1}\u{1f}é"),
        "\"a\\\"b\\\\c/d\\n\\t\\b\\f\\r\\u0001\\u001fé\""
    );
    assert_eq!(
        json_stringify(&JsonValue::String("q\"".to_string())),
        json_stringify_str("q\"")
    );
}

#[test]
fn compact_json_rendering_of_values() {
    let v = j(r##"{ "a": [1, -2, 1.5, true, null, "x"], "b": {} }"##);
    assert_eq!(json_stringify(&v), r#"{"a":[1,-2,1.5,true,null,"x"],"b":{}}"#);
    assert_eq!(json_stringify(&j("1e300")), "1e+300");
    assert_eq!(json_stringify(&j("-9223372036854775808")), "-9223372036854775808");
    assert_eq!(json_stringify(&j("18446744073709551615")), "18446744073709551615");
}

#[test]
fn float_numbers_in_number_modifiers() {
    assert_eq!(
        parse_number(&j(r##"{ "type": "number", "multipleOf": 1.0, "minimum": 0.5 }"##)),
        "z.number().int().gte(0.5)"
    );
    assert_eq!(
        parse_number(&j(r##"{ "type": "integer", "multipleOf": 1 }"##)),
        "z.number().int()"
    );
    assert_eq!(
        parse_number(&j(r##"{ "type": "number", "multipleOf": 0.25, "exclusiveMaximum": 2 }"##)),
        "z.number().multipleOf(0.25).lt(2)"
    );
}

#[test]
fn falsy_zero_float_is_falsy() {
    assert_eq!(
        parse_array(&j(r##"{ "type": "array", "items": 0.0 }"##), &refs_v4()),
        "z.array(z.any())"
    );
}

#[test]
fn object_const_matches_by_deep_equality() {
    let out = parse_const(&j(r##"{ "const": { "a": [1] } }"##));
    assert!(out.starts_with("z.any().refine((value) => { const equal = (a, b) =>"));
    assert!(out.ends_with(r#" return equal(value, {"a":[1]}); })"#));
    assert_eq!(parse_const(&j(r##"{ "const": 3 }"##)), "z.literal(3)");
}

#[test]
fn unique_object_items_use_deep_equality() {
    let out = parse_array(
        &j(r##"{ "type": "array", "uniqueItems": true, "items": { "type": "object" } }"##),
        &refs_v4(),
    );
    assert!(out.starts_with("z.array(z.record(z.string(), z.any())).refine((arr) => { const equal"));
    assert!(out.ends_with(
        r#" return arr.every((item, i) => arr.findIndex((other) => equal(other, item)) == i); }, "All items must be unique!")"#
    ));
}

#[test]
fn typed_schema_keeps_its_conditional() {
    let out = parse_schema(
        &j(r##"{ "type": "string", "if": { "minLength": 1 }, "then": { "maxLength": 3 }, "else": { "const": "" } }"##),
        &refs_v4(),
    );
    assert!(out.starts_with("z.string().superRefine((value,ctx) => {\n  const result = z.any().safeParse(value).success\n    ? z.any().safeParse(value)\n    : z.literal(\"\").safeParse(value);"));
}

#[test]
fn content_schema_follows_active_version() {
    let schema = j(r##"{ "type": "string", "contentMediaType": "application/json", "contentSchema": { "type": "object" } }"##);
    assert!(parse_schema(&schema, &refs_v3()).ends_with(".pipe(z.record(z.any()))"));
    assert!(parse_schema(&schema, &refs_v4()).ends_with(".pipe(z.record(z.string(), z.any()))"));
}

#[test]
fn version_free_schema_is_the_same_for_both_versions() {
    let schema = j(r##"{ "anyOf": [{ "type": "array", "items": { "type": ["string", "null"] } }, { "allOf": [{ "not": { "enum": [1, 2] } }, true] }] }"##);
    assert_eq!(parse_schema(&schema, &refs_v3()), parse_schema(&schema, &refs_v4()));
}

#[test]
fn all_of_is_a_right_leaning_chain() {
    let out = parse_all_of(
        &j(r##"{ "allOf": [{ "type": "string" }, { "type": "number" }, { "type": "boolean" }, { "type": "null" }, false] }"##),
        &refs_v4(),
    );
    assert_eq!(
        out,
        "z.intersection(z.intersection(z.string(), z.number()), z.intersection(z.boolean(), z.intersection(z.null(), z.any().refine((value) => !z.any().safeParse(value).success, \"Invalid input: Should NOT be valid against schema\"))))"
    );
}

#[test]
fn capitalize_first_handles_unicode() {
    assert_eq!(capitalize_first(""), "");
    assert_eq!(capitalize_first("myName"), "MyName");
    assert_eq!(capitalize_first("ßx"), "SSx");
    assert_eq!(capitalize_first("\u{1D49C}bc"), "\u{1D49C}bc");
    assert_eq!(capitalize_first("\u{1F600}x"), "\u{1F600}x");
}

#[test]
fn cli_params_require_input_only_on_a_terminal() {
    let argv = args(&["prog"]);
    let n = numbers_of(&argv);
    assert_eq!(
        parse_args(&params(true), &argv, &n).err(),
        Some("input is required when no JSON or file path is piped".to_string())
    );
    let parsed = parse_args(&params(false), &argv, &n).unwrap();
    assert_eq!(parsed.len(), 9);
    let names: Vec<&str> = parsed.iter().map(|(k, _)| k.as_str()).collect();
    assert_eq!(
        names,
        vec!["input", "output", "name", "depth", "module", "type", "noImport", "withJsdocs", "zodVersion"]
    );
    assert_eq!(lookup(&parsed, "input"), Some(&Parsed::Flag(false)));
    assert_eq!(input_arg(&parsed), None);
}

#[test]
fn cli_parse_errors() {
    let defs = params(false);
    let argv = args(&["prog", "-d"]);
    assert_eq!(
        parse_args(&defs, &argv, &numbers_of(&argv)).err(),
        Some("Expected a value for argument depth".to_string())
    );
    let argv = args(&["prog", "--depth", "abc"]);
    assert_eq!(
        parse_args(&defs, &argv, &numbers_of(&argv)).err(),
        Some("Value of argument depth must be a valid number".to_string())
    );
    let argv = args(&["prog", "-m", "amd"]);
    assert_eq!(
        parse_args(&defs, &argv, &numbers_of(&argv)).err(),
        Some("Value of argument module must be one of esm,cjs,none".to_string())
    );
}

#[test]
fn cli_options_from_arguments() {
    let defs = params(true);
    let argv = args(&["prog", "-i", "{}", "-m", "none", "-zv", "3", "-n", "S", "-t", "T", "--noImport", "-d", "7"]);
    let parsed = parse_args(&defs, &argv, &numbers_of(&argv)).unwrap();
    assert_eq!(input_arg(&parsed), Some("{}".to_string()));
    let o = options_from_args(&parsed);
    assert_eq!(o.module, Some(Module::Bare));
    assert_eq!(o.zod_version, ZodVersion::V3);
    assert_eq!(o.name, Some("S".to_string()));
    assert_eq!(o.type_export, Some(TypeExport::Named("T".to_string())));
    assert!(o.no_import);
    assert!(!o.with_jsdocs);
    assert_eq!(o.depth, Some(7));
    let argv = args(&["prog", "-i", "{}", "-zv", "4"]);
    let o = options_from_args(&parse_args(&defs, &argv, &numbers_of(&argv)).unwrap());
    assert_eq!(o.module, Some(Module::Esm));
    assert_eq!(o.zod_version, ZodVersion::V4);
}

#[test]
fn cli_help_text_layout() {
    let text = help_text(&params(false));
    let lines: Vec<&str> = text.lines().collect();
    assert_eq!(lines.len(), 11);
    assert_eq!(lines[0], "Name         Short Description");
    assert_eq!(
        lines[1],
        "--input      -i    JSON or a source file path. Required if no data is piped."
    );
    assert_eq!(lines[10], "--help       -h    Display this message :)");
    assert!(wants_help(&args(&["prog", "-h"])));
    assert!(!wants_help(&args(&["prog", "-i", "x"])));
}

#[test]
fn output_does_not_depend_on_the_starting_path() {
    let schema = j(r##"{ "type": "object", "properties": { "a": { "oneOf": [{ "type": "string" }, { "type": "number" }] } }, "patternProperties": { "^x": { "type": "integer" } }, "additionalProperties": false, "allOf": [{ "properties": { "b": true } }] }"##);
    for base in [refs_v4(), refs_v3()] {
        let mut deep = if base.zod_version == ZodVersion::V3 { refs_v3() } else { refs_v4() };
        deep.path = vec![PathSegment::Key("defs".to_string()), PathSegment::Index(3)];
        assert_eq!(parse_schema(&schema, &base), parse_schema(&schema, &deep));
    }
}

#[test]
fn jsdoc_lines_split_at_line_feeds_only() {
    assert_eq!(json_schema_to_zod::expand_jsdocs("one line"), "/**one line*/\n");
    assert_eq!(json_schema_to_zod::expand_jsdocs("a\r\nb"), "/**\n* a\r\n* b\n*/\n");
    assert_eq!(json_schema_to_zod::expand_jsdocs("a\n\nb\n"), "/**\n* a\n* \n* b\n* \n*/\n");
}

#[test]
fn output_is_never_empty_for_minimal_schemas() {
    for text in ["{}", "true", "false", "{\"anyOf\": [{}]}", "{\"allOf\": [true]}", "{\"oneOf\": [{}]}"] {
        assert!(!parse_schema(&j(text), &refs_v4()).is_empty());
    }
}

#[test]
fn pattern_properties_text_shape() {
    let out = parse_object(
        &j(r##"{ "type": "object", "patternProperties": { "^a": { "type": "string" }, "^b": { "type": "number" } }, "additionalProperties": false }"##),
        &refs_v4(),
    );
    let a = out.find("if (key.match(new RegExp(\"^a\"))) {").unwrap();
    let b = out.find("if (key.match(new RegExp(\"^b\"))) {").unwrap();
    assert!(a < b);
    assert!(out.contains("let evaluated = false\n"));
    assert!(out.contains("if (!evaluated) {\n"));
    assert!(out.ends_with("}\n})"));
    let plain = parse_object(
        &j(r##"{ "type": "object", "patternProperties": { "^a": { "type": "string" } } }"##),
        &refs_v4(),
    );
    assert!(!plain.contains("evaluated"));
    assert!(plain.ends_with("}\n})"));
}

#[test]
fn serde_float_texts_are_well_formed() {
    for text in ["1.5", "-0.0", "0.0", "1.0", "1e300", "-2.5e-8", "0.001234", "12340000000.0", "1e-7", "[0.1, {\"a\": 3.25}]"] {
        assert!(j(text).is_well_formed(), "{text}");
    }
    for bad in ["1e0", "1.50", "01.5", "1.", ".5", "1e+00", "abc"] {
        let v = JsonValue::Number(JsonNumber::Float(bad.to_string()));
        assert!(!v.is_well_formed(), "{bad}");
    }
    assert!(JsonValue::Number(JsonNumber::Float("1e+300".to_string())).is_well_formed());
}
