//! The recursive dispatcher and metadata application.
use vstd::prelude::*;

use crate::json::{JsonValue, is_truthy, lemma_omit_smaller, msize};
use crate::model::{default_text, describe_text, readonly_part, spec_parse_schema, spec_select};
use crate::parsers;
use crate::predicates as its;
use crate::text::push_json;
use crate::types::{ParserOverride, Refs};
use crate::util::omit;

verus! {

/// Parse a schema node into a Zod source fragment, consulting `hook` first at
/// every object node.
///
/// A boolean schema yields `z.any()` for `true` and `z.never()` for `false`.
/// An object schema runs through the override hook, the parser dispatch, and
/// then describe, default, and readonly metadata unless `block_meta` is set.
///
/// `block_meta` is used by the nullable parser so metadata lands on the outer
/// `.nullable()` wrapper instead of the inner schema.
pub(crate) fn parse_schema_with<H: ParserOverride>(
    hook: &H,
    schema: &JsonValue,
    refs: &Refs,
    block_meta: bool,
) -> (r: String)
    ensures
        r@ == spec_parse_schema(*hook, schema@, refs@, block_meta),
    decreases msize(schema@), 3nat, 0nat,
{
    if !schema.is_object() {
        // A JSON boolean schema: truthy maps to any, falsy to never.
        if is_truthy(schema) {
            return String::from_str("z.any()");
        } else {
            return String::from_str("z.never()");
        }
    }
    match hook.override_schema(schema, refs) {
        Some(custom) => {
            return custom;
        },
        None => {},
    }
    let mut parsed = select_parser(hook, schema, refs);
    if !block_meta {
        if !refs.without_describes {
            parsed = add_describes(schema, parsed);
        }
        if !refs.without_defaults {
            parsed = add_defaults(schema, parsed);
        }
        parsed = add_annotations(schema, parsed);
    }
    parsed
}

/// Append `.describe(<json>)` when `description` is a truthy value.
fn add_describes(schema: &JsonValue, parsed: String) -> (r: String)
    ensures
        r@ == parsed@ + describe_text(schema@),
{
    let mut parsed = parsed;
    let ghost start = parsed@;
    if let Some(desc) = schema.get("description") {
        if is_truthy(desc) {
            parsed.append(".describe(");
            push_json(&mut parsed, desc);
            parsed.append(")");
        }
    }
    assert(parsed@ =~= start + describe_text(schema@));
    parsed
}

/// Append `.default(<json>)` when `default` is present. An explicit `null`
/// default is kept.
fn add_defaults(schema: &JsonValue, parsed: String) -> (r: String)
    ensures
        r@ == parsed@ + default_text(schema@),
{
    let mut parsed = parsed;
    let ghost start = parsed@;
    if let Some(default) = schema.get("default") {
        parsed.append(".default(");
        push_json(&mut parsed, default);
        parsed.append(")");
    }
    assert(parsed@ =~= start + default_text(schema@));
    parsed
}

/// Append `.readonly()` when `readOnly` is truthy.
fn add_annotations(schema: &JsonValue, parsed: String) -> (r: String)
    ensures
        r@ == parsed@ + readonly_part(schema@),
{
    let mut parsed = parsed;
    let ghost start = parsed@;
    if let Some(read_only) = schema.get("readOnly") {
        if is_truthy(read_only) {
            parsed.append(".readonly()");
        }
    }
    assert(parsed@ =~= start + readonly_part(schema@));
    parsed
}

/// `base` followed by the conditional refinement of `schema`, if any.
fn with_conditional<H: ParserOverride>(hook: &H, schema: &JsonValue, refs: &Refs, base: String) -> (r: String)
    ensures
        r@ == base@ + crate::model::spec_conditional(*hook, schema@, refs@),
    decreases msize(schema@), 1nat, 1nat,
{
    let mut base = base;
    let c = parsers::conditional(hook, schema, refs);
    base.append(c.as_str());
    base
}

/// Dispatch a schema object to the matching parser. First match wins.
fn select_parser<H: ParserOverride>(hook: &H, schema: &JsonValue, refs: &Refs) -> (r: String)
    ensures
        r@ == spec_select(*hook, schema@, refs@),
    decreases msize(schema@), 2nat, 0nat,
{
    if its::is_nullable(schema) {
        proof {
            lemma_omit_smaller(schema@, "nullable"@);
        }
        let inner = omit(schema, "nullable");
        let mut r = parse_schema_with(hook, &inner, refs, true);
        r.append(".nullable()");
        r
    } else if its::is_object(schema) {
        let base = parsers::parse_object_with(hook, schema, refs);
        with_conditional(hook, schema, refs, base)
    } else if its::is_array(schema) {
        let base = parsers::parse_array_with(hook, schema, refs);
        with_conditional(hook, schema, refs, base)
    } else if its::has_any_of(schema) {
        parsers::parse_any_of_with(hook, schema, refs)
    } else if its::has_all_of(schema) {
        parsers::parse_all_of_with(hook, schema, refs)
    } else if its::is_simple_discriminated_one_of(schema) {
        parsers::parse_discriminated_with(hook, schema, refs)
    } else if its::has_one_of(schema) {
        parsers::parse_one_of_with(hook, schema, refs)
    } else if its::has_not(schema) {
        parsers::parse_not_with(hook, schema, refs)
    } else if its::has_enum(schema) {
        parsers::render_enum(schema)
    } else if its::has_const(schema) {
        parsers::render_const(schema)
    } else if its::is_multiple_type(schema) {
        parsers::parse_multiple_type_with(hook, schema, refs)
    } else if its::is_primitive(schema, "string") {
        let base = parsers::parse_string_with(hook, schema, refs);
        with_conditional(hook, schema, refs, base)
    } else if its::is_primitive(schema, "number") || its::is_primitive(schema, "integer") {
        let base = parsers::render_number(schema);
        with_conditional(hook, schema, refs, base)
    } else if its::is_primitive(schema, "boolean") {
        let base = parsers::parse_boolean();
        with_conditional(hook, schema, refs, base)
    } else if its::is_primitive(schema, "null") {
        let base = parsers::parse_null();
        with_conditional(hook, schema, refs, base)
    } else if its::is_conditional(schema) {
        parsers::parse_if_then_else_with(hook, schema, refs)
    } else {
        parsers::parse_default()
    }
}

} // verus!
