//! One parser per JSON Schema construct. Each returns a Zod source fragment
//! equal to its model in [`crate::model`].
use vstd::prelude::*;

use crate::json::{
    Json, JsonNumber, JsonValue, Num, arr_msize, as_str, clone_json, entries_view, find_index, get,
    has_key, is_truthy, items_view, lemma_entries_view, lemma_entries_view_push,
    lemma_entries_view_swap_remove, lemma_entries_view_update, lemma_entry_smaller, lemma_find_key,
    lemma_get_smaller, lemma_item_smaller, lemma_items_view, lemma_items_view_push, lemma_value_views,
    json_wf, msize, obj_msize, omit_key, set_entry,
};
use crate::jsdocs::add_jsdocs;
use crate::parse_schema::parse_schema_with;
use crate::predicates::{is_conditional, is_multiple_type, member_is, str_eq};
use crate::model::{
    CATCHALL_MESSAGE, JSON_TRANSFORM, KEY_MESSAGE, NOT_0, NOT_1, UNIQUE_BY_INDEX, allof_bound,
    array_bounds, discriminator_name, format_builder, items_primitive, lemma_allof_bound_coerced,
    lemma_allof_bound_le, lemma_allof_halves, lemma_allof_leaf, lemma_coerce_size,
    lemma_type_branch_smaller, leaf_seg, object_base, pattern_body, pattern_catchall, pattern_check,
    pattern_checks, pattern_evaluated, pattern_head, prop_entry, prop_required, quoted_keys,
    spec_all_of_list, spec_any_of_list, spec_child, spec_conditional, spec_items, spec_object_combinators,
    spec_one_of_list, spec_parse_all_of, spec_parse_any_of, spec_parse_array, spec_parse_discriminated,
    spec_parse_if_then_else, spec_parse_multiple_type, spec_parse_not, spec_parse_object,
    spec_parse_one_of, spec_parse_schema, spec_parse_string, spec_pattern_values, spec_prop_entries,
    spec_properties, spec_additional, spec_patterns, spec_type_branches, type_is_list, unique_open,
    ITE_0, ITE_1, ITE_2, ITE_3, ISSUE_0, ISSUE_1, ISSUE_2, ONE_OF_0, ONE_OF_1, ONE_OF_2, ONE_OF_3,
    ONE_OF_4, ONE_OF_5, ONE_OF_6, ONE_OF_7, ORIGINAL_INDEX, V4_EXTRA, any_tagged, coerce, coerce_all,
    ensure_tagged, is_tagged, issue_text, ite_refine, one_of_text, record_of, strip, tag,
    EQUAL_FN, int_part, json_of, json_parts, literal_of, literal_parts, max_part, member_is_number,
    min_part, multiple_part, spec_parse_const, spec_parse_enum, spec_parse_number, three, wm,
};
use crate::text::{push_json, push_quoted};
use crate::types::{NoOverride, ParserOverride, PathSegment, Refs, ZodVersion, default_refs, idx, key};
use crate::util::{Builder, half, join, join_strings, omit, push_assembled, strs_view};

verus! {

/// Append the modifier for `schema[key]` built from a fixed builder, when the
/// key is present.
fn push_fixed(out: &mut String, schema: &JsonValue, key: &str, b: Builder, fallback: Option<&str>)
    ensures
        final(out)@ == old(out)@ + wm(
            schema@,
            key@,
            Some(b@),
            match fallback {
                Some(f) => Some(f@),
                None => None,
            },
        ),
{
    if schema.get(key).is_some() {
        push_assembled(out, schema, key, b, fallback);
    } else {
        assert(out@ =~= old(out)@ + Seq::<char>::empty());
    }
}

/// Append the modifier for `schema[key]` whose opener carries the member's
/// JSON text: `pre + JSON`, then `prefix` and the message, then `close`.
fn push_valued(out: &mut String, schema: &JsonValue, key: &str, pre: &str, prefix: &str, close: &str)
    ensures
        final(out)@ == old(out)@ + wm(
            schema@,
            key@,
            three(pre@ + json_of(schema@, key@), prefix@, close@),
            None,
        ),
{
    match schema.get(key) {
        Some(v) => {
            let mut open = String::from_str(pre);
            push_json(&mut open, v);
            push_assembled(
                out,
                schema,
                key,
                Builder::Three(open, String::from_str(prefix), String::from_str(close)),
                None,
            );
        },
        None => {
            assert(out@ =~= old(out)@ + Seq::<char>::empty());
        },
    }
}

/// `z.boolean()`. Ignores the schema body.
pub fn parse_boolean() -> (r: String)
    ensures
        r@ == "z.boolean()"@,
{
    String::from_str("z.boolean()")
}

/// `z.null()`.
pub fn parse_null() -> (r: String)
    ensures
        r@ == "z.null()"@,
{
    String::from_str("z.null()")
}

/// `z.any()`. The fallback for unrecognized schemas.
pub fn parse_default() -> (r: String)
    ensures
        r@ == "z.any()"@,
{
    String::from_str("z.any()")
}

/// `z.literal(<json>)`, or a deep-equality refinement for an object or array.
fn literal(c: &JsonValue) -> (r: String)
    ensures
        r@ == literal_of(c@),
{
    let mut r = String::new();
    if c.is_array() || c.is_object() {
        r.append("z.any().refine((value) => { ");
        r.append(EQUAL_FN);
        r.append(" return equal(value, ");
        push_json(&mut r, c);
        r.append("); })");
    } else {
        r.append("z.literal(");
        push_json(&mut r, c);
        r.append(")");
    }
    assert(r@ =~= literal_of(c@));
    r
}

/// `z.literal(<json>)` from the `const` value. An object or array value
/// becomes a refinement that accepts any equal JSON value.
pub(crate) fn render_const(schema: &JsonValue) -> (r: String)
    ensures
        r@ == spec_parse_const(schema@),
{
    let null = JsonValue::Null;
    let c = match schema.get("const") {
        Some(c) => c,
        None => &null,
    };
    literal(c)
}

/// Lower an `enum` to a literal, a string enum, or a union of literals.
///
/// Empty yields `z.never()`. A single value yields `z.literal`. All strings
/// yield `z.enum`. A mix yields `z.union` of literals.
pub(crate) fn render_enum(schema: &JsonValue) -> (r: String)
    ensures
        r@ == spec_parse_enum(schema@),
{
    let ev = match schema.get("enum") {
        Some(v) => v,
        None => {
            return String::from_str("z.never()");
        },
    };
    let values = match ev {
        JsonValue::Array(a) => a,
        _ => {
            return String::from_str("z.never()");
        },
    };
    let ghost av = items_view(values@);
    proof {
        lemma_items_view(values@);
        lemma_value_views(*ev);
    }
    if values.len() == 0 {
        return String::from_str("z.never()");
    }
    if values.len() == 1 {
        let mut r = String::from_str("z.literal(");
        push_json(&mut r, &values[0]);
        r.append(")");
        assert(r@ =~= spec_parse_enum(schema@));
        return r;
    }
    let mut all_strings = true;
    let mut i: usize = 0;
    while i < values.len()
        invariant
            av == items_view(values@),
            av.len() == values@.len(),
            forall|k: int| 0 <= k < values@.len() ==> #[trigger] av[k] == values@[k]@,
            i <= values@.len(),
            all_strings == forall|k: int| 0 <= k < i ==> #[trigger] av[k] is Str,
        decreases values@.len() - i,
    {
        if !values[i].is_string() {
            all_strings = false;
        }
        proof {
            if all_strings {
                assert forall|k: int| 0 <= k < i + 1 implies #[trigger] av[k] is Str by {
                    if k == i {
                        assert(av[k] == values@[k]@);
                    }
                }
            } else if !(av[i as int] is Str) {
                assert(!(av[i as int] is Str));
            }
        }
        i += 1;
    }
    let mut parts: Vec<String> = Vec::new();
    let mut k: usize = 0;
    while k < values.len()
        invariant
            av == items_view(values@),
            av.len() == values@.len(),
            forall|m: int| 0 <= m < values@.len() ==> #[trigger] av[m] == values@[m]@,
            k <= values@.len(),
            strs_view(parts@) =~= (if all_strings {
                json_parts(av)
            } else {
                literal_parts(av)
            }).take(k as int),
        decreases values@.len() - k,
    {
        let mut p = String::new();
        if all_strings {
            push_json(&mut p, &values[k]);
        } else {
            p.append("z.literal(");
            push_json(&mut p, &values[k]);
            p.append(")");
        }
        let ghost before = parts@;
        parts.push(p);
        proof {
            assert(strs_view(parts@) =~= strs_view(before).push(parts@[k as int]@));
        }
        k += 1;
    }
    proof {
        assert(json_parts(av).take(values@.len() as int) =~= json_parts(av));
        assert(literal_parts(av).take(values@.len() as int) =~= literal_parts(av));
    }
    let mut r = String::new();
    if all_strings {
        r.append("z.enum([");
        let joined = join_strings(&parts, ",");
        r.append(joined.as_str());
        r.append("])");
    } else {
        r.append("z.union([");
        let joined = join_strings(&parts, ", ");
        r.append(joined.as_str());
        r.append("])");
    }
    assert(r@ =~= spec_parse_enum(schema@));
    r
}

/// Build `z.number()` and append int, multipleOf, and range modifiers.
pub(crate) fn render_number(schema: &JsonValue) -> (r: String)
    ensures
        r@ == spec_parse_number(schema@),
{
    let ghost j = schema@;
    let mut int_part_text = String::new();
    if is_member(schema, "type", "integer") {
        push_fixed(
            &mut int_part_text,
            schema,
            "type",
            Builder::Two(String::from_str(".int("), String::from_str(")")),
            None,
        );
    } else if is_member(schema, "format", "int64") {
        push_fixed(
            &mut int_part_text,
            schema,
            "format",
            Builder::Two(String::from_str(".int("), String::from_str(")")),
            None,
        );
    } else {
        assert(int_part_text@ =~= wm(j, "format"@, None, None));
    }
    assert(int_part_text@ =~= int_part(j));
    let starts_int = int_part_text.as_str().unicode_len() > 0;
    let mut r = String::from_str("z.number()");
    r.append(int_part_text.as_str());
    let ghost after_int = r@;
    match schema.get("multipleOf") {
        Some(m) => {
            let one = match m {
                JsonValue::Number(n) => crate::json::number_is_one(n),
                _ => false,
            };
            if one {
                if !starts_int {
                    push_assembled(
                        &mut r,
                        schema,
                        "multipleOf",
                        Builder::Two(String::from_str(".int("), String::from_str(")")),
                        None,
                    );
                }
            } else {
                push_valued(&mut r, schema, "multipleOf", ".multipleOf(", ", ", ")");
            }
        },
        None => {},
    }
    assert(r@ =~= after_int + multiple_part(j));
    let ghost after_multiple = r@;
    if is_number_member(schema, "minimum") {
        if crate::json::opt_is_true(schema.get("exclusiveMinimum")) {
            push_valued(&mut r, schema, "minimum", ".gt(", ", ", ")");
        } else {
            push_valued(&mut r, schema, "minimum", ".gte(", ", ", ")");
        }
    } else if is_number_member(schema, "exclusiveMinimum") {
        push_valued(&mut r, schema, "exclusiveMinimum", ".gt(", ", ", ")");
    }
    assert(r@ =~= after_multiple + min_part(j));
    let ghost after_min = r@;
    if is_number_member(schema, "maximum") {
        if crate::json::opt_is_true(schema.get("exclusiveMaximum")) {
            push_valued(&mut r, schema, "maximum", ".lt(", ", ", ")");
        } else {
            push_valued(&mut r, schema, "maximum", ".lte(", ", ", ")");
        }
    } else if is_number_member(schema, "exclusiveMaximum") {
        push_valued(&mut r, schema, "exclusiveMaximum", ".lt(", ", ", ")");
    }
    assert(r@ =~= after_min + max_part(j));
    assert(r@ =~= spec_parse_number(j));
    r
}

/// Whether `schema[key]` is the string `s`.
fn is_member(schema: &JsonValue, key: &str, s: &str) -> (r: bool)
    ensures
        r == member_is(schema@, key@, s@),
{
    match schema.get(key) {
        Some(v) => match v.as_str() {
            Some(t) => crate::predicates::str_eq(t, s),
            None => false,
        },
        None => false,
    }
}

/// Whether `schema[key]` is a number.
fn is_number_member(schema: &JsonValue, key: &str) -> (r: bool)
    ensures
        r == member_is_number(schema@, key@),
{
    match schema.get(key) {
        Some(v) => v.is_number(),
        None => false,
    }
}


// ---------------------------------------------------------------------------
// Small builders shared by the recursive parsers.
// ---------------------------------------------------------------------------

/// The model of an optional text.
pub open spec fn opt_view(o: Option<String>) -> Option<Seq<char>> {
    match o {
        Some(s) => Some(s@),
        None => None,
    }
}

/// The `if`/`then`/`else` refinement over the three parsed branches.
fn ite_text(i: &str, t: &str, e: &str) -> (r: String)
    ensures
        r@ == ite_refine(i@, t@, e@),
{
    let mut r = String::from_str(ITE_0);
    r.append(i);
    r.append(ITE_1);
    r.append(t);
    r.append(ITE_2);
    r.append(e);
    r.append(ITE_3);
    assert(r@ =~= ite_refine(i@, t@, e@));
    r
}

/// The generic `oneOf` refinement over the joined member schemas.
fn one_of_body(schemas: &str, v3: bool) -> (r: String)
    ensures
        r@ == one_of_text(schemas@, v3),
{
    let mut r = String::from_str(ONE_OF_0);
    r.append(schemas);
    r.append(ONE_OF_1);
    if v3 {
        r.append("ZodError");
    } else {
        r.append("core.$ZodIssue");
    }
    r.append(ONE_OF_2);
    if v3 {
        r.append("result.error");
    } else {
        r.append("...result.error.issues");
    }
    r.append(ONE_OF_3);
    if v3 {
        r.append("ctx.path");
    } else {
        r.append("[]");
    }
    r.append(ONE_OF_4);
    if v3 {
        r.append("unionErrors: errors");
    } else {
        r.append("errors: [errors]");
    }
    r.append(ONE_OF_5);
    if v3 {
        r.append("ctx.path");
    } else {
        r.append("[]");
    }
    r.append(ONE_OF_6);
    if !v3 {
        r.append(V4_EXTRA);
    }
    r.append(ONE_OF_7);
    assert(r@ =~= one_of_text(schemas@, v3));
    r
}

/// `z.record` of a value schema, by Zod version.
fn emit_record(value_schema: &str, refs: &Refs) -> (r: String)
    ensures
        r@ == record_of(value_schema@, refs@),
{
    let mut r = String::new();
    if refs.zod_version == ZodVersion::V3 {
        r.append("z.record(");
    } else {
        r.append("z.record(z.string(), ");
    }
    r.append(value_schema);
    r.append(")");
    assert(r@ =~= record_of(value_schema@, refs@));
    r
}

/// Append one reported issue of the `patternProperties` refinement.
fn push_issue(out: &mut String, refs: &Refs, message: &str)
    ensures
        final(out)@ == old(out)@ + issue_text(refs@, message@),
{
    out.append(ISSUE_0);
    if refs.zod_version == ZodVersion::V3 {
        out.append("path: [...ctx.path, key]");
    } else {
        out.append("path: [key]");
    }
    out.append(ISSUE_1);
    out.append(message);
    out.append(ISSUE_2);
    assert(out@ =~= old(out)@ + issue_text(refs@, message@));
}

/// Whether an object's entries have `k`.
fn has_member(o: &Vec<(String, JsonValue)>, k: &str) -> (r: bool)
    ensures
        r == has_key(entries_view(o@), k@),
{
    proof {
        lemma_find_key(entries_view(o@), k@);
    }
    find_index(o, k).is_some()
}

/// A copy of an object's entries.
fn clone_entries(o: &Vec<(String, JsonValue)>) -> (r: Vec<(String, JsonValue)>)
    ensures
        entries_view(r@) == entries_view(o@),
{
    proof {
        lemma_entries_view(o@);
    }
    let mut out: Vec<(String, JsonValue)> = Vec::new();
    let mut i: usize = 0;
    while i < o.len()
        invariant
            i <= o@.len(),
            entries_view(o@).len() == o@.len(),
            forall|k: int| 0 <= k < o@.len() ==> #[trigger] entries_view(o@)[k] == (o@[k].0@, o@[k].1@),
            entries_view(out@) =~= entries_view(o@).take(i as int),
        decreases o@.len() - i,
    {
        let e = (o[i].0.clone(), clone_json(&o[i].1));
        proof {
            lemma_entries_view_push(out@, e);
        }
        out.push(e);
        i += 1;
    }
    assert(entries_view(o@).take(o@.len() as int) =~= entries_view(o@));
    out
}

/// `map.insert(k, v)` on a copy of an object's entries.
fn set_member(o: &Vec<(String, JsonValue)>, k: &str, v: JsonValue) -> (r: Vec<(String, JsonValue)>)
    ensures
        entries_view(r@) == set_entry(entries_view(o@), k@, v@),
{
    let mut out = clone_entries(o);
    let ghost vv = v@;
    match find_index(&out, k) {
        Some(i) => {
            let e = (String::from_str(k), v);
            proof {
                lemma_entries_view_update(out@, i as int, e);
            }
            out.set(i, e);
        },
        None => {
            let e = (String::from_str(k), v);
            proof {
                lemma_entries_view_push(out@, e);
            }
            out.push(e);
        },
    }
    out
}

/// A combinator member that bears object keywords but no `type` gets
/// `type: "object"`.
fn coerce_object_member(x: &JsonValue) -> (r: JsonValue)
    ensures
        r@ == coerce(x@),
{
    match x {
        JsonValue::Object(o) => {
            proof {
                lemma_value_views(*x);
            }
            if !has_member(o, "type") && (has_member(o, "properties") || has_member(
                o,
                "additionalProperties",
            ) || has_member(o, "patternProperties")) {
                let mut next = clone_entries(o);
                let e = (String::from_str("type"), JsonValue::String(String::from_str("object")));
                proof {
                    lemma_entries_view_push(next@, e);
                }
                next.push(e);
                JsonValue::Object(next)
            } else {
                clone_json(x)
            }
        },
        _ => clone_json(x),
    }
}

/// Every member coerced.
fn coerce_members(a: &Vec<JsonValue>) -> (r: Vec<JsonValue>)
    ensures
        items_view(r@) == coerce_all(items_view(a@)),
{
    proof {
        lemma_items_view(a@);
    }
    let mut out: Vec<JsonValue> = Vec::new();
    let mut i: usize = 0;
    while i < a.len()
        invariant
            i <= a@.len(),
            items_view(a@).len() == a@.len(),
            forall|k: int| 0 <= k < a@.len() ==> #[trigger] items_view(a@)[k] == a@[k]@,
            items_view(out@) =~= coerce_all(items_view(a@)).take(i as int),
        decreases a@.len() - i,
    {
        let c = coerce_object_member(&a[i]);
        proof {
            lemma_items_view_push(out@, c);
        }
        out.push(c);
        i += 1;
    }
    assert(coerce_all(items_view(a@)).take(a@.len() as int) =~= coerce_all(items_view(a@)));
    out
}

/// Remove the index tag from an object so it does not appear in emitted source.
fn strip_original_index(item: &JsonValue) -> (r: JsonValue)
    ensures
        r@ == strip(item@),
{
    match item {
        JsonValue::Object(o) => {
            proof {
                lemma_value_views(*item);
            }
            let mut next = clone_entries(o);
            match find_index(&next, ORIGINAL_INDEX) {
                Some(i) => {
                    proof {
                        lemma_entries_view_swap_remove(next@, i as int);
                    }
                    let _ = next.swap_remove(i);
                },
                None => {},
            }
            JsonValue::Object(next)
        },
        _ => clone_json(item),
    }
}

/// The index tag of position `i`.
fn tag_entry(i: usize) -> (r: (String, JsonValue))
    ensures
        r.0@ == ORIGINAL_INDEX@,
        r.1@ == Json::Num(Num::PosInt(i as u64)),
{
    (String::from_str(ORIGINAL_INDEX), JsonValue::Number(JsonNumber::PosInt(i as u64)))
}

/// Tag each `allOf` member with its source index. Booleans become `{}` or
/// `{ not: {} }` with the tag. If any member already carries the tag, the
/// members are returned unchanged.
fn ensure_original_index(arr: &Vec<JsonValue>) -> (r: Vec<JsonValue>)
    ensures
        items_view(r@) == ensure_tagged(items_view(arr@)),
{
    let ghost av = items_view(arr@);
    proof {
        lemma_items_view(arr@);
    }
    let mut new_arr: Vec<JsonValue> = Vec::new();
    let mut i: usize = 0;
    while i < arr.len()
        invariant
            av == items_view(arr@),
            i <= arr@.len(),
            av.len() == arr@.len(),
            forall|k: int| 0 <= k < arr@.len() ==> #[trigger] av[k] == arr@[k]@,
            forall|k: int| 0 <= k < i ==> !#[trigger] is_tagged(av[k]),
            items_view(new_arr@) =~= Seq::new(i as nat, |k: int| tag(av[k], k as nat)),
        decreases arr@.len() - i,
    {
        let item = &arr[i];
        let next = match item {
            JsonValue::Bool(true) => {
                let mut m: Vec<(String, JsonValue)> = Vec::new();
                let t = tag_entry(i);
                proof {
                    lemma_entries_view_push(m@, t);
                    assert(entries_view(m@) =~= Seq::<(Seq<char>, Json)>::empty());
                }
                m.push(t);
                let r = JsonValue::Object(m);
                proof {
                    lemma_value_views(r);
                    assert(entries_view(m@) =~= seq![(ORIGINAL_INDEX@, Json::Num(Num::PosInt(i as u64)))]);
                    assert(r@ == tag(av[i as int], i as nat));
                }
                r
            },
            JsonValue::Bool(false) => {
                let mut m: Vec<(String, JsonValue)> = Vec::new();
                let t = tag_entry(i);
                proof {
                    lemma_entries_view_push(m@, t);
                }
                m.push(t);
                let n = (String::from_str("not"), JsonValue::Object(Vec::new()));
                proof {
                    lemma_entries_view_push(m@, n);
                    lemma_value_views(n.1);
                    assert(entries_view(Seq::<(String, JsonValue)>::empty()) =~= Seq::<(Seq<char>, Json)>::empty());
                }
                m.push(n);
                let r = JsonValue::Object(m);
                proof {
                    lemma_value_views(r);
                    assert(entries_view(m@) =~= seq![
                        (ORIGINAL_INDEX@, Json::Num(Num::PosInt(i as u64))),
                        ("not"@, Json::Obj(Seq::empty())),
                    ]);
                    assert(r@ == tag(av[i as int], i as nat));
                }
                r
            },
            JsonValue::Object(o) => {
                proof {
                    lemma_value_views(*item);
                }
                if has_member(o, ORIGINAL_INDEX) {
                    proof {
                        assert(is_tagged(av[i as int]));
                        assert(any_tagged(av));
                    }
                    let mut same: Vec<JsonValue> = Vec::new();
                    let mut k: usize = 0;
                    while k < arr.len()
                        invariant
                            k <= arr@.len(),
                            av == items_view(arr@),
                            av.len() == arr@.len(),
                            forall|m: int| 0 <= m < arr@.len() ==> #[trigger] av[m] == arr@[m]@,
                            items_view(same@) =~= av.take(k as int),
                        decreases arr@.len() - k,
                    {
                        let c = clone_json(&arr[k]);
                        proof {
                            lemma_items_view_push(same@, c);
                        }
                        same.push(c);
                        k += 1;
                    }
                    assert(av.take(arr@.len() as int) =~= av);
                    return same;
                }
                let mut m = clone_entries(o);
                let t = tag_entry(i);
                proof {
                    lemma_entries_view_push(m@, t);
                }
                m.push(t);
                let r = JsonValue::Object(m);
                proof {
                    lemma_value_views(r);
                    assert(r@ == tag(av[i as int], i as nat));
                }
                r
            },
            _ => clone_json(item),
        };
        proof {
            lemma_items_view_push(new_arr@, next);
            assert(next@ == tag(av[i as int], i as nat));
            assert(!is_tagged(av[i as int]));
        }
        new_arr.push(next);
        i += 1;
    }
    proof {
        assert(!any_tagged(av));
        assert(items_view(new_arr@) =~= ensure_tagged(av));
    }
    new_arr
}


// ---------------------------------------------------------------------------
// The recursive parsers. Each takes the override hook that the walk consults
// at every object node.
// ---------------------------------------------------------------------------

/// The member `k` parsed one step down, or `z.never()` when it is absent.
fn parse_child<H: ParserOverride>(hook: &H, schema: &JsonValue, refs: &Refs, k: &str) -> (r: String)
    ensures
        r@ == spec_child(*hook, schema@, refs@, k@),
    decreases msize(schema@), 0nat, 0nat,
{
    match schema.get(k) {
        Some(c) => {
            proof {
                lemma_get_smaller(schema@, k@);
            }
            let child = refs.step(key(k));
            parse_schema_with(hook, c, &child, false)
        },
        None => String::from_str("z.never()"),
    }
}

/// The conditional refinement that follows a typed parser, when the node has
/// truthy `if`, `then` and `else`.
pub(crate) fn conditional<H: ParserOverride>(hook: &H, schema: &JsonValue, refs: &Refs) -> (r: String)
    ensures
        r@ == spec_conditional(*hook, schema@, refs@),
    decreases msize(schema@), 1nat, 0nat,
{
    if is_conditional(schema) {
        let i = parse_child(hook, schema, refs, "if");
        let t = parse_child(hook, schema, refs, "then");
        let e = parse_child(hook, schema, refs, "else");
        ite_text(i.as_str(), t.as_str(), e.as_str())
    } else {
        String::new()
    }
}

/// `z.any().refine(...)` that rejects anything matching the `not` schema.
pub(crate) fn parse_not_with<H: ParserOverride>(hook: &H, schema: &JsonValue, refs: &Refs) -> (r: String)
    ensures
        r@ == spec_parse_not(*hook, schema@, refs@),
    decreases msize(schema@), 1nat, 0nat,
{
    let c = parse_child(hook, schema, refs, "not");
    let mut r = String::from_str(NOT_0);
    r.append(c.as_str());
    r.append(NOT_1);
    r
}

/// A union of `then` and `else`, refined by the condition.
pub(crate) fn parse_if_then_else_with<H: ParserOverride>(
    hook: &H,
    schema: &JsonValue,
    refs: &Refs,
) -> (r: String)
    ensures
        r@ == spec_parse_if_then_else(*hook, schema@, refs@),
    decreases msize(schema@), 1nat, 0nat,
{
    let s_if = parse_child(hook, schema, refs, "if");
    let s_then = parse_child(hook, schema, refs, "then");
    let s_else = parse_child(hook, schema, refs, "else");
    let mut r = String::from_str("z.union([");
    r.append(s_then.as_str());
    r.append(", ");
    r.append(s_else.as_str());
    r.append("])");
    let refine = ite_text(s_if.as_str(), s_then.as_str(), s_else.as_str());
    r.append(refine.as_str());
    r
}

/// The members of a list, each parsed at `k`/index, coerced to objects when
/// asked.
fn items<H: ParserOverride>(hook: &H, a: &Vec<JsonValue>, coerce_members: bool, refs: &Refs, k: &str) -> (r: Vec<
    String,
>)
    ensures
        strs_view(r@) == spec_items(*hook, items_view(a@), coerce_members, refs@, k@, a@.len()),
    decreases arr_msize(items_view(a@), a@.len()), 0nat, 0nat,
{
    let ghost av = items_view(a@);
    proof {
        lemma_items_view(a@);
    }
    let mut out: Vec<String> = Vec::new();
    let mut i: usize = 0;
    while i < a.len()
        invariant
            av == items_view(a@),
            av.len() == a@.len(),
            forall|m: int| 0 <= m < a@.len() ==> #[trigger] av[m] == a@[m]@,
            i <= a@.len(),
            strs_view(out@) == spec_items(*hook, av, coerce_members, refs@, k@, i as nat),
        decreases a@.len() - i,
    {
        proof {
            lemma_item_smaller(av, i as int);
            lemma_coerce_size(av[i as int]);
        }
        let child = refs.step2(key(k), idx(i));
        let s = if coerce_members {
            let x = coerce_object_member(&a[i]);
            parse_schema_with(hook, &x, &child, false)
        } else {
            parse_schema_with(hook, &a[i], &child, false)
        };
        let ghost before = out@;
        out.push(s);
        proof {
            assert(strs_view(out@) =~= strs_view(before).push(s@));
        }
        i += 1;
    }
    out
}

/// An `anyOf` list: empty is `z.any()`, one member unwraps, more make a union.
fn any_of_list<H: ParserOverride>(hook: &H, a: &Vec<JsonValue>, coerce_members: bool, refs: &Refs) -> (r: String)
    ensures
        r@ == spec_any_of_list(*hook, items_view(a@), coerce_members, refs@),
    decreases arr_msize(items_view(a@), a@.len()), 1nat, 0nat,
{
    proof {
        lemma_items_view(a@);
    }
    if a.len() == 0 {
        return String::from_str("z.any()");
    }
    if a.len() == 1 {
        proof {
            lemma_item_smaller(items_view(a@), 0);
            lemma_coerce_size(items_view(a@)[0]);
        }
        let child = refs.step2(key("anyOf"), idx(0));
        if coerce_members {
            let x = coerce_object_member(&a[0]);
            return parse_schema_with(hook, &x, &child, false);
        } else {
            return parse_schema_with(hook, &a[0], &child, false);
        }
    }
    let parts = items(hook, a, coerce_members, refs, "anyOf");
    let joined = join_strings(&parts, ", ");
    let mut r = String::from_str("z.union([");
    r.append(joined.as_str());
    r.append("])");
    r
}

/// A generic `oneOf` list: empty is `z.any()`, one member unwraps, more make a
/// refinement that passes when exactly one member matches.
fn one_of_list<H: ParserOverride>(hook: &H, a: &Vec<JsonValue>, coerce_members: bool, refs: &Refs) -> (r: String)
    ensures
        r@ == spec_one_of_list(*hook, items_view(a@), coerce_members, refs@),
    decreases arr_msize(items_view(a@), a@.len()), 1nat, 0nat,
{
    proof {
        lemma_items_view(a@);
    }
    if a.len() == 0 {
        return String::from_str("z.any()");
    }
    if a.len() == 1 {
        proof {
            lemma_item_smaller(items_view(a@), 0);
            lemma_coerce_size(items_view(a@)[0]);
        }
        let child = refs.step2(key("oneOf"), idx(0));
        if coerce_members {
            let x = coerce_object_member(&a[0]);
            return parse_schema_with(hook, &x, &child, false);
        } else {
            return parse_schema_with(hook, &a[0], &child, false);
        }
    }
    let parts = items(hook, a, coerce_members, refs, "oneOf");
    let joined = join_strings(&parts, ", ");
    one_of_body(joined.as_str(), refs.zod_version == ZodVersion::V3)
}

/// The path step of an `allOf` leaf: its source index, or `"undefined"`.
fn leaf_segment(item: &JsonValue) -> (r: PathSegment)
    ensures
        r@ == leaf_seg(item@),
{
    match item.get(ORIGINAL_INDEX) {
        Some(v) => match v.as_u64() {
            Some(n) => idx(n as usize),
            None => key("undefined"),
        },
        None => key("undefined"),
    }
}

/// An `allOf` list as a right-leaning chain of intersections over halves.
fn all_of_list<H: ParserOverride>(hook: &H, s: &Vec<JsonValue>, refs: &Refs) -> (r: String)
    ensures
        r@ == spec_all_of_list(*hook, items_view(s@), refs@),
    decreases allof_bound(items_view(s@)), 0nat, 0nat,
{
    let ghost sv = items_view(s@);
    proof {
        lemma_items_view(s@);
    }
    if s.len() == 0 {
        return String::from_str("z.never()");
    }
    if s.len() == 1 {
        proof {
            lemma_allof_leaf(sv);
        }
        let item = &s[0];
        let child = refs.step2(key("allOf"), leaf_segment(item));
        // The index tag is stripped so that it does not leak into the output.
        let cleaned = strip_original_index(item);
        return parse_schema_with(hook, &cleaned, &child, false);
    }
    let tagged = ensure_original_index(s);
    let (left, right) = half(tagged.as_slice());
    proof {
        lemma_allof_halves(sv);
        let t = ensure_tagged(sv);
        let m = t.len() / 2;
        lemma_items_view(tagged@);
        lemma_items_view(left@);
        lemma_items_view(right@);
        assert(items_view(left@) =~= t.take(m as int));
        assert(items_view(right@) =~= t.skip(m as int));
    }
    let l = all_of_list(hook, &left, refs);
    let rr = all_of_list(hook, &right, refs);
    let mut r = String::from_str("z.intersection(");
    r.append(l.as_str());
    r.append(", ");
    r.append(rr.as_str());
    r.append(")");
    r
}

/// `anyOf` of a node.
pub(crate) fn parse_any_of_with<H: ParserOverride>(hook: &H, schema: &JsonValue, refs: &Refs) -> (r: String)
    ensures
        r@ == spec_parse_any_of(*hook, schema@, refs@),
    decreases msize(schema@), 1nat, 0nat,
{
    match schema.get("anyOf") {
        Some(v) => match v {
            JsonValue::Array(a) => {
                proof {
                    lemma_get_smaller(schema@, "anyOf"@);
                    lemma_value_views(*v);
                    lemma_items_view(a@);
                }
                any_of_list(hook, a, false, refs)
            },
            _ => String::from_str("z.any()"),
        },
        None => String::from_str("z.any()"),
    }
}

/// `oneOf` of a node, generic form.
pub(crate) fn parse_one_of_with<H: ParserOverride>(hook: &H, schema: &JsonValue, refs: &Refs) -> (r: String)
    ensures
        r@ == spec_parse_one_of(*hook, schema@, refs@),
    decreases msize(schema@), 1nat, 0nat,
{
    match schema.get("oneOf") {
        Some(v) => match v {
            JsonValue::Array(a) => {
                proof {
                    lemma_get_smaller(schema@, "oneOf"@);
                    lemma_value_views(*v);
                    lemma_items_view(a@);
                }
                one_of_list(hook, a, false, refs)
            },
            _ => String::from_str("z.any()"),
        },
        None => String::from_str("z.any()"),
    }
}

/// `allOf` of a node.
pub(crate) fn parse_all_of_with<H: ParserOverride>(hook: &H, schema: &JsonValue, refs: &Refs) -> (r: String)
    ensures
        r@ == spec_parse_all_of(*hook, schema@, refs@),
    decreases msize(schema@), 1nat, 0nat,
{
    match schema.get("allOf") {
        Some(v) => match v {
            JsonValue::Array(a) => {
                proof {
                    lemma_get_smaller(schema@, "allOf"@);
                    lemma_value_views(*v);
                    lemma_items_view(a@);
                    lemma_allof_bound_le(items_view(a@));
                }
                all_of_list(hook, a, refs)
            },
            _ => String::from_str("z.never()"),
        },
        None => String::from_str("z.never()"),
    }
}

/// The discriminator property name, or empty.
fn discriminator_property(schema: &JsonValue) -> (r: String)
    ensures
        r@ == discriminator_name(schema@),
{
    match schema.get("discriminator") {
        Some(d) => match d.get("propertyName") {
            Some(p) => match p.as_str() {
                Some(s) => String::from_str(s),
                None => String::new(),
            },
            None => String::new(),
        },
        None => String::new(),
    }
}

/// `z.discriminatedUnion("<prop>", [...])`; empty is `z.any()`, one member
/// unwraps.
pub(crate) fn parse_discriminated_with<H: ParserOverride>(
    hook: &H,
    schema: &JsonValue,
    refs: &Refs,
) -> (r: String)
    ensures
        r@ == spec_parse_discriminated(*hook, schema@, refs@),
    decreases msize(schema@), 1nat, 0nat,
{
    let v = match schema.get("oneOf") {
        Some(v) => v,
        None => {
            return String::from_str("z.any()");
        },
    };
    let a = match v {
        JsonValue::Array(a) => a,
        _ => {
            return String::from_str("z.any()");
        },
    };
    proof {
        lemma_get_smaller(schema@, "oneOf"@);
        lemma_value_views(*v);
        lemma_items_view(a@);
    }
    if a.len() == 0 {
        return String::from_str("z.any()");
    }
    if a.len() == 1 {
        proof {
            lemma_item_smaller(items_view(a@), 0);
        }
        let child = refs.step2(key("oneOf"), idx(0));
        return parse_schema_with(hook, &a[0], &child, false);
    }
    let prop = discriminator_property(schema);
    let parts = items(hook, a, false, refs, "oneOf");
    let joined = join_strings(&parts, ", ");
    let mut r = String::from_str("z.discriminatedUnion(");
    push_quoted(&mut r, prop.as_str());
    r.append(", [");
    r.append(joined.as_str());
    r.append("])");
    assert(r@ =~= spec_parse_discriminated(*hook, schema@, refs@));
    r
}

/// One union member per entry of a multi-valued `type`, each with
/// `.default(...)` dropped.
fn type_branches<H: ParserOverride>(hook: &H, schema: &JsonValue, refs: &Refs) -> (r: Vec<String>)
    requires
        type_is_list(schema@),
    ensures
        strs_view(r@) == spec_type_branches(
            *hook,
            schema@,
            refs@,
            get(schema@, "type"@)->0->Arr_0.len(),
        ),
    decreases msize(schema@), 0nat, 0nat,
{
    let o = match schema {
        JsonValue::Object(o) => o,
        _ => {
            return Vec::new();
        },
    };
    let tv = match schema.get("type") {
        Some(t) => t,
        None => {
            return Vec::new();
        },
    };
    let types = match tv {
        JsonValue::Array(t) => t,
        _ => {
            return Vec::new();
        },
    };
    let ghost tview = items_view(types@);
    proof {
        lemma_value_views(*schema);
        lemma_value_views(*tv);
        lemma_items_view(types@);
    }
    let nd = refs.without_defaults_copy();
    let mut out: Vec<String> = Vec::new();
    let mut i: usize = 0;
    while i < types.len()
        invariant
            schema@ == Json::Obj(entries_view(o@)),
            get(schema@, "type"@) == Some(Json::Arr(tview)),
            tview == items_view(types@),
            tview.len() == types@.len(),
            forall|m: int| 0 <= m < types@.len() ==> #[trigger] tview[m] == types@[m]@,
            nd@ == refs@.no_defaults(),
            type_is_list(schema@),
            i <= types@.len(),
            strs_view(out@) == spec_type_branches(*hook, schema@, refs@, i as nat),
        decreases types@.len() - i,
    {
        proof {
            lemma_type_branch_smaller(schema@, i as int);
        }
        let entries = set_member(o, "type", clone_json(&types[i]));
        let branch = JsonValue::Object(entries);
        proof {
            lemma_value_views(branch);
        }
        let s = parse_schema_with(hook, &branch, &nd, false);
        let ghost before = out@;
        out.push(s);
        proof {
            assert(strs_view(out@) =~= strs_view(before).push(s@));
        }
        i += 1;
    }
    out
}

/// A union over the entries of a multi-valued `type`.
pub(crate) fn parse_multiple_type_with<H: ParserOverride>(
    hook: &H,
    schema: &JsonValue,
    refs: &Refs,
) -> (r: String)
    ensures
        r@ == spec_parse_multiple_type(*hook, schema@, refs@),
    decreases msize(schema@), 1nat, 0nat,
{
    if !is_multiple_type(schema) {
        return String::new();
    }
    let parts = type_branches(hook, schema, refs);
    let joined = join_strings(&parts, ", ");
    let mut r = String::from_str("z.union([");
    r.append(joined.as_str());
    r.append("])");
    r
}


/// Whether the `items` schema has a primitive `type`.
fn items_are_primitive(schema: &JsonValue) -> (r: bool)
    ensures
        r == items_primitive(schema@),
{
    match schema.get("items") {
        Some(it) => is_member(it, "type", "string") || is_member(it, "type", "number") || is_member(
            it,
            "type",
            "integer",
        ) || is_member(it, "type", "boolean") || is_member(it, "type", "null"),
        None => false,
    }
}

/// The opening of the unique-items refinement.
fn unique_opener(schema: &JsonValue) -> (r: String)
    ensures
        r@ == unique_open(schema@),
{
    if items_are_primitive(schema) {
        String::from_str(UNIQUE_BY_INDEX)
    } else {
        let mut r = String::from_str(".refine((arr) => { ");
        r.append(EQUAL_FN);
        r.append(
            " return arr.every((item, i) => arr.findIndex((other) => equal(other, item)) == i); }",
        );
        assert(r@ =~= unique_open(schema@));
        r
    }
}

/// Append the min, max and unique modifiers of an array.
fn push_array_bounds(out: &mut String, schema: &JsonValue)
    ensures
        final(out)@ == old(out)@ + array_bounds(schema@),
{
    push_valued(out, schema, "minItems", ".min(", ", ", ")");
    push_valued(out, schema, "maxItems", ".max(", ", ", ")");
    if crate::json::opt_is_true(schema.get("uniqueItems")) {
        let open = unique_opener(schema);
        push_fixed(
            out,
            schema,
            "uniqueItems",
            Builder::Three(open, String::from_str(", "), String::from_str(")")),
            Some("All items must be unique!"),
        );
    }
    assert(out@ =~= old(out)@ + array_bounds(schema@));
}

/// `z.array(...)` or `z.tuple(...)` with its modifiers.
pub(crate) fn parse_array_with<H: ParserOverride>(hook: &H, schema: &JsonValue, refs: &Refs) -> (r: String)
    ensures
        r@ == spec_parse_array(*hook, schema@, refs@),
    decreases msize(schema@), 1nat, 0nat,
{
    let mut r = String::new();
    match schema.get("items") {
        Some(it) => {
            proof {
                lemma_get_smaller(schema@, "items"@);
                lemma_value_views(*it);
                if it is Array {
                    lemma_items_view(it->Array_0@);
                }
            }
            match it {
                JsonValue::Array(a) => {
                    // A tuple; its items join with a comma and no space.
                    let parts = items(hook, a, false, refs, "items");
                    let joined = join_strings(&parts, ",");
                    r.append("z.tuple([");
                    r.append(joined.as_str());
                    r.append("])");
                    assert(r@ =~= spec_parse_array(*hook, schema@, refs@));
                    return r;
                },
                _ => {
                    if is_truthy(it) {
                        let child = refs.step(key("items"));
                        let inner = parse_schema_with(hook, it, &child, false);
                        r.append("z.array(");
                        r.append(inner.as_str());
                        r.append(")");
                    } else {
                        r.append("z.array(z.any())");
                    }
                },
            }
        },
        None => {
            r.append("z.array(z.any())");
        },
    }
    push_array_bounds(&mut r, schema);
    assert(r@ =~= spec_parse_array(*hook, schema@, refs@));
    r
}

/// Append the modifier for a string `format`.
fn push_format(out: &mut String, schema: &JsonValue)
    ensures
        final(out)@ == old(out)@ + wm(
            schema@,
            "format"@,
            format_builder(
                match get(schema@, "format"@) {
                    Some(f) => as_str(f),
                    None => None,
                },
            ),
            None,
        ),
{
    let f = match schema.get("format") {
        Some(v) => match v.as_str() {
            Some(f) => f,
            None => {
                assert(out@ =~= old(out)@ + Seq::<char>::empty());
                return;
            },
        },
        None => {
            assert(out@ =~= old(out)@ + Seq::<char>::empty());
            return;
        },
    };
    let b = if str_eq(f, "email") {
        Some(Builder::Two(String::from_str(".email("), String::from_str(")")))
    } else if str_eq(f, "ip") {
        Some(Builder::Two(String::from_str(".ip("), String::from_str(")")))
    } else if str_eq(f, "ipv4") {
        Some(
            Builder::Three(
                String::from_str(".ip({ version: \"v4\""),
                String::from_str(", message: "),
                String::from_str(" })"),
            ),
        )
    } else if str_eq(f, "ipv6") {
        Some(
            Builder::Three(
                String::from_str(".ip({ version: \"v6\""),
                String::from_str(", message: "),
                String::from_str(" })"),
            ),
        )
    } else if str_eq(f, "uri") {
        Some(Builder::Two(String::from_str(".url("), String::from_str(")")))
    } else if str_eq(f, "uuid") {
        Some(Builder::Two(String::from_str(".uuid("), String::from_str(")")))
    } else if str_eq(f, "date-time") {
        Some(
            Builder::Three(
                String::from_str(".datetime({ offset: true"),
                String::from_str(", message: "),
                String::from_str(" })"),
            ),
        )
    } else if str_eq(f, "time") {
        Some(Builder::Two(String::from_str(".time("), String::from_str(")")))
    } else if str_eq(f, "date") {
        Some(Builder::Two(String::from_str(".date("), String::from_str(")")))
    } else if str_eq(f, "binary") {
        Some(Builder::Two(String::from_str(".base64("), String::from_str(")")))
    } else if str_eq(f, "duration") {
        Some(Builder::Two(String::from_str(".duration("), String::from_str(")")))
    } else {
        None
    };
    let ghost bv = match &b {
        Some(x) => Some(x@),
        None => None,
    };
    assert(bv == format_builder(Some(f@)));
    match b {
        Some(x) => push_assembled(out, schema, "format", x, None),
        None => {
            assert(out@ =~= old(out)@ + Seq::<char>::empty());
        },
    }
}

/// Append the `pattern` modifier.
fn push_pattern(out: &mut String, schema: &JsonValue)
    ensures
        final(out)@ == old(out)@ + wm(
            schema@,
            "pattern"@,
            three(".regex(new RegExp("@ + json_of(schema@, "pattern"@) + ")"@, ", "@, ")"@),
            None,
        ),
{
    match schema.get("pattern") {
        Some(v) => {
            let mut open = String::from_str(".regex(new RegExp(");
            push_json(&mut open, v);
            open.append(")");
            push_assembled(
                out,
                schema,
                "pattern",
                Builder::Three(open, String::from_str(", "), String::from_str(")")),
                None,
            );
        },
        None => {
            assert(out@ =~= old(out)@ + Seq::<char>::empty());
        },
    }
}

/// `z.string()` with format, pattern, length and content modifiers.
pub(crate) fn parse_string_with<H: ParserOverride>(hook: &H, schema: &JsonValue, refs: &Refs) -> (r: String)
    ensures
        r@ == spec_parse_string(*hook, schema@, refs@),
    decreases msize(schema@), 1nat, 0nat,
{
    let mut r = String::from_str("z.string()");
    push_format(&mut r, schema);
    push_pattern(&mut r, schema);
    push_valued(&mut r, schema, "minLength", ".min(", ", ", ")");
    push_valued(&mut r, schema, "maxLength", ".max(", ", ", ")");
    if is_member(schema, "contentEncoding", "base64") {
        push_fixed(
            &mut r,
            schema,
            "contentEncoding",
            Builder::Two(String::from_str(".base64("), String::from_str(")")),
            None,
        );
    }
    let mut media = String::new();
    if is_member(schema, "contentMediaType", "application/json") {
        push_fixed(
            &mut media,
            schema,
            "contentMediaType",
            Builder::Three(String::from_str(JSON_TRANSFORM), String::from_str(", "), String::from_str(")")),
            None,
        );
    }
    let ghost before_media = r@;
    if media.as_str().unicode_len() > 0 {
        r.append(media.as_str());
        match schema.get("contentSchema") {
            Some(c) => {
                if c.is_object() || c.is_array() {
                    proof {
                        lemma_get_smaller(schema@, "contentSchema"@);
                    }
                    let child = refs.step(key("contentSchema"));
                    let inner = parse_schema_with(hook, c, &child, false);
                    let mut open = String::from_str(".pipe(");
                    open.append(inner.as_str());
                    push_assembled(
                        &mut r,
                        schema,
                        "contentSchema",
                        Builder::Three(open, String::from_str(", "), String::from_str(")")),
                        None,
                    );
                }
            },
            None => {},
        }
    }
    assert(r@ =~= spec_parse_string(*hook, schema@, refs@));
    r
}


/// Whether an object property is required: by the `required` array when there
/// is one, else by its own `required: true`.
fn prop_is_required(schema: &JsonValue, k: &str, v: &JsonValue) -> (r: bool)
    ensures
        r == prop_required(schema@, k@, v@),
{
    match schema.get("required") {
        Some(req) => match req {
            JsonValue::Array(a) => {
                proof {
                    lemma_value_views(*req);
                    lemma_items_view(a@);
                }
                let mut i: usize = 0;
                while i < a.len()
                    invariant
                        get(schema@, "required"@) == Some(Json::Arr(items_view(a@))),
                        i <= a@.len(),
                        items_view(a@).len() == a@.len(),
                        forall|m: int| 0 <= m < a@.len() ==> #[trigger] items_view(a@)[m] == a@[m]@,
                        forall|m: int| 0 <= m < i ==> as_str(#[trigger] items_view(a@)[m]) != Some(k@),
                    decreases a@.len() - i,
                {
                    match a[i].as_str() {
                        Some(t) => {
                            if str_eq(t, k) {
                                proof {
                                    assert(as_str(items_view(a@)[i as int]) == Some(k@));
                                }
                                return true;
                            }
                        },
                        None => {},
                    }
                    i += 1;
                }
                false
            },
            _ => v.is_object() && crate::json::opt_is_true(v.get("required")),
        },
        None => v.is_object() && crate::json::opt_is_true(v.get("required")),
    }
}

/// The entries of `properties`, each `"key": schema` with its JSDoc and
/// `.optional()`.
fn prop_entries<H: ParserOverride>(
    hook: &H,
    schema: &JsonValue,
    o: &Vec<(String, JsonValue)>,
    refs: &Refs,
) -> (r: Vec<String>)
    ensures
        strs_view(r@) == spec_prop_entries(*hook, schema@, entries_view(o@), refs@, o@.len()),
    decreases obj_msize(entries_view(o@), o@.len()), 0nat, 0nat,
{
    let ghost ov = entries_view(o@);
    proof {
        lemma_entries_view(o@);
    }
    let mut out: Vec<String> = Vec::new();
    let mut i: usize = 0;
    while i < o.len()
        invariant
            ov == entries_view(o@),
            ov.len() == o@.len(),
            forall|m: int| 0 <= m < o@.len() ==> #[trigger] ov[m] == (o@[m].0@, o@[m].1@),
            i <= o@.len(),
            strs_view(out@) == spec_prop_entries(*hook, schema@, ov, refs@, i as nat),
        decreases o@.len() - i,
    {
        proof {
            lemma_entry_smaller(ov, i as int);
        }
        let k = o[i].0.as_str();
        let v = &o[i].1;
        let child = refs.step2(key("properties"), key(k));
        let parsed = parse_schema_with(hook, v, &child, false);
        let mut text = String::new();
        push_quoted(&mut text, k);
        text.append(": ");
        text.append(parsed.as_str());
        if refs.with_jsdocs && v.is_object() {
            text = add_jsdocs(v, text.as_str());
        }
        let has_default = v.is_object() && v.get("default").is_some();
        let required = prop_is_required(schema, k, v);
        if !has_default && !required {
            text.append(".optional()");
        }
        proof {
            assert(text@ =~= prop_entry(schema@, k@, v@, parsed@, refs@));
        }
        let ghost before = out@;
        let ghost tv = text@;
        out.push(text);
        proof {
            assert(strs_view(out@) =~= strs_view(before).push(tv));
        }
        i += 1;
    }
    out
}

/// The `z.object({ ... })` part, when `properties` is present.
fn properties_part<H: ParserOverride>(hook: &H, schema: &JsonValue, refs: &Refs) -> (r: Option<String>)
    ensures
        opt_view(r) == spec_properties(*hook, schema@, refs@),
    decreases msize(schema@), 0nat, 0nat,
{
    match schema.get("properties") {
        Some(p) => match p {
            JsonValue::Object(o) => {
                proof {
                    lemma_value_views(*p);
                    lemma_entries_view(o@);
                    lemma_get_smaller(schema@, "properties"@);
                }
                if o.len() == 0 {
                    Some(String::from_str("z.object({})"))
                } else {
                    let entries = prop_entries(hook, schema, o, refs);
                    let joined = join_strings(&entries, ", ");
                    let mut r = String::from_str("z.object({ ");
                    r.append(joined.as_str());
                    r.append(" })");
                    Some(r)
                }
            },
            _ => Some(String::from_str("z.object({})")),
        },
        None => None,
    }
}

/// The `additionalProperties` schema parsed one step down, when present.
fn additional_part<H: ParserOverride>(hook: &H, schema: &JsonValue, refs: &Refs) -> (r: Option<String>)
    ensures
        opt_view(r) == spec_additional(*hook, schema@, refs@),
    decreases msize(schema@), 0nat, 0nat,
{
    match schema.get("additionalProperties") {
        Some(ap) => {
            proof {
                lemma_get_smaller(schema@, "additionalProperties"@);
            }
            let child = refs.step(key("additionalProperties"));
            Some(parse_schema_with(hook, ap, &child, false))
        },
        None => None,
    }
}

/// The pattern schemas parsed, in key order.
fn pattern_values<H: ParserOverride>(hook: &H, po: &Vec<(String, JsonValue)>, refs: &Refs) -> (r: Vec<String>)
    ensures
        strs_view(r@) == spec_pattern_values(*hook, entries_view(po@), refs@, po@.len()),
        r@.len() == po@.len(),
    decreases obj_msize(entries_view(po@), po@.len()), 0nat, 0nat,
{
    let ghost ov = entries_view(po@);
    proof {
        lemma_entries_view(po@);
    }
    let mut out: Vec<String> = Vec::new();
    let mut i: usize = 0;
    while i < po.len()
        invariant
            ov == entries_view(po@),
            ov.len() == po@.len(),
            forall|m: int| 0 <= m < po@.len() ==> #[trigger] ov[m] == (po@[m].0@, po@[m].1@),
            i <= po@.len(),
            out@.len() == i,
            strs_view(out@) == spec_pattern_values(*hook, ov, refs@, i as nat),
        decreases po@.len() - i,
    {
        proof {
            lemma_entry_smaller(ov, i as int);
        }
        let child = refs.step2(key("patternProperties"), key(po[i].0.as_str()));
        let s = parse_schema_with(hook, &po[i].1, &child, false);
        let ghost before = out@;
        out.push(s);
        proof {
            assert(strs_view(out@) =~= strs_view(before).push(s@));
        }
        i += 1;
    }
    out
}

/// The joined schemas, with `extra` appended when present.
fn union_members(values: &Vec<String>, extra: &Option<String>) -> (r: Vec<String>)
    ensures
        strs_view(r@) == match opt_view(*extra) {
            Some(x) => strs_view(values@).push(x),
            None => strs_view(values@),
        },
{
    let mut all: Vec<String> = Vec::new();
    let mut i: usize = 0;
    while i < values.len()
        invariant
            i <= values@.len(),
            strs_view(all@) =~= strs_view(values@).take(i as int),
        decreases values@.len() - i,
    {
        let ghost before = all@;
        all.push(values[i].clone());
        proof {
            assert(strs_view(all@) =~= strs_view(before).push(values@[i as int]@));
        }
        i += 1;
    }
    assert(strs_view(values@).take(values@.len() as int) =~= strs_view(values@));
    match extra {
        Some(x) => {
            let ghost before = all@;
            all.push(x.clone());
            assert(strs_view(all@) =~= strs_view(before).push(x@));
        },
        None => {},
    }
    all
}

/// Append the validation of one pattern of the `patternProperties` refinement.
fn push_pattern_check(out: &mut String, pattern: &str, parsed: &str, additional: bool, refs: &Refs)
    ensures
        final(out)@ == old(out)@ + pattern_check(pattern@, parsed@, additional, refs@),
{
    out.append("if (key.match(new RegExp(");
    push_quoted(out, pattern);
    out.append("))) {\n");
    if additional {
        out.append("evaluated = true\n");
    }
    out.append("const result = ");
    out.append(parsed);
    out.append(".safeParse(value[key])\n");
    out.append("if (!result.success) {\n");
    push_issue(out, refs, KEY_MESSAGE);
    out.append("}\n");
    out.append("}\n");
    assert(out@ =~= old(out)@ + pattern_check(pattern@, parsed@, additional, refs@));
}

/// The catchall or record part before the `patternProperties` refinement.
fn pattern_head_text(
    values: &Vec<String>,
    properties: &Option<String>,
    additional: &Option<String>,
    refs: &Refs,
) -> (r: String)
    ensures
        r@ == pattern_head(strs_view(values@), opt_view(*properties), opt_view(*additional), refs@),
{
    let mut pp = String::new();
    if properties.is_some() {
        if additional.is_some() {
            let all = union_members(values, additional);
            let joined = join_strings(&all, ", ");
            pp.append(".catchall(z.union([");
            pp.append(joined.as_str());
            pp.append("]))");
        } else if values.len() > 1 {
            let joined = join_strings(values, ", ");
            pp.append(".catchall(z.union([");
            pp.append(joined.as_str());
            pp.append("]))");
        } else {
            // A single value is interpolated without surrounding spacing.
            let joined = join_strings(values, ",");
            pp.append(".catchall(");
            pp.append(joined.as_str());
            pp.append(")");
        }
    } else {
        let inner = if additional.is_some() {
            let all = union_members(values, additional);
            let joined = join_strings(&all, ", ");
            let mut u = String::from_str("z.union([");
            u.append(joined.as_str());
            u.append("])");
            u
        } else if values.len() > 1 {
            let joined = join_strings(values, ", ");
            let mut u = String::from_str("z.union([");
            u.append(joined.as_str());
            u.append("])");
            u
        } else {
            join_strings(values, ",")
        };
        let rec = emit_record(inner.as_str(), refs);
        pp.append(rec.as_str());
    }
    assert(pp@ =~= pattern_head(strs_view(values@), opt_view(*properties), opt_view(*additional), refs@));
    pp
}

/// The `evaluated` flag of the `patternProperties` refinement.
fn pattern_evaluated_text(schema: &JsonValue, additional: &Option<String>) -> (r: String)
    ensures
        r@ == pattern_evaluated(schema@, opt_view(*additional)),
{
    let mut pp = String::new();
    if additional.is_some() {
        match schema.get("properties") {
            Some(p) => match p {
                JsonValue::Object(o) => {
                    proof {
                        lemma_value_views(*p);
                    }
                    let keys = quoted_keys_of(o);
                    let joined = join_strings(&keys, ", ");
                    pp.append("let evaluated = [");
                    pp.append(joined.as_str());
                    pp.append("].includes(key)\n");
                },
                _ => {
                    pp.append("let evaluated = false\n");
                },
            },
            None => {
                pp.append("let evaluated = false\n");
            },
        }
    }
    assert(pp@ =~= pattern_evaluated(schema@, opt_view(*additional)));
    pp
}

/// The validation of uncovered keys against the additional-properties schema.
fn pattern_catchall_text(additional: &Option<String>, refs: &Refs) -> (r: String)
    ensures
        r@ == pattern_catchall(opt_view(*additional), refs@),
{
    let mut pp = String::new();
    match additional {
        Some(ap) => {
            pp.append("if (!evaluated) {\n");
            pp.append("const result = ");
            pp.append(ap.as_str());
            pp.append(".safeParse(value[key])\n");
            pp.append("if (!result.success) {\n");
            push_issue(&mut pp, refs, CATCHALL_MESSAGE);
            pp.append("}\n");
            pp.append("}\n");
        },
        None => {},
    }
    assert(pp@ =~= pattern_catchall(opt_view(*additional), refs@));
    pp
}

/// Render the `.catchall(...)`/record prefix plus the `.superRefine(...)` body
/// for `patternProperties`.
fn build_pattern_properties(
    schema: &JsonValue,
    po: &Vec<(String, JsonValue)>,
    values: &Vec<String>,
    properties: &Option<String>,
    additional: &Option<String>,
    refs: &Refs,
) -> (r: String)
    requires
        values@.len() == po@.len(),
    ensures
        r@ == pattern_body(
            schema@,
            entries_view(po@),
            strs_view(values@),
            opt_view(*properties),
            opt_view(*additional),
            refs@,
        ),
{
    let ghost vv = strs_view(values@);
    let ghost ov = entries_view(po@);
    proof {
        lemma_entries_view(po@);
    }
    let mut pp = pattern_head_text(values, properties, additional, refs);
    pp.append(".superRefine((value, ctx) => {\n");
    pp.append("for (const key in value) {\n");
    let evaluated = pattern_evaluated_text(schema, additional);
    pp.append(evaluated.as_str());
    let has_additional = additional.is_some();
    let ghost before_checks = pp@;
    let mut i: usize = 0;
    while i < po.len()
        invariant
            ov == entries_view(po@),
            vv == strs_view(values@),
            values@.len() == po@.len(),
            ov.len() == po@.len(),
            forall|m: int| 0 <= m < po@.len() ==> #[trigger] ov[m] == (po@[m].0@, po@[m].1@),
            i <= po@.len(),
            pp@ == before_checks + pattern_checks(ov, vv, has_additional, refs@, i as nat),
        decreases po@.len() - i,
    {
        push_pattern_check(&mut pp, po[i].0.as_str(), values[i].as_str(), has_additional, refs);
        proof {
            assert(vv[i as int] == values@[i as int]@);
            assert(pp@ =~= before_checks + pattern_checks(ov, vv, has_additional, refs@, (i + 1) as nat));
        }
        i += 1;
    }
    let catchall = pattern_catchall_text(additional, refs);
    pp.append(catchall.as_str());
    pp.append("}\n");
    pp.append("})");
    assert(pp@ =~= pattern_body(
        schema@,
        ov,
        vv,
        opt_view(*properties),
        opt_view(*additional),
        refs@,
    ));
    pp
}

/// The quoted keys of an object's entries.
fn quoted_keys_of(o: &Vec<(String, JsonValue)>) -> (r: Vec<String>)
    ensures
        strs_view(r@) == quoted_keys(entries_view(o@)),
{
    proof {
        lemma_entries_view(o@);
    }
    let mut out: Vec<String> = Vec::new();
    let mut i: usize = 0;
    while i < o.len()
        invariant
            i <= o@.len(),
            entries_view(o@).len() == o@.len(),
            forall|m: int| 0 <= m < o@.len() ==> #[trigger] entries_view(o@)[m] == (o@[m].0@, o@[m].1@),
            strs_view(out@) =~= quoted_keys(entries_view(o@)).take(i as int),
        decreases o@.len() - i,
    {
        let mut q = String::new();
        push_quoted(&mut q, o[i].0.as_str());
        let ghost before = out@;
        out.push(q);
        proof {
            assert(strs_view(out@) =~= strs_view(before).push(q@));
        }
        i += 1;
    }
    assert(quoted_keys(entries_view(o@)).take(o@.len() as int) =~= quoted_keys(entries_view(o@)));
    out
}

/// The `patternProperties` part, when `patternProperties` is an object.
fn patterns_part<H: ParserOverride>(
    hook: &H,
    schema: &JsonValue,
    refs: &Refs,
    properties: &Option<String>,
    additional: &Option<String>,
) -> (r: Option<String>)
    ensures
        opt_view(r) == spec_patterns(*hook, schema@, refs@, opt_view(*properties), opt_view(*additional)),
    decreases msize(schema@), 0nat, 0nat,
{
    match schema.get("patternProperties") {
        Some(p) => match p {
            JsonValue::Object(po) => {
                proof {
                    lemma_value_views(*p);
                    lemma_entries_view(po@);
                    lemma_get_smaller(schema@, "patternProperties"@);
                }
                let values = pattern_values(hook, po, refs);
                Some(build_pattern_properties(schema, po, &values, properties, additional, refs))
            },
            _ => None,
        },
        None => None,
    }
}

/// Select the base expression from properties, patternProperties, and
/// additionalProperties by precedence.
fn build_base(
    properties: &Option<String>,
    pattern_properties: &Option<String>,
    additional_properties: &Option<String>,
    refs: &Refs,
) -> (r: String)
    ensures
        r@ == object_base(
            opt_view(*properties),
            opt_view(*pattern_properties),
            opt_view(*additional_properties),
            refs@,
        ),
{
    match properties {
        Some(props) => match pattern_properties {
            Some(pp) => {
                let mut r = props.clone();
                r.append(pp.as_str());
                r
            },
            None => match additional_properties {
                Some(ap) => {
                    let mut r = props.clone();
                    if str_eq(ap.as_str(), "z.never()") {
                        r.append(".strict()");
                    } else {
                        r.append(".catchall(");
                        r.append(ap.as_str());
                        r.append(")");
                    }
                    r
                },
                None => props.clone(),
            },
        },
        None => match pattern_properties {
            Some(pp) => pp.clone(),
            None => match additional_properties {
                Some(ap) => emit_record(ap.as_str(), refs),
                None => emit_record("z.any()", refs),
            },
        },
    }
}

/// The `anyOf` combinator appended to an object schema.
fn and_any_of<H: ParserOverride>(hook: &H, schema: &JsonValue, refs: &Refs) -> (r: String)
    ensures
        r@ == match get(schema@, "anyOf"@) {
            Some(Json::Arr(a)) => ".and("@ + spec_any_of_list(*hook, a, true, refs@) + ")"@,
            Some(_) => ".and(z.any())"@,
            None => Seq::empty(),
        },
    decreases msize(schema@), 0nat, 0nat,
{
    match schema.get("anyOf") {
        Some(v) => match v {
            JsonValue::Array(a) => {
                proof {
                    lemma_get_smaller(schema@, "anyOf"@);
                    lemma_value_views(*v);
                    lemma_items_view(a@);
                }
                let s = any_of_list(hook, a, true, refs);
                let mut out = String::from_str(".and(");
                out.append(s.as_str());
                out.append(")");
                out
            },
            _ => String::from_str(".and(z.any())"),
        },
        None => String::new(),
    }
}

/// The `oneOf` combinator appended to an object schema.
fn and_one_of<H: ParserOverride>(hook: &H, schema: &JsonValue, refs: &Refs) -> (r: String)
    ensures
        r@ == match get(schema@, "oneOf"@) {
            Some(Json::Arr(a)) => ".and("@ + spec_one_of_list(*hook, a, true, refs@) + ")"@,
            Some(_) => ".and(z.any())"@,
            None => Seq::empty(),
        },
    decreases msize(schema@), 0nat, 0nat,
{
    match schema.get("oneOf") {
        Some(v) => match v {
            JsonValue::Array(a) => {
                proof {
                    lemma_get_smaller(schema@, "oneOf"@);
                    lemma_value_views(*v);
                    lemma_items_view(a@);
                }
                let s = one_of_list(hook, a, true, refs);
                let mut out = String::from_str(".and(");
                out.append(s.as_str());
                out.append(")");
                out
            },
            _ => String::from_str(".and(z.any())"),
        },
        None => String::new(),
    }
}

/// The `allOf` combinator appended to an object schema.
fn and_all_of<H: ParserOverride>(hook: &H, schema: &JsonValue, refs: &Refs) -> (r: String)
    ensures
        r@ == match get(schema@, "allOf"@) {
            Some(Json::Arr(a)) => ".and("@ + spec_all_of_list(*hook, coerce_all(a), refs@) + ")"@,
            Some(_) => ".and(z.never())"@,
            None => Seq::empty(),
        },
    decreases msize(schema@), 0nat, 0nat,
{
    match schema.get("allOf") {
        Some(v) => match v {
            JsonValue::Array(a) => {
                proof {
                    lemma_get_smaller(schema@, "allOf"@);
                    lemma_value_views(*v);
                    lemma_items_view(a@);
                    lemma_allof_bound_coerced(items_view(a@));
                }
                let c = coerce_members(a);
                let s = all_of_list(hook, &c, refs);
                let mut out = String::from_str(".and(");
                out.append(s.as_str());
                out.append(")");
                out
            },
            _ => String::from_str(".and(z.never())"),
        },
        None => String::new(),
    }
}

/// The combinators appended to an object schema with `.and(...)`; their
/// members with object keywords but no `type` count as objects.
fn object_combinators<H: ParserOverride>(hook: &H, schema: &JsonValue, refs: &Refs) -> (r: String)
    ensures
        r@ == spec_object_combinators(*hook, schema@, refs@),
    decreases msize(schema@), 0nat, 1nat,
{
    let mut out = and_any_of(hook, schema, refs);
    let one = and_one_of(hook, schema, refs);
    out.append(one.as_str());
    let all = and_all_of(hook, schema, refs);
    out.append(all.as_str());
    out
}

/// An object schema: properties, additionalProperties, patternProperties, the
/// strict/catchall/record base, and appended `anyOf`/`oneOf`/`allOf`.
pub(crate) fn parse_object_with<H: ParserOverride>(hook: &H, schema: &JsonValue, refs: &Refs) -> (r: String)
    ensures
        r@ == spec_parse_object(*hook, schema@, refs@),
    decreases msize(schema@), 1nat, 0nat,
{
    let properties = properties_part(hook, schema, refs);
    let additional = additional_part(hook, schema, refs);
    let pattern = patterns_part(hook, schema, refs, &properties, &additional);
    let mut output = build_base(&properties, &pattern, &additional, refs);
    let combos = object_combinators(hook, schema, refs);
    output.append(combos.as_str());
    output
}

// ---------------------------------------------------------------------------
// The parsers on their own, without an override hook.
// ---------------------------------------------------------------------------

/// `z.literal(<json>)` from the `const` value. An object or array value
/// becomes a refinement that accepts any equal JSON value.
pub fn parse_const(schema: &JsonValue) -> (r: String)
    requires
        json_wf(schema@),
    ensures
        r@ == spec_parse_const(schema@),
{
    render_const(schema)
}

/// Lower an `enum` to a literal, a string enum, or a union of literals.
///
/// Empty yields `z.never()`. A single value yields `z.literal`. All strings
/// yield `z.enum`. A mix yields `z.union` of literals.
pub fn parse_enum(schema: &JsonValue) -> (r: String)
    requires
        json_wf(schema@),
    ensures
        r@ == spec_parse_enum(schema@),
{
    render_enum(schema)
}

/// Build `z.number()` and append int, multipleOf, and range modifiers.
pub fn parse_number(schema: &JsonValue) -> (r: String)
    requires
        json_wf(schema@),
    ensures
        r@ == spec_parse_number(schema@),
{
    render_number(schema)
}


/// `<inner>.nullable()` where `inner` is the schema with `nullable` removed and
/// metadata blocked. The outer frame applies metadata to the wrapper.
pub fn parse_nullable(schema: &JsonValue, refs: &Refs) -> (r: String)
    requires
        json_wf(schema@),
    ensures
        r@ == spec_parse_schema(NoOverride, omit_key(schema@, "nullable"@), refs@, true)
            + ".nullable()"@,
{
    let inner = omit(schema, "nullable");
    let mut r = parse_schema_with(&NoOverride, &inner, refs, true);
    r.append(".nullable()");
    r
}

/// `z.any().refine(...)` that rejects anything matching the `not` schema.
pub fn parse_not(schema: &JsonValue, refs: &Refs) -> (r: String)
    requires
        json_wf(schema@),
    ensures
        r@ == spec_parse_not(NoOverride, schema@, refs@),
{
    parse_not_with(&NoOverride, schema, refs)
}

/// Lower `if`/`then`/`else` to a union refined by the condition.
pub fn parse_if_then_else(schema: &JsonValue, refs: &Refs) -> (r: String)
    requires
        json_wf(schema@),
    ensures
        r@ == spec_parse_if_then_else(NoOverride, schema@, refs@),
{
    parse_if_then_else_with(&NoOverride, schema, refs)
}

/// `z.union([...])` over `anyOf`. Empty yields `z.any()`, a single member
/// unwraps.
pub fn parse_any_of(schema: &JsonValue, refs: &Refs) -> (r: String)
    requires
        json_wf(schema@),
    ensures
        r@ == spec_parse_any_of(NoOverride, schema@, refs@),
{
    parse_any_of_with(&NoOverride, schema, refs)
}

/// Lower a generic `oneOf` to a `z.any().superRefine(...)` that passes when
/// exactly one branch matches. The emitted body differs between Zod v3 and v4.
pub fn parse_one_of(schema: &JsonValue, refs: &Refs) -> (r: String)
    requires
        json_wf(schema@),
    ensures
        r@ == spec_parse_one_of(NoOverride, schema@, refs@),
{
    parse_one_of_with(&NoOverride, schema, refs)
}

/// Lower `allOf` to a right-leaning chain of `z.intersection`. Empty yields
/// `z.never()`.
pub fn parse_all_of(schema: &JsonValue, refs: &Refs) -> (r: String)
    requires
        json_wf(schema@),
    ensures
        r@ == spec_parse_all_of(NoOverride, schema@, refs@),
{
    parse_all_of_with(&NoOverride, schema, refs)
}

/// `z.discriminatedUnion("<prop>", [...])`. Empty yields `z.any()`, a single
/// member unwraps.
pub fn parse_simple_discriminated_one_of(schema: &JsonValue, refs: &Refs) -> (r: String)
    requires
        json_wf(schema@),
    ensures
        r@ == spec_parse_discriminated(NoOverride, schema@, refs@),
{
    parse_discriminated_with(&NoOverride, schema, refs)
}

/// Lower an `array` to `z.tuple` or `z.array` with min, max, and unique
/// modifiers.
pub fn parse_array(schema: &JsonValue, refs: &Refs) -> (r: String)
    requires
        json_wf(schema@),
    ensures
        r@ == spec_parse_array(NoOverride, schema@, refs@),
{
    parse_array_with(&NoOverride, schema, refs)
}

/// Lower an `object` schema. Handles properties, additionalProperties,
/// patternProperties, the strict/catchall/record base, and appended
/// `anyOf`/`oneOf`/`allOf` combinators.
pub fn parse_object(schema: &JsonValue, refs: &Refs) -> (r: String)
    requires
        json_wf(schema@),
    ensures
        r@ == spec_parse_object(NoOverride, schema@, refs@),
{
    parse_object_with(&NoOverride, schema, refs)
}

/// A `z.union([...])` over each entry in a multi-valued `type`. Per-branch
/// defaults are dropped so the union carries the default once. The dispatcher
/// only routes here when `type` is an array.
pub fn parse_multiple_type(schema: &JsonValue, refs: &Refs) -> (r: String)
    requires
        json_wf(schema@),
        type_is_list(schema@),
    ensures
        r@ == spec_parse_multiple_type(NoOverride, schema@, refs@),
{
    parse_multiple_type_with(&NoOverride, schema, refs)
}

/// Build `z.string()` and append format, pattern, length, and content
/// modifiers in a fixed order. A `contentSchema` is parsed with default refs.
pub fn parse_string(schema: &JsonValue) -> (r: String)
    requires
        json_wf(schema@),
    ensures
        r@ == spec_parse_string(NoOverride, schema@, default_refs()),
{
    let refs = Refs::default_v4();
    parse_string_with(&NoOverride, schema, &refs)
}

} // verus!
