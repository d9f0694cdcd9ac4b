//! What the transform emits for each schema node, as mathematical functions of
//! the node, the refs, and the override hook. Every parser's contract is stated
//! against these functions.
use vstd::prelude::*;

use crate::jsdocs::jsdocs_prefix;
use crate::json::{
    Json, Num, as_str, as_u64, get, has_key, is_true, msize, arr_msize, obj_msize, num_is_one,
    omit_key, set_entry, swap_remove_entry, truthy, wsum, lemma_get_smaller, lemma_item_smaller,
    lemma_entry_smaller, lemma_omit_smaller, lemma_set_smaller,
};
use crate::predicates::{member_is, member_truthy, spec_is_conditional, spec_is_simple_discriminated_one_of};
use crate::text::{json_quote, stringify};
use crate::types::{ParserOverride, RefsView, Seg};
use crate::util::{assemble, join};

verus! {

// ---------------------------------------------------------------------------
// Fixed text.
// ---------------------------------------------------------------------------

/// Opening of the transform that parses a JSON string before piping it on.
pub const JSON_TRANSFORM: &'static str = ".transform((str, ctx) => { try { return JSON.parse(str); } catch (err) { ctx.addIssue({ code: \"custom\", message: \"Invalid JSON\" }); }}";

/// A JavaScript deep equality on JSON values, as a local `equal` binding.
pub const EQUAL_FN: &'static str = "const equal = (a, b) => a === b || (typeof a === \"object\" && typeof b === \"object\" && a !== null && b !== null && Array.isArray(a) === Array.isArray(b) && Object.keys(a).length === Object.keys(b).length && Object.keys(a).every((k) => Object.prototype.hasOwnProperty.call(b, k) && equal(a[k], b[k])));";

/// Unique-items check by identity, for items of a primitive type.
pub const UNIQUE_BY_INDEX: &'static str = ".refine((arr) => arr.every((item, i) => arr.indexOf(item) == i)";

/// The `oneOf` refinement, split around its holes.
pub const ONE_OF_0: &'static str = "z.any().superRefine((x, ctx) => {\n    const schemas = [";
pub const ONE_OF_1: &'static str = "];\n    const { errors, failed } = schemas.reduce<{\n      errors: z.";
pub const ONE_OF_2: &'static str = "[];\n      failed: number;\n    }>(\n      ({ errors, failed }, schema) =>\n        ((result) =>\n          result.error\n            ? {\n                errors: [...errors, ";
pub const ONE_OF_3: &'static str = "],\n                failed: failed + 1,\n              }\n            : { errors, failed })(\n          schema.safeParse(x),\n        ),\n      { errors: [], failed: 0 },\n    );\n    const passed = schemas.length - failed;\n    if (passed !== 1) {\n      ctx.addIssue(errors.length ? {\n        path: ";
pub const ONE_OF_4: &'static str = ",\n        code: \"invalid_union\",\n        ";
pub const ONE_OF_5: &'static str = ",\n        message: \"Invalid input: Should pass single schema. Passed \" + passed,\n      } : {\n        path: ";
pub const ONE_OF_6: &'static str = ",\n        code: \"custom\",";
pub const ONE_OF_7: &'static str = "\n        message: \"Invalid input: Should pass single schema. Passed \" + passed,\n      });\n    }\n  })";
pub const V4_EXTRA: &'static str = "\n        errors: [errors],";

/// The `if`/`then`/`else` refinement, split around its holes.
pub const ITE_0: &'static str = ".superRefine((value,ctx) => {\n  const result = ";
pub const ITE_1: &'static str = ".safeParse(value).success\n    ? ";
pub const ITE_2: &'static str = ".safeParse(value)\n    : ";
pub const ITE_3: &'static str = ".safeParse(value);\n  if (!result.success) {\n    result.error.errors.forEach((error) => ctx.addIssue(error))\n  }\n})";

/// The `not` refinement, split around its hole.
pub const NOT_0: &'static str = "z.any().refine((value) => !";
pub const NOT_1: &'static str = ".safeParse(value).success, \"Invalid input: Should NOT be valid against schema\")";

/// Issue reporting inside the `patternProperties` refinement.
pub const ISSUE_0: &'static str = "ctx.addIssue({\n          ";
pub const ISSUE_1: &'static str = ",\n          code: 'custom',\n          message: `";
pub const ISSUE_2: &'static str = "`,\n          params: {\n            issues: result.error.issues\n          }\n        })\n";
pub const KEY_MESSAGE: &'static str = "Invalid input: Key matching regex /${key}/ must match schema";
pub const CATCHALL_MESSAGE: &'static str = "Invalid input: must match catchall schema";

/// Key of the source-index tag that `allOf` splitting puts on its members.
pub const ORIGINAL_INDEX: &'static str = "__originalIndex";

// ---------------------------------------------------------------------------
// Non-recursive pieces.
// ---------------------------------------------------------------------------

/// `JSON.stringify(schema[key])` (meaningful when the key is present).
pub open spec fn json_of(j: Json, k: Seq<char>) -> Seq<char> {
    stringify(get(j, k)->0)
}

/// A modifier for `schema[key]` built from `b` when the key is present and a
/// builder applies; nothing otherwise.
pub open spec fn wm(
    j: Json,
    k: Seq<char>,
    b: Option<(Seq<char>, Seq<char>, Seq<char>)>,
    fallback: Option<Seq<char>>,
) -> Seq<char> {
    match get(j, k) {
        Some(_) => match b {
            Some(b) => assemble(j, k, b, fallback),
            None => Seq::empty(),
        },
        None => Seq::empty(),
    }
}

/// A builder with an opener and closer only.
pub open spec fn two(o: Seq<char>, c: Seq<char>) -> Option<(Seq<char>, Seq<char>, Seq<char>)> {
    Some((o, Seq::empty(), c))
}

/// A builder with an opener, a message prefix and a closer.
pub open spec fn three(o: Seq<char>, p: Seq<char>, c: Seq<char>) -> Option<
    (Seq<char>, Seq<char>, Seq<char>),
> {
    Some((o, p, c))
}

/// The modifier for a string `format`.
pub open spec fn format_builder(f: Option<Seq<char>>) -> Option<(Seq<char>, Seq<char>, Seq<char>)> {
    match f {
        Some(v) => if v == "email"@ {
            two(".email("@, ")"@)
        } else if v == "ip"@ {
            two(".ip("@, ")"@)
        } else if v == "ipv4"@ {
            three(".ip({ version: \"v4\""@, ", message: "@, " })"@)
        } else if v == "ipv6"@ {
            three(".ip({ version: \"v6\""@, ", message: "@, " })"@)
        } else if v == "uri"@ {
            two(".url("@, ")"@)
        } else if v == "uuid"@ {
            two(".uuid("@, ")"@)
        } else if v == "date-time"@ {
            three(".datetime({ offset: true"@, ", message: "@, " })"@)
        } else if v == "time"@ {
            two(".time("@, ")"@)
        } else if v == "date"@ {
            two(".date("@, ")"@)
        } else if v == "binary"@ {
            two(".base64("@, ")"@)
        } else if v == "duration"@ {
            two(".duration("@, ")"@)
        } else {
            None
        },
        None => None,
    }
}

/// `z.literal(...)` of a value, or a deep-equality refinement for an object or
/// array value, which matches equal JSON values rather than one identity.
pub open spec fn literal_of(c: Json) -> Seq<char> {
    if c is Arr || c is Obj {
        "z.any().refine((value) => { "@ + EQUAL_FN@ + " return equal(value, "@ + stringify(c)
            + "); })"@
    } else {
        "z.literal("@ + stringify(c) + ")"@
    }
}

/// `z.literal` from the `const` value.
pub open spec fn spec_parse_const(j: Json) -> Seq<char> {
    literal_of(
        match get(j, "const"@) {
            Some(c) => c,
            None => Json::Null,
        },
    )
}

/// `"z.literal(" + JSON + ")"` for each value.
pub open spec fn literal_parts(a: Seq<Json>) -> Seq<Seq<char>> {
    Seq::new(a.len(), |i: int| "z.literal("@ + stringify(a[i]) + ")"@)
}

/// The JSON text of each value.
pub open spec fn json_parts(a: Seq<Json>) -> Seq<Seq<char>> {
    Seq::new(a.len(), |i: int| stringify(a[i]))
}

/// An `enum`: empty is `z.never()`, one value a literal, all strings a
/// `z.enum`, otherwise a union of literals.
pub open spec fn spec_parse_enum(j: Json) -> Seq<char> {
    match get(j, "enum"@) {
        Some(Json::Arr(a)) => if a.len() == 0 {
            "z.never()"@
        } else if a.len() == 1 {
            "z.literal("@ + stringify(a[0]) + ")"@
        } else if forall|i: int| 0 <= i < a.len() ==> #[trigger] a[i] is Str {
            "z.enum(["@ + join(json_parts(a), ","@) + "])"@
        } else {
            "z.union(["@ + join(literal_parts(a), ", "@) + "])"@
        },
        _ => "z.never()"@,
    }
}

/// The `.int(` modifier that `z.number()` takes first.
pub open spec fn int_part(j: Json) -> Seq<char> {
    if member_is(j, "type"@, "integer"@) {
        wm(j, "type"@, two(".int("@, ")"@), None)
    } else {
        wm(
            j,
            "format"@,
            if member_is(j, "format"@, "int64"@) {
                two(".int("@, ")"@)
            } else {
                None
            },
            None,
        )
    }
}

/// Whether `schema[key]` is a number.
pub open spec fn member_is_number(j: Json, k: Seq<char>) -> bool {
    match get(j, k) {
        Some(v) => v is Num,
        None => false,
    }
}

/// The lower bound modifier of a number.
pub open spec fn min_part(j: Json) -> Seq<char> {
    if member_is_number(j, "minimum"@) {
        if is_true(get(j, "exclusiveMinimum"@)) {
            wm(j, "minimum"@, three(".gt("@ + json_of(j, "minimum"@), ", "@, ")"@), None)
        } else {
            wm(j, "minimum"@, three(".gte("@ + json_of(j, "minimum"@), ", "@, ")"@), None)
        }
    } else if member_is_number(j, "exclusiveMinimum"@) {
        wm(
            j,
            "exclusiveMinimum"@,
            three(".gt("@ + json_of(j, "exclusiveMinimum"@), ", "@, ")"@),
            None,
        )
    } else {
        Seq::empty()
    }
}

/// The upper bound modifier of a number.
pub open spec fn max_part(j: Json) -> Seq<char> {
    if member_is_number(j, "maximum"@) {
        if is_true(get(j, "exclusiveMaximum"@)) {
            wm(j, "maximum"@, three(".lt("@ + json_of(j, "maximum"@), ", "@, ")"@), None)
        } else {
            wm(j, "maximum"@, three(".lte("@ + json_of(j, "maximum"@), ", "@, ")"@), None)
        }
    } else if member_is_number(j, "exclusiveMaximum"@) {
        wm(
            j,
            "exclusiveMaximum"@,
            three(".lt("@ + json_of(j, "exclusiveMaximum"@), ", "@, ")"@),
            None,
        )
    } else {
        Seq::empty()
    }
}

/// Whether `multipleOf` is a number equal to one.
pub open spec fn multiple_is_one(j: Json) -> bool {
    match get(j, "multipleOf"@) {
        Some(Json::Num(n)) => num_is_one(n),
        _ => false,
    }
}

/// Whether `type` is an array of types.
pub open spec fn type_is_list(j: Json) -> bool {
    match get(j, "type"@) {
        Some(t) => t is Arr,
        None => false,
    }
}

/// The `multipleOf` modifier: a multiple of one is `.int(` unless already there.
pub open spec fn multiple_part(j: Json) -> Seq<char> {
    wm(
        j,
        "multipleOf"@,
        if multiple_is_one(j) {
            if int_part(j).len() > 0 {
                None
            } else {
                two(".int("@, ")"@)
            }
        } else {
            three(".multipleOf("@ + json_of(j, "multipleOf"@), ", "@, ")"@)
        },
        None,
    )
}

/// `z.number()` with int, multipleOf and range modifiers.
pub open spec fn spec_parse_number(j: Json) -> Seq<char> {
    "z.number()"@ + int_part(j) + multiple_part(j) + min_part(j) + max_part(j)
}

/// Whether the `items` schema has a primitive `type`.
pub open spec fn items_primitive(j: Json) -> bool {
    match get(j, "items"@) {
        Some(it) => member_is(it, "type"@, "string"@) || member_is(it, "type"@, "number"@)
            || member_is(it, "type"@, "integer"@) || member_is(it, "type"@, "boolean"@)
            || member_is(it, "type"@, "null"@),
        None => false,
    }
}

/// The opening of the unique-items refinement: identity for primitive items,
/// deep equality otherwise, so that equal objects and arrays count as duplicates.
pub open spec fn unique_open(j: Json) -> Seq<char> {
    if items_primitive(j) {
        UNIQUE_BY_INDEX@
    } else {
        ".refine((arr) => { "@ + EQUAL_FN@
            + " return arr.every((item, i) => arr.findIndex((other) => equal(other, item)) == i); }"@
    }
}

/// The min, max and unique modifiers of an array.
pub open spec fn array_bounds(j: Json) -> Seq<char> {
    wm(j, "minItems"@, three(".min("@ + json_of(j, "minItems"@), ", "@, ")"@), None) + wm(
        j,
        "maxItems"@,
        three(".max("@ + json_of(j, "maxItems"@), ", "@, ")"@),
        None,
    ) + if is_true(get(j, "uniqueItems"@)) {
        wm(j, "uniqueItems"@, three(unique_open(j), ", "@, ")"@), Some("All items must be unique!"@))
    } else {
        Seq::empty()
    }
}

/// The `if`/`then`/`else` refinement over the three parsed branches.
pub open spec fn ite_refine(i: Seq<char>, t: Seq<char>, e: Seq<char>) -> Seq<char> {
    ITE_0@ + i + ITE_1@ + t + ITE_2@ + e + ITE_3@
}

/// The generic `oneOf` refinement over the joined member schemas.
pub open spec fn one_of_text(schemas: Seq<char>, v3: bool) -> Seq<char> {
    let error_type = if v3 {
        "ZodError"@
    } else {
        "core.$ZodIssue"@
    };
    let error_push = if v3 {
        "result.error"@
    } else {
        "...result.error.issues"@
    };
    let path = if v3 {
        "ctx.path"@
    } else {
        "[]"@
    };
    let union_line = if v3 {
        "unionErrors: errors"@
    } else {
        "errors: [errors]"@
    };
    let extra = if v3 {
        Seq::empty()
    } else {
        V4_EXTRA@
    };
    ONE_OF_0@ + schemas + ONE_OF_1@ + error_type + ONE_OF_2@ + error_push + ONE_OF_3@ + path
        + ONE_OF_4@ + union_line + ONE_OF_5@ + path + ONE_OF_6@ + extra + ONE_OF_7@
}

/// `z.record` of a value schema, by Zod version.
pub open spec fn record_of(v: Seq<char>, r: RefsView) -> Seq<char> {
    if r.v3() {
        "z.record("@ + v + ")"@
    } else {
        "z.record(z.string(), "@ + v + ")"@
    }
}

/// The issue path inside the `patternProperties` refinement, by Zod version.
pub open spec fn error_path(r: RefsView) -> Seq<char> {
    if r.v3() {
        "path: [...ctx.path, key]"@
    } else {
        "path: [key]"@
    }
}

/// One reported issue inside the `patternProperties` refinement.
pub open spec fn issue_text(r: RefsView, message: Seq<char>) -> Seq<char> {
    ISSUE_0@ + error_path(r) + ISSUE_1@ + message + ISSUE_2@
}

/// The validation of one pattern: a matching key must satisfy the parsed value schema.
pub open spec fn pattern_check(pattern: Seq<char>, parsed: Seq<char>, additional: bool, r: RefsView) -> Seq<char> {
    "if (key.match(new RegExp("@ + json_quote(pattern) + "))) {\n"@ + (if additional {
        "evaluated = true\n"@
    } else {
        Seq::empty()
    }) + "const result = "@ + parsed + ".safeParse(value[key])\n"@ + "if (!result.success) {\n"@
        + issue_text(r, KEY_MESSAGE@) + "}\n"@ + "}\n"@
}

/// The validations of the first `n` patterns.
pub open spec fn pattern_checks(
    po: Seq<(Seq<char>, Json)>,
    parsed: Seq<Seq<char>>,
    additional: bool,
    r: RefsView,
    n: nat,
) -> Seq<char>
    decreases n,
{
    if n == 0 {
        Seq::empty()
    } else {
        pattern_checks(po, parsed, additional, r, (n - 1) as nat) + pattern_check(
            po[n - 1].0,
            parsed[n - 1],
            additional,
            r,
        )
    }
}

/// The quoted keys of the first `n` entries.
pub open spec fn quoted_keys(o: Seq<(Seq<char>, Json)>) -> Seq<Seq<char>> {
    Seq::new(o.len(), |i: int| json_quote(o[i].0))
}

/// The catchall or record part that `patternProperties` puts before its
/// refinement: the pattern schemas, with the additional-properties schema
/// when there is one, as one schema.
pub open spec fn pattern_head(
    values: Seq<Seq<char>>,
    props: Option<Seq<char>>,
    addl: Option<Seq<char>>,
    r: RefsView,
) -> Seq<char> {
    if props is Some {
        match addl {
            Some(ap) => ".catchall(z.union(["@ + join(values.push(ap), ", "@) + "]))"@,
            None => if values.len() > 1 {
                ".catchall(z.union(["@ + join(values, ", "@) + "]))"@
            } else {
                ".catchall("@ + join(values, ","@) + ")"@
            },
        }
    } else {
        match addl {
            Some(ap) => record_of("z.union(["@ + join(values.push(ap), ", "@) + "])"@, r),
            None => if values.len() > 1 {
                record_of("z.union(["@ + join(values, ", "@) + "])"@, r)
            } else {
                record_of(join(values, ","@), r)
            },
        }
    }
}

/// The `evaluated` flag of the refinement: set for the declared properties
/// when there are additional properties to check.
pub open spec fn pattern_evaluated(j: Json, addl: Option<Seq<char>>) -> Seq<char> {
    match addl {
        Some(_) => match get(j, "properties"@) {
            Some(Json::Obj(p)) => "let evaluated = ["@ + join(quoted_keys(p), ", "@)
                + "].includes(key)\n"@,
            _ => "let evaluated = false\n"@,
        },
        None => Seq::empty(),
    }
}

/// The validation of keys that no pattern or property covers against the
/// additional-properties schema.
pub open spec fn pattern_catchall(addl: Option<Seq<char>>, r: RefsView) -> Seq<char> {
    match addl {
        Some(ap) => "if (!evaluated) {\n"@ + "const result = "@ + ap + ".safeParse(value[key])\n"@
            + "if (!result.success) {\n"@ + issue_text(r, CATCHALL_MESSAGE@) + "}\n"@ + "}\n"@,
        None => Seq::empty(),
    }
}

/// The `patternProperties` output: the catchall or record part, then the
/// refinement that checks every key against the patterns and, when there are
/// additional properties, the catchall schema for keys no pattern or property
/// covers.
pub open spec fn pattern_body(
    j: Json,
    po: Seq<(Seq<char>, Json)>,
    values: Seq<Seq<char>>,
    props: Option<Seq<char>>,
    addl: Option<Seq<char>>,
    r: RefsView,
) -> Seq<char> {
    pattern_head(values, props, addl, r) + ".superRefine((value, ctx) => {\n"@
        + "for (const key in value) {\n"@ + pattern_evaluated(j, addl) + pattern_checks(
        po,
        values,
        addl is Some,
        r,
        po.len(),
    ) + pattern_catchall(addl, r) + "}\n"@ + "})"@
}

/// The base of an object schema by precedence of properties, pattern
/// properties and additional properties.
pub open spec fn object_base(
    props: Option<Seq<char>>,
    pattern: Option<Seq<char>>,
    addl: Option<Seq<char>>,
    r: RefsView,
) -> Seq<char> {
    match props {
        Some(p) => match pattern {
            Some(pp) => p + pp,
            None => match addl {
                Some(ap) => if ap == "z.never()"@ {
                    p + ".strict()"@
                } else {
                    p + ".catchall("@ + ap + ")"@
                },
                None => p,
            },
        },
        None => match pattern {
            Some(pp) => pp,
            None => match addl {
                Some(ap) => record_of(ap, r),
                None => record_of("z.any()"@, r),
            },
        },
    }
}

/// A combinator member with object keywords but no `type` gets `type: "object"`.
pub open spec fn coerce(x: Json) -> Json {
    match x {
        Json::Obj(m) => if !has_key(m, "type"@) && (has_key(m, "properties"@) || has_key(
            m,
            "additionalProperties"@,
        ) || has_key(m, "patternProperties"@)) {
            Json::Obj(m.push(("type"@, Json::Str("object"@))))
        } else {
            x
        },
        _ => x,
    }
}

/// A member, coerced when asked.
pub open spec fn maybe_coerce(x: Json, c: bool) -> Json {
    if c {
        coerce(x)
    } else {
        x
    }
}

/// Every member coerced.
pub open spec fn coerce_all(a: Seq<Json>) -> Seq<Json> {
    Seq::new(a.len(), |i: int| coerce(a[i]))
}

/// A member with its source-index tag removed.
pub open spec fn strip(x: Json) -> Json {
    match x {
        Json::Obj(o) => Json::Obj(swap_remove_entry(o, ORIGINAL_INDEX@)),
        _ => x,
    }
}

/// A member tagged with its source index: `true` becomes `{}`-with-tag, `false`
/// a tagged `{ not: {} }`, an object gets the tag appended, anything else stays.
pub open spec fn tag(x: Json, i: nat) -> Json {
    let t = (ORIGINAL_INDEX@, Json::Num(Num::PosInt(i as u64)));
    match x {
        Json::Bool(true) => Json::Obj(seq![t]),
        Json::Bool(false) => Json::Obj(seq![t, ("not"@, Json::Obj(Seq::empty()))]),
        Json::Obj(m) => Json::Obj(m.push(t)),
        _ => x,
    }
}

/// Whether a member is an object that carries the source-index tag.
pub open spec fn is_tagged(x: Json) -> bool {
    match x {
        Json::Obj(m) => has_key(m, ORIGINAL_INDEX@),
        _ => false,
    }
}

/// Whether some member is an object that already carries the tag.
pub open spec fn any_tagged(s: Seq<Json>) -> bool {
    exists|i: int| 0 <= i < s.len() && #[trigger] is_tagged(s[i])
}

/// The members tagged with their indices, unless one already carries a tag.
pub open spec fn ensure_tagged(s: Seq<Json>) -> Seq<Json> {
    if any_tagged(s) {
        s
    } else {
        Seq::new(s.len(), |i: int| tag(s[i], i as nat))
    }
}

/// The path step of an `allOf` leaf: its source index, or `"undefined"`.
pub open spec fn leaf_seg(x: Json) -> Seg {
    match get(x, ORIGINAL_INDEX@) {
        Some(v) => match as_u64(v) {
            Some(n) => Seg::Index(n as usize),
            None => Seg::Key("undefined"@),
        },
        None => Seg::Key("undefined"@),
    }
}

/// Weight of an `allOf` member for the halving recursion.
pub open spec fn allof_weight() -> spec_fn(Json) -> nat {
    |x: Json| 3 + msize(strip(x))
}

/// Bound on the `allOf` halving recursion.
pub open spec fn allof_bound(s: Seq<Json>) -> nat {
    wsum(s, allof_weight(), s.len())
}

/// The discriminator property name, or empty.
pub open spec fn discriminator_name(j: Json) -> Seq<char> {
    match get(j, "discriminator"@) {
        Some(d) => match get(d, "propertyName"@) {
            Some(p) => match as_str(p) {
                Some(s) => s,
                None => Seq::empty(),
            },
            None => Seq::empty(),
        },
        None => Seq::empty(),
    }
}

/// Whether an object property is required: by the `required` array when there
/// is one, else by its own `required: true`.
pub open spec fn prop_required(j: Json, k: Seq<char>, v: Json) -> bool {
    match get(j, "required"@) {
        Some(Json::Arr(req)) => exists|i: int| 0 <= i < req.len() && as_str(req[i]) == Some(k),
        _ => v is Obj && is_true(get(v, "required"@)),
    }
}

/// `.describe(<json>)` when `description` is present and truthy.
pub open spec fn describe_text(j: Json) -> Seq<char> {
    match get(j, "description"@) {
        Some(d) => if truthy(d) {
            ".describe("@ + stringify(d) + ")"@
        } else {
            Seq::empty()
        },
        None => Seq::empty(),
    }
}

/// `.default(<json>)` when `default` is present; an explicit `null` is kept.
pub open spec fn default_text(j: Json) -> Seq<char> {
    match get(j, "default"@) {
        Some(d) => ".default("@ + stringify(d) + ")"@,
        None => Seq::empty(),
    }
}

/// The `.describe(...)` modifier, unless describes are dropped.
pub open spec fn describe_part(j: Json, r: RefsView) -> Seq<char> {
    if r.without_describes {
        Seq::empty()
    } else {
        describe_text(j)
    }
}

/// The `.default(...)` modifier, unless defaults are dropped.
pub open spec fn default_part(j: Json, r: RefsView) -> Seq<char> {
    if r.without_defaults {
        Seq::empty()
    } else {
        default_text(j)
    }
}

/// The `.readonly()` modifier.
pub open spec fn readonly_part(j: Json) -> Seq<char> {
    if member_truthy(j, "readOnly"@) {
        ".readonly()"@
    } else {
        Seq::empty()
    }
}

// ---------------------------------------------------------------------------
// The recursive walk.
// ---------------------------------------------------------------------------

/// The emission of a schema node. A boolean schema (anything but an object)
/// yields `z.any()` when truthy and `z.never()` otherwise. An object goes
/// through the override hook, then the parser that the dispatcher selects,
/// then the describe, default and readonly metadata unless `block` is set.
pub open spec fn spec_parse_schema<H: ParserOverride>(h: H, j: Json, r: RefsView, block: bool) -> Seq<char>
    decreases msize(j), 3nat, 0nat,
{
    if !(j is Obj) {
        if truthy(j) {
            "z.any()"@
        } else {
            "z.never()"@
        }
    } else {
        match h.overrides(j, r) {
            Some(c) => c,
            None => {
                let parsed = spec_select(h, j, r);
                if block {
                    parsed
                } else {
                    parsed + describe_part(j, r) + default_part(j, r) + readonly_part(j)
                }
            },
        }
    }
}

/// The conditional refinement that follows a typed parser, when the node is a
/// conditional.
pub open spec fn spec_conditional<H: ParserOverride>(h: H, j: Json, r: RefsView) -> Seq<char>
    decreases msize(j), 1nat, 0nat,
{
    if spec_is_conditional(j) {
        ite_refine(
            spec_child(h, j, r, "if"@),
            spec_child(h, j, r, "then"@),
            spec_child(h, j, r, "else"@),
        )
    } else {
        Seq::empty()
    }
}

/// The dispatcher: the first matching parser wins.
pub open spec fn spec_select<H: ParserOverride>(h: H, j: Json, r: RefsView) -> Seq<char>
    decreases msize(j), 2nat, 0nat,
{
    if is_true(get(j, "nullable"@)) {
        proof {
            lemma_omit_smaller(j, "nullable"@);
        }
        spec_parse_schema(h, omit_key(j, "nullable"@), r, true) + ".nullable()"@
    } else if member_is(j, "type"@, "object"@) {
        spec_parse_object(h, j, r) + spec_conditional(h, j, r)
    } else if member_is(j, "type"@, "array"@) {
        spec_parse_array(h, j, r) + spec_conditional(h, j, r)
    } else if get(j, "anyOf"@) is Some {
        spec_parse_any_of(h, j, r)
    } else if get(j, "allOf"@) is Some {
        spec_parse_all_of(h, j, r)
    } else if spec_is_simple_discriminated_one_of(j) {
        spec_parse_discriminated(h, j, r)
    } else if get(j, "oneOf"@) is Some {
        spec_parse_one_of(h, j, r)
    } else if get(j, "not"@) is Some {
        spec_parse_not(h, j, r)
    } else if get(j, "enum"@) is Some {
        spec_parse_enum(j)
    } else if get(j, "const"@) is Some {
        spec_parse_const(j)
    } else if type_is_list(j) {
        spec_parse_multiple_type(h, j, r)
    } else if member_is(j, "type"@, "string"@) {
        spec_parse_string(h, j, r) + spec_conditional(h, j, r)
    } else if member_is(j, "type"@, "number"@) || member_is(j, "type"@, "integer"@) {
        spec_parse_number(j) + spec_conditional(h, j, r)
    } else if member_is(j, "type"@, "boolean"@) {
        "z.boolean()"@ + spec_conditional(h, j, r)
    } else if member_is(j, "type"@, "null"@) {
        "z.null()"@ + spec_conditional(h, j, r)
    } else if spec_is_conditional(j) {
        spec_parse_if_then_else(h, j, r)
    } else {
        "z.any()"@
    }
}

/// The member `k` parsed one step down, or `z.never()` (the emission of an
/// absent member) when it is absent.
pub open spec fn spec_child<H: ParserOverride>(h: H, j: Json, r: RefsView, k: Seq<char>) -> Seq<char>
    decreases msize(j), 0nat, 0nat,
{
    match get(j, k) {
        Some(c) => {
            proof {
                lemma_get_smaller(j, k);
            }
            spec_parse_schema(h, c, r.push(Seg::Key(k)), false)
        },
        None => "z.never()"@,
    }
}

/// `z.any().refine(...)` that rejects anything matching the `not` schema.
pub open spec fn spec_parse_not<H: ParserOverride>(h: H, j: Json, r: RefsView) -> Seq<char>
    decreases msize(j), 1nat, 0nat,
{
    NOT_0@ + spec_child(h, j, r, "not"@) + NOT_1@
}

/// A union of `then` and `else`, refined by the condition.
pub open spec fn spec_parse_if_then_else<H: ParserOverride>(h: H, j: Json, r: RefsView) -> Seq<
    char,
>
    decreases msize(j), 1nat, 0nat,
{
    let t = spec_child(h, j, r, "then"@);
    let e = spec_child(h, j, r, "else"@);
    "z.union(["@ + t + ", "@ + e + "])"@ + ite_refine(spec_child(h, j, r, "if"@), t, e)
}

/// The members of a list parsed at `k`/index, the first `n` of them.
pub open spec fn spec_items<H: ParserOverride>(
    h: H,
    a: Seq<Json>,
    c: bool,
    r: RefsView,
    k: Seq<char>,
    n: nat,
) -> Seq<Seq<char>>
    decreases arr_msize(a, a.len()), 0nat, n,
{
    if n == 0 || n > a.len() {
        Seq::empty()
    } else {
        proof {
            lemma_item_smaller(a, n - 1);
            crate::model::lemma_coerce_size(a[n - 1]);
        }
        spec_items(h, a, c, r, k, (n - 1) as nat).push(
            spec_parse_schema(
                h,
                maybe_coerce(a[n - 1], c),
                r.push2(Seg::Key(k), Seg::Index((n - 1) as usize)),
                false,
            ),
        )
    }
}

/// An `anyOf` list: empty is `z.any()`, one member unwraps, more make a union.
pub open spec fn spec_any_of_list<H: ParserOverride>(h: H, a: Seq<Json>, c: bool, r: RefsView) -> Seq<
    char,
>
    decreases arr_msize(a, a.len()), 1nat, 0nat,
{
    if a.len() == 0 {
        "z.any()"@
    } else if a.len() == 1 {
        proof {
            lemma_item_smaller(a, 0);
            crate::model::lemma_coerce_size(a[0]);
        }
        spec_parse_schema(h, maybe_coerce(a[0], c), r.push2(Seg::Key("anyOf"@), Seg::Index(0)), false)
    } else {
        "z.union(["@ + join(spec_items(h, a, c, r, "anyOf"@, a.len()), ", "@) + "])"@
    }
}

/// A generic `oneOf` list: empty is `z.any()`, one member unwraps, more make a
/// refinement that passes when exactly one member matches.
pub open spec fn spec_one_of_list<H: ParserOverride>(h: H, a: Seq<Json>, c: bool, r: RefsView) -> Seq<
    char,
>
    decreases arr_msize(a, a.len()), 1nat, 0nat,
{
    if a.len() == 0 {
        "z.any()"@
    } else if a.len() == 1 {
        proof {
            lemma_item_smaller(a, 0);
            crate::model::lemma_coerce_size(a[0]);
        }
        spec_parse_schema(h, maybe_coerce(a[0], c), r.push2(Seg::Key("oneOf"@), Seg::Index(0)), false)
    } else {
        one_of_text(join(spec_items(h, a, c, r, "oneOf"@, a.len()), ", "@), r.v3())
    }
}

/// An `allOf` list as a right-leaning chain of intersections over halves.
pub open spec fn spec_all_of_list<H: ParserOverride>(h: H, s: Seq<Json>, r: RefsView) -> Seq<char>
    decreases allof_bound(s), 0nat, 0nat,
{
    if s.len() == 0 {
        "z.never()"@
    } else if s.len() == 1 {
        proof {
            crate::model::lemma_allof_leaf(s);
        }
        spec_parse_schema(h, strip(s[0]), r.push2(Seg::Key("allOf"@), leaf_seg(s[0])), false)
    } else {
        let t = ensure_tagged(s);
        let m = t.len() / 2;
        proof {
            crate::model::lemma_allof_halves(s);
        }
        "z.intersection("@ + spec_all_of_list(h, t.take(m as int), r) + ", "@ + spec_all_of_list(
            h,
            t.skip(m as int),
            r,
        ) + ")"@
    }
}

/// `anyOf` of a node.
pub open spec fn spec_parse_any_of<H: ParserOverride>(h: H, j: Json, r: RefsView) -> Seq<char>
    decreases msize(j), 1nat, 0nat,
{
    match get(j, "anyOf"@) {
        Some(Json::Arr(a)) => {
            proof {
                lemma_get_smaller(j, "anyOf"@);
            }
            spec_any_of_list(h, a, false, r)
        },
        _ => "z.any()"@,
    }
}

/// `oneOf` of a node, generic form.
pub open spec fn spec_parse_one_of<H: ParserOverride>(h: H, j: Json, r: RefsView) -> Seq<char>
    decreases msize(j), 1nat, 0nat,
{
    match get(j, "oneOf"@) {
        Some(Json::Arr(a)) => {
            proof {
                lemma_get_smaller(j, "oneOf"@);
            }
            spec_one_of_list(h, a, false, r)
        },
        _ => "z.any()"@,
    }
}

/// `allOf` of a node.
pub open spec fn spec_parse_all_of<H: ParserOverride>(h: H, j: Json, r: RefsView) -> Seq<char>
    decreases msize(j), 1nat, 0nat,
{
    match get(j, "allOf"@) {
        Some(Json::Arr(a)) => {
            proof {
                lemma_get_smaller(j, "allOf"@);
                crate::model::lemma_allof_bound_le(a);
            }
            spec_all_of_list(h, a, r)
        },
        _ => "z.never()"@,
    }
}

/// `z.discriminatedUnion("<prop>", [...])`; empty is `z.any()`, one member
/// unwraps.
pub open spec fn spec_parse_discriminated<H: ParserOverride>(h: H, j: Json, r: RefsView) -> Seq<
    char,
>
    decreases msize(j), 1nat, 0nat,
{
    match get(j, "oneOf"@) {
        Some(Json::Arr(a)) => {
            proof {
                lemma_get_smaller(j, "oneOf"@);
            }
            if a.len() == 0 {
                "z.any()"@
            } else if a.len() == 1 {
                proof {
                    lemma_item_smaller(a, 0);
                }
                spec_parse_schema(h, a[0], r.push2(Seg::Key("oneOf"@), Seg::Index(0)), false)
            } else {
                "z.discriminatedUnion("@ + json_quote(discriminator_name(j)) + ", ["@ + join(
                    spec_items(h, a, false, r, "oneOf"@, a.len()),
                    ", "@,
                ) + "])"@
            }
        },
        _ => "z.any()"@,
    }
}

/// One union member per entry of a multi-valued `type`, each with
/// `.default(...)` dropped; the first `n` of them.
pub open spec fn spec_type_branches<H: ParserOverride>(h: H, j: Json, r: RefsView, n: nat) -> Seq<
    Seq<char>,
>
    decreases msize(j), 0nat, n,
{
    match get(j, "type"@) {
        Some(Json::Arr(t)) => if n == 0 || n > t.len() {
            Seq::empty()
        } else {
            proof {
                crate::model::lemma_type_branch_smaller(j, n - 1);
            }
            spec_type_branches(h, j, r, (n - 1) as nat).push(
                spec_parse_schema(
                    h,
                    Json::Obj(set_entry(j->Obj_0, "type"@, t[n - 1])),
                    r.no_defaults(),
                    false,
                ),
            )
        },
        _ => Seq::empty(),
    }
}

/// A union over the entries of a multi-valued `type`.
pub open spec fn spec_parse_multiple_type<H: ParserOverride>(h: H, j: Json, r: RefsView) -> Seq<
    char,
>
    decreases msize(j), 1nat, 0nat,
{
    match get(j, "type"@) {
        Some(Json::Arr(t)) => "z.union(["@ + join(spec_type_branches(h, j, r, t.len()), ", "@)
            + "])"@,
        _ => Seq::empty(),
    }
}

/// `z.array(...)` or `z.tuple(...)` with its modifiers.
pub open spec fn spec_parse_array<H: ParserOverride>(h: H, j: Json, r: RefsView) -> Seq<char>
    decreases msize(j), 1nat, 0nat,
{
    match get(j, "items"@) {
        Some(Json::Arr(a)) => {
            proof {
                lemma_get_smaller(j, "items"@);
            }
            "z.tuple(["@ + join(spec_items(h, a, false, r, "items"@, a.len()), ","@) + "])"@
        },
        Some(x) => {
            proof {
                lemma_get_smaller(j, "items"@);
            }
            (if truthy(x) {
                "z.array("@ + spec_parse_schema(h, x, r.push(Seg::Key("items"@)), false) + ")"@
            } else {
                "z.array(z.any())"@
            }) + array_bounds(j)
        },
        None => "z.array(z.any())"@ + array_bounds(j),
    }
}

/// `z.string()` with format, pattern, length and content modifiers. The
/// `contentSchema` follows the active refs and hook, one step down.
pub open spec fn spec_parse_string<H: ParserOverride>(h: H, j: Json, r: RefsView) -> Seq<char>
    decreases msize(j), 1nat, 0nat,
{
    let fmt = wm(
        j,
        "format"@,
        format_builder(
            match get(j, "format"@) {
                Some(f) => as_str(f),
                None => None,
            },
        ),
        None,
    );
    let pattern = wm(
        j,
        "pattern"@,
        three(".regex(new RegExp("@ + json_of(j, "pattern"@) + ")"@, ", "@, ")"@),
        None,
    );
    let min = wm(j, "minLength"@, three(".min("@ + json_of(j, "minLength"@), ", "@, ")"@), None);
    let max = wm(j, "maxLength"@, three(".max("@ + json_of(j, "maxLength"@), ", "@, ")"@), None);
    let encoding = wm(
        j,
        "contentEncoding"@,
        if member_is(j, "contentEncoding"@, "base64"@) {
            two(".base64("@, ")"@)
        } else {
            None
        },
        None,
    );
    let media = wm(
        j,
        "contentMediaType"@,
        if member_is(j, "contentMediaType"@, "application/json"@) {
            three(JSON_TRANSFORM@, ", "@, ")"@)
        } else {
            None
        },
        None,
    );
    let content = match get(j, "contentSchema"@) {
        Some(c) => if c is Obj || c is Arr {
            proof {
                lemma_get_smaller(j, "contentSchema"@);
            }
            wm(
                j,
                "contentSchema"@,
                three(
                    ".pipe("@ + spec_parse_schema(h, c, r.push(Seg::Key("contentSchema"@)), false),
                    ", "@,
                    ")"@,
                ),
                None,
            )
        } else {
            Seq::empty()
        },
        None => Seq::empty(),
    };
    "z.string()"@ + fmt + pattern + min + max + encoding + if media.len() > 0 {
        media + content
    } else {
        Seq::empty()
    }
}

/// One `"key": schema` entry of `z.object`, with its JSDoc and `.optional()`.
pub open spec fn prop_entry(j: Json, k: Seq<char>, v: Json, parsed: Seq<char>, r: RefsView) -> Seq<
    char,
> {
    let text = json_quote(k) + ": "@ + parsed;
    let text = if r.with_jsdocs && v is Obj {
        jsdocs_prefix(v) + text
    } else {
        text
    };
    let has_default = v is Obj && get(v, "default"@) is Some;
    if !has_default && !prop_required(j, k, v) {
        text + ".optional()"@
    } else {
        text
    }
}

/// The entries of `properties`, the first `n` of them.
pub open spec fn spec_prop_entries<H: ParserOverride>(
    h: H,
    j: Json,
    o: Seq<(Seq<char>, Json)>,
    r: RefsView,
    n: nat,
) -> Seq<Seq<char>>
    decreases obj_msize(o, o.len()), 0nat, n,
{
    if n == 0 || n > o.len() {
        Seq::empty()
    } else {
        proof {
            lemma_entry_smaller(o, n - 1);
        }
        let k = o[n - 1].0;
        let v = o[n - 1].1;
        spec_prop_entries(h, j, o, r, (n - 1) as nat).push(
            prop_entry(
                j,
                k,
                v,
                spec_parse_schema(h, v, r.push2(Seg::Key("properties"@), Seg::Key(k)), false),
                r,
            ),
        )
    }
}

/// The `z.object({ ... })` part, when `properties` is present.
pub open spec fn spec_properties<H: ParserOverride>(h: H, j: Json, r: RefsView) -> Option<Seq<char>>
    decreases msize(j), 0nat, 0nat,
{
    match get(j, "properties"@) {
        Some(Json::Obj(o)) => if o.len() == 0 {
            Some("z.object({})"@)
        } else {
            proof {
                lemma_get_smaller(j, "properties"@);
            }
            Some("z.object({ "@ + join(spec_prop_entries(h, j, o, r, o.len()), ", "@) + " })"@)
        },
        Some(_) => Some("z.object({})"@),
        None => None,
    }
}

/// The `additionalProperties` schema parsed one step down, when present.
pub open spec fn spec_additional<H: ParserOverride>(h: H, j: Json, r: RefsView) -> Option<Seq<char>>
    decreases msize(j), 0nat, 0nat,
{
    match get(j, "additionalProperties"@) {
        Some(ap) => {
            proof {
                lemma_get_smaller(j, "additionalProperties"@);
            }
            Some(spec_parse_schema(h, ap, r.push(Seg::Key("additionalProperties"@)), false))
        },
        None => None,
    }
}

/// The pattern schemas parsed, the first `n` of them.
pub open spec fn spec_pattern_values<H: ParserOverride>(
    h: H,
    po: Seq<(Seq<char>, Json)>,
    r: RefsView,
    n: nat,
) -> Seq<Seq<char>>
    decreases obj_msize(po, po.len()), 0nat, n,
{
    if n == 0 || n > po.len() {
        Seq::empty()
    } else {
        proof {
            lemma_entry_smaller(po, n - 1);
        }
        spec_pattern_values(h, po, r, (n - 1) as nat).push(
            spec_parse_schema(
                h,
                po[n - 1].1,
                r.push2(Seg::Key("patternProperties"@), Seg::Key(po[n - 1].0)),
                false,
            ),
        )
    }
}

/// The `patternProperties` part, when `patternProperties` is an object.
pub open spec fn spec_patterns<H: ParserOverride>(
    h: H,
    j: Json,
    r: RefsView,
    props: Option<Seq<char>>,
    addl: Option<Seq<char>>,
) -> Option<Seq<char>>
    decreases msize(j), 0nat, 0nat,
{
    match get(j, "patternProperties"@) {
        Some(Json::Obj(po)) => {
            proof {
                lemma_get_smaller(j, "patternProperties"@);
            }
            Some(pattern_body(j, po, spec_pattern_values(h, po, r, po.len()), props, addl, r))
        },
        _ => None,
    }
}

/// The combinators appended to an object schema with `.and(...)`; their
/// members with object keywords but no `type` count as objects.
pub open spec fn spec_object_combinators<H: ParserOverride>(h: H, j: Json, r: RefsView) -> Seq<char>
    decreases msize(j), 0nat, 0nat,
{
    let any = match get(j, "anyOf"@) {
        Some(Json::Arr(a)) => {
            proof {
                lemma_get_smaller(j, "anyOf"@);
            }
            ".and("@ + spec_any_of_list(h, a, true, r) + ")"@
        },
        Some(_) => ".and(z.any())"@,
        None => Seq::empty(),
    };
    let one = match get(j, "oneOf"@) {
        Some(Json::Arr(a)) => {
            proof {
                lemma_get_smaller(j, "oneOf"@);
            }
            ".and("@ + spec_one_of_list(h, a, true, r) + ")"@
        },
        Some(_) => ".and(z.any())"@,
        None => Seq::empty(),
    };
    let all = match get(j, "allOf"@) {
        Some(Json::Arr(a)) => {
            proof {
                lemma_get_smaller(j, "allOf"@);
                crate::model::lemma_allof_bound_coerced(a);
            }
            ".and("@ + spec_all_of_list(h, coerce_all(a), r) + ")"@
        },
        Some(_) => ".and(z.never())"@,
        None => Seq::empty(),
    };
    any + one + all
}

/// An object schema: its base from properties, pattern properties and
/// additional properties, then its combinators.
pub open spec fn spec_parse_object<H: ParserOverride>(h: H, j: Json, r: RefsView) -> Seq<char>
    decreases msize(j), 1nat, 0nat,
{
    let props = spec_properties(h, j, r);
    let addl = spec_additional(h, j, r);
    let pattern = spec_patterns(h, j, r, props, addl);
    object_base(props, pattern, addl, r) + spec_object_combinators(h, j, r)
}

// ---------------------------------------------------------------------------
// Size facts for the recursion.
// ---------------------------------------------------------------------------

/// Coercion adds at most one small entry.
pub proof fn lemma_coerce_size(x: Json)
    ensures
        msize(coerce(x)) <= msize(x) + 2,
{
    if let Json::Obj(m) = x {
        if coerce(x) != x {
            crate::json::lemma_push_entry_size(m, ("type"@, Json::Str("object"@)));
        }
    }
}

/// Removing the tag never grows a value.
pub proof fn lemma_strip_size(x: Json)
    ensures
        msize(strip(x)) <= msize(x),
{
    if let Json::Obj(o) = x {
        crate::json::lemma_swap_remove_size(o, ORIGINAL_INDEX@);
    }
}

/// A tagged member, stripped again, is no larger than the member stripped.
pub proof fn lemma_strip_tag_size(x: Json, i: nat)
    requires
        !is_tagged(x),
    ensures
        msize(strip(tag(x, i))) <= msize(strip(x)),
{
    let t = (ORIGINAL_INDEX@, Json::Num(Num::PosInt(i as u64)));
    match x {
        Json::Bool(true) => {
            let o = seq![t];
            crate::json::lemma_find_key(o, ORIGINAL_INDEX@);
            assert(o[0].0 == ORIGINAL_INDEX@);
            assert(swap_remove_entry(o, ORIGINAL_INDEX@) =~= Seq::<(Seq<char>, Json)>::empty());
        },
        Json::Bool(false) => {
            let e = ("not"@, Json::Obj(Seq::empty()));
            let o = seq![t, e];
            crate::json::lemma_find_key(o, ORIGINAL_INDEX@);
            assert(o[0].0 == ORIGINAL_INDEX@);
            let rest = swap_remove_entry(o, ORIGINAL_INDEX@);
            assert(rest =~= seq![e]);
            assert(obj_msize(Seq::<(Seq<char>, Json)>::empty(), 0) == 0);
            assert(msize(Json::Obj(Seq::empty())) == 1);
            assert(obj_msize(rest, 0) == 0);
            assert(obj_msize(rest, 1) == 2);
        },
        Json::Obj(m) => {
            let o = m.push(t);
            crate::json::lemma_find_key(o, ORIGINAL_INDEX@);
            crate::json::lemma_find_key(m, ORIGINAL_INDEX@);
            if let Some(k) = crate::json::find_key(o, ORIGINAL_INDEX@) {
                if k < m.len() {
                    assert(m[k].0 == ORIGINAL_INDEX@);
                }
            }
            assert(o[m.len() as int].0 == ORIGINAL_INDEX@);
            assert(swap_remove_entry(o, ORIGINAL_INDEX@) =~= m);
            assert(swap_remove_entry(m, ORIGINAL_INDEX@) == m);
        },
        _ => {},
    }
}

/// Tagging never grows the bound.
pub proof fn lemma_ensure_bound(s: Seq<Json>)
    ensures
        ensure_tagged(s).len() == s.len(),
        allof_bound(ensure_tagged(s)) <= allof_bound(s),
{
    if !any_tagged(s) {
        let t = ensure_tagged(s);
        assert forall|i: int| 0 <= i < s.len() implies (allof_weight())(t[i]) <= (allof_weight())(
            s[i],
        ) by {
            assert(!is_tagged(s[i]));
            lemma_strip_tag_size(s[i], i as nat);
        }
        crate::json::lemma_wsum_mono(t, s, allof_weight(), allof_weight(), s.len());
    }
}

/// A single member is below the bound.
pub proof fn lemma_allof_leaf(s: Seq<Json>)
    requires
        s.len() == 1,
    ensures
        msize(strip(s[0])) < allof_bound(s),
{
    assert(wsum(s, allof_weight(), 0) == 0);
}

/// Both halves of the tagged members are below the bound.
pub proof fn lemma_allof_halves(s: Seq<Json>)
    requires
        s.len() >= 2,
    ensures
        ({
            let t = ensure_tagged(s);
            let m = t.len() / 2;
            &&& allof_bound(t.take(m as int)) < allof_bound(s)
            &&& allof_bound(t.skip(m as int)) < allof_bound(s)
        }),
{
    let t = ensure_tagged(s);
    lemma_ensure_bound(s);
    let m = (t.len() / 2) as int;
    crate::json::lemma_wsum_split(t, allof_weight(), m);
    crate::json::lemma_wsum_elem(t.take(m), allof_weight(), 0, m as nat);
    crate::json::lemma_wsum_elem(t.skip(m), allof_weight(), 0, (t.len() - m) as nat);
}

/// The bound is at most the size of the members.
pub proof fn lemma_allof_bound_le(a: Seq<Json>)
    ensures
        allof_bound(a) <= arr_msize(a, a.len()),
{
    assert forall|i: int| 0 <= i < a.len() implies (allof_weight())(a[i]) <= (
    crate::json::item_weight())(a[i]) by {
        lemma_strip_size(a[i]);
    }
    crate::json::lemma_wsum_mono(a, a, allof_weight(), crate::json::item_weight(), a.len());
    crate::json::lemma_arr_msize_wsum(a, a.len());
}

/// The bound of the coerced members is at most the size of the members.
pub proof fn lemma_allof_bound_coerced(a: Seq<Json>)
    ensures
        allof_bound(coerce_all(a)) <= arr_msize(a, a.len()),
{
    let c = coerce_all(a);
    assert forall|i: int| 0 <= i < a.len() implies (allof_weight())(c[i]) <= (
    crate::json::item_weight())(a[i]) by {
        lemma_strip_size(c[i]);
        lemma_coerce_size(a[i]);
    }
    crate::json::lemma_wsum_mono(c, a, allof_weight(), crate::json::item_weight(), a.len());
    crate::json::lemma_arr_msize_wsum(a, a.len());
}

/// A branch of a multi-valued `type` is smaller than the node.
pub proof fn lemma_type_branch_smaller(j: Json, i: int)
    requires
        type_is_list(j),
        0 <= i < get(j, "type"@)->0->Arr_0.len(),
    ensures
        msize(Json::Obj(set_entry(j->Obj_0, "type"@, get(j, "type"@)->0->Arr_0[i]))) < msize(j),
{
    let t = get(j, "type"@)->0->Arr_0;
    lemma_set_smaller(j, "type"@, t[i]);
    lemma_item_smaller(t, i);
}

} // verus!
