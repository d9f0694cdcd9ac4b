//! Properties of the transform as a whole, proved over the models that the
//! functions' contracts use.
use vstd::prelude::*;

use crate::json::{
    as_str, truthy, num_is_one, has_key, swap_remove_entry, Json, Num, arr_msize, find_key, get, is_true, lemma_entry_smaller, lemma_find_key,
    lemma_get_smaller, lemma_item_smaller, lemma_omit_smaller, msize, obj_msize, omit_entries,
    omit_key, set_entry,
};
use crate::model::{
    JSON_TRANSFORM, coerce, ite_refine, is_tagged, one_of_text, spec_parse_enum, spec_parse_const, EQUAL_FN, json_parts, literal_parts, spec_parse_number, unique_open, prop_entry, array_bounds,
    CATCHALL_MESSAGE, KEY_MESSAGE, NOT_0, ONE_OF_0, issue_text, pattern_catchall, pattern_check, pattern_evaluated,
    pattern_head, quoted_keys, coerce_all, lemma_allof_bound_coerced, pattern_checks, lemma_coerce_size, maybe_coerce, spec_additional,
    spec_object_combinators, spec_one_of_list, spec_parse_discriminated, spec_parse_object,
    spec_parse_one_of, spec_pattern_values, spec_patterns, spec_prop_entries, spec_properties,
    ORIGINAL_INDEX, allof_bound, any_tagged, default_part, describe_part, ensure_tagged,
    lemma_allof_bound_le, lemma_allof_halves, lemma_allof_leaf, lemma_type_branch_smaller, leaf_seg,
    readonly_part, spec_all_of_list, spec_any_of_list, spec_child, spec_conditional, spec_items,
    spec_parse_all_of, spec_parse_any_of, spec_parse_array, spec_parse_if_then_else,
    spec_parse_multiple_type, spec_parse_not, spec_parse_schema, spec_parse_string, spec_select,
    spec_type_branches, strip,
};
use crate::predicates::{member_is, spec_is_conditional, spec_is_simple_discriminated_one_of};
use crate::jsdocs::{jsdocs_prefix, has_newline, jsdoc_block, split_lines, star_lines, star_prefixed};
use crate::text::{json_quote, stringify};
use crate::util::{assemble, join, lemma_join_push};
use crate::cli::{
    ParamSpec, ParsedView, find_arg, options_for, param_outcome, param_table, spec_lookup,
    spec_parse_args,
};
use crate::types::{TypeExportView, Module, OptionsView, ParserOverride, RefsView, Seg, ZodVersion, refs_of};
use crate::{capitalized, char_upper, module_wrap, root_jsdocs, spec_json_schema_to_zod, type_export_misconfigured, type_line};

verus! {

/// A boolean schema yields `z.any()` for `true` and `z.never()` for `false`,
/// whatever the refs, the hook and the metadata setting.
pub proof fn law_boolean_schema<H: ParserOverride>(h: H, b: bool, r: RefsView, block_meta: bool)
    ensures
        spec_parse_schema(h, Json::Bool(b), r, block_meta) == if b {
            "z.any()"@
        } else {
            "z.never()"@
        },
{
}

/// An override hook that answers for an object node replaces that node's
/// output verbatim; nothing else is emitted for it, not even metadata.
pub proof fn law_override_short_circuits<H: ParserOverride>(
    h: H,
    j: Json,
    r: RefsView,
    block_meta: bool,
    code: Seq<char>,
)
    requires
        j is Obj,
        h.overrides(j, r) == Some(code),
    ensures
        spec_parse_schema(h, j, r, block_meta) == code,
{
}

/// For an object node the hook does not override, the output is the parser's
/// fragment followed by the metadata modifiers in the order describe, default,
/// readonly; blocking metadata leaves the fragment alone.
pub proof fn law_metadata_last<H: ParserOverride>(h: H, j: Json, r: RefsView)
    requires
        j is Obj,
        h.overrides(j, r) is None,
    ensures
        spec_parse_schema(h, j, r, true) == spec_select(h, j, r),
        spec_parse_schema(h, j, r, false) == spec_parse_schema(h, j, r, true) + describe_part(j, r)
            + default_part(j, r) + readonly_part(j),
{
}

/// The parser for an object node is the first that applies, in this order:
/// `nullable: true`; `type` `"object"`; `type` `"array"`; `anyOf`; `allOf`;
/// a discriminated `oneOf`; `oneOf`; `not`; `enum`; `const`; a list of types;
/// `type` `"string"`, `"number"` or `"integer"`, `"boolean"`, `"null"`;
/// `if`/`then`/`else`; and `z.any()` when none does. The typed parsers are
/// followed by the conditional refinement when the node also has `if`, `then`
/// and `else`: the same refinement that an untyped `if`/`then`/`else` node
/// carries after its union of `then` and `else`.
pub proof fn law_dispatch_order<H: ParserOverride>(h: H, j: Json, r: RefsView)
    ensures
        spec_select(h, j, r) == ({
            let ty = get(j, "type"@);
            let typed = |s: Seq<char>| ty == Some(Json::Str(s));
            if get(j, "nullable"@) == Some(Json::Bool(true)) {
                spec_parse_schema(h, omit_key(j, "nullable"@), r, true) + ".nullable()"@
            } else if typed("object"@) {
                spec_parse_object(h, j, r) + spec_conditional(h, j, r)
            } else if typed("array"@) {
                spec_parse_array(h, j, r) + spec_conditional(h, j, r)
            } else if get(j, "anyOf"@) is Some {
                spec_parse_any_of(h, j, r)
            } else if get(j, "allOf"@) is Some {
                spec_parse_all_of(h, j, r)
            } else if spec_is_simple_discriminated_one_of(j) {
                spec_parse_discriminated(h, j, r)
            } else if get(j, "oneOf"@) is Some {
                spec_parse_one_of(h, j, r)
            } else if get(j, "not"@) is Some {
                spec_parse_not(h, j, r)
            } else if get(j, "enum"@) is Some {
                spec_parse_enum(j)
            } else if get(j, "const"@) is Some {
                spec_parse_const(j)
            } else if ty matches Some(Json::Arr(_)) {
                spec_parse_multiple_type(h, j, r)
            } else if typed("string"@) {
                spec_parse_string(h, j, r) + spec_conditional(h, j, r)
            } else if typed("number"@) || typed("integer"@) {
                spec_parse_number(j) + spec_conditional(h, j, r)
            } else if typed("boolean"@) {
                "z.boolean()"@ + spec_conditional(h, j, r)
            } else if typed("null"@) {
                "z.null()"@ + spec_conditional(h, j, r)
            } else if spec_is_conditional(j) {
                spec_parse_if_then_else(h, j, r)
            } else {
                "z.any()"@
            }
        }),
        spec_conditional(h, j, r) == if spec_is_conditional(j) {
            spec_parse_if_then_else(h, j, r).skip(
                ("z.union(["@ + spec_child(h, j, r, "then"@) + ", "@ + spec_child(h, j, r, "else"@)
                    + "])"@).len() as int,
            )
        } else {
            Seq::empty()
        },
{
    let i = spec_child(h, j, r, "if"@);
    let t = spec_child(h, j, r, "then"@);
    let e = spec_child(h, j, r, "else"@);
    let u = "z.union(["@ + t + ", "@ + e + "])"@;
    assert((u + ite_refine(i, t, e)).skip(u.len() as int) =~= ite_refine(i, t, e));
}

/// The metadata of an object node the hook does not override comes after the
/// parser's fragment, in this order: `.describe(description)` when the
/// description is truthy and describes are kept, `.default(default)` whenever
/// `default` is present (an explicit `null` too) and defaults are kept, and
/// `.readonly()` when `readOnly` is truthy.
pub proof fn law_metadata_modifiers<H: ParserOverride>(h: H, j: Json, r: RefsView)
    requires
        j is Obj,
        h.overrides(j, r) is None,
    ensures
        spec_parse_schema(h, j, r, false) == spec_select(h, j, r) + (match get(j, "description"@) {
            Some(d) => if !r.without_describes && truthy(d) {
                ".describe("@ + stringify(d) + ")"@
            } else {
                Seq::empty()
            },
            None => Seq::empty(),
        }) + (match get(j, "default"@) {
            Some(d) => if !r.without_defaults {
                ".default("@ + stringify(d) + ")"@
            } else {
                Seq::empty()
            },
            None => Seq::empty(),
        }) + (match get(j, "readOnly"@) {
            Some(v) => if truthy(v) {
                ".readonly()"@
            } else {
                Seq::empty()
            },
            None => Seq::empty(),
        }),
{
}

/// A node with `nullable: true` is its own schema without `nullable`, with
/// metadata blocked, followed by `.nullable()`; the metadata of the node goes
/// on the wrapper.
pub proof fn law_nullable_wraps<H: ParserOverride>(h: H, j: Json, r: RefsView)
    requires
        j is Obj,
        h.overrides(j, r) is None,
        is_true(get(j, "nullable"@)),
    ensures
        spec_parse_schema(h, j, r, false) == spec_parse_schema(h, omit_key(j, "nullable"@), r, true)
            + ".nullable()"@ + describe_part(j, r) + default_part(j, r) + readonly_part(j),
{
}

/// With no module, no name and no type export, the transform returns the bare
/// parsed expression.
pub proof fn law_bare_expression<H: ParserOverride>(h: H, j: Json, o: OptionsView)
    requires
        o.module is None || o.module == Some(Module::Bare),
        o.name is None,
        o.type_export is None,
    ensures
        spec_json_schema_to_zod(h, j, o) == Ok::<Seq<char>, crate::types::Error>(
            spec_parse_schema(h, j, refs_of(o), false),
        ),
{
}

/// The transform fails exactly when a type export is asked for without both a
/// name and an ES module.
pub proof fn law_error_iff_type_export_misconfigured<H: ParserOverride>(h: H, j: Json, o: OptionsView)
    ensures
        spec_json_schema_to_zod(h, j, o) is Err <==> (o.type_export is Some && (o.name is None
            || o.module != Some(Module::Esm))),
{
}

/// `no_import` only drops the import line: for an ES module the output with it
/// is the output without it minus the leading `import` line, and for CommonJS
/// minus the `require` line (which follows the root JSDoc block).
pub proof fn law_no_import_drops_import_line<H: ParserOverride>(h: H, j: Json, o: OptionsView)
    requires
        o.module == Some(Module::Esm) || o.module == Some(Module::Cjs),
        !type_export_misconfigured(o),
    ensures
        ({
            let with_import = OptionsView { no_import: false, ..o };
            let without_import = OptionsView { no_import: true, ..o };
            let line = if o.module == Some(Module::Esm) {
                "import { z } from \"zod\"\n\n"@
            } else {
                root_jsdocs(o, j) + "const { z } = require(\"zod\")\n\n"@
            };
            &&& spec_json_schema_to_zod(h, j, with_import) is Ok
            &&& spec_json_schema_to_zod(h, j, without_import) is Ok
            &&& spec_json_schema_to_zod(h, j, with_import)->Ok_0 == line + spec_json_schema_to_zod(
                h,
                j,
                without_import,
            )->Ok_0
        }),
{
    let with_import = OptionsView { no_import: false, ..o };
    let without_import = OptionsView { no_import: true, ..o };
    assert(refs_of(with_import) == refs_of(without_import));
    assert(root_jsdocs(with_import, j) == root_jsdocs(o, j));
    assert(root_jsdocs(without_import, j) == root_jsdocs(o, j));
    assert(type_line(with_import) == type_line(without_import));
    let parsed = spec_parse_schema(h, j, refs_of(o), false);
    let jd = root_jsdocs(o, j);
    if o.module == Some(Module::Esm) {
        assert(module_wrap(with_import, jd, parsed) =~= "import { z } from \"zod\"\n\n"@
            + module_wrap(without_import, jd, parsed));
    } else {
        assert(module_wrap(with_import, jd, parsed) =~= jd + "const { z } = require(\"zod\")\n\n"@
            + module_wrap(without_import, jd, parsed));
    }
}

/// The whole output for each module kind. Unless a type export is asked for
/// without both a name and an ES module (the one error), it is: for CommonJS,
/// the root JSDoc block and the `require` line (unless `no_import`), then the
/// JSDoc block again and `module.exports = ` with the schema, wrapped as
/// `{ "name": ... }` when there is a name; for ES modules, the `import` line
/// (unless `no_import`), the JSDoc block and `export default` or
/// `export const <name> =` with the schema; otherwise the bare schema, or
/// the JSDoc block and `const <name> = ` with it when there is a name. The
/// `export type` line follows when a type export and a name are set, under the
/// given type name, or the capitalized schema name for the bare flag.
pub proof fn law_module_output<H: ParserOverride>(h: H, j: Json, o: OptionsView)
    ensures
        spec_json_schema_to_zod(h, j, o) == ({
            let jd = match get(j, "description"@) {
                Some(Json::Str(d)) => if o.with_jsdocs && d.len() > 0 {
                    jsdoc_block(d)
                } else {
                    Seq::empty()
                },
                _ => Seq::empty(),
            };
            let parsed = spec_parse_schema(h, j, refs_of(o), false);
            let body = match o.module {
                Some(Module::Cjs) => {
                    let exported = jd + "module.exports = "@ + (match o.name {
                        Some(n) => "{ "@ + json_quote(n) + ": "@ + parsed + " }"@,
                        None => parsed,
                    }) + "\n"@;
                    if o.no_import {
                        exported
                    } else {
                        jd + "const { z } = require(\"zod\")\n\n"@ + exported
                    }
                },
                Some(Module::Esm) => (if o.no_import {
                    Seq::empty()
                } else {
                    "import { z } from \"zod\"\n\n"@
                }) + jd + (match o.name {
                    Some(n) => "export const "@ + n + " = "@,
                    None => "export default "@,
                }) + parsed + "\n"@,
                _ => match o.name {
                    Some(n) => jd + "const "@ + n + " = "@ + parsed,
                    None => parsed,
                },
            };
            let tl = match o.type_export {
                Some(te) => match o.name {
                    Some(n) => "export type "@ + (match te {
                        TypeExportView::Named(t) => t,
                        TypeExportView::Flag => capitalized(n),
                    }) + " = z.infer<typeof "@ + n + ">\n"@,
                    None => Seq::empty(),
                },
                None => Seq::empty(),
            };
            if o.type_export is Some && (o.name is None || o.module != Some(Module::Esm)) {
                Err(crate::types::Error::TypeExportRequiresNameAndEsm)
            } else {
                Ok(body + tl)
            }
        }),
{
    let jd = root_jsdocs(o, j);
    let parsed = spec_parse_schema(h, j, refs_of(o), false);
    reveal_strlit("export ");
    reveal_strlit("default");
    reveal_strlit(" ");
    reveal_strlit("export default ");
    reveal_strlit("const ");
    reveal_strlit(" =");
    reveal_strlit("export const ");
    reveal_strlit(" = ");
    if o.module == Some(Module::Esm) {
        let pre = if o.no_import {
            Seq::<char>::empty()
        } else {
            "import { z } from \"zod\"\n\n"@
        };
        match o.name {
            Some(n) => {
                assert("export "@ + ("const "@ + n + " ="@) + " "@ =~= "export const "@ + n + " = "@);
                assert(module_wrap(o, jd, parsed) =~= pre + jd + ("export const "@ + n + " = "@) + parsed
                    + "\n"@);
            },
            None => {
                assert("export "@ + "default"@ + " "@ =~= "export default "@);
                assert(module_wrap(o, jd, parsed) =~= pre + jd + "export default "@ + parsed + "\n"@);
            },
        }
    }
}

/// Capitalizing a name touches its first character only: the result is the
/// capitalized first character followed by the rest of the name unchanged,
/// and an empty name stays empty.
pub proof fn law_capitalize_first_only(n: Seq<char>)
    ensures
        n.len() == 0 ==> capitalized(n) == Seq::<char>::empty(),
        n.len() > 0 ==> capitalized(n) == capitalized(n.take(1)) + n.skip(1),
{
    if n.len() > 0 {
        let f = n.take(1);
        assert(f[0] == n[0]);
        assert(f.skip(1) =~= Seq::<char>::empty());
        if (n[0] as u32) < 0x10000 {
            assert(capitalized(f) =~= char_upper(n[0]));
        } else {
            assert(f + n.skip(1) =~= n);
        }
    }
}

/// `JSON.stringify` of a string value is the quoted string.
pub proof fn law_stringify_string(s: Seq<char>)
    ensures
        stringify(Json::Str(s)) == json_quote(s),
{
}

/// The value of the first entry with key `k2`.
pub open spec fn first_value(o: Seq<(Seq<char>, Json)>, k2: Seq<char>) -> Option<Json> {
    match find_key(o, k2) {
        Some(i) => Some(o[i].1),
        None => None,
    }
}

proof fn lemma_first_value_push(s: Seq<(Seq<char>, Json)>, e: (Seq<char>, Json), k2: Seq<char>)
    ensures
        first_value(s.push(e), k2) == if first_value(s, k2) is Some {
            first_value(s, k2)
        } else if e.0 == k2 {
            Some(e.1)
        } else {
            None
        },
{
    let t = s.push(e);
    lemma_find_key(s, k2);
    lemma_find_key(t, k2);
    if let Some(i) = find_key(s, k2) {
        assert(t[i].0 == k2);
        if let Some(j) = find_key(t, k2) {
            if j < i {
                assert(s[j].0 == k2);
            }
            if j > i {
                assert(t[i].0 == k2);
            }
        }
    } else {
        if let Some(j) = find_key(t, k2) {
            if j < s.len() {
                assert(s[j].0 == k2);
            }
        } else {
            if e.0 == k2 {
                assert(t[s.len() as int].0 == k2);
            }
        }
    }
}

proof fn lemma_omit_entries_values(o: Seq<(Seq<char>, Json)>, k: Seq<char>, k2: Seq<char>, n: nat)
    requires
        n <= o.len(),
    ensures
        forall|i: int|
            0 <= i < omit_entries(o, k, n).len() ==> #[trigger] omit_entries(o, k, n)[i].0 != k,
        k2 != k ==> first_value(omit_entries(o, k, n), k2) == first_value(o.take(n as int), k2),
    decreases n,
{
    if n == 0 {
        assert(o.take(0) =~= Seq::<(Seq<char>, Json)>::empty());
        lemma_find_key(Seq::<(Seq<char>, Json)>::empty(), k2);
        lemma_find_key(omit_entries(o, k, n), k2);
    } else {
        lemma_omit_entries_values(o, k, k2, (n - 1) as nat);
        let prev = omit_entries(o, k, (n - 1) as nat);
        assert(o.take(n as int) =~= o.take(n - 1).push(o[n - 1]));
        lemma_first_value_push(o.take(n - 1), o[n - 1], k2);
        if o[n - 1].0 != k {
            lemma_first_value_push(prev, o[n - 1], k2);
        }
    }
}

/// Omitting a key removes every entry with that key and leaves the value of
/// every other key as it was.
pub proof fn law_omit_removes_only_the_key(j: Json, k: Seq<char>, k2: Seq<char>)
    requires
        j is Obj,
    ensures
        get(omit_key(j, k), k) is None,
        k2 != k ==> get(omit_key(j, k), k2) == get(j, k2),
{
    let o = j->Obj_0;
    lemma_omit_entries_values(o, k, k2, o.len());
    let r = omit_entries(o, k, o.len());
    lemma_find_key(r, k);
    if let Some(i) = find_key(r, k) {
        assert(r[i].0 != k);
    }
    assert(o.take(o.len() as int) =~= o);
}


// ---------------------------------------------------------------------------
// The Zod version only reaches records, generic `oneOf` and pattern checks.
// ---------------------------------------------------------------------------

/// The refs with their target version replaced.
pub open spec fn with_version(r: RefsView, v: ZodVersion) -> RefsView {
    RefsView { zod_version: v, ..r }
}

/// Whether nothing inside a value is the string `"object"` or a `oneOf` key:
/// such a schema reaches neither the object parser (whose records and pattern
/// checks depend on the version) nor the generic `oneOf` refinement.
pub open spec fn no_version_sites(j: Json) -> bool
    decreases j, 1nat,
{
    match j {
        Json::Str(s) => s != "object"@,
        Json::Arr(a) => nvs_items(a, a.len()),
        Json::Obj(o) => (forall|i: int| 0 <= i < o.len() ==> (#[trigger] o[i]).0 != "oneOf"@) && nvs_entries(
            o,
            o.len(),
        ),
        _ => true,
    }
}

/// The first `n` items are free of version sites.
pub open spec fn nvs_items(a: Seq<Json>, n: nat) -> bool
    decreases a, n,
{
    if n == 0 || n > a.len() {
        true
    } else {
        nvs_items(a, (n - 1) as nat) && no_version_sites(a[n - 1])
    }
}

/// The values of the first `n` entries are free of version sites.
pub open spec fn nvs_entries(o: Seq<(Seq<char>, Json)>, n: nat) -> bool
    decreases o, n,
{
    if n == 0 || n > o.len() {
        true
    } else {
        nvs_entries(o, (n - 1) as nat) && no_version_sites(o[n - 1].1)
    }
}

/// Every entry has no `oneOf` key and a value free of version sites.
pub open spec fn entries_nvs(o: Seq<(Seq<char>, Json)>) -> bool {
    &&& forall|i: int| 0 <= i < o.len() ==> (#[trigger] o[i]).0 != "oneOf"@
    &&& forall|i: int| 0 <= i < o.len() ==> #[trigger] no_version_sites(o[i].1)
}

proof fn lemma_nvs_items(a: Seq<Json>, n: nat)
    requires
        n <= a.len(),
    ensures
        nvs_items(a, n) <==> forall|i: int| 0 <= i < n ==> #[trigger] no_version_sites(a[i]),
    decreases n,
{
    if n > 0 {
        lemma_nvs_items(a, (n - 1) as nat);
        assert(nvs_items(a, n) == (nvs_items(a, (n - 1) as nat) && no_version_sites(a[n - 1])));
    }
}

proof fn lemma_nvs_entries(o: Seq<(Seq<char>, Json)>, n: nat)
    requires
        n <= o.len(),
    ensures
        nvs_entries(o, n) <==> forall|i: int| 0 <= i < n ==> #[trigger] no_version_sites(o[i].1),
    decreases n,
{
    if n > 0 {
        lemma_nvs_entries(o, (n - 1) as nat);
        assert(nvs_entries(o, n) == (nvs_entries(o, (n - 1) as nat) && no_version_sites(
            o[n - 1].1,
        )));
    }
}

proof fn lemma_nvs_arr(a: Seq<Json>)
    ensures
        no_version_sites(Json::Arr(a)) == all_nvs(a),
{
    lemma_nvs_items(a, a.len());
}

proof fn lemma_nvs_obj(o: Seq<(Seq<char>, Json)>)
    ensures
        no_version_sites(Json::Obj(o)) == entries_nvs(o),
{
    lemma_nvs_entries(o, o.len());
}

/// A hook whose answers do not depend on the target version.
pub open spec fn version_blind<H: ParserOverride>(h: H) -> bool {
    forall|j: Json, r: RefsView| #[trigger]
        h.overrides(j, with_version(r, ZodVersion::V3)) == h.overrides(
            j,
            with_version(r, ZodVersion::V4),
        )
}

/// Every item of a list is free of version sites.
pub open spec fn all_nvs(a: Seq<Json>) -> bool {
    forall|i: int| 0 <= i < a.len() ==> #[trigger] no_version_sites(a[i])
}

proof fn lemma_nvs_get(j: Json, k: Seq<char>)
    requires
        no_version_sites(j),
    ensures
        get(j, k) matches Some(c) ==> no_version_sites(c),
{
    if let Json::Obj(o) = j {
        lemma_nvs_obj(o);
        lemma_find_key(o, k);
        if let Some(i) = find_key(o, k) {
            assert(no_version_sites(o[i].1));
        }
    }
}

proof fn lemma_nvs_sites(j: Json)
    requires
        no_version_sites(j),
    ensures
        get(j, "oneOf"@) is None,
        !member_is(j, "type"@, "object"@),
{
    if let Json::Obj(o) = j {
        lemma_nvs_obj(o);
        lemma_find_key(o, "oneOf"@);
        if let Some(i) = find_key(o, "oneOf"@) {
            assert(o[i].0 != "oneOf"@);
        }
    }
    lemma_nvs_get(j, "type"@);
}

proof fn lemma_nvs_omit(o: Seq<(Seq<char>, Json)>, k: Seq<char>, n: nat)
    requires
        n <= o.len(),
        no_version_sites(Json::Obj(o)),
    ensures
        no_version_sites(Json::Obj(omit_entries(o, k, n))),
    decreases n,
{
    lemma_nvs_obj(o);
    if n == 0 {
        lemma_nvs_obj(omit_entries(o, k, n));
    } else {
        lemma_nvs_omit(o, k, (n - 1) as nat);
        let prev = omit_entries(o, k, (n - 1) as nat);
        lemma_nvs_obj(prev);
        if o[n - 1].0 != k {
            let next = prev.push(o[n - 1]);
            lemma_nvs_obj(next);
            assert(o[n - 1].0 != "oneOf"@);
            assert(no_version_sites(o[n - 1].1));
            assert forall|i: int| 0 <= i < next.len() implies (#[trigger] next[i]).0 != "oneOf"@ by {
                if i < prev.len() {
                    assert(next[i] == prev[i]);
                }
            }
            assert forall|i: int| 0 <= i < next.len() implies #[trigger] no_version_sites(next[i].1) by {
                if i < prev.len() {
                    assert(next[i] == prev[i]);
                }
            }
        }
    }
}

proof fn lemma_nvs_strip(x: Json)
    requires
        no_version_sites(x),
    ensures
        no_version_sites(strip(x)),
{
    if let Json::Obj(o) = x {
        lemma_nvs_obj(o);
        lemma_find_key(o, ORIGINAL_INDEX@);
        if let Some(i) = find_key(o, ORIGINAL_INDEX@) {
            let r = o.update(i, o.last()).drop_last();
            lemma_nvs_obj(r);
            assert forall|m: int| 0 <= m < r.len() implies r[m].0 != "oneOf"@
                && #[trigger] no_version_sites(r[m].1) by {
                if m == i {
                    assert(r[m] == o[o.len() - 1]);
                    assert(o[o.len() - 1].0 != "oneOf"@ && no_version_sites(o[o.len() - 1].1));
                } else {
                    assert(r[m] == o[m]);
                    assert(o[m].0 != "oneOf"@ && no_version_sites(o[m].1));
                }
            }
        }
    }
}

proof fn lemma_keys_differ()
    ensures
        ORIGINAL_INDEX@ != "oneOf"@,
        "not"@ != "oneOf"@,
        "type"@ != "oneOf"@,
{
    reveal_strlit("__originalIndex");
    reveal_strlit("oneOf");
    reveal_strlit("not");
    reveal_strlit("type");
    assert(ORIGINAL_INDEX@.len() != "oneOf"@.len());
    assert("not"@.len() != "oneOf"@.len());
    assert("type"@.len() != "oneOf"@.len());
}

proof fn lemma_nvs_tagged(s: Seq<Json>)
    requires
        all_nvs(s),
    ensures
        all_nvs(ensure_tagged(s)),
{
    lemma_keys_differ();
    if !any_tagged(s) {
        let t = ensure_tagged(s);
        assert forall|i: int| 0 <= i < t.len() implies #[trigger] no_version_sites(t[i]) by {
            let x = s[i];
            assert(no_version_sites(x));
            let e = (ORIGINAL_INDEX@, Json::Num(Num::PosInt(i as nat as u64)));
            match x {
                Json::Bool(true) => {
                    lemma_nvs_obj(seq![e]);
                },
                Json::Bool(false) => {
                    let n = ("not"@, Json::Obj(Seq::empty()));
                    lemma_nvs_obj(Seq::<(Seq<char>, Json)>::empty());
                    lemma_nvs_obj(seq![e, n]);
                    assert(seq![e, n][1].1 == Json::Obj(Seq::<(Seq<char>, Json)>::empty()));
                },
                Json::Obj(m) => {
                    let mm = m.push(e);
                    lemma_nvs_obj(m);
                    lemma_nvs_obj(mm);
                    assert forall|k: int| 0 <= k < mm.len() implies mm[k].0 != "oneOf"@
                        && #[trigger] no_version_sites(mm[k].1) by {
                        if k < m.len() {
                            assert(mm[k] == m[k]);
                            assert(m[k].0 != "oneOf"@ && no_version_sites(m[k].1));
                        }
                    }
                },
                _ => {},
            }
        }
    }
}

proof fn lemma_nvs_set(j: Json, k: Seq<char>, v: Json)
    requires
        j is Obj,
        no_version_sites(j),
        no_version_sites(v),
        k != "oneOf"@,
    ensures
        no_version_sites(Json::Obj(set_entry(j->Obj_0, k, v))),
{
    let o = j->Obj_0;
    lemma_find_key(o, k);
    let r = set_entry(o, k, v);
    lemma_nvs_obj(o);
    lemma_nvs_obj(r);
    assert forall|m: int| 0 <= m < r.len() implies r[m].0 != "oneOf"@
        && #[trigger] no_version_sites(r[m].1) by {
        if m < o.len() && r[m] == o[m] {
            assert(o[m].0 != "oneOf"@ && no_version_sites(o[m].1));
        }
    }
}


proof fn lemma_wv_push(r: RefsView, s: Seg, t: Seg)
    ensures
        with_version(r.push(s), ZodVersion::V3) == with_version(r, ZodVersion::V3).push(s),
        with_version(r.push(s), ZodVersion::V4) == with_version(r, ZodVersion::V4).push(s),
        with_version(r.push2(s, t), ZodVersion::V3) == with_version(r, ZodVersion::V3).push2(s, t),
        with_version(r.push2(s, t), ZodVersion::V4) == with_version(r, ZodVersion::V4).push2(s, t),
        with_version(r.no_defaults(), ZodVersion::V3) == with_version(r, ZodVersion::V3).no_defaults(),
        with_version(r.no_defaults(), ZodVersion::V4) == with_version(r, ZodVersion::V4).no_defaults(),
{
}

proof fn lemma_v_schema<H: ParserOverride>(h: H, j: Json, r: RefsView, block: bool)
    requires
        version_blind(h),
        no_version_sites(j),
    ensures
        spec_parse_schema(h, j, with_version(r, ZodVersion::V3), block) == spec_parse_schema(
            h,
            j,
            with_version(r, ZodVersion::V4),
            block,
        ),
    decreases msize(j), 3nat, 0nat,
{
    if j is Obj {
        assert(h.overrides(j, with_version(r, ZodVersion::V3)) == h.overrides(
            j,
            with_version(r, ZodVersion::V4),
        ));
        lemma_v_select(h, j, r);
    }
}

#[verifier::rlimit(40)]
proof fn lemma_v_select<H: ParserOverride>(h: H, j: Json, r: RefsView)
    requires
        version_blind(h),
        no_version_sites(j),
    ensures
        spec_select(h, j, with_version(r, ZodVersion::V3)) == spec_select(
            h,
            j,
            with_version(r, ZodVersion::V4),
        ),
    decreases msize(j), 2nat, 0nat,
{
    lemma_nvs_sites(j);
    if is_true(get(j, "nullable"@)) {
        lemma_omit_smaller(j, "nullable"@);
        lemma_nvs_obj(j->Obj_0);
        lemma_nvs_omit(j->Obj_0, "nullable"@, j->Obj_0.len());
        lemma_v_schema(h, omit_key(j, "nullable"@), r, true);
    } else if member_is(j, "type"@, "array"@) {
        lemma_v_array(h, j, r);
        lemma_v_conditional(h, j, r);
    } else if get(j, "anyOf"@) is Some {
        lemma_v_any_of(h, j, r);
    } else if get(j, "allOf"@) is Some {
        lemma_v_all_of(h, j, r);
    } else if get(j, "not"@) is Some {
        lemma_v_not(h, j, r);
    } else if get(j, "enum"@) is Some || get(j, "const"@) is Some {
    } else if crate::model::type_is_list(j) {
        lemma_v_multiple(h, j, r);
    } else if member_is(j, "type"@, "string"@) {
        lemma_v_string(h, j, r);
        lemma_v_conditional(h, j, r);
    } else {
        lemma_v_conditional(h, j, r);
        lemma_v_ite(h, j, r);
    }
}

proof fn lemma_v_child<H: ParserOverride>(h: H, j: Json, r: RefsView, k: Seq<char>)
    requires
        version_blind(h),
        no_version_sites(j),
    ensures
        spec_child(h, j, with_version(r, ZodVersion::V3), k) == spec_child(
            h,
            j,
            with_version(r, ZodVersion::V4),
            k,
        ),
    decreases msize(j), 0nat, 0nat,
{
    if let Some(c) = get(j, k) {
        lemma_get_smaller(j, k);
        lemma_nvs_get(j, k);
        lemma_wv_push(r, Seg::Key(k), Seg::Key(k));
        lemma_v_schema(h, c, r.push(Seg::Key(k)), false);
    }
}

proof fn lemma_v_conditional<H: ParserOverride>(h: H, j: Json, r: RefsView)
    requires
        version_blind(h),
        no_version_sites(j),
    ensures
        spec_conditional(h, j, with_version(r, ZodVersion::V3)) == spec_conditional(
            h,
            j,
            with_version(r, ZodVersion::V4),
        ),
    decreases msize(j), 1nat, 0nat,
{
    lemma_v_child(h, j, r, "if"@);
    lemma_v_child(h, j, r, "then"@);
    lemma_v_child(h, j, r, "else"@);
}

proof fn lemma_v_not<H: ParserOverride>(h: H, j: Json, r: RefsView)
    requires
        version_blind(h),
        no_version_sites(j),
    ensures
        spec_parse_not(h, j, with_version(r, ZodVersion::V3)) == spec_parse_not(
            h,
            j,
            with_version(r, ZodVersion::V4),
        ),
    decreases msize(j), 1nat, 0nat,
{
    lemma_v_child(h, j, r, "not"@);
}

proof fn lemma_v_ite<H: ParserOverride>(h: H, j: Json, r: RefsView)
    requires
        version_blind(h),
        no_version_sites(j),
    ensures
        spec_parse_if_then_else(h, j, with_version(r, ZodVersion::V3)) == spec_parse_if_then_else(
            h,
            j,
            with_version(r, ZodVersion::V4),
        ),
    decreases msize(j), 1nat, 0nat,
{
    lemma_v_child(h, j, r, "if"@);
    lemma_v_child(h, j, r, "then"@);
    lemma_v_child(h, j, r, "else"@);
}

proof fn lemma_v_items<H: ParserOverride>(h: H, a: Seq<Json>, r: RefsView, k: Seq<char>, n: nat)
    requires
        version_blind(h),
        all_nvs(a),
    ensures
        spec_items(h, a, false, with_version(r, ZodVersion::V3), k, n) == spec_items(
            h,
            a,
            false,
            with_version(r, ZodVersion::V4),
            k,
            n,
        ),
    decreases arr_msize(a, a.len()), 0nat, n,
{
    if n > 0 && n <= a.len() {
        lemma_v_items(h, a, r, k, (n - 1) as nat);
        lemma_item_smaller(a, n - 1);
        assert(no_version_sites(a[n - 1]));
        lemma_wv_push(r, Seg::Key(k), Seg::Index((n - 1) as usize));
        lemma_v_schema(h, a[n - 1], r.push2(Seg::Key(k), Seg::Index((n - 1) as usize)), false);
    }
}

proof fn lemma_v_any_of_list<H: ParserOverride>(h: H, a: Seq<Json>, r: RefsView)
    requires
        version_blind(h),
        all_nvs(a),
    ensures
        spec_any_of_list(h, a, false, with_version(r, ZodVersion::V3)) == spec_any_of_list(
            h,
            a,
            false,
            with_version(r, ZodVersion::V4),
        ),
    decreases arr_msize(a, a.len()), 1nat, 0nat,
{
    if a.len() == 1 {
        lemma_item_smaller(a, 0);
        assert(no_version_sites(a[0]));
        lemma_wv_push(r, Seg::Key("anyOf"@), Seg::Index(0));
        lemma_v_schema(h, a[0], r.push2(Seg::Key("anyOf"@), Seg::Index(0)), false);
    } else if a.len() > 1 {
        lemma_v_items(h, a, r, "anyOf"@, a.len());
    }
}

proof fn lemma_v_any_of<H: ParserOverride>(h: H, j: Json, r: RefsView)
    requires
        version_blind(h),
        no_version_sites(j),
    ensures
        spec_parse_any_of(h, j, with_version(r, ZodVersion::V3)) == spec_parse_any_of(
            h,
            j,
            with_version(r, ZodVersion::V4),
        ),
    decreases msize(j), 1nat, 0nat,
{
    if let Some(Json::Arr(a)) = get(j, "anyOf"@) {
        lemma_get_smaller(j, "anyOf"@);
        lemma_nvs_get(j, "anyOf"@);
        lemma_nvs_arr(a);
        lemma_v_any_of_list(h, a, r);
    }
}

proof fn lemma_v_all_of_list<H: ParserOverride>(h: H, s: Seq<Json>, r: RefsView)
    requires
        version_blind(h),
        all_nvs(s),
    ensures
        spec_all_of_list(h, s, with_version(r, ZodVersion::V3)) == spec_all_of_list(
            h,
            s,
            with_version(r, ZodVersion::V4),
        ),
    decreases allof_bound(s), 0nat, 0nat,
{
    if s.len() == 1 {
        lemma_allof_leaf(s);
        assert(no_version_sites(s[0]));
        lemma_nvs_strip(s[0]);
        lemma_wv_push(r, Seg::Key("allOf"@), leaf_seg(s[0]));
        lemma_v_schema(h, strip(s[0]), r.push2(Seg::Key("allOf"@), leaf_seg(s[0])), false);
    } else if s.len() > 1 {
        let t = ensure_tagged(s);
        let m = t.len() / 2;
        lemma_allof_halves(s);
        lemma_nvs_tagged(s);
        assert(all_nvs(t.take(m as int)));
        assert(all_nvs(t.skip(m as int))) by {
            assert forall|i: int| 0 <= i < t.skip(m as int).len() implies #[trigger] no_version_sites(
                t.skip(m as int)[i],
            ) by {
                assert(t.skip(m as int)[i] == t[m + i]);
            }
        }
        lemma_v_all_of_list(h, t.take(m as int), r);
        lemma_v_all_of_list(h, t.skip(m as int), r);
    }
}

proof fn lemma_v_all_of<H: ParserOverride>(h: H, j: Json, r: RefsView)
    requires
        version_blind(h),
        no_version_sites(j),
    ensures
        spec_parse_all_of(h, j, with_version(r, ZodVersion::V3)) == spec_parse_all_of(
            h,
            j,
            with_version(r, ZodVersion::V4),
        ),
    decreases msize(j), 1nat, 0nat,
{
    if let Some(Json::Arr(a)) = get(j, "allOf"@) {
        lemma_get_smaller(j, "allOf"@);
        lemma_allof_bound_le(a);
        lemma_nvs_get(j, "allOf"@);
        lemma_nvs_arr(a);
        lemma_v_all_of_list(h, a, r);
    }
}

proof fn lemma_v_type_branches<H: ParserOverride>(h: H, j: Json, r: RefsView, n: nat)
    requires
        version_blind(h),
        no_version_sites(j),
    ensures
        spec_type_branches(h, j, with_version(r, ZodVersion::V3), n) == spec_type_branches(
            h,
            j,
            with_version(r, ZodVersion::V4),
            n,
        ),
    decreases msize(j), 0nat, n,
{
    if let Some(Json::Arr(t)) = get(j, "type"@) {
        if n > 0 && n <= t.len() {
            lemma_v_type_branches(h, j, r, (n - 1) as nat);
            lemma_type_branch_smaller(j, n - 1);
            lemma_nvs_get(j, "type"@);
            lemma_nvs_arr(t);
            assert(no_version_sites(t[n - 1]));
            lemma_keys_differ();
            lemma_nvs_set(j, "type"@, t[n - 1]);
            lemma_wv_push(r, Seg::Key("type"@), Seg::Key("type"@));
            lemma_v_schema(h, Json::Obj(set_entry(j->Obj_0, "type"@, t[n - 1])), r.no_defaults(), false);
        }
    }
}

proof fn lemma_v_multiple<H: ParserOverride>(h: H, j: Json, r: RefsView)
    requires
        version_blind(h),
        no_version_sites(j),
    ensures
        spec_parse_multiple_type(h, j, with_version(r, ZodVersion::V3)) == spec_parse_multiple_type(
            h,
            j,
            with_version(r, ZodVersion::V4),
        ),
    decreases msize(j), 1nat, 0nat,
{
    if let Some(Json::Arr(t)) = get(j, "type"@) {
        lemma_v_type_branches(h, j, r, t.len());
    }
}

proof fn lemma_v_array<H: ParserOverride>(h: H, j: Json, r: RefsView)
    requires
        version_blind(h),
        no_version_sites(j),
    ensures
        spec_parse_array(h, j, with_version(r, ZodVersion::V3)) == spec_parse_array(
            h,
            j,
            with_version(r, ZodVersion::V4),
        ),
    decreases msize(j), 1nat, 0nat,
{
    if let Some(x) = get(j, "items"@) {
        lemma_get_smaller(j, "items"@);
        lemma_nvs_get(j, "items"@);
        if let Json::Arr(a) = x {
            lemma_nvs_arr(a);
            lemma_v_items(h, a, r, "items"@, a.len());
        } else {
            lemma_wv_push(r, Seg::Key("items"@), Seg::Key("items"@));
            lemma_v_schema(h, x, r.push(Seg::Key("items"@)), false);
        }
    }
}

proof fn lemma_v_string<H: ParserOverride>(h: H, j: Json, r: RefsView)
    requires
        version_blind(h),
        no_version_sites(j),
    ensures
        spec_parse_string(h, j, with_version(r, ZodVersion::V3)) == spec_parse_string(
            h,
            j,
            with_version(r, ZodVersion::V4),
        ),
    decreases msize(j), 1nat, 0nat,
{
    if let Some(c) = get(j, "contentSchema"@) {
        if c is Obj || c is Arr {
            lemma_get_smaller(j, "contentSchema"@);
            lemma_nvs_get(j, "contentSchema"@);
            lemma_wv_push(r, Seg::Key("contentSchema"@), Seg::Key("contentSchema"@));
            lemma_v_schema(h, c, r.push(Seg::Key("contentSchema"@)), false);
        }
    }
}

/// The target Zod version only reaches the object parser (record arity and the
/// pattern-check error path) and the generic `oneOf` refinement (its issue
/// shape): a schema that holds neither the string `"object"` nor a `oneOf` key
/// anywhere emits the same code for Zod 3 and Zod 4, for any hook that does
/// not look at the version.
pub proof fn law_version_only_reaches_records_and_one_of<H: ParserOverride>(
    h: H,
    j: Json,
    r: RefsView,
    block_meta: bool,
)
    requires
        version_blind(h),
        no_version_sites(j),
    ensures
        spec_parse_schema(h, j, with_version(r, ZodVersion::V3), block_meta) == spec_parse_schema(
            h,
            j,
            with_version(r, ZodVersion::V4),
            block_meta,
        ),
{
    lemma_v_schema(h, j, r, block_meta);
}


// ---------------------------------------------------------------------------
// The command line.
// ---------------------------------------------------------------------------

/// The module defaults to ES modules unless `cjs` or `none` is given, and only
/// `--zodVersion 3` selects Zod 3.
pub proof fn law_cli_module_and_version_defaults(p: Seq<(Seq<char>, ParsedView)>)
    ensures
        options_for(p).module == Some(Module::Esm) <==> !(spec_lookup(p, "module"@, 0) == Some(
            ParsedView::Str("cjs"@),
        ) || spec_lookup(p, "module"@, 0) == Some(ParsedView::Str("none"@))),
        options_for(p).zod_version == ZodVersion::V3 <==> spec_lookup(p, "zodVersion"@, 0) == Some(
            ParsedView::Number(3),
        ),
{
}

proof fn lemma_parse_args_names(
    defs: Seq<ParamSpec>,
    argv: Seq<Seq<char>>,
    numbers: Seq<Option<i64>>,
    n: nat,
)
    requires
        n <= defs.len(),
    ensures
        spec_parse_args(defs, argv, numbers, n) matches Ok(acc) ==> acc.len() == n && forall|i: int|
            0 <= i < n ==> #[trigger] acc[i].0 == defs[i].name && param_outcome(defs[i], argv, numbers)
                == Ok::<ParsedView, Seq<char>>(acc[i].1),
    decreases n,
{
    if n > 0 {
        lemma_parse_args_names(defs, argv, numbers, (n - 1) as nat);
    }
}

/// A successful parse has one entry per parameter, under its name, in the
/// order of the parameter list, and each entry holds what that parameter
/// parses to on its own: `Flag(false)` when it is absent, `Flag(true)` for a
/// flag that is present, the following argument for a text or an allowed enum
/// value, and the number read from the following argument for a number.
pub proof fn law_parse_args_one_entry_per_param(
    defs: Seq<ParamSpec>,
    argv: Seq<Seq<char>>,
    numbers: Seq<Option<i64>>,
)
    ensures
        spec_parse_args(defs, argv, numbers, defs.len()) matches Ok(acc) ==> acc.len() == defs.len()
            && forall|i: int|
            0 <= i < defs.len() ==> #[trigger] acc[i].0 == defs[i].name && param_outcome(
                defs[i],
                argv,
                numbers,
            ) == Ok::<ParsedView, Seq<char>>(acc[i].1),
{
    lemma_parse_args_names(defs, argv, numbers, defs.len());
}


// ---------------------------------------------------------------------------
// JSDoc blocks.
// ---------------------------------------------------------------------------

proof fn lemma_join_extend_last(parts: Seq<Seq<char>>, sep: Seq<char>, x: Seq<char>)
    requires
        parts.len() >= 1,
    ensures
        join(parts.update(parts.len() - 1, parts.last() + x), sep) == join(parts, sep) + x,
{
    let u = parts.update(parts.len() - 1, parts.last() + x);
    if parts.len() > 1 {
        assert(u.drop_last() =~= parts.drop_last());
        assert(join(u, sep) == join(u.drop_last(), sep) + sep + u.last());
        assert(join(parts, sep) == join(parts.drop_last(), sep) + sep + parts.last());
        assert(join(u, sep) =~= join(parts, sep) + x);
    }
}

proof fn lemma_split_lines(s: Seq<char>, n: nat)
    requires
        n <= s.len(),
    ensures
        split_lines(s, n).len() >= 1,
        split_lines(s, n).len() == 1 <==> !(exists|i: int| 0 <= i < n && s[i] == '\n'),
        !(exists|i: int| 0 <= i < n && s[i] == '\n') ==> split_lines(s, n) == seq![s.take(n as int)],
        "* "@ + star_lines(s, n) == join(star_prefixed(split_lines(s, n)), "\n"@),
    decreases n,
{
    reveal_strlit("\n* ");
    reveal_strlit("\n");
    reveal_strlit("* ");
    assert("\n* "@ =~= "\n"@ + "* "@);
    if n == 0 {
        assert(s.take(0) =~= Seq::<char>::empty());
        assert(star_prefixed(seq![Seq::<char>::empty()]) =~= seq!["* "@]);
        assert("* "@ + star_lines(s, 0) =~= "* "@);
    } else {
        lemma_split_lines(s, (n - 1) as nat);
        let l = split_lines(s, (n - 1) as nat);
        let sp = star_prefixed(l);
        if s[n - 1] == '\n' {
            lemma_join_push(sp, "\n"@, "* "@);
            assert(star_prefixed(l.push(Seq::empty())) =~= sp.push("* "@));
            assert("* "@ + star_lines(s, n) =~= ("* "@ + star_lines(s, (n - 1) as nat)) + "\n"@
                + "* "@);
            assert(exists|i: int| 0 <= i < n && s[i] == '\n') by {
                assert(s[n - 1] == '\n');
            }
        } else {
            let c = s[n - 1];
            lemma_join_extend_last(sp, "\n"@, seq![c]);
            assert(("* "@ + l.last().push(c)) =~= ("* "@ + l.last()) + seq![c]);
            assert(sp.last() == "* "@ + l.last());
            assert(star_prefixed(l.update(l.len() - 1, l.last().push(c))) =~= sp.update(
                sp.len() - 1,
                sp.last() + seq![c],
            ));
            assert("* "@ + star_lines(s, n) =~= ("* "@ + star_lines(s, (n - 1) as nat)) + seq![c]);
            if exists|i: int| 0 <= i < n && s[i] == '\n' {
                let i = choose|i: int| 0 <= i < n && s[i] == '\n';
                assert(i < n - 1);
            } else {
                assert(s.take(n as int) =~= s.take(n - 1).push(c));
            }
            if exists|i: int| 0 <= i < n - 1 && s[i] == '\n' {
                let i = choose|i: int| 0 <= i < n - 1 && s[i] == '\n';
                assert(0 <= i < n && s[i] == '\n');
            }
        }
    }
}

/// A JSDoc block splits its text at line feeds only: a single line gives
/// `/**<text>*/` and a new line; several lines give `/**`, a new line, the
/// lines each prefixed with `* ` and joined by line feeds, a new line and `*/`
/// and a new line. A carriage return stays with its line.
pub proof fn law_jsdoc_split_and_join(s: Seq<char>)
    ensures
        split_lines(s, s.len()).len() == 1 ==> jsdoc_block(s) == "/**"@ + s + "*/\n"@,
        split_lines(s, s.len()).len() > 1 ==> jsdoc_block(s) == "/**\n"@ + join(
            star_prefixed(split_lines(s, s.len())),
            "\n"@,
        ) + "\n*/\n"@,
{
    lemma_split_lines(s, s.len());
    reveal_strlit("/**\n* ");
    reveal_strlit("/**\n");
    reveal_strlit("* ");
    assert("/**\n* "@ =~= "/**\n"@ + "* "@);
    if split_lines(s, s.len()).len() > 1 {
        assert(has_newline(s));
        assert(jsdoc_block(s) =~= "/**\n"@ + ("* "@ + star_lines(s, s.len())) + "\n*/\n"@);
    } else {
        assert(!has_newline(s));
    }
}


// ---------------------------------------------------------------------------
// The pattern-properties refinement.
// ---------------------------------------------------------------------------

/// The pattern-properties part is present exactly when `patternProperties` is
/// an object. Its text is the catchall or record part, then a refinement that
/// loops over the keys: the `evaluated` flag and the catchall validation appear
/// exactly when there are additional properties, there is one
/// `if (key.match(new RegExp(<pattern>)))` block per pattern, in the order of
/// the patterns, and the text ends with `}\n})`.
pub proof fn law_pattern_properties_text<H: ParserOverride>(
    h: H,
    j: Json,
    r: RefsView,
    props: Option<Seq<char>>,
    addl: Option<Seq<char>>,
)
    ensures
        spec_patterns(h, j, r, props, addl) is None <==> !(get(j, "patternProperties"@) matches Some(
            Json::Obj(_),
        )),
        spec_patterns(h, j, r, props, addl) matches Some(text) ==> {
            let po = get(j, "patternProperties"@)->0->Obj_0;
            let values = spec_pattern_values(h, po, r, po.len());
            let tail = "}\n"@ + "})"@;
            &&& text == pattern_head(values, props, addl, r) + ".superRefine((value, ctx) => {\n"@
                + "for (const key in value) {\n"@ + pattern_evaluated(j, addl) + pattern_checks(
                po,
                values,
                addl is Some,
                r,
                po.len(),
            ) + pattern_catchall(addl, r) + tail
            &&& text.len() >= tail.len()
            &&& text.subrange(text.len() - tail.len(), text.len() as int) == tail
        },
        addl is None ==> pattern_evaluated(j, addl) == Seq::<char>::empty() && pattern_catchall(
            addl,
            r,
        ) == Seq::<char>::empty(),
        addl is Some ==> {
            let e = pattern_evaluated(j, addl);
            let c = pattern_catchall(addl, r);
            &&& e.len() >= "let evaluated = "@.len()
            &&& e.subrange(0, "let evaluated = "@.len() as int) == "let evaluated = "@
            &&& c.len() >= "if (!evaluated) {\n"@.len()
            &&& c.subrange(0, "if (!evaluated) {\n"@.len() as int) == "if (!evaluated) {\n"@
        },
        forall|po: Seq<(Seq<char>, Json)>, values: Seq<Seq<char>>, a: bool, n: nat|
            #![trigger pattern_checks(po, values, a, r, n + 1)]
            pattern_checks(po, values, a, r, n + 1) == pattern_checks(po, values, a, r, n)
                + pattern_check(po[n as int].0, values[n as int], a, r),
        forall|k: Seq<char>, v: Seq<char>, a: bool|
            #![trigger pattern_check(k, v, a, r)]
            {
                let open = "if (key.match(new RegExp("@ + json_quote(k) + "))) {\n"@;
                &&& pattern_check(k, v, a, r).len() >= open.len()
                &&& pattern_check(k, v, a, r).subrange(0, open.len() as int) == open
            },
{
    if let Some(text) = spec_patterns(h, j, r, props, addl) {
        let po = get(j, "patternProperties"@)->0->Obj_0;
        let values = spec_pattern_values(h, po, r, po.len());
        let tail = "}\n"@ + "})"@;
        let front = pattern_head(values, props, addl, r) + ".superRefine((value, ctx) => {\n"@
            + "for (const key in value) {\n"@ + pattern_evaluated(j, addl) + pattern_checks(
            po,
            values,
            addl is Some,
            r,
            po.len(),
        ) + pattern_catchall(addl, r);
        assert(text =~= front + tail);
        assert((front + tail).subrange(front.len() as int, (front + tail).len() as int) =~= tail);
    }
    if let Some(ap) = addl {
        reveal_strlit("let evaluated = ");
        reveal_strlit("let evaluated = [");
        reveal_strlit("let evaluated = false\n");
        reveal_strlit("if (!evaluated) {\n");
        let e = pattern_evaluated(j, addl);
        let c = pattern_catchall(addl, r);
        match get(j, "properties"@) {
            Some(Json::Obj(p)) => {
                let rest = join(quoted_keys(p), ", "@) + "].includes(key)\n"@;
                assert(e =~= "let evaluated = ["@ + rest);
                assert(e.subrange(0, "let evaluated = "@.len() as int) =~= "let evaluated = "@);
            },
            _ => {
                assert(e == "let evaluated = false\n"@);
                assert(e.subrange(0, "let evaluated = "@.len() as int) =~= "let evaluated = "@);
            },
        }
        let crest = "const result = "@ + ap + ".safeParse(value[key])\n"@ + "if (!result.success) {\n"@
            + issue_text(r, CATCHALL_MESSAGE@) + "}\n"@ + "}\n"@;
        assert(c =~= "if (!evaluated) {\n"@ + crest);
        assert(c.subrange(0, "if (!evaluated) {\n"@.len() as int) =~= "if (!evaluated) {\n"@);
    }
    assert forall|k: Seq<char>, v: Seq<char>, a: bool|
        #![trigger pattern_check(k, v, a, r)]
        {
            let open = "if (key.match(new RegExp("@ + json_quote(k) + "))) {\n"@;
            &&& pattern_check(k, v, a, r).len() >= open.len()
            &&& pattern_check(k, v, a, r).subrange(0, open.len() as int) == open
        } by {
        let open = "if (key.match(new RegExp("@ + json_quote(k) + "))) {\n"@;
        let rest = (if a {
            "evaluated = true\n"@
        } else {
            Seq::empty()
        }) + "const result = "@ + v + ".safeParse(value[key])\n"@ + "if (!result.success) {\n"@
            + issue_text(r, KEY_MESSAGE@) + "}\n"@ + "}\n"@;
        assert(pattern_check(k, v, a, r) =~= open + rest);
        assert((open + rest).subrange(0, open.len() as int) =~= open);
    }
}


// ---------------------------------------------------------------------------
// The output is never empty.
// ---------------------------------------------------------------------------

/// A hook that never answers with an empty text.
pub open spec fn hook_nonempty<H: ParserOverride>(h: H) -> bool {
    forall|j: Json, r: RefsView| #[trigger]
        h.overrides(j, r) matches Some(c) ==> c.len() > 0
}

proof fn lemma_heads_nonempty()
    ensures
        "z.any()"@.len() > 0,
        "z.never()"@.len() > 0,
        "z.boolean()"@.len() > 0,
        "z.null()"@.len() > 0,
        "z.number()"@.len() > 0,
        "z.string()"@.len() > 0,
        "z.union(["@.len() > 0,
        "z.tuple(["@.len() > 0,
        "z.array("@.len() > 0,
        "z.array(z.any())"@.len() > 0,
        "z.literal("@.len() > 0,
        "z.enum(["@.len() > 0,
        "z.intersection("@.len() > 0,
        "z.discriminatedUnion("@.len() > 0,
        ".nullable()"@.len() > 0,
        "z.object({})"@.len() > 0,
        "z.object({ "@.len() > 0,
        "z.record("@.len() > 0,
        "z.record(z.string(), "@.len() > 0,
        ".superRefine((value, ctx) => {\n"@.len() > 0,
        "z.any().refine((value) => { "@.len() > 0,
        "z.any().refine((value) => !"@.len() > 0,
        "z.any().superRefine((x, ctx) => {\n    const schemas = ["@.len() > 0,
        NOT_0@.len() > 0,
        ONE_OF_0@.len() > 0,
{
    reveal_strlit("z.any()");
    reveal_strlit("z.never()");
    reveal_strlit("z.boolean()");
    reveal_strlit("z.null()");
    reveal_strlit("z.number()");
    reveal_strlit("z.string()");
    reveal_strlit("z.union([");
    reveal_strlit("z.tuple([");
    reveal_strlit("z.array(");
    reveal_strlit("z.array(z.any())");
    reveal_strlit("z.literal(");
    reveal_strlit("z.enum([");
    reveal_strlit("z.intersection(");
    reveal_strlit("z.discriminatedUnion(");
    reveal_strlit(".nullable()");
    reveal_strlit("z.object({})");
    reveal_strlit("z.object({ ");
    reveal_strlit("z.record(");
    reveal_strlit("z.record(z.string(), ");
    reveal_strlit(".superRefine((value, ctx) => {\n");
    reveal_strlit("z.any().refine((value) => { ");
    reveal_strlit("z.any().refine((value) => !");
    reveal_strlit("z.any().superRefine((x, ctx) => {\n    const schemas = [");
}

proof fn lemma_ne_schema<H: ParserOverride>(h: H, j: Json, r: RefsView, block: bool)
    requires
        hook_nonempty(h),
    ensures
        spec_parse_schema(h, j, r, block).len() > 0,
    decreases msize(j), 3nat, 0nat,
{
    lemma_heads_nonempty();
    if j is Obj {
        if h.overrides(j, r) is None {
            lemma_ne_select(h, j, r);
        }
    }
}

#[verifier::rlimit(40)]
proof fn lemma_ne_select<H: ParserOverride>(h: H, j: Json, r: RefsView)
    requires
        hook_nonempty(h),
    ensures
        spec_select(h, j, r).len() > 0,
    decreases msize(j), 2nat, 0nat,
{
    lemma_heads_nonempty();
    if is_true(get(j, "nullable"@)) {
    } else if member_is(j, "type"@, "object"@) {
        lemma_ne_object(h, j, r);
    } else if member_is(j, "type"@, "array"@) {
    } else if get(j, "anyOf"@) is Some {
        lemma_ne_any_of(h, j, r);
    } else if get(j, "allOf"@) is Some {
        lemma_ne_all_of(h, j, r);
    } else if crate::predicates::spec_is_simple_discriminated_one_of(j) {
        lemma_ne_discriminated(h, j, r);
    } else if get(j, "oneOf"@) is Some {
        lemma_ne_one_of(h, j, r);
    }
}

proof fn lemma_ne_object<H: ParserOverride>(h: H, j: Json, r: RefsView)
    requires
        hook_nonempty(h),
    ensures
        spec_parse_object(h, j, r).len() > 0,
{
    lemma_heads_nonempty();
    let props = spec_properties(h, j, r);
    let addl = spec_additional(h, j, r);
    let pattern = spec_patterns(h, j, r, props, addl);
    if let Some(p) = props {
        assert(p.len() > 0);
    } else if let Some(pp) = pattern {
        assert(pp.len() > 0);
    }
    assert(crate::model::object_base(props, pattern, addl, r).len() > 0);
}

proof fn lemma_ne_any_of_list<H: ParserOverride>(h: H, a: Seq<Json>, c: bool, r: RefsView)
    requires
        hook_nonempty(h),
    ensures
        spec_any_of_list(h, a, c, r).len() > 0,
    decreases arr_msize(a, a.len()), 1nat, 0nat,
{
    lemma_heads_nonempty();
    if a.len() == 1 {
        lemma_item_smaller(a, 0);
        lemma_coerce_size(a[0]);
        lemma_ne_schema(
            h,
            maybe_coerce(a[0], c),
            r.push2(Seg::Key("anyOf"@), Seg::Index(0)),
            false,
        );
    }
}

proof fn lemma_ne_one_of_list<H: ParserOverride>(h: H, a: Seq<Json>, c: bool, r: RefsView)
    requires
        hook_nonempty(h),
    ensures
        spec_one_of_list(h, a, c, r).len() > 0,
    decreases arr_msize(a, a.len()), 1nat, 0nat,
{
    lemma_heads_nonempty();
    if a.len() == 1 {
        lemma_item_smaller(a, 0);
        lemma_coerce_size(a[0]);
        lemma_ne_schema(
            h,
            maybe_coerce(a[0], c),
            r.push2(Seg::Key("oneOf"@), Seg::Index(0)),
            false,
        );
    }
}

proof fn lemma_ne_all_of_list<H: ParserOverride>(h: H, s: Seq<Json>, r: RefsView)
    requires
        hook_nonempty(h),
    ensures
        spec_all_of_list(h, s, r).len() > 0,
    decreases allof_bound(s), 0nat, 0nat,
{
    lemma_heads_nonempty();
    if s.len() == 1 {
        lemma_allof_leaf(s);
        lemma_ne_schema(h, strip(s[0]), r.push2(Seg::Key("allOf"@), leaf_seg(s[0])), false);
    }
}

proof fn lemma_ne_any_of<H: ParserOverride>(h: H, j: Json, r: RefsView)
    requires
        hook_nonempty(h),
    ensures
        spec_parse_any_of(h, j, r).len() > 0,
    decreases msize(j), 1nat, 0nat,
{
    lemma_heads_nonempty();
    if let Some(Json::Arr(a)) = get(j, "anyOf"@) {
        lemma_get_smaller(j, "anyOf"@);
        lemma_ne_any_of_list(h, a, false, r);
    }
}

proof fn lemma_ne_one_of<H: ParserOverride>(h: H, j: Json, r: RefsView)
    requires
        hook_nonempty(h),
    ensures
        spec_parse_one_of(h, j, r).len() > 0,
    decreases msize(j), 1nat, 0nat,
{
    lemma_heads_nonempty();
    if let Some(Json::Arr(a)) = get(j, "oneOf"@) {
        lemma_get_smaller(j, "oneOf"@);
        lemma_ne_one_of_list(h, a, false, r);
    }
}

proof fn lemma_ne_all_of<H: ParserOverride>(h: H, j: Json, r: RefsView)
    requires
        hook_nonempty(h),
    ensures
        spec_parse_all_of(h, j, r).len() > 0,
    decreases msize(j), 1nat, 0nat,
{
    lemma_heads_nonempty();
    if let Some(Json::Arr(a)) = get(j, "allOf"@) {
        lemma_get_smaller(j, "allOf"@);
        lemma_allof_bound_le(a);
        lemma_ne_all_of_list(h, a, r);
    }
}

proof fn lemma_ne_discriminated<H: ParserOverride>(h: H, j: Json, r: RefsView)
    requires
        hook_nonempty(h),
    ensures
        spec_parse_discriminated(h, j, r).len() > 0,
    decreases msize(j), 1nat, 0nat,
{
    lemma_heads_nonempty();
    if let Some(Json::Arr(a)) = get(j, "oneOf"@) {
        lemma_get_smaller(j, "oneOf"@);
        if a.len() == 1 {
            lemma_item_smaller(a, 0);
            lemma_ne_schema(h, a[0], r.push2(Seg::Key("oneOf"@), Seg::Index(0)), false);
        }
    }
}

/// The walk never emits an empty fragment, as long as the hook never answers
/// with an empty text (the absent hook never answers at all).
pub proof fn law_output_never_empty<H: ParserOverride>(h: H, j: Json, r: RefsView, block_meta: bool)
    requires
        hook_nonempty(h),
    ensures
        spec_parse_schema(h, j, r, block_meta).len() > 0,
{
    lemma_ne_schema(h, j, r, block_meta);
}

// ---------------------------------------------------------------------------
// Enums and numbers.
// ---------------------------------------------------------------------------

// ---------------------------------------------------------------------------
// Modifiers and strings.
// ---------------------------------------------------------------------------

/// A modifier is its opener, then, when the schema's `errorMessage` has a
/// string under the modifier's key (or else when there is a fallback message),
/// the prefix and that message as a JSON string, then its closer.
pub proof fn law_modifier_message(
    j: Json,
    k: Seq<char>,
    opener: Seq<char>,
    prefix: Seq<char>,
    closer: Seq<char>,
    fallback: Option<Seq<char>>,
)
    ensures
        assemble(j, k, (opener, prefix, closer), fallback) == match get(j, "errorMessage"@) {
            Some(m) => match get(m, k) {
                Some(Json::Str(msg)) => opener + prefix + json_quote(msg) + closer,
                _ => match fallback {
                    Some(f) => opener + prefix + json_quote(f) + closer,
                    None => opener + closer,
                },
            },
            None => match fallback {
                Some(f) => opener + prefix + json_quote(f) + closer,
                None => opener + closer,
            },
        },
{
}

/// A string schema is `z.string()` followed, in this order, by its format
/// modifier (for the known formats only), `.regex(new RegExp(pattern))`,
/// `.min(minLength)` and `.max(maxLength)` whenever each is present and
/// independently of the others, `.base64()` for a base64 `contentEncoding`,
/// and, only for an `application/json` `contentMediaType`, the JSON-parsing
/// transform followed by `.pipe(...)` of an object or array `contentSchema`.
pub proof fn law_string_modifiers<H: ParserOverride>(h: H, j: Json, r: RefsView)
    ensures
        spec_parse_string(h, j, r) == ({
            let fmt = match get(j, "format"@) {
                Some(Json::Str(f)) => {
                    if f == "email"@ {
                        assemble(j, "format"@, (".email("@, Seq::empty(), ")"@), None)
                    } else if f == "ip"@ {
                        assemble(j, "format"@, (".ip("@, Seq::empty(), ")"@), None)
                    } else if f == "ipv4"@ {
                        assemble(j, "format"@, (".ip({ version: \"v4\""@, ", message: "@, " })"@), None)
                    } else if f == "ipv6"@ {
                        assemble(j, "format"@, (".ip({ version: \"v6\""@, ", message: "@, " })"@), None)
                    } else if f == "uri"@ {
                        assemble(j, "format"@, (".url("@, Seq::empty(), ")"@), None)
                    } else if f == "uuid"@ {
                        assemble(j, "format"@, (".uuid("@, Seq::empty(), ")"@), None)
                    } else if f == "date-time"@ {
                        assemble(j, "format"@, (".datetime({ offset: true"@, ", message: "@, " })"@), None)
                    } else if f == "time"@ {
                        assemble(j, "format"@, (".time("@, Seq::empty(), ")"@), None)
                    } else if f == "date"@ {
                        assemble(j, "format"@, (".date("@, Seq::empty(), ")"@), None)
                    } else if f == "binary"@ {
                        assemble(j, "format"@, (".base64("@, Seq::empty(), ")"@), None)
                    } else if f == "duration"@ {
                        assemble(j, "format"@, (".duration("@, Seq::empty(), ")"@), None)
                    } else {
                        Seq::empty()
                    }
                },
                _ => Seq::empty(),
            };
            let pattern = match get(j, "pattern"@) {
                Some(v) => assemble(
                    j,
                    "pattern"@,
                    (".regex(new RegExp("@ + stringify(v) + ")"@, ", "@, ")"@),
                    None,
                ),
                None => Seq::empty(),
            };
            let min = match get(j, "minLength"@) {
                Some(v) => assemble(j, "minLength"@, (".min("@ + stringify(v), ", "@, ")"@), None),
                None => Seq::empty(),
            };
            let max = match get(j, "maxLength"@) {
                Some(v) => assemble(j, "maxLength"@, (".max("@ + stringify(v), ", "@, ")"@), None),
                None => Seq::empty(),
            };
            let encoding = if get(j, "contentEncoding"@) == Some(Json::Str("base64"@)) {
                assemble(j, "contentEncoding"@, (".base64("@, Seq::empty(), ")"@), None)
            } else {
                Seq::empty()
            };
            let media = if get(j, "contentMediaType"@) == Some(Json::Str("application/json"@)) {
                assemble(j, "contentMediaType"@, (JSON_TRANSFORM@, ", "@, ")"@), None)
            } else {
                Seq::empty()
            };
            let content = match get(j, "contentSchema"@) {
                Some(c) => if c is Obj || c is Arr {
                    assemble(
                        j,
                        "contentSchema"@,
                        (
                            ".pipe("@ + spec_parse_schema(h, c, r.push(Seg::Key("contentSchema"@)), false),
                            ", "@,
                            ")"@,
                        ),
                        None,
                    )
                } else {
                    Seq::empty()
                },
                None => Seq::empty(),
            };
            "z.string()"@ + fmt + pattern + min + max + encoding + if media.len() > 0 {
                media + content
            } else {
                Seq::empty()
            }
        }),
{
    reveal_strlit("base64");
    reveal_strlit("application/json");
}

/// An `enum` of two or more values becomes `z.enum` of their JSON texts,
/// joined by commas, exactly when every value is a string; as soon as one value
/// is not a string it becomes a `z.union` of one `z.literal` per value, in the
/// order of the array, joined by `", "`.
pub proof fn law_enum_strings_or_literals(j: Json, a: Seq<Json>)
    requires
        get(j, "enum"@) == Some(Json::Arr(a)),
        a.len() >= 2,
    ensures
        (forall|i: int| 0 <= i < a.len() ==> #[trigger] a[i] is Str) ==> spec_parse_enum(j) == "z.enum(["@
            + join(Seq::new(a.len(), |i: int| stringify(a[i])), ","@) + "])"@,
        (exists|i: int| 0 <= i < a.len() && !(#[trigger] a[i] is Str)) ==> spec_parse_enum(j)
            == "z.union(["@ + join(
            Seq::new(a.len(), |i: int| "z.literal("@ + stringify(a[i]) + ")"@),
            ", "@,
        ) + "])"@,
{
    assert(Seq::new(a.len(), |i: int| stringify(a[i])) =~= json_parts(a));
    assert(Seq::new(a.len(), |i: int| "z.literal("@ + stringify(a[i]) + ")"@) =~= literal_parts(a));
}

/// An `enum` that is missing, not an array, or empty matches nothing and
/// becomes `z.never()`; a single value becomes `z.literal` of its JSON text.
pub proof fn law_enum_empty_or_single(j: Json)
    ensures
        !(get(j, "enum"@) matches Some(Json::Arr(a)) && a.len() > 0) ==> spec_parse_enum(j)
            == "z.never()"@,
        get(j, "enum"@) matches Some(Json::Arr(a)) ==> (a.len() == 1 ==> spec_parse_enum(j)
            == "z.literal("@ + stringify(a[0]) + ")"@),
{
}

/// A `const` that is an object or an array matches JSON values deeply equal
/// to it; any other `const` (a missing one counting as `null`) becomes
/// `z.literal` of its JSON text.
pub proof fn law_const_literal(j: Json)
    ensures
        ({
            let c = match get(j, "const"@) {
                Some(c) => c,
                None => Json::Null,
            };
            spec_parse_const(j) == if c is Arr || c is Obj {
                "z.any().refine((value) => { "@ + EQUAL_FN@ + " return equal(value, "@ + stringify(c)
                    + "); })"@
            } else {
                "z.literal("@ + stringify(c) + ")"@
            }
        }),
{
}

/// A number schema is `z.number()` followed by four modifiers in this order:
/// `.int()` when `type` is `"integer"` (else when `format` is `"int64"`);
/// the `multipleOf` modifier, which for a multiple of one is `.int()` unless
/// `.int()` is already there; the lower bound, `.gt(min)` exactly when
/// `exclusiveMinimum` is the boolean `true` and `.gte(min)` otherwise for a
/// numeric `minimum`, else `.gt(exclusiveMinimum)` for a numeric
/// `exclusiveMinimum`; and the upper bound, `.lt(max)` exactly when
/// `exclusiveMaximum` is the boolean `true` and `.lte(max)` otherwise (absent,
/// `false` or anything else) for a numeric `maximum`, else
/// `.lt(exclusiveMaximum)` for a numeric `exclusiveMaximum`.
pub proof fn law_number_modifiers(j: Json)
    ensures
        spec_parse_number(j) == ({
            let int_mod = if get(j, "type"@) == Some(Json::Str("integer"@)) {
                assemble(j, "type"@, (".int("@, Seq::empty(), ")"@), None)
            } else if get(j, "format"@) == Some(Json::Str("int64"@)) {
                assemble(j, "format"@, (".int("@, Seq::empty(), ")"@), None)
            } else {
                Seq::empty()
            };
            let multiple_mod = match get(j, "multipleOf"@) {
                Some(Json::Num(n)) => if num_is_one(n) {
                    if int_mod.len() > 0 {
                        Seq::empty()
                    } else {
                        assemble(j, "multipleOf"@, (".int("@, Seq::empty(), ")"@), None)
                    }
                } else {
                    assemble(
                        j,
                        "multipleOf"@,
                        (".multipleOf("@ + stringify(Json::Num(n)), ", "@, ")"@),
                        None,
                    )
                },
                Some(v) => assemble(
                    j,
                    "multipleOf"@,
                    (".multipleOf("@ + stringify(v), ", "@, ")"@),
                    None,
                ),
                None => Seq::empty(),
            };
            let lower = match get(j, "minimum"@) {
                Some(Json::Num(m)) => if get(j, "exclusiveMinimum"@) == Some(Json::Bool(true)) {
                    assemble(j, "minimum"@, (".gt("@ + stringify(Json::Num(m)), ", "@, ")"@), None)
                } else {
                    assemble(j, "minimum"@, (".gte("@ + stringify(Json::Num(m)), ", "@, ")"@), None)
                },
                _ => match get(j, "exclusiveMinimum"@) {
                    Some(Json::Num(e)) => assemble(
                        j,
                        "exclusiveMinimum"@,
                        (".gt("@ + stringify(Json::Num(e)), ", "@, ")"@),
                        None,
                    ),
                    _ => Seq::empty(),
                },
            };
            let upper = match get(j, "maximum"@) {
                Some(Json::Num(m)) => if get(j, "exclusiveMaximum"@) == Some(Json::Bool(true)) {
                    assemble(j, "maximum"@, (".lt("@ + stringify(Json::Num(m)), ", "@, ")"@), None)
                } else {
                    assemble(j, "maximum"@, (".lte("@ + stringify(Json::Num(m)), ", "@, ")"@), None)
                },
                _ => match get(j, "exclusiveMaximum"@) {
                    Some(Json::Num(e)) => assemble(
                        j,
                        "exclusiveMaximum"@,
                        (".lt("@ + stringify(Json::Num(e)), ", "@, ")"@),
                        None,
                    ),
                    _ => Seq::empty(),
                },
            };
            "z.number()"@ + int_mod + multiple_mod + lower + upper
        }),
{
    reveal_strlit("integer");
    reveal_strlit("int64");
}

// ---------------------------------------------------------------------------
// Arrays.
// ---------------------------------------------------------------------------

/// An array whose `items` is not a list of schemas is `z.array` of its item
/// schema (one step down, under `items`; `z.any()` when `items` is absent or
/// falsy), followed by `.min(minItems)` whenever `minItems` is present,
/// `.max(maxItems)` whenever `maxItems` is present, each independently of the
/// other, and the unique-items refinement when `uniqueItems` is `true`.
pub proof fn law_array_modifiers<H: ParserOverride>(h: H, j: Json, r: RefsView)
    requires
        !(get(j, "items"@) matches Some(Json::Arr(_))),
    ensures
        spec_parse_array(h, j, r) == (match get(j, "items"@) {
            Some(x) => if truthy(x) {
                "z.array("@ + spec_parse_schema(h, x, r.push(Seg::Key("items"@)), false) + ")"@
            } else {
                "z.array(z.any())"@
            },
            None => "z.array(z.any())"@,
        }) + (match get(j, "minItems"@) {
            Some(v) => assemble(j, "minItems"@, (".min("@ + stringify(v), ", "@, ")"@), None),
            None => Seq::empty(),
        }) + (match get(j, "maxItems"@) {
            Some(v) => assemble(j, "maxItems"@, (".max("@ + stringify(v), ", "@, ")"@), None),
            None => Seq::empty(),
        }) + (if get(j, "uniqueItems"@) == Some(Json::Bool(true)) {
            assemble(
                j,
                "uniqueItems"@,
                (unique_open(j), ", "@, ")"@),
                Some("All items must be unique!"@),
            )
        } else {
            Seq::empty()
        }),
{
    let mins = match get(j, "minItems"@) {
        Some(v) => assemble(j, "minItems"@, (".min("@ + stringify(v), ", "@, ")"@), None),
        None => Seq::<char>::empty(),
    };
    let maxs = match get(j, "maxItems"@) {
        Some(v) => assemble(j, "maxItems"@, (".max("@ + stringify(v), ", "@, ")"@), None),
        None => Seq::<char>::empty(),
    };
    let uniq = if get(j, "uniqueItems"@) == Some(Json::Bool(true)) {
        assemble(j, "uniqueItems"@, (unique_open(j), ", "@, ")"@), Some("All items must be unique!"@))
    } else {
        Seq::<char>::empty()
    };
    assert(array_bounds(j) == mins + maxs + uniq);
}

proof fn lemma_items_plain<H: ParserOverride>(h: H, a: Seq<Json>, r: RefsView, k: Seq<char>, n: nat)
    requires
        n <= a.len(),
    ensures
        spec_items(h, a, false, r, k, n).len() == n,
        forall|i: int|
            0 <= i < n ==> #[trigger] spec_items(h, a, false, r, k, n)[i] == spec_parse_schema(
                h,
                a[i],
                r.push2(Seg::Key(k), Seg::Index(i as usize)),
                false,
            ),
    decreases n,
{
    if n > 0 {
        lemma_items_plain(h, a, r, k, (n - 1) as nat);
    }
}

/// An array whose `items` is a list of schemas is `z.tuple` of those schemas,
/// each parsed under `items/<index>`, in order and joined by `","`; the
/// `minItems`, `maxItems` and `uniqueItems` modifiers do not apply to it.
pub proof fn law_array_tuple<H: ParserOverride>(h: H, j: Json, a: Seq<Json>, r: RefsView)
    requires
        get(j, "items"@) == Some(Json::Arr(a)),
    ensures
        spec_parse_array(h, j, r) == "z.tuple(["@ + join(
            Seq::new(
                a.len(),
                |i: int| spec_parse_schema(h, a[i], r.push2(Seg::Key("items"@), Seg::Index(i as usize)), false),
            ),
            ","@,
        ) + "])"@,
{
    lemma_get_smaller(j, "items"@);
    lemma_items_plain(h, a, r, "items"@, a.len());
    assert(spec_items(h, a, false, r, "items"@, a.len()) =~= Seq::new(
        a.len(),
        |i: int| spec_parse_schema(h, a[i], r.push2(Seg::Key("items"@), Seg::Index(i as usize)), false),
    ));
}

// ---------------------------------------------------------------------------
// Combinators.
// ---------------------------------------------------------------------------

/// An `anyOf` list is `z.any()` when empty (or not a list), its one member
/// parsed under `anyOf/0` when it has one, and otherwise `z.union` of every
/// member parsed under `anyOf/<index>`, in order, joined by `", "`.
pub proof fn law_any_of<H: ParserOverride>(h: H, j: Json, r: RefsView)
    ensures
        spec_parse_any_of(h, j, r) == match get(j, "anyOf"@) {
            Some(Json::Arr(a)) => if a.len() == 0 {
                "z.any()"@
            } else if a.len() == 1 {
                spec_parse_schema(h, a[0], r.push2(Seg::Key("anyOf"@), Seg::Index(0)), false)
            } else {
                "z.union(["@ + join(
                    Seq::new(
                        a.len(),
                        |i: int|
                            spec_parse_schema(
                                h,
                                a[i],
                                r.push2(Seg::Key("anyOf"@), Seg::Index(i as usize)),
                                false,
                            ),
                    ),
                    ", "@,
                ) + "])"@
            },
            _ => "z.any()"@,
        },
{
    match get(j, "anyOf"@) {
        Some(Json::Arr(a)) => {
            lemma_get_smaller(j, "anyOf"@);
            lemma_items_plain(h, a, r, "anyOf"@, a.len());
            assert(spec_items(h, a, false, r, "anyOf"@, a.len()) =~= Seq::new(
                a.len(),
                |i: int| spec_parse_schema(h, a[i], r.push2(Seg::Key("anyOf"@), Seg::Index(i as usize)), false),
            ));
        },
        _ => {},
    }
}

/// A generic `oneOf` list is `z.any()` when empty (or not a list), its one
/// member parsed under `oneOf/0` when it has one, and otherwise the
/// exactly-one refinement over every member parsed under `oneOf/<index>`, in
/// order, joined by `", "`.
pub proof fn law_one_of<H: ParserOverride>(h: H, j: Json, r: RefsView)
    ensures
        spec_parse_one_of(h, j, r) == match get(j, "oneOf"@) {
            Some(Json::Arr(a)) => if a.len() == 0 {
                "z.any()"@
            } else if a.len() == 1 {
                spec_parse_schema(h, a[0], r.push2(Seg::Key("oneOf"@), Seg::Index(0)), false)
            } else {
                one_of_text(
                    join(
                        Seq::new(
                            a.len(),
                            |i: int|
                                spec_parse_schema(
                                    h,
                                    a[i],
                                    r.push2(Seg::Key("oneOf"@), Seg::Index(i as usize)),
                                    false,
                                ),
                        ),
                        ", "@,
                    ),
                    r.zod_version == ZodVersion::V3,
                )
            },
            _ => "z.any()"@,
        },
{
    match get(j, "oneOf"@) {
        Some(Json::Arr(a)) => {
            lemma_get_smaller(j, "oneOf"@);
            lemma_items_plain(h, a, r, "oneOf"@, a.len());
            assert(spec_items(h, a, false, r, "oneOf"@, a.len()) =~= Seq::new(
                a.len(),
                |i: int| spec_parse_schema(h, a[i], r.push2(Seg::Key("oneOf"@), Seg::Index(i as usize)), false),
            ));
        },
        _ => {},
    }
}

/// `not` is `z.any()` refined to reject whatever the `not` schema (parsed
/// under `not`; `z.never()` when absent) accepts.
pub proof fn law_not<H: ParserOverride>(h: H, j: Json, r: RefsView)
    ensures
        spec_parse_not(h, j, r) == "z.any().refine((value) => !"@ + (match get(j, "not"@) {
            Some(c) => spec_parse_schema(h, c, r.push(Seg::Key("not"@)), false),
            None => "z.never()"@,
        }) + ".safeParse(value).success, \"Invalid input: Should NOT be valid against schema\")"@,
{
}

/// `if`/`then`/`else` is the union of `then` and `else`, refined so that a
/// value must pass `then` when it passes `if` and `else` otherwise; each
/// branch is parsed under its own key, and an absent one is `z.never()`.
pub proof fn law_if_then_else<H: ParserOverride>(h: H, j: Json, r: RefsView)
    ensures
        spec_parse_if_then_else(h, j, r) == ({
            let branch = |k: Seq<char>|
                match get(j, k) {
                    Some(c) => spec_parse_schema(h, c, r.push(Seg::Key(k)), false),
                    None => "z.never()"@,
                };
            let i = branch("if"@);
            let t = branch("then"@);
            let e = branch("else"@);
            "z.union(["@ + t + ", "@ + e + "])"@ + ".superRefine((value,ctx) => {\n  const result = "@ + i
                + ".safeParse(value).success\n    ? "@ + t + ".safeParse(value)\n    : "@ + e
                + ".safeParse(value);\n  if (!result.success) {\n    result.error.errors.forEach((error) => ctx.addIssue(error))\n  }\n})"@
        }),
{
}

/// A discriminated `oneOf` is `z.any()` when empty (or not a list), its one
/// member parsed under `oneOf/0` when it has one, and otherwise
/// `z.discriminatedUnion` on the quoted `discriminator.propertyName` (empty
/// when it is not a string) over every member parsed under `oneOf/<index>`, in
/// order, joined by `", "`.
pub proof fn law_discriminated_union<H: ParserOverride>(h: H, j: Json, r: RefsView)
    ensures
        spec_parse_discriminated(h, j, r) == match get(j, "oneOf"@) {
            Some(Json::Arr(a)) => if a.len() == 0 {
                "z.any()"@
            } else if a.len() == 1 {
                spec_parse_schema(h, a[0], r.push2(Seg::Key("oneOf"@), Seg::Index(0)), false)
            } else {
                let prop = match get(j, "discriminator"@) {
                    Some(d) => match get(d, "propertyName"@) {
                        Some(Json::Str(p)) => p,
                        _ => Seq::empty(),
                    },
                    None => Seq::empty(),
                };
                "z.discriminatedUnion("@ + json_quote(prop) + ", ["@ + join(
                    Seq::new(
                        a.len(),
                        |i: int|
                            spec_parse_schema(
                                h,
                                a[i],
                                r.push2(Seg::Key("oneOf"@), Seg::Index(i as usize)),
                                false,
                            ),
                    ),
                    ", "@,
                ) + "])"@
            },
            _ => "z.any()"@,
        },
{
    match get(j, "oneOf"@) {
        Some(Json::Arr(a)) => {
            lemma_get_smaller(j, "oneOf"@);
            lemma_items_plain(h, a, r, "oneOf"@, a.len());
            assert(spec_items(h, a, false, r, "oneOf"@, a.len()) =~= Seq::new(
                a.len(),
                |i: int| spec_parse_schema(h, a[i], r.push2(Seg::Key("oneOf"@), Seg::Index(i as usize)), false),
            ));
        },
        _ => {},
    }
}

/// Appending an entry under a key the object lacks: the key then reads the
/// appended value, and swap-removing it gives the object back.
proof fn lemma_push_absent_key(m: Seq<(Seq<char>, Json)>, k: Seq<char>, v: Json)
    requires
        !has_key(m, k),
    ensures
        get(Json::Obj(m.push((k, v))), k) == Some(v),
        swap_remove_entry(m.push((k, v)), k) == m,
{
    let p = m.push((k, v));
    lemma_find_key(p, k);
    assert(p[m.len() as int].0 == k);
    if let Some(i) = find_key(p, k) {
        if i < m.len() {
            assert(m[i].0 == k);
        }
        assert(i == m.len());
    }
    assert(swap_remove_entry(p, k) =~= m);
}

/// The intersection of two plain object schemas: an `allOf` of two objects
/// that carry no source-index tag is `z.intersection` of the first parsed
/// under `allOf/0` and the second under `allOf/1`.
pub proof fn law_all_of_pair<H: ParserOverride>(h: H, j: Json, a: Seq<Json>, r: RefsView)
    requires
        get(j, "allOf"@) == Some(Json::Arr(a)),
        a.len() == 2,
        a[0] matches Json::Obj(m) && !has_key(m, "__originalIndex"@),
        a[1] matches Json::Obj(m) && !has_key(m, "__originalIndex"@),
    ensures
        spec_parse_all_of(h, j, r) == "z.intersection("@ + spec_parse_schema(
            h,
            a[0],
            r.push2(Seg::Key("allOf"@), Seg::Index(0)),
            false,
        ) + ", "@ + spec_parse_schema(h, a[1], r.push2(Seg::Key("allOf"@), Seg::Index(1)), false)
            + ")"@,
{
    lemma_get_smaller(j, "allOf"@);
    lemma_allof_bound_le(a);
    let k = ORIGINAL_INDEX@;
    let m0 = a[0]->Obj_0;
    let m1 = a[1]->Obj_0;
    assert(!any_tagged(a)) by {
        if any_tagged(a) {
            let i = choose|i: int| 0 <= i < a.len() && #[trigger] is_tagged(a[i]);
            assert(i == 0 || i == 1);
        }
    }
    let t = ensure_tagged(a);
    let t0 = (k, Json::Num(Num::PosInt(0nat as u64)));
    let t1 = (k, Json::Num(Num::PosInt(1nat as u64)));
    assert(t[0] == Json::Obj(m0.push(t0)));
    assert(t[1] == Json::Obj(m1.push(t1)));
    lemma_push_absent_key(m0, k, t0.1);
    lemma_push_absent_key(m1, k, t1.1);
    assert(strip(t[0]) == a[0]);
    assert(strip(t[1]) == a[1]);
    assert(leaf_seg(t[0]) == Seg::Index(0));
    assert(leaf_seg(t[1]) == Seg::Index(1));
    let left = t.take(1);
    let right = t.skip(1);
    assert(left =~= seq![t[0]]);
    assert(right =~= seq![t[1]]);
    lemma_allof_halves(a);
    lemma_allof_leaf(left);
    lemma_allof_leaf(right);
    assert(spec_all_of_list(h, left, r) == spec_parse_schema(
        h,
        a[0],
        r.push2(Seg::Key("allOf"@), Seg::Index(0)),
        false,
    ));
    assert(spec_all_of_list(h, right, r) == spec_parse_schema(
        h,
        a[1],
        r.push2(Seg::Key("allOf"@), Seg::Index(1)),
        false,
    ));
    assert(spec_all_of_list(h, a, r) == "z.intersection("@ + spec_all_of_list(h, left, r) + ", "@
        + spec_all_of_list(h, right, r) + ")"@);
}

proof fn lemma_type_branches<H: ParserOverride>(h: H, j: Json, t: Seq<Json>, r: RefsView, n: nat)
    requires
        get(j, "type"@) == Some(Json::Arr(t)),
        n <= t.len(),
    ensures
        spec_type_branches(h, j, r, n).len() == n,
        forall|i: int|
            0 <= i < n ==> #[trigger] spec_type_branches(h, j, r, n)[i] == spec_parse_schema(
                h,
                Json::Obj(set_entry(j->Obj_0, "type"@, t[i])),
                r.no_defaults(),
                false,
            ),
    decreases n,
{
    if n > 0 {
        lemma_type_branches(h, j, t, r, (n - 1) as nat);
    }
}

/// A list-valued `type` is `z.union` of one member per listed type, in order,
/// joined by `", "`: the schema with that entry as its `type`, parsed with
/// defaults dropped (the union carries the default once).
pub proof fn law_multiple_type<H: ParserOverride>(h: H, j: Json, t: Seq<Json>, r: RefsView)
    requires
        get(j, "type"@) == Some(Json::Arr(t)),
    ensures
        spec_parse_multiple_type(h, j, r) == "z.union(["@ + join(
            Seq::new(
                t.len(),
                |i: int|
                    spec_parse_schema(
                        h,
                        Json::Obj(set_entry(j->Obj_0, "type"@, t[i])),
                        r.no_defaults(),
                        false,
                    ),
            ),
            ", "@,
        ) + "])"@,
{
    lemma_type_branches(h, j, t, r, t.len());
    assert(spec_type_branches(h, j, r, t.len()) =~= Seq::new(
        t.len(),
        |i: int| spec_parse_schema(h, Json::Obj(set_entry(j->Obj_0, "type"@, t[i])), r.no_defaults(), false),
    ));
}

// ---------------------------------------------------------------------------
// Object properties.
// ---------------------------------------------------------------------------

proof fn lemma_prop_entries<H: ParserOverride>(
    h: H,
    j: Json,
    o: Seq<(Seq<char>, Json)>,
    r: RefsView,
    n: nat,
)
    requires
        n <= o.len(),
    ensures
        spec_prop_entries(h, j, o, r, n).len() == n,
        forall|i: int|
            0 <= i < n ==> #[trigger] spec_prop_entries(h, j, o, r, n)[i] == prop_entry(
                j,
                o[i].0,
                o[i].1,
                spec_parse_schema(
                    h,
                    o[i].1,
                    r.push2(Seg::Key("properties"@), Seg::Key(o[i].0)),
                    false,
                ),
                r,
            ),
    decreases n,
{
    if n > 0 {
        lemma_prop_entries(h, j, o, r, (n - 1) as nat);
    }
}

/// A non-empty `properties` object becomes `z.object({ ... })` with one entry
/// per property, in order, joined by `", "`. Each entry is the property's
/// JSDoc (when JSDoc is on and its schema is an object), its quoted key, `": "`
/// and its schema parsed under `properties/<key>`, and it ends in
/// `.optional()` exactly when the property has no `default` and is not
/// required. A property is required when the schema's `required` is an array
/// that lists its key; when `required` is not an array, a property is required
/// when its own schema is an object with `required: true`.
pub proof fn law_object_properties<H: ParserOverride>(
    h: H,
    j: Json,
    o: Seq<(Seq<char>, Json)>,
    r: RefsView,
)
    requires
        get(j, "properties"@) == Some(Json::Obj(o)),
        o.len() > 0,
    ensures
        spec_properties(h, j, r) == Some(
            "z.object({ "@ + join(
                Seq::new(
                    o.len(),
                    |i: int|
                        {
                            let k = o[i].0;
                            let v = o[i].1;
                            let required = match get(j, "required"@) {
                                Some(Json::Arr(req)) => exists|m: int|
                                    0 <= m < req.len() && #[trigger] req[m] == Json::Str(k),
                                _ => v is Obj && get(v, "required"@) == Some(Json::Bool(true)),
                            };
                            let has_default = v is Obj && get(v, "default"@) is Some;
                            (if r.with_jsdocs && v is Obj {
                                jsdocs_prefix(v)
                            } else {
                                Seq::empty()
                            }) + json_quote(k) + ": "@ + spec_parse_schema(
                                h,
                                v,
                                r.push2(Seg::Key("properties"@), Seg::Key(k)),
                                false,
                            ) + if !has_default && !required {
                                ".optional()"@
                            } else {
                                Seq::empty()
                            }
                        },
                ),
                ", "@,
            ) + " })"@,
        ),
{
    lemma_get_smaller(j, "properties"@);
    lemma_prop_entries(h, j, o, r, o.len());
    let entries = spec_prop_entries(h, j, o, r, o.len());
    let explicit = Seq::new(
        o.len(),
        |i: int|
            {
                let k = o[i].0;
                let v = o[i].1;
                let required = match get(j, "required"@) {
                    Some(Json::Arr(req)) => exists|m: int|
                        0 <= m < req.len() && #[trigger] req[m] == Json::Str(k),
                    _ => v is Obj && get(v, "required"@) == Some(Json::Bool(true)),
                };
                let has_default = v is Obj && get(v, "default"@) is Some;
                (if r.with_jsdocs && v is Obj {
                    jsdocs_prefix(v)
                } else {
                    Seq::empty()
                }) + json_quote(k) + ": "@ + spec_parse_schema(
                    h,
                    v,
                    r.push2(Seg::Key("properties"@), Seg::Key(k)),
                    false,
                ) + if !has_default && !required {
                    ".optional()"@
                } else {
                    Seq::empty()
                }
            },
    );
    assert forall|i: int| 0 <= i < o.len() implies #[trigger] entries[i] == explicit[i] by {
        let k = o[i].0;
        let v = o[i].1;
        let parsed = spec_parse_schema(h, v, r.push2(Seg::Key("properties"@), Seg::Key(k)), false);
        match get(j, "required"@) {
            Some(Json::Arr(req)) => {
                assert((exists|m: int| 0 <= m < req.len() && as_str(req[m]) == Some(k)) <==> (exists|
                    m: int,
                | 0 <= m < req.len() && #[trigger] req[m] == Json::Str(k))) by {
                    if exists|m: int| 0 <= m < req.len() && as_str(req[m]) == Some(k) {
                        let m = choose|m: int| 0 <= m < req.len() && as_str(req[m]) == Some(k);
                        assert(req[m] == Json::Str(k));
                    }
                    if exists|m: int| 0 <= m < req.len() && #[trigger] req[m] == Json::Str(k) {
                        let m = choose|m: int| 0 <= m < req.len() && #[trigger] req[m] == Json::Str(k);
                        assert(as_str(req[m]) == Some(k));
                    }
                }
            },
            _ => {},
        }
        let text = json_quote(k) + ": "@ + parsed;
        let pre = if r.with_jsdocs && v is Obj {
            jsdocs_prefix(v)
        } else {
            Seq::empty()
        };
        if r.with_jsdocs && v is Obj {
            assert(pre + json_quote(k) + ": "@ + parsed =~= jsdocs_prefix(v) + text);
        } else {
            assert(pre + json_quote(k) + ": "@ + parsed =~= text);
        }
        assert(text + Seq::empty() =~= text);
        assert(jsdocs_prefix(v) + text + Seq::empty() =~= jsdocs_prefix(v) + text);
    }
    assert(entries =~= explicit);
}

/// A `properties` member that is not an object, or an empty one, gives
/// `z.object({})`; without `properties` there is no such part.
pub proof fn law_object_without_properties<H: ParserOverride>(h: H, j: Json, r: RefsView)
    ensures
        get(j, "properties"@) is None ==> spec_properties(h, j, r) is None,
        get(j, "properties"@) matches Some(p) ==> (!(p matches Json::Obj(o) && o.len() > 0)
            ==> spec_properties(h, j, r) == Some("z.object({})"@)),
{
}

/// Without an object of `patternProperties`, an object schema's base is: its
/// `properties` part followed by `.strict()` when `additionalProperties`
/// parses to `z.never()`, by `.catchall(...)` of it when it parses to anything
/// else, and by nothing when it is absent; without `properties`, a record of
/// strings to the `additionalProperties` schema (`z.any()` when absent), with
/// the key schema spelled out for Zod 4 only. The combinators follow.
pub proof fn law_object_shell<H: ParserOverride>(h: H, j: Json, r: RefsView)
    requires
        !(get(j, "patternProperties"@) matches Some(Json::Obj(_))),
    ensures
        spec_parse_object(h, j, r) == ({
            let addl = match get(j, "additionalProperties"@) {
                Some(ap) => Some(
                    spec_parse_schema(h, ap, r.push(Seg::Key("additionalProperties"@)), false),
                ),
                None => None,
            };
            let record = |v: Seq<char>|
                if r.zod_version == ZodVersion::V3 {
                    "z.record("@ + v + ")"@
                } else {
                    "z.record(z.string(), "@ + v + ")"@
                };
            (match spec_properties(h, j, r) {
                Some(p) => match addl {
                    Some(ap) => if ap == "z.never()"@ {
                        p + ".strict()"@
                    } else {
                        p + ".catchall("@ + ap + ")"@
                    },
                    None => p,
                },
                None => match addl {
                    Some(ap) => record(ap),
                    None => record("z.any()"@),
                },
            }) + spec_object_combinators(h, j, r)
        }),
{
}

proof fn lemma_items_coerced<H: ParserOverride>(h: H, a: Seq<Json>, r: RefsView, k: Seq<char>, n: nat)
    requires
        n <= a.len(),
    ensures
        spec_items(h, a, true, r, k, n).len() == n,
        forall|i: int|
            0 <= i < n ==> #[trigger] spec_items(h, a, true, r, k, n)[i] == spec_parse_schema(
                h,
                coerce(a[i]),
                r.push2(Seg::Key(k), Seg::Index(i as usize)),
                false,
            ),
    decreases n,
{
    if n > 0 {
        lemma_items_coerced(h, a, r, k, (n - 1) as nat);
    }
}

/// A member with `properties`, `additionalProperties` or `patternProperties`
/// but no `type` is read as an object: `type: "object"` is appended to it.
/// Anything else is left as it is.
pub proof fn law_coerce_object_member(x: Json)
    ensures
        coerce(x) == match x {
            Json::Obj(m) => if !(exists|i: int| 0 <= i < m.len() && #[trigger] m[i].0 == "type"@) && (exists|
                i: int,
            |
                0 <= i < m.len() && (#[trigger] m[i].0 == "properties"@ || m[i].0
                    == "additionalProperties"@ || m[i].0 == "patternProperties"@)) {
                Json::Obj(m.push(("type"@, Json::Str("object"@))))
            } else {
                x
            },
            _ => x,
        },
{
    if let Json::Obj(m) = x {
        assert(has_key(m, "properties"@) || has_key(m, "additionalProperties"@) || has_key(
            m,
            "patternProperties"@,
        ) <==> (exists|i: int|
            0 <= i < m.len() && (#[trigger] m[i].0 == "properties"@ || m[i].0 == "additionalProperties"@
                || m[i].0 == "patternProperties"@))) by {
            if exists|i: int|
                0 <= i < m.len() && (#[trigger] m[i].0 == "properties"@ || m[i].0
                    == "additionalProperties"@ || m[i].0 == "patternProperties"@) {
                let i = choose|i: int|
                    0 <= i < m.len() && (#[trigger] m[i].0 == "properties"@ || m[i].0
                        == "additionalProperties"@ || m[i].0 == "patternProperties"@);
                assert(m[i].0 == "properties"@ ==> has_key(m, "properties"@));
                assert(m[i].0 == "additionalProperties"@ ==> has_key(m, "additionalProperties"@));
                assert(m[i].0 == "patternProperties"@ ==> has_key(m, "patternProperties"@));
            }
        }
    }
}

/// An object schema's combinators follow its base as `.and(...)`, `anyOf`
/// first, then `oneOf`, then `allOf`, each over its members read as objects
/// where they have object keywords and no `type`: `anyOf` and `oneOf` as
/// their own parsers would emit them (a non-list giving `z.any()`), `allOf` as
/// its intersection chain (a non-list giving `z.never()`).
pub proof fn law_object_combinators<H: ParserOverride>(h: H, j: Json, r: RefsView)
    ensures
        spec_object_combinators(h, j, r) == ({
            let members = |k: Seq<char>, a: Seq<Json>|
                Seq::new(
                    a.len(),
                    |i: int|
                        spec_parse_schema(
                            h,
                            coerce(a[i]),
                            r.push2(Seg::Key(k), Seg::Index(i as usize)),
                            false,
                        ),
                );
            let any = match get(j, "anyOf"@) {
                Some(Json::Arr(a)) => ".and("@ + (if a.len() == 0 {
                    "z.any()"@
                } else if a.len() == 1 {
                    spec_parse_schema(h, coerce(a[0]), r.push2(Seg::Key("anyOf"@), Seg::Index(0)), false)
                } else {
                    "z.union(["@ + join(members("anyOf"@, a), ", "@) + "])"@
                }) + ")"@,
                Some(_) => ".and(z.any())"@,
                None => Seq::empty(),
            };
            let one = match get(j, "oneOf"@) {
                Some(Json::Arr(a)) => ".and("@ + (if a.len() == 0 {
                    "z.any()"@
                } else if a.len() == 1 {
                    spec_parse_schema(h, coerce(a[0]), r.push2(Seg::Key("oneOf"@), Seg::Index(0)), false)
                } else {
                    one_of_text(join(members("oneOf"@, a), ", "@), r.zod_version == ZodVersion::V3)
                }) + ")"@,
                Some(_) => ".and(z.any())"@,
                None => Seq::empty(),
            };
            let all = match get(j, "allOf"@) {
                Some(Json::Arr(a)) => ".and("@ + spec_all_of_list(
                    h,
                    Seq::new(a.len(), |i: int| coerce(a[i])),
                    r,
                ) + ")"@,
                Some(_) => ".and(z.never())"@,
                None => Seq::empty(),
            };
            any + one + all
        }),
{
    match get(j, "anyOf"@) {
        Some(Json::Arr(a)) => {
            lemma_get_smaller(j, "anyOf"@);
            lemma_items_coerced(h, a, r, "anyOf"@, a.len());
            assert(spec_items(h, a, true, r, "anyOf"@, a.len()) =~= Seq::new(
                a.len(),
                |i: int| spec_parse_schema(h, coerce(a[i]), r.push2(Seg::Key("anyOf"@), Seg::Index(i as usize)), false),
            ));
        },
        _ => {},
    }
    match get(j, "oneOf"@) {
        Some(Json::Arr(a)) => {
            lemma_get_smaller(j, "oneOf"@);
            lemma_items_coerced(h, a, r, "oneOf"@, a.len());
            assert(spec_items(h, a, true, r, "oneOf"@, a.len()) =~= Seq::new(
                a.len(),
                |i: int| spec_parse_schema(h, coerce(a[i]), r.push2(Seg::Key("oneOf"@), Seg::Index(i as usize)), false),
            ));
        },
        _ => {},
    }
    match get(j, "allOf"@) {
        Some(Json::Arr(a)) => {
            assert(coerce_all(a) =~= Seq::new(a.len(), |i: int| coerce(a[i])));
        },
        _ => {},
    }
}

// ---------------------------------------------------------------------------
// Command-line switches.
// ---------------------------------------------------------------------------

/// JSDoc generation is on exactly when `withJsdocs` parsed to a set flag, and
/// the import line is dropped exactly when `noImport` did; the name, the
/// depth and the type export are taken from their parameters as given.
pub proof fn law_cli_switches(p: Seq<(Seq<char>, ParsedView)>)
    ensures
        options_for(p).with_jsdocs <==> spec_lookup(p, "withJsdocs"@, 0) == Some(
            ParsedView::Flag(true),
        ),
        options_for(p).no_import <==> spec_lookup(p, "noImport"@, 0) == Some(ParsedView::Flag(true)),
        forall|n: Seq<char>|
            spec_lookup(p, "name"@, 0) == Some(ParsedView::Str(n)) ==> #[trigger] options_for(p).name
                == Some(n),
        forall|d: i64|
            spec_lookup(p, "depth"@, 0) == Some(ParsedView::Number(d)) ==> #[trigger] options_for(
                p,
            ).depth == Some(d),
{
}

/// On the command line, JSDoc generation is on exactly when `--withJsdocs`
/// (or `-wj`) is among the arguments, and the import line is dropped exactly
/// when `--noImport` (or `-ni`) is, whenever the arguments parse.
pub proof fn law_cli_flags_from_argv(stdin_is_tty: bool, argv: Seq<Seq<char>>, numbers: Seq<Option<i64>>)
    ensures
        spec_parse_args(param_table(stdin_is_tty), argv, numbers, param_table(stdin_is_tty).len())
            matches Ok(p) ==> ((options_for(p).with_jsdocs <==> find_arg(
            argv,
            "--withJsdocs"@,
            "-wj"@,
            0,
        ) is Some) && (options_for(p).no_import <==> find_arg(argv, "--noImport"@, "-ni"@, 0) is Some)),
{
    let defs = param_table(stdin_is_tty);
    reveal_strlit("input");
    reveal_strlit("output");
    reveal_strlit("name");
    reveal_strlit("depth");
    reveal_strlit("module");
    reveal_strlit("type");
    reveal_strlit("noImport");
    reveal_strlit("withJsdocs");
    reveal_strlit("ni");
    reveal_strlit("wj");
    reveal_strlit("--");
    reveal_strlit("-");
    reveal_strlit("--withJsdocs");
    reveal_strlit("-wj");
    reveal_strlit("--noImport");
    reveal_strlit("-ni");
    lemma_parse_args_names(defs, argv, numbers, defs.len());
    match spec_parse_args(defs, argv, numbers, defs.len()) {
        Ok(p) => {
        assert("--"@ + "withJsdocs"@ =~= "--withJsdocs"@);
        assert("-"@ + "wj"@ =~= "-wj"@);
        assert("--"@ + "noImport"@ =~= "--noImport"@);
        assert("-"@ + "ni"@ =~= "-ni"@);
        assert(p[0].0 != "withJsdocs"@ && p[0].0 != "noImport"@);
        assert(p[1].0 != "withJsdocs"@ && p[1].0 != "noImport"@);
        assert(p[2].0 != "withJsdocs"@ && p[2].0 != "noImport"@);
        assert(p[3].0 != "withJsdocs"@ && p[3].0 != "noImport"@);
        assert(p[4].0 != "withJsdocs"@ && p[4].0 != "noImport"@);
        assert(p[5].0 != "withJsdocs"@ && p[5].0 != "noImport"@);
        assert(p[6].0 == "noImport"@);
        assert(p[7].0 == "withJsdocs"@);
        assert(p[7].0 != "noImport"@);
        assert(spec_lookup(p, "noImport"@, 6) == Some(p[6].1));
        assert(spec_lookup(p, "noImport"@, 5) == Some(p[6].1));
        assert(spec_lookup(p, "noImport"@, 4) == Some(p[6].1));
        assert(spec_lookup(p, "noImport"@, 3) == Some(p[6].1));
        assert(spec_lookup(p, "noImport"@, 2) == Some(p[6].1));
        assert(spec_lookup(p, "noImport"@, 1) == Some(p[6].1));
        assert(spec_lookup(p, "noImport"@, 0) == Some(p[6].1));
        assert(spec_lookup(p, "withJsdocs"@, 7) == Some(p[7].1));
        assert(spec_lookup(p, "withJsdocs"@, 6) == Some(p[7].1));
        assert(spec_lookup(p, "withJsdocs"@, 5) == Some(p[7].1));
        assert(spec_lookup(p, "withJsdocs"@, 4) == Some(p[7].1));
        assert(spec_lookup(p, "withJsdocs"@, 3) == Some(p[7].1));
        assert(spec_lookup(p, "withJsdocs"@, 2) == Some(p[7].1));
        assert(spec_lookup(p, "withJsdocs"@, 1) == Some(p[7].1));
        assert(spec_lookup(p, "withJsdocs"@, 0) == Some(p[7].1));
        assert(param_outcome(defs[6], argv, numbers) == Ok::<ParsedView, Seq<char>>(p[6].1));
        assert(param_outcome(defs[7], argv, numbers) == Ok::<ParsedView, Seq<char>>(p[7].1));
        },
        Err(_) => {},
    }
}

} // verus!
