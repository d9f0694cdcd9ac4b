//! Generate Zod schema source code from a JSON Schema value.
//!
//! This crate is a pure text transform. It takes a JSON Schema value and emits
//! a string of TypeScript or JavaScript that builds an equivalent Zod schema.
//! It does not validate data. The output is source text that references a `z`
//! import you supply at runtime.
//!
//! The entry point is [`json_schema_to_zod`]. It walks the schema tree and
//! dispatches each node to a parser that returns a Zod source fragment. The
//! fragments concatenate into a `z.method(...)` chain. Every parser's output is
//! proved equal to its model in [`model`].
//!
//! Output targets Zod v4 by default. Set [`Options::zod_version`] to
//! [`ZodVersion::V3`] for v3 idioms. The version only changes `z.record` arity
//! and the `superRefine` error path and issue shape.
use vstd::prelude::*;

pub mod cli;
pub mod jsdocs;
pub mod json;
pub mod laws;
pub mod model;
pub mod parse_schema;
pub mod parsers;
pub mod predicates;
pub mod text;
pub mod types;
pub mod util;

pub use jsdocs::{add_jsdocs, expand_jsdocs};
pub use json::{JsonNumber, JsonValue};
pub use parsers::{
    parse_all_of, parse_any_of, parse_array, parse_boolean, parse_const, parse_default, parse_enum,
    parse_if_then_else, parse_multiple_type, parse_not, parse_nullable, parse_number, parse_object,
    parse_one_of, parse_simple_discriminated_one_of, parse_string,
};
pub use predicates::is_simple_discriminated_one_of;
pub use types::{
    Error, Module, NoOverride, Options, ParserOverride, PathSegment, Refs, TypeExport, ZodVersion,
};
pub use util::{half, json_stringify, json_stringify_str, omit, with_message, Builder};

use crate::jsdocs::jsdoc_block;
use crate::json::{Json, as_str, get, json_wf};
use crate::model::spec_parse_schema;
use crate::text::{json_quote, push_quoted};
use crate::types::{OptionsView, TypeExportView, refs_of};

verus! {

/// Parse a schema node with the given refs.
///
/// Most callers want [`json_schema_to_zod`]. Use this to drive the dispatcher
/// directly or to inspect a fragment without module wrapping. Build refs with
/// [`Refs::default_v4`] for a fresh v4 walk.
pub fn parse_schema(schema: &JsonValue, refs: &Refs) -> (r: String)
    requires
        json_wf(schema@),
    ensures
        r@ == spec_parse_schema(NoOverride, schema@, refs@, false),
{
    parse_schema::parse_schema_with(&NoOverride, schema, refs, false)
}

/// What `toUpperCase` gives for a character: its Unicode upper-case mapping.
pub uninterp spec fn char_upper(c: char) -> Seq<char>;

/// `char::to_uppercase`, collected into a string.
///
/// Trusted: the contract claims only that the result is the upper-case mapping
/// of `c`, a function of `c` alone; the mapping itself (the Unicode tables) is
/// left unstated.
#[verifier::external_body]
fn upper_of(c: char) -> (r: String)
    ensures
        r@ == char_upper(c),
{
    c.to_uppercase().collect::<String>()
}

/// The name with its first UTF-16 code unit upper-cased. A first character
/// outside the Basic Multilingual Plane is a surrogate pair in UTF-16; its
/// lone first half upper-cases to itself, so such a name stays as it is.
pub open spec fn capitalized(name: Seq<char>) -> Seq<char> {
    if name.len() == 0 {
        Seq::empty()
    } else if (name[0] as u32) < 0x10000 {
        char_upper(name[0]) + name.skip(1)
    } else {
        name
    }
}

/// Capitalize the first UTF-16 code unit of `name`, leaving the rest intact.
///
/// JS evaluates `name[0].toUpperCase() + name.substring(1)` on UTF-16 code
/// units. A lone surrogate upper-cases to itself, so a name that starts outside
/// the Basic Multilingual Plane comes back unchanged. For ASCII and other BMP
/// names this upper-cases the first character and keeps the remainder.
pub fn capitalize_first(name: &str) -> (r: String)
    ensures
        r@ == capitalized(name@),
{
    let n = name.unicode_len();
    if n == 0 {
        return String::new();
    }
    let c = name.get_char(0);
    let mut r = if (c as u32) < 0x10000 {
        upper_of(c)
    } else {
        let mut h = String::new();
        h.push(c);
        h
    };
    let ghost head = r@;
    let mut i: usize = 1;
    while i < n
        invariant
            n == name@.len(),
            1 <= i <= n,
            r@ == head + name@.subrange(1, i as int),
        decreases n - i,
    {
        r.push(name.get_char(i));
        assert(r@ =~= head + name@.subrange(1, i + 1));
        i += 1;
    }
    assert(name@.subrange(1, n as int) =~= name@.skip(1));
    if (c as u32) >= 0x10000 {
        assert(r@ =~= name@);
    }
    r
}

/// The JSDoc block of the root `description`, when JSDocs are asked for and
/// the description is a non-empty string.
pub open spec fn root_jsdocs(o: OptionsView, j: Json) -> Seq<char> {
    if o.with_jsdocs {
        match get(j, "description"@) {
            Some(d) => match as_str(d) {
                Some(s) => if s.len() > 0 {
                    jsdoc_block(s)
                } else {
                    Seq::empty()
                },
                None => Seq::empty(),
            },
            None => Seq::empty(),
        }
    } else {
        Seq::empty()
    }
}

/// The parsed schema wrapped for its module: `module.exports` (with a named
/// member when there is a name) and the `require` line for CommonJS, an
/// `export` (default or a named const) and the `import` line for ES modules,
/// and a bare expression or a `const` otherwise.
pub open spec fn module_wrap(o: OptionsView, jsdocs: Seq<char>, parsed: Seq<char>) -> Seq<char> {
    match o.module {
        Some(Module::Cjs) => {
            let body = match o.name {
                Some(n) => "{ "@ + json_quote(n) + ": "@ + parsed + " }"@,
                None => parsed,
            };
            let exported = jsdocs + "module.exports = "@ + body + "\n"@;
            if o.no_import {
                exported
            } else {
                jsdocs + "const { z } = require(\"zod\")\n\n"@ + exported
            }
        },
        Some(Module::Esm) => {
            let head = match o.name {
                Some(n) => "const "@ + n + " ="@,
                None => "default"@,
            };
            let exported = jsdocs + "export "@ + head + " "@ + parsed + "\n"@;
            if o.no_import {
                exported
            } else {
                "import { z } from \"zod\"\n\n"@ + exported
            }
        },
        _ => match o.name {
            Some(n) => jsdocs + "const "@ + n + " = "@ + parsed,
            None => parsed,
        },
    }
}

/// The `export type` line, when a type export and a name are set.
pub open spec fn type_line(o: OptionsView) -> Seq<char> {
    match o.type_export {
        Some(te) => match o.name {
            Some(n) => {
                let exported_name = match te {
                    TypeExportView::Named(s) => s,
                    TypeExportView::Flag => capitalized(n),
                };
                "export type "@ + exported_name + " = z.infer<typeof "@ + n + ">\n"@
            },
            None => Seq::empty(),
        },
        None => Seq::empty(),
    }
}

/// Whether the options ask for a type export without both a name and an ES
/// module.
pub open spec fn type_export_misconfigured(o: OptionsView) -> bool {
    o.type_export is Some && (o.name is None || o.module != Some(Module::Esm))
}

/// What the transform returns for a schema, options and override hook.
pub open spec fn spec_json_schema_to_zod<H: ParserOverride>(h: H, j: Json, o: OptionsView) -> Result<
    Seq<char>,
    Error,
> {
    if type_export_misconfigured(o) {
        Err(Error::TypeExportRequiresNameAndEsm)
    } else {
        Ok(
            module_wrap(o, root_jsdocs(o, j), spec_parse_schema(h, j, refs_of(o), false))
                + type_line(o),
        )
    }
}

/// The model of a transform result.
pub open spec fn result_view(r: Result<String, Error>) -> Result<Seq<char>, Error> {
    match r {
        Ok(s) => Ok(s@),
        Err(e) => Err(e),
    }
}

/// Generate Zod source code from a JSON Schema value.
///
/// Returns the emitted code. Returns an error when the `type` export is
/// requested without both a `name` and an ESM module, which is the only
/// validation the transform performs.
///
/// The output shape depends on [`Options::module`]:
/// - [`Module::Esm`] wraps with `import { z } from "zod"` and an
///   `export default` or `export const <name>`.
/// - [`Module::Cjs`] wraps with `const { z } = require("zod")` and
///   `module.exports`.
/// - [`Module::Bare`] or absent yields a bare expression, or `const <name> =`
///   when a name is set.
pub fn json_schema_to_zod(schema: &JsonValue, options: Options) -> (r: Result<String, Error>)
    requires
        json_wf(schema@),
    ensures
        result_view(r) == spec_json_schema_to_zod(NoOverride, schema@, options@),
{
    json_schema_to_zod_with_override(schema, options, &NoOverride)
}

/// The JSDoc block of the root `description`, when asked for.
fn root_jsdocs_text(options: &Options, schema: &JsonValue) -> (r: String)
    ensures
        r@ == root_jsdocs(options@, schema@),
{
    if options.with_jsdocs {
        if let Some(d) = schema.get("description") {
            if let Some(s) = d.as_str() {
                if s.unicode_len() > 0 {
                    return expand_jsdocs(s);
                }
            }
        }
    }
    String::new()
}

/// Wrap the parsed schema for the module the options ask for.
fn wrap_module(options: &Options, jsdocs: &str, parsed: &str) -> (r: String)
    ensures
        r@ == module_wrap(options@, jsdocs@, parsed@),
{
    let mut result = String::new();
    match options.module {
        Some(Module::Cjs) => {
            let mut body = String::new();
            match &options.name {
                Some(n) => {
                    body.append("{ ");
                    push_quoted(&mut body, n.as_str());
                    body.append(": ");
                    body.append(parsed);
                    body.append(" }");
                },
                None => {
                    body.append(parsed);
                },
            }
            if !options.no_import {
                result.append(jsdocs);
                result.append("const { z } = require(\"zod\")\n\n");
            }
            result.append(jsdocs);
            result.append("module.exports = ");
            result.append(body.as_str());
            result.append("\n");
        },
        Some(Module::Esm) => {
            if !options.no_import {
                result.append("import { z } from \"zod\"\n\n");
            }
            result.append(jsdocs);
            result.append("export ");
            match &options.name {
                Some(n) => {
                    result.append("const ");
                    result.append(n.as_str());
                    result.append(" =");
                },
                None => {
                    result.append("default");
                },
            }
            result.append(" ");
            result.append(parsed);
            result.append("\n");
        },
        _ => {
            match &options.name {
                Some(n) => {
                    result.append(jsdocs);
                    result.append("const ");
                    result.append(n.as_str());
                    result.append(" = ");
                    result.append(parsed);
                },
                None => {
                    result.append(parsed);
                },
            }
        },
    }
    assert(result@ =~= module_wrap(options@, jsdocs@, parsed@));
    result
}

/// Append the `export type` line, when a type export and a name are set.
fn push_type_line(out: &mut String, options: &Options)
    ensures
        final(out)@ == old(out)@ + type_line(options@),
{
    match (&options.type_export, &options.name) {
        (Some(te), Some(n)) => {
            let exported_name = match te {
                TypeExport::Named(s) => s.clone(),
                TypeExport::Flag => capitalize_first(n.as_str()),
            };
            out.append("export type ");
            out.append(exported_name.as_str());
            out.append(" = z.infer<typeof ");
            out.append(n.as_str());
            out.append(">\n");
        },
        _ => {},
    }
    assert(out@ =~= old(out)@ + type_line(options@));
}

/// [`json_schema_to_zod`] with a parser override hook that is consulted at
/// every object node of the walk and may replace that node's output.
pub fn json_schema_to_zod_with_override<H: ParserOverride>(
    schema: &JsonValue,
    options: Options,
    hook: &H,
) -> (r: Result<String, Error>)
    requires
        json_wf(schema@),
    ensures
        result_view(r) == spec_json_schema_to_zod(*hook, schema@, options@),
{
    if options.type_export.is_some() && (options.name.is_none() || options.module != Some(
        Module::Esm,
    )) {
        return Err(Error::TypeExportRequiresNameAndEsm);
    }
    let refs = Refs::from_options(&options);
    let parsed = parse_schema::parse_schema_with(hook, schema, &refs, false);
    let jsdocs = root_jsdocs_text(&options, schema);
    let mut result = wrap_module(&options, jsdocs.as_str(), parsed.as_str());
    push_type_line(&mut result, &options);
    Ok(result)
}

} // verus!
