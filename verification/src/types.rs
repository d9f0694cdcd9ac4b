//! Option bag, reference state, the target Zod version, and the override hook.
use vstd::prelude::*;

use crate::json::{Json, JsonValue};

verus! {

/// Target Zod major version. The version changes `z.record` arity and the
/// `superRefine` error path and issue shape. Everything else is identical.
#[derive(Debug, Clone, Copy, PartialEq, Eq, Structural)]
pub enum ZodVersion {
    /// Zod 3 idioms: `z.record(value)` and `path: [...ctx.path, key]`.
    V3,
    /// Zod 4 idioms: `z.record(z.string(), value)` and `path: [key]`.
    V4,
}

impl Default for ZodVersion {
    fn default() -> (r: ZodVersion)
        ensures
            r == ZodVersion::V4,
    {
        ZodVersion::V4
    }
}

/// How the output is wrapped.
#[derive(Debug, Clone, Copy, PartialEq, Eq, Structural)]
pub enum Module {
    /// CommonJS: `const { z } = require("zod")` plus `module.exports = ...`.
    Cjs,
    /// ES module: `import { z } from "zod"` plus `export default ...`.
    Esm,
    /// No module wrapper. A bare expression or `const name = ...`.
    Bare,
}

/// The `type` option: a flag that capitalizes `name`, or an explicit name.
#[derive(Debug, Clone, PartialEq, Eq)]
pub enum TypeExport {
    /// Derive the type name by capitalizing the first code unit of `name`.
    Flag,
    /// Use this exact type name.
    Named(String),
}

/// Model of [`TypeExport`].
pub ghost enum TypeExportView {
    Flag,
    Named(Seq<char>),
}

impl View for TypeExport {
    type V = TypeExportView;

    open spec fn view(&self) -> TypeExportView {
        match self {
            TypeExport::Flag => TypeExportView::Flag,
            TypeExport::Named(s) => TypeExportView::Named(s@),
        }
    }
}

/// An error from `json_schema_to_zod`.
#[derive(Debug, Clone, Copy, PartialEq, Eq, Structural)]
pub enum Error {
    /// A `type` export was requested without both a `name` and an ESM module.
    TypeExportRequiresNameAndEsm,
}

impl Error {
    /// The message of the error.
    pub fn message(&self) -> (r: String)
        ensures
            r@ == "Option `type` requires `name` to be set and `module` to be `esm`"@,
    {
        String::from_str("Option `type` requires `name` to be set and `module` to be `esm`")
    }
}

/// Public options for `json_schema_to_zod`.
///
/// All fields are optional. `zod_version` defaults to [`ZodVersion::V4`]. Start
/// from `Options::default()` and chain the setters, or assign fields directly.
#[derive(Debug)]
pub struct Options {
    /// Name of the schema constant in the output.
    pub name: Option<String>,
    /// Module wrapping. An absent value and [`Module::Bare`] both yield a bare
    /// expression with no `import`/`require` and no `export`.
    pub module: Option<Module>,
    /// Drop `.default(...)` modifiers.
    pub without_defaults: bool,
    /// Drop `.describe(...)` modifiers.
    pub without_describes: bool,
    /// Emit JSDoc blocks from `description` values.
    pub with_jsdocs: bool,
    /// Maximum re-expansion depth for recursive nodes before `z.any()`. A value
    /// of this crate is a tree, so no node is reached twice in one walk and the
    /// bound never comes into play.
    pub depth: Option<i64>,
    /// Emit `export type <Name> = z.infer<typeof name>`. Requires `name` and ESM.
    pub type_export: Option<TypeExport>,
    /// Drop the `import`/`require` line.
    pub no_import: bool,
    /// Target Zod version. Defaults to v4.
    pub zod_version: ZodVersion,
}

/// Model of [`Options`].
pub ghost struct OptionsView {
    pub name: Option<Seq<char>>,
    pub module: Option<Module>,
    pub without_defaults: bool,
    pub without_describes: bool,
    pub with_jsdocs: bool,
    pub depth: Option<i64>,
    pub type_export: Option<TypeExportView>,
    pub no_import: bool,
    pub zod_version: ZodVersion,
}

impl View for Options {
    type V = OptionsView;

    open spec fn view(&self) -> OptionsView {
        OptionsView {
            name: match self.name {
                Some(n) => Some(n@),
                None => None,
            },
            module: self.module,
            without_defaults: self.without_defaults,
            without_describes: self.without_describes,
            with_jsdocs: self.with_jsdocs,
            depth: self.depth,
            type_export: match self.type_export {
                Some(t) => Some(t@),
                None => None,
            },
            no_import: self.no_import,
            zod_version: self.zod_version,
        }
    }
}

/// The reference state that a walk with these options starts from.
pub open spec fn refs_of(o: OptionsView) -> RefsView {
    RefsView {
        path: Seq::empty(),
        without_defaults: o.without_defaults,
        without_describes: o.without_describes,
        with_jsdocs: o.with_jsdocs,
        depth: o.depth,
        zod_version: o.zod_version,
    }
}

impl Default for Options {
    fn default() -> (r: Options)
        ensures
            r.name is None,
            r.module is None,
            !r.without_defaults,
            !r.without_describes,
            !r.with_jsdocs,
            r.depth is None,
            r.type_export is None,
            !r.no_import,
            r.zod_version == ZodVersion::V4,
    {
        Options {
            name: None,
            module: None,
            without_defaults: false,
            without_describes: false,
            with_jsdocs: false,
            depth: None,
            type_export: None,
            no_import: false,
            zod_version: ZodVersion::V4,
        }
    }
}

impl Options {
    /// Set the schema constant name in the output.
    pub fn name(self, name: &str) -> (r: Options)
        ensures
            r.name matches Some(n) && n@ == name@,
            r.module == self.module,
            r.without_defaults == self.without_defaults,
            r.without_describes == self.without_describes,
            r.with_jsdocs == self.with_jsdocs,
            r.depth == self.depth,
            r.type_export == self.type_export,
            r.no_import == self.no_import,
            r.zod_version == self.zod_version,
    {
        Options { name: Some(String::from_str(name)), ..self }
    }

    /// Set the module wrapping.
    pub fn module(self, module: Module) -> (r: Options)
        ensures
            r == (Options { module: Some(module), ..self }),
    {
        Options { module: Some(module), ..self }
    }

    /// Drop `.default(...)` modifiers.
    pub fn without_defaults(self, value: bool) -> (r: Options)
        ensures
            r == (Options { without_defaults: value, ..self }),
    {
        Options { without_defaults: value, ..self }
    }

    /// Drop `.describe(...)` modifiers.
    pub fn without_describes(self, value: bool) -> (r: Options)
        ensures
            r == (Options { without_describes: value, ..self }),
    {
        Options { without_describes: value, ..self }
    }

    /// Emit JSDoc blocks from `description` values.
    pub fn with_jsdocs(self, value: bool) -> (r: Options)
        ensures
            r == (Options { with_jsdocs: value, ..self }),
    {
        Options { with_jsdocs: value, ..self }
    }

    /// Set the maximum re-expansion depth for recursive nodes.
    pub fn depth(self, depth: i64) -> (r: Options)
        ensures
            r == (Options { depth: Some(depth), ..self }),
    {
        Options { depth: Some(depth), ..self }
    }

    /// Set the inferred type export.
    pub fn type_export(self, export: TypeExport) -> (r: Options)
        ensures
            r == (Options { type_export: Some(export), ..self }),
    {
        Options { type_export: Some(export), ..self }
    }

    /// Drop the `import`/`require` line.
    pub fn no_import(self, value: bool) -> (r: Options)
        ensures
            r == (Options { no_import: value, ..self }),
    {
        Options { no_import: value, ..self }
    }

    /// Set the target Zod version.
    pub fn zod_version(self, version: ZodVersion) -> (r: Options)
        ensures
            r == (Options { zod_version: version, ..self }),
    {
        Options { zod_version: version, ..self }
    }
}

/// One step in a [`Refs`] path. Either an object key or an array index.
#[derive(Debug, Clone, PartialEq, Eq)]
pub enum PathSegment {
    /// An object property name or keyword.
    Key(String),
    /// An array index.
    Index(usize),
}

/// Model of a path step.
pub ghost enum Seg {
    Key(Seq<char>),
    Index(usize),
}

impl View for PathSegment {
    type V = Seg;

    open spec fn view(&self) -> Seg {
        match self {
            PathSegment::Key(s) => Seg::Key(s@),
            PathSegment::Index(i) => Seg::Index(*i),
        }
    }
}

/// Live reference state threaded through every parser: the breadcrumb of the
/// current node and the options that shape the output.
#[derive(Debug)]
pub struct Refs {
    /// Breadcrumb of the current node.
    pub path: Vec<PathSegment>,
    /// Drop `.default(...)` modifiers.
    pub without_defaults: bool,
    /// Drop `.describe(...)` modifiers.
    pub without_describes: bool,
    /// Emit JSDoc blocks from `description` values.
    pub with_jsdocs: bool,
    /// Maximum re-expansion depth for recursive nodes.
    pub depth: Option<i64>,
    /// Target Zod version.
    pub zod_version: ZodVersion,
}

/// Model of [`Refs`].
pub ghost struct RefsView {
    pub path: Seq<Seg>,
    pub without_defaults: bool,
    pub without_describes: bool,
    pub with_jsdocs: bool,
    pub depth: Option<i64>,
    pub zod_version: ZodVersion,
}

/// The models of a path.
pub open spec fn path_view(p: Seq<PathSegment>) -> Seq<Seg> {
    Seq::new(p.len(), |i: int| p[i]@)
}

impl View for Refs {
    type V = RefsView;

    open spec fn view(&self) -> RefsView {
        RefsView {
            path: path_view(self.path@),
            without_defaults: self.without_defaults,
            without_describes: self.without_describes,
            with_jsdocs: self.with_jsdocs,
            depth: self.depth,
            zod_version: self.zod_version,
        }
    }
}

impl RefsView {
    /// The same state one step further down.
    pub open spec fn push(self, s: Seg) -> RefsView {
        RefsView { path: self.path.push(s), ..self }
    }

    /// The same state two steps further down.
    pub open spec fn push2(self, s: Seg, t: Seg) -> RefsView {
        RefsView { path: self.path.push(s).push(t), ..self }
    }

    /// The same state with `.default(...)` dropped.
    pub open spec fn no_defaults(self) -> RefsView {
        RefsView { without_defaults: true, ..self }
    }

    /// Whether the target is Zod 3.
    pub open spec fn v3(self) -> bool {
        self.zod_version == ZodVersion::V3
    }
}

/// The default state for a direct parser call: empty path, v4, no options.
pub open spec fn default_refs() -> RefsView {
    RefsView {
        path: Seq::empty(),
        without_defaults: false,
        without_describes: false,
        with_jsdocs: false,
        depth: None,
        zod_version: ZodVersion::V4,
    }
}

impl Refs {
    /// The breadcrumb of the node currently being parsed.
    pub fn path(&self) -> (r: &[PathSegment])
        ensures
            r@ == self.path@,
    {
        self.path.as_slice()
    }

    /// Default refs for a direct parser call: empty path, v4, no options set.
    pub fn default_v4() -> (r: Refs)
        ensures
            r@ == default_refs(),
    {
        let r = Refs {
            path: Vec::new(),
            without_defaults: false,
            without_describes: false,
            with_jsdocs: false,
            depth: None,
            zod_version: ZodVersion::V4,
        };
        assert(r@.path =~= Seq::<Seg>::empty());
        r
    }

    /// Build refs from [`Options`], starting at an empty path.
    pub fn from_options(options: &Options) -> (r: Refs)
        ensures
            r@ == refs_of(options@),
    {
        let r = Refs {
            path: Vec::new(),
            without_defaults: options.without_defaults,
            without_describes: options.without_describes,
            with_jsdocs: options.with_jsdocs,
            depth: options.depth,
            zod_version: options.zod_version,
        };
        assert(r@.path =~= Seq::<Seg>::empty());
        r
    }

    /// The same state one step further down.
    pub fn step(&self, s: PathSegment) -> (r: Refs)
        ensures
            r@ == self@.push(s@),
    {
        let mut p = clone_path(&self.path);
        let ghost before = p@;
        let ghost sv = s@;
        p.push(s);
        assert(path_view(p@) =~= path_view(before).push(sv));
        Refs {
            path: p,
            without_defaults: self.without_defaults,
            without_describes: self.without_describes,
            with_jsdocs: self.with_jsdocs,
            depth: self.depth,
            zod_version: self.zod_version,
        }
    }

    /// The same state two steps further down.
    pub fn step2(&self, s: PathSegment, t: PathSegment) -> (r: Refs)
        ensures
            r@ == self@.push2(s@, t@),
    {
        let mut p = clone_path(&self.path);
        let ghost before = p@;
        let ghost sv = s@;
        let ghost tv = t@;
        p.push(s);
        p.push(t);
        assert(path_view(p@) =~= path_view(before).push(sv).push(tv));
        Refs {
            path: p,
            without_defaults: self.without_defaults,
            without_describes: self.without_describes,
            with_jsdocs: self.with_jsdocs,
            depth: self.depth,
            zod_version: self.zod_version,
        }
    }

    /// The same state with `.default(...)` dropped.
    pub fn without_defaults_copy(&self) -> (r: Refs)
        ensures
            r@ == self@.no_defaults(),
    {
        let p = clone_path(&self.path);
        Refs {
            path: p,
            without_defaults: true,
            without_describes: self.without_describes,
            with_jsdocs: self.with_jsdocs,
            depth: self.depth,
            zod_version: self.zod_version,
        }
    }
}

fn clone_segment(s: &PathSegment) -> (r: PathSegment)
    ensures
        r@ == s@,
{
    match s {
        PathSegment::Key(k) => PathSegment::Key(k.clone()),
        PathSegment::Index(i) => PathSegment::Index(*i),
    }
}

fn clone_path(p: &Vec<PathSegment>) -> (r: Vec<PathSegment>)
    ensures
        path_view(r@) == path_view(p@),
{
    let mut out: Vec<PathSegment> = Vec::new();
    let mut i: usize = 0;
    while i < p.len()
        invariant
            i <= p@.len(),
            out@.len() == i,
            forall|k: int| 0 <= k < i ==> #[trigger] out@[k]@ == p@[k]@,
        decreases p@.len() - i,
    {
        out.push(clone_segment(&p[i]));
        i += 1;
    }
    assert(path_view(out@) =~= path_view(p@));
    out
}

/// A path step for an object key.
pub fn key(s: &str) -> (r: PathSegment)
    ensures
        r@ == Seg::Key(s@),
{
    PathSegment::Key(String::from_str(s))
}

/// A path step for an array index.
pub fn idx(i: usize) -> (r: PathSegment)
    ensures
        r@ == Seg::Index(i),
{
    PathSegment::Index(i)
}

/// A parser override hook. It receives the current schema node and the live
/// refs. Returning `Some(code)` short-circuits parsing and emits `code`
/// verbatim. Returning `None` falls through to normal parsing.
///
/// The contracts of the walk hold for a hook whose `override_schema` answers
/// as its `overrides` says, so that the same node and refs always give the same
/// answer. An implementation written outside verified code is taken at its
/// word; one that leaves `overrides` at its default promises to answer
/// nothing.
pub trait ParserOverride {
    /// What the hook answers for a node and refs. Unless an implementation
    /// says otherwise, it answers nothing.
    open spec fn overrides(&self, schema: Json, refs: RefsView) -> Option<Seq<char>> {
        None
    }

    /// The hook itself.
    fn override_schema(&self, schema: &JsonValue, refs: &Refs) -> (r: Option<String>)
        ensures
            match r {
                Some(s) => self.overrides(schema@, refs@) == Some(s@),
                None => self.overrides(schema@, refs@) is None,
            },
    ;
}

/// The absent hook: never overrides.
pub struct NoOverride;

impl ParserOverride for NoOverride {
    open spec fn overrides(&self, schema: Json, refs: RefsView) -> Option<Seq<char>> {
        None
    }

    fn override_schema(&self, schema: &JsonValue, refs: &Refs) -> (r: Option<String>) {
        None
    }
}

} // verus!
