//! The command line's decisions: the parameter table, argument parsing, the
//! help text, and the options that parsed arguments select. Reading files,
//! stdin and the process arguments, and printing, stay with the binary.
use vstd::prelude::*;

use crate::types::{Module, Options, OptionsView, TypeExport, TypeExportView, ZodVersion};
use crate::util::{join, join_strings, strs_view};

verus! {

/// What kind of value a parameter expects.
pub enum ParamValue {
    /// A switch without a value.
    Flag,
    /// Any text.
    Str,
    /// A number, as JavaScript `Number()` reads it.
    Number,
    /// One of the listed texts.
    Enum(Vec<String>),
}

/// Whether a parameter is required, and the message to give if it is missing.
pub enum Required {
    /// Optional.
    No,
    /// Required; the message to report when it is missing.
    Message(String),
}

/// A command-line parameter definition.
pub struct Param {
    /// Long name, given as `--name`.
    pub name: String,
    /// Short name, given as `-short`.
    pub shorthand: String,
    /// What value follows the parameter.
    pub value: ParamValue,
    /// Whether the parameter must be given.
    pub required: Required,
    /// One line of help.
    pub description: String,
}

/// A parsed argument value.
#[derive(Debug, PartialEq, Eq)]
pub enum Parsed {
    /// A switch: given or not.
    Flag(bool),
    /// A text value.
    Str(String),
    /// A number value, truncated to an integer.
    Number(i64),
}

/// Model of a parameter's value kind.
pub ghost enum Kind {
    Flag,
    Str,
    Number,
    Enum(Seq<Seq<char>>),
}

/// Model of a parameter.
pub ghost struct ParamSpec {
    pub name: Seq<char>,
    pub shorthand: Seq<char>,
    pub kind: Kind,
    pub required: Option<Seq<char>>,
    pub description: Seq<char>,
}

/// Model of a parsed value.
pub ghost enum ParsedView {
    Flag(bool),
    Str(Seq<char>),
    Number(i64),
}

impl View for Param {
    type V = ParamSpec;

    open spec fn view(&self) -> ParamSpec {
        ParamSpec {
            name: self.name@,
            shorthand: self.shorthand@,
            kind: match self.value {
                ParamValue::Flag => Kind::Flag,
                ParamValue::Str => Kind::Str,
                ParamValue::Number => Kind::Number,
                ParamValue::Enum(v) => Kind::Enum(strs_view(v@)),
            },
            required: match self.required {
                Required::No => None,
                Required::Message(m) => Some(m@),
            },
            description: self.description@,
        }
    }
}

impl View for Parsed {
    type V = ParsedView;

    open spec fn view(&self) -> ParsedView {
        match self {
            Parsed::Flag(b) => ParsedView::Flag(*b),
            Parsed::Str(s) => ParsedView::Str(s@),
            Parsed::Number(n) => ParsedView::Number(*n),
        }
    }
}

/// The models of a parameter list.
pub open spec fn params_view(defs: Seq<Param>) -> Seq<ParamSpec> {
    Seq::new(defs.len(), |i: int| defs[i]@)
}

/// The models of parsed entries.
pub open spec fn parsed_view(parsed: Seq<(String, Parsed)>) -> Seq<(Seq<char>, ParsedView)> {
    Seq::new(parsed.len(), |i: int| (parsed[i].0@, parsed[i].1@))
}

/// One parameter's model.
pub open spec fn spec_param(
    name: Seq<char>,
    shorthand: Seq<char>,
    kind: Kind,
    required: Option<Seq<char>>,
    description: Seq<char>,
) -> ParamSpec {
    ParamSpec { name, shorthand, kind, required, description }
}

/// The parameter table in declaration order. `input` is required only when
/// stdin is a terminal, since otherwise the schema is piped in.
pub open spec fn param_table(stdin_is_tty: bool) -> Seq<ParamSpec> {
    seq![
        spec_param(
            "input"@,
            "i"@,
            Kind::Str,
            if stdin_is_tty {
                Some("input is required when no JSON or file path is piped"@)
            } else {
                None
            },
            "JSON or a source file path. Required if no data is piped."@,
        ),
        spec_param(
            "output"@,
            "o"@,
            Kind::Str,
            None,
            "A file path to write to. If not supplied stdout will be used."@,
        ),
        spec_param("name"@, "n"@, Kind::Str, None, "The name of the schema in the output."@),
        spec_param(
            "depth"@,
            "d"@,
            Kind::Number,
            None,
            "Maximum depth of recursion before falling back to z.any(). Defaults to 0."@,
        ),
        spec_param(
            "module"@,
            "m"@,
            Kind::Enum(seq!["esm"@, "cjs"@, "none"@]),
            None,
            "Module syntax; 'esm', 'cjs' or 'none'. Defaults to 'esm'."@,
        ),
        spec_param("type"@, "t"@, Kind::Str, None, "The name of the (optional) inferred type export."@),
        spec_param(
            "noImport"@,
            "ni"@,
            Kind::Flag,
            None,
            "Removes the `import { z } from 'zod';` or equivalent from the output."@,
        ),
        spec_param(
            "withJsdocs"@,
            "wj"@,
            Kind::Flag,
            None,
            "Generate jsdocs off of the description property."@,
        ),
        spec_param(
            "zodVersion"@,
            "zv"@,
            Kind::Number,
            None,
            "Target Zod version: 3 or 4. Defaults to 4."@,
        ),
    ]
}

fn param(name: &str, shorthand: &str, value: ParamValue, required: Required, description: &str) -> (r: Param)
    ensures
        r.name@ == name@,
        r.shorthand@ == shorthand@,
        r.value == value,
        r.required == required,
        r.description@ == description@,
{
    Param {
        name: String::from_str(name),
        shorthand: String::from_str(shorthand),
        value,
        required,
        description: String::from_str(description),
    }
}

/// The parameter list in declaration order. Parsing and help both walk this in
/// order, so a parameter is declared once. `stdin_is_tty` tells whether stdin is
/// a terminal, in which case `input` is required.
pub fn params(stdin_is_tty: bool) -> (r: Vec<Param>)
    ensures
        params_view(r@) == param_table(stdin_is_tty),
{
    let mut v: Vec<Param> = Vec::new();
    let input_required = if stdin_is_tty {
        Required::Message(String::from_str("input is required when no JSON or file path is piped"))
    } else {
        Required::No
    };
    v.push(
        param(
            "input",
            "i",
            ParamValue::Str,
            input_required,
            "JSON or a source file path. Required if no data is piped.",
        ),
    );
    v.push(
        param(
            "output",
            "o",
            ParamValue::Str,
            Required::No,
            "A file path to write to. If not supplied stdout will be used.",
        ),
    );
    v.push(param("name", "n", ParamValue::Str, Required::No, "The name of the schema in the output."));
    v.push(
        param(
            "depth",
            "d",
            ParamValue::Number,
            Required::No,
            "Maximum depth of recursion before falling back to z.any(). Defaults to 0.",
        ),
    );
    let mut allowed: Vec<String> = Vec::new();
    allowed.push(String::from_str("esm"));
    allowed.push(String::from_str("cjs"));
    allowed.push(String::from_str("none"));
    proof {
        assert(strs_view(allowed@) =~= seq!["esm"@, "cjs"@, "none"@]);
    }
    v.push(
        param(
            "module",
            "m",
            ParamValue::Enum(allowed),
            Required::No,
            "Module syntax; 'esm', 'cjs' or 'none'. Defaults to 'esm'.",
        ),
    );
    v.push(
        param(
            "type",
            "t",
            ParamValue::Str,
            Required::No,
            "The name of the (optional) inferred type export.",
        ),
    );
    v.push(
        param(
            "noImport",
            "ni",
            ParamValue::Flag,
            Required::No,
            "Removes the `import { z } from 'zod';` or equivalent from the output.",
        ),
    );
    v.push(
        param(
            "withJsdocs",
            "wj",
            ParamValue::Flag,
            Required::No,
            "Generate jsdocs off of the description property.",
        ),
    );
    v.push(
        param(
            "zodVersion",
            "zv",
            ParamValue::Number,
            Required::No,
            "Target Zod version: 3 or 4. Defaults to 4.",
        ),
    );
    assert(params_view(v@) =~= param_table(stdin_is_tty));
    v
}

/// The first position at or after `i` that holds `long` or `short`.
pub open spec fn find_arg(argv: Seq<Seq<char>>, long: Seq<char>, short: Seq<char>, i: int) -> Option<int>
    decreases argv.len() - i,
{
    if i < 0 || i >= argv.len() {
        None
    } else if argv[i] == long || argv[i] == short {
        Some(i)
    } else {
        find_arg(argv, long, short, i + 1)
    }
}

proof fn lemma_find_arg(argv: Seq<Seq<char>>, long: Seq<char>, short: Seq<char>, i: int)
    requires
        0 <= i,
    ensures
        find_arg(argv, long, short, i) matches Some(j) ==> i <= j < argv.len(),
    decreases argv.len() - i,
{
    if i < argv.len() && !(argv[i] == long || argv[i] == short) {
        lemma_find_arg(argv, long, short, i + 1);
    }
}

/// Once parsing fails, it fails with the same error however many more
/// parameters follow.
proof fn lemma_parse_args_err(
    defs: Seq<ParamSpec>,
    argv: Seq<Seq<char>>,
    numbers: Seq<Option<i64>>,
    n: nat,
    m: nat,
)
    requires
        n <= m <= defs.len(),
        spec_parse_args(defs, argv, numbers, n) is Err,
    ensures
        spec_parse_args(defs, argv, numbers, m) == spec_parse_args(defs, argv, numbers, n),
    decreases m - n,
{
    if m > n {
        lemma_parse_args_err(defs, argv, numbers, n, (m - 1) as nat);
    }
}

/// What one parameter parses to, or the error it raises.
pub open spec fn param_outcome(p: ParamSpec, argv: Seq<Seq<char>>, numbers: Seq<Option<i64>>) -> Result<
    ParsedView,
    Seq<char>,
> {
    match find_arg(argv, "--"@ + p.name, "-"@ + p.shorthand, 0) {
        None => match p.required {
            Some(msg) => Err(msg),
            None => Ok(ParsedView::Flag(false)),
        },
        Some(i) => match p.kind {
            Kind::Flag => Ok(ParsedView::Flag(true)),
            _ => if i + 1 >= argv.len() {
                Err("Expected a value for argument "@ + p.name)
            } else {
                let val = argv[i + 1];
                match p.kind {
                    Kind::Number => match numbers[i + 1] {
                        Some(n) => Ok(ParsedView::Number(n)),
                        None => Err("Value of argument "@ + p.name + " must be a valid number"@),
                    },
                    Kind::Enum(allowed) => if allowed.contains(val) {
                        Ok(ParsedView::Str(val))
                    } else {
                        Err("Value of argument "@ + p.name + " must be one of "@ + join(allowed, ","@))
                    },
                    _ => Ok(ParsedView::Str(val)),
                }
            },
        },
    }
}

/// The first `n` parameters parsed in order; the first error stops parsing.
pub open spec fn spec_parse_args(
    defs: Seq<ParamSpec>,
    argv: Seq<Seq<char>>,
    numbers: Seq<Option<i64>>,
    n: nat,
) -> Result<Seq<(Seq<char>, ParsedView)>, Seq<char>>
    decreases n,
{
    if n == 0 || n > defs.len() {
        Ok(Seq::empty())
    } else {
        match spec_parse_args(defs, argv, numbers, (n - 1) as nat) {
            Err(e) => Err(e),
            Ok(acc) => match param_outcome(defs[n - 1], argv, numbers) {
                Ok(v) => Ok(acc.push((defs[n - 1].name, v))),
                Err(e) => Err(e),
            },
        }
    }
}

/// The texts of the arguments.
pub open spec fn argv_view(argv: Seq<String>) -> Seq<Seq<char>> {
    strs_view(argv)
}

fn prefixed(prefix: &str, s: &str) -> (r: String)
    ensures
        r@ == prefix@ + s@,
{
    let mut r = String::from_str(prefix);
    r.append(s);
    r
}

/// The position of the first argument equal to `long` or `short`.
fn find_position(argv: &Vec<String>, long: &str, short: &str) -> (r: Option<usize>)
    ensures
        match r {
            Some(i) => i < argv@.len() && find_arg(argv_view(argv@), long@, short@, 0) == Some(
                i as int,
            ),
            None => find_arg(argv_view(argv@), long@, short@, 0) is None,
        },
{
    let ghost av = argv_view(argv@);
    let mut i: usize = argv.len();
    let mut found: Option<usize> = None;
    // Walk from the end so that the last hit seen is the first position.
    while i > 0
        invariant
            av == argv_view(argv@),
            i <= argv@.len(),
            match found {
                Some(k) => find_arg(av, long@, short@, i as int) == Some(k as int),
                None => find_arg(av, long@, short@, i as int) is None,
            },
        decreases i,
    {
        i -= 1;
        proof {
            lemma_find_arg(av, long@, short@, i as int);
        }
        let a = argv[i].as_str();
        if crate::predicates::str_eq(a, long) || crate::predicates::str_eq(a, short) {
            found = Some(i);
        }
    }
    proof {
        lemma_find_arg(av, long@, short@, 0);
    }
    found
}

/// Parse the process arguments against the parameter list.
///
/// `numbers` holds, for each argument, the integer that JavaScript `Number()`
/// reads from it (truncated), or `None` when it is not a number. Parameters are
/// taken in order; for each, the first argument equal to `--name` or `-short`
/// is its position. A missing parameter is an error when it is required and
/// `Flag(false)` otherwise. A flag present is `Flag(true)`; any other kind takes
/// the following argument, which must exist, must be a number for a number, and
/// must be one of the allowed texts for an enum.
pub fn parse_args(defs: &Vec<Param>, argv: &Vec<String>, numbers: &Vec<Option<i64>>) -> (r: Result<
    Vec<(String, Parsed)>,
    String,
>)
    requires
        numbers@.len() == argv@.len(),
    ensures
        match r {
            Ok(parsed) => spec_parse_args(params_view(defs@), argv_view(argv@), numbers@, defs@.len())
                == Ok::<Seq<(Seq<char>, ParsedView)>, Seq<char>>(parsed_view(parsed@)),
            Err(e) => spec_parse_args(params_view(defs@), argv_view(argv@), numbers@, defs@.len())
                == Err::<Seq<(Seq<char>, ParsedView)>, Seq<char>>(e@),
        },
{
    let ghost dv = params_view(defs@);
    let ghost av = argv_view(argv@);
    let mut result: Vec<(String, Parsed)> = Vec::new();
    assert(parsed_view(result@) =~= Seq::<(Seq<char>, ParsedView)>::empty());
    let mut k: usize = 0;
    while k < defs.len()
        invariant
            dv == params_view(defs@),
            av == argv_view(argv@),
            numbers@.len() == argv@.len(),
            k <= defs@.len(),
            spec_parse_args(dv, av, numbers@, k as nat) == Ok::<
                Seq<(Seq<char>, ParsedView)>,
                Seq<char>,
            >(parsed_view(result@)),
        decreases defs@.len() - k,
    {
        let p = &defs[k];
        let ghost ps = dv[k as int];
        assert(ps == p@);
        let long = prefixed("--", p.name.as_str());
        let short = prefixed("-", p.shorthand.as_str());
        let outcome: Result<Parsed, String> = match find_position(argv, long.as_str(), short.as_str()) {
            None => match &p.required {
                Required::Message(msg) => Err(msg.clone()),
                Required::No => Ok(Parsed::Flag(false)),
            },
            Some(index) => match &p.value {
                ParamValue::Flag => Ok(Parsed::Flag(true)),
                _ => {
                    if argv.len() - index <= 1 {
                        Err(prefixed("Expected a value for argument ", p.name.as_str()))
                    } else {
                        let val = &argv[index + 1];
                        match &p.value {
                            ParamValue::Number => match numbers[index + 1] {
                                Some(n) => Ok(Parsed::Number(n)),
                                None => {
                                    let mut e = prefixed("Value of argument ", p.name.as_str());
                                    e.append(" must be a valid number");
                                    Err(e)
                                },
                            },
                            ParamValue::Enum(allowed) => {
                                if contains_text(allowed, val.as_str()) {
                                    Ok(Parsed::Str(val.clone()))
                                } else {
                                    let mut e = prefixed("Value of argument ", p.name.as_str());
                                    e.append(" must be one of ");
                                    let joined = join_strings(allowed, ",");
                                    e.append(joined.as_str());
                                    Err(e)
                                }
                            },
                            _ => Ok(Parsed::Str(val.clone())),
                        }
                    }
                },
            },
        };
        let ghost ov = match &outcome {
            Ok(v) => Ok::<ParsedView, Seq<char>>(v@),
            Err(e) => Err::<ParsedView, Seq<char>>(e@),
        };
        assert(ov == param_outcome(ps, av, numbers@));
        match outcome {
            Ok(v) => {
                let ghost before = result@;
                let e = (p.name.clone(), v);
                result.push(e);
                assert(parsed_view(result@) =~= parsed_view(before).push((ps.name, e.1@)));
            },
            Err(e) => {
                proof {
                    lemma_parse_args_err(dv, av, numbers@, (k + 1) as nat, defs@.len());
                }
                return Err(e);
            },
        }
        k += 1;
    }
    Ok(result)
}

/// Whether `val` is one of the texts.
fn contains_text(allowed: &Vec<String>, val: &str) -> (r: bool)
    ensures
        r == strs_view(allowed@).contains(val@),
{
    let mut i: usize = 0;
    while i < allowed.len()
        invariant
            i <= allowed@.len(),
            forall|k: int| 0 <= k < i ==> strs_view(allowed@)[k] != val@,
        decreases allowed@.len() - i,
    {
        if crate::predicates::str_eq(allowed[i].as_str(), val) {
            assert(strs_view(allowed@)[i as int] == val@);
            return true;
        }
        i += 1;
    }
    false
}

/// Whether help is asked for with `--help` or `-h`.
pub fn wants_help(argv: &Vec<String>) -> (r: bool)
    ensures
        r == find_arg(argv_view(argv@), "--help"@, "-h"@, 0) is Some,
{
    find_position(argv, "--help", "-h").is_some()
}

/// The value of the first entry named `name`, at or after `i`.
pub open spec fn spec_lookup(p: Seq<(Seq<char>, ParsedView)>, name: Seq<char>, i: int) -> Option<
    ParsedView,
>
    decreases p.len() - i,
{
    if i < 0 || i >= p.len() {
        None
    } else if p[i].0 == name {
        Some(p[i].1)
    } else {
        spec_lookup(p, name, i + 1)
    }
}

/// The value parsed for `name`, if any.
pub fn lookup<'a>(parsed: &'a Vec<(String, Parsed)>, name: &str) -> (r: Option<&'a Parsed>)
    ensures
        match r {
            Some(v) => spec_lookup(parsed_view(parsed@), name@, 0) == Some(v@),
            None => spec_lookup(parsed_view(parsed@), name@, 0) is None,
        },
{
    let ghost pv = parsed_view(parsed@);
    let mut i: usize = parsed.len();
    let mut found: Option<&'a Parsed> = None;
    while i > 0
        invariant
            pv == parsed_view(parsed@),
            i <= parsed@.len(),
            match found {
                Some(v) => spec_lookup(pv, name@, i as int) == Some(v@),
                None => spec_lookup(pv, name@, i as int) is None,
            },
        decreases i,
    {
        i -= 1;
        if crate::predicates::str_eq(parsed[i].0.as_str(), name) {
            found = Some(&parsed[i].1);
        }
    }
    found
}

/// The options that parsed arguments select. The module defaults to ESM, and
/// only `--zodVersion 3` selects v3.
pub open spec fn options_for(p: Seq<(Seq<char>, ParsedView)>) -> OptionsView {
    OptionsView {
        name: match spec_lookup(p, "name"@, 0) {
            Some(ParsedView::Str(n)) => Some(n),
            _ => None,
        },
        module: Some(
            match spec_lookup(p, "module"@, 0) {
                Some(ParsedView::Str(m)) => if m == "cjs"@ {
                    Module::Cjs
                } else if m == "none"@ {
                    Module::Bare
                } else {
                    Module::Esm
                },
                _ => Module::Esm,
            },
        ),
        without_defaults: false,
        without_describes: false,
        with_jsdocs: spec_lookup(p, "withJsdocs"@, 0) == Some(ParsedView::Flag(true)),
        depth: match spec_lookup(p, "depth"@, 0) {
            Some(ParsedView::Number(d)) => Some(d),
            _ => None,
        },
        type_export: match spec_lookup(p, "type"@, 0) {
            Some(ParsedView::Str(t)) => Some(TypeExportView::Named(t)),
            _ => None,
        },
        no_import: spec_lookup(p, "noImport"@, 0) == Some(ParsedView::Flag(true)),
        zod_version: if spec_lookup(p, "zodVersion"@, 0) == Some(ParsedView::Number(3)) {
            ZodVersion::V3
        } else {
            ZodVersion::V4
        },
    }
}

fn is_flag_on(v: Option<&Parsed>) -> (r: bool)
    ensures
        r == (match v {
            Some(x) => Some(x@),
            None => None,
        } == Some(ParsedView::Flag(true))),
{
    match v {
        Some(Parsed::Flag(b)) => *b,
        _ => false,
    }
}

/// The options that parsed arguments select.
pub fn options_from_args(parsed: &Vec<(String, Parsed)>) -> (r: Options)
    ensures
        r@ == options_for(parsed_view(parsed@)),
{
    let zod_version = match lookup(parsed, "zodVersion") {
        Some(Parsed::Number(n)) => if *n == 3 {
            ZodVersion::V3
        } else {
            ZodVersion::V4
        },
        _ => ZodVersion::V4,
    };
    let module = match lookup(parsed, "module") {
        Some(Parsed::Str(s)) => if crate::predicates::str_eq(s.as_str(), "cjs") {
            Module::Cjs
        } else if crate::predicates::str_eq(s.as_str(), "none") {
            Module::Bare
        } else {
            Module::Esm
        },
        _ => Module::Esm,
    };
    let no_import = is_flag_on(lookup(parsed, "noImport"));
    let with_jsdocs = is_flag_on(lookup(parsed, "withJsdocs"));
    let mut options = Options::default().module(module).no_import(no_import).with_jsdocs(
        with_jsdocs,
    ).zod_version(zod_version);
    if let Some(Parsed::Str(n)) = lookup(parsed, "name") {
        options = options.name(n.as_str());
    }
    if let Some(Parsed::Number(d)) = lookup(parsed, "depth") {
        options = options.depth(*d);
    }
    if let Some(Parsed::Str(t)) = lookup(parsed, "type") {
        options = options.type_export(TypeExport::Named(t.clone()));
    }
    assert(options@ =~= options_for(parsed_view(parsed@)));
    options
}

/// The `input` argument, when one was given.
pub fn input_arg(parsed: &Vec<(String, Parsed)>) -> (r: Option<String>)
    ensures
        match r {
            Some(s) => spec_lookup(parsed_view(parsed@), "input"@, 0) == Some(ParsedView::Str(s@)),
            None => !(spec_lookup(parsed_view(parsed@), "input"@, 0) matches Some(ParsedView::Str(_))),
        },
{
    match lookup(parsed, "input") {
        Some(Parsed::Str(s)) => Some(s.clone()),
        _ => None,
    }
}

/// `n` spaces.
pub open spec fn spaces(n: nat) -> Seq<char> {
    Seq::new(n, |i: int| ' ')
}

/// The widest parameter name, and at least five.
pub open spec fn widest(defs: Seq<ParamSpec>, n: nat) -> nat
    decreases n,
{
    if n == 0 || n > defs.len() {
        5
    } else {
        let w = widest(defs, (n - 1) as nat);
        if defs[n - 1].name.len() > w {
            defs[n - 1].name.len()
        } else {
            w
        }
    }
}

/// The help lines of the first `n` parameters.
pub open spec fn help_lines(defs: Seq<ParamSpec>, w: nat, n: nat) -> Seq<char>
    decreases n,
{
    if n == 0 || n > defs.len() {
        Seq::empty()
    } else {
        let p = defs[n - 1];
        help_lines(defs, w, (n - 1) as nat) + "--"@ + p.name + spaces((w - p.name.len()) as nat) + " -"@
            + p.shorthand + "    "@ + p.description + "\n"@
    }
}

/// The help text: a header, one aligned line per parameter, and a line for
/// `--help` itself. Names are padded to the widest name (at least five
/// characters wide).
pub open spec fn help_of(defs: Seq<ParamSpec>) -> Seq<char> {
    let w = widest(defs, defs.len());
    "Name "@ + spaces((w - 2) as nat) + "Short Description\n"@ + help_lines(defs, w, defs.len())
        + "--help"@ + spaces((w - 4) as nat) + " -h    Display this message :)\n"@
}

fn push_spaces(out: &mut String, n: usize)
    ensures
        final(out)@ == old(out)@ + spaces(n as nat),
{
    let mut i: usize = 0;
    while i < n
        invariant
            i <= n,
            out@ == old(out)@ + spaces(i as nat),
        decreases n - i,
    {
        out.push(' ');
        assert(out@ =~= old(out)@ + spaces((i + 1) as nat));
        i += 1;
    }
}

proof fn lemma_widest(defs: Seq<ParamSpec>, n: nat)
    requires
        n <= defs.len(),
    ensures
        widest(defs, n) >= 5,
        forall|i: int| 0 <= i < n ==> #[trigger] defs[i].name.len() <= widest(defs, n),
    decreases n,
{
    if n > 0 {
        lemma_widest(defs, (n - 1) as nat);
    }
}

/// The help text of the parameter list.
pub fn help_text(defs: &Vec<Param>) -> (r: String)
    ensures
        r@ == help_of(params_view(defs@)),
{
    let ghost dv = params_view(defs@);
    let mut longest: usize = 5;
    let mut i: usize = 0;
    while i < defs.len()
        invariant
            dv == params_view(defs@),
            i <= defs@.len(),
            longest == widest(dv, i as nat),
        decreases defs@.len() - i,
    {
        let len = defs[i].name.as_str().unicode_len();
        assert(dv[i as int].name == defs@[i as int].name@);
        if len > longest {
            longest = len;
        }
        i += 1;
    }
    proof {
        lemma_widest(dv, dv.len());
    }
    let mut out = String::from_str("Name ");
    push_spaces(&mut out, longest - 2);
    out.append("Short Description\n");
    let ghost head = out@;
    let mut k: usize = 0;
    while k < defs.len()
        invariant
            dv == params_view(defs@),
            k <= defs@.len(),
            longest == widest(dv, dv.len()),
            forall|m: int| 0 <= m < dv.len() ==> #[trigger] dv[m].name.len() <= longest,
            out@ == head + help_lines(dv, longest as nat, k as nat),
        decreases defs@.len() - k,
    {
        let p = &defs[k];
        assert(dv[k as int] == p@);
        out.append("--");
        out.append(p.name.as_str());
        let len = p.name.as_str().unicode_len();
        assert(dv[k as int].name.len() <= longest);
        push_spaces(&mut out, longest - len);
        out.append(" -");
        out.append(p.shorthand.as_str());
        out.append("    ");
        out.append(p.description.as_str());
        out.append("\n");
        assert(out@ =~= head + help_lines(dv, longest as nat, (k + 1) as nat));
        k += 1;
    }
    out.append("--help");
    push_spaces(&mut out, longest - 4);
    out.append(" -h    Display this message :)\n");
    assert(out@ =~= help_of(dv));
    out
}

} // verus!
