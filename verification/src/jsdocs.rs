//! JSDoc block rendering from schema `description` values.
use vstd::prelude::*;

use crate::json::{Json, JsonValue, as_str, get};

verus! {

/// The first `n` characters with every line feed followed by `* `.
pub open spec fn star_lines(s: Seq<char>, n: nat) -> Seq<char>
    decreases n,
{
    if n == 0 || n > s.len() {
        Seq::empty()
    } else if s[n - 1] == '\n' {
        star_lines(s, (n - 1) as nat) + "\n* "@
    } else {
        star_lines(s, (n - 1) as nat).push(s[n - 1])
    }
}

/// Whether a text has a line feed.
pub open spec fn has_newline(s: Seq<char>) -> bool {
    exists|i: int| 0 <= i < s.len() && s[i] == '\n'
}

/// The first `n` characters split at each line feed: the lines, without the
/// line feeds.
pub open spec fn split_lines(s: Seq<char>, n: nat) -> Seq<Seq<char>>
    decreases n,
{
    if n == 0 || n > s.len() {
        seq![Seq::empty()]
    } else if s[n - 1] == '\n' {
        split_lines(s, (n - 1) as nat).push(Seq::empty())
    } else {
        let l = split_lines(s, (n - 1) as nat);
        l.update(l.len() - 1, l.last().push(s[n - 1]))
    }
}

/// Each line with `* ` in front.
pub open spec fn star_prefixed(lines: Seq<Seq<char>>) -> Seq<Seq<char>> {
    Seq::new(lines.len(), |i: int| "* "@ + lines[i])
}

/// The JSDoc block of a description. A single line renders as
/// `/**<desc>*/\n`. Several lines each get a `* ` prefix and wrap as
/// `/**\n* line1\n* line2\n*/\n`.
pub open spec fn jsdoc_block(s: Seq<char>) -> Seq<char> {
    if has_newline(s) {
        "/**\n* "@ + star_lines(s, s.len()) + "\n*/\n"@
    } else {
        "/**"@ + s + "*/\n"@
    }
}

/// Wrap a description string in a JSDoc block.
///
/// A single line renders as `/**<desc>*/\n`. Multiple lines each get a `* `
/// prefix and wrap as `/**\n* line1\n* line2\n*/\n`. Splitting uses `\n` only,
/// so a `\r` stays attached to its line.
pub fn expand_jsdocs(jsdocs: &str) -> (r: String)
    ensures
        r@ == jsdoc_block(jsdocs@),
{
    let n = jsdocs.unicode_len();
    let mut starred = String::new();
    let mut newline = false;
    let mut i: usize = 0;
    while i < n
        invariant
            n == jsdocs@.len(),
            i <= n,
            starred@ == star_lines(jsdocs@, i as nat),
            newline == exists|k: int| 0 <= k < i && jsdocs@[k] == '\n',
        decreases n - i,
    {
        let c = jsdocs.get_char(i);
        if c == '\n' {
            starred.append("\n* ");
            newline = true;
        } else {
            starred.push(c);
        }
        proof {
            if c != '\n' {
                assert(newline == exists|k: int| 0 <= k < i + 1 && jsdocs@[k] == '\n') by {
                    if exists|k: int| 0 <= k < i + 1 && jsdocs@[k] == '\n' {
                        let k = choose|k: int| 0 <= k < i + 1 && jsdocs@[k] == '\n';
                        assert(k < i);
                    }
                }
            }
        }
        i += 1;
    }
    let mut r = String::new();
    if newline {
        r.append("/**\n* ");
        r.append(starred.as_str());
        r.append("\n*/\n");
    } else {
        r.append("/**");
        r.append(jsdocs);
        r.append("*/\n");
    }
    r
}

/// What `add_jsdocs` puts before the parsed text: a line feed and the JSDoc
/// block of a non-empty string `description`; nothing otherwise.
pub open spec fn jsdocs_prefix(schema: Json) -> Seq<char> {
    match get(schema, "description"@) {
        Some(d) => match as_str(d) {
            Some(s) => if s.len() > 0 {
                "\n"@ + jsdoc_block(s)
            } else {
                Seq::empty()
            },
            None => Seq::empty(),
        },
        None => Seq::empty(),
    }
}

/// Prepend a JSDoc block built from `schema.description` to `parsed`, with a
/// leading newline. Returns `parsed` unchanged when there is no description.
pub fn add_jsdocs(schema: &JsonValue, parsed: &str) -> (r: String)
    ensures
        r@ == jsdocs_prefix(schema@) + parsed@,
{
    let mut r = String::new();
    if let Some(d) = schema.get("description") {
        if let Some(s) = d.as_str() {
            if s.unicode_len() > 0 {
                r.append("\n");
                let block = expand_jsdocs(s);
                r.append(block.as_str());
            }
        }
    }
    r.append(parsed);
    r
}

} // verus!
