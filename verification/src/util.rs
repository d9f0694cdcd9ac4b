//! Small helpers shared by the parsers: joining, halving, JSON rendering,
//! message builders, and key removal.
use vstd::prelude::*;

use crate::json::{
    Json, JsonValue, as_str, clone_json, entries_view, get, lemma_entries_view,
    lemma_entries_view_push, omit_key, omit_entries,
};
use crate::text::{json_quote, push_json, push_quoted, stringify};

verus! {

/// `parts.join(sep)`.
pub open spec fn join(parts: Seq<Seq<char>>, sep: Seq<char>) -> Seq<char>
    decreases parts.len(),
{
    if parts.len() == 0 {
        Seq::empty()
    } else if parts.len() == 1 {
        parts[0]
    } else {
        join(parts.drop_last(), sep) + sep + parts.last()
    }
}

/// Joining one more part.
pub proof fn lemma_join_push(parts: Seq<Seq<char>>, sep: Seq<char>, p: Seq<char>)
    ensures
        join(parts.push(p), sep) == if parts.len() == 0 {
            p
        } else {
            join(parts, sep) + sep + p
        },
{
    assert(parts.push(p).drop_last() =~= parts);
}

/// The texts of a vector of strings.
pub open spec fn strs_view(v: Seq<String>) -> Seq<Seq<char>> {
    Seq::new(v.len(), |i: int| v[i]@)
}

/// `parts.join(sep)` on strings.
pub fn join_strings(parts: &Vec<String>, sep: &str) -> (r: String)
    ensures
        r@ == join(strs_view(parts@), sep@),
{
    let ghost all = strs_view(parts@);
    let mut r = String::new();
    let mut i: usize = 0;
    while i < parts.len()
        invariant
            all == strs_view(parts@),
            i <= parts@.len(),
            r@ == join(all.take(i as int), sep@),
        decreases parts@.len() - i,
    {
        proof {
            lemma_join_push(all.take(i as int), sep@, parts@[i as int]@);
            assert(all.take(i + 1) =~= all.take(i as int).push(parts@[i as int]@));
        }
        if i > 0 {
            r.append(sep);
        }
        r.append(parts[i].as_str());
        i += 1;
    }
    assert(all.take(parts@.len() as int) =~= all);
    r
}

impl Clone for JsonValue {
    fn clone(&self) -> (r: JsonValue)
        ensures
            r@ == self@,
    {
        clone_json(self)
    }
}

/// Serialize a JSON value the way `JSON.stringify` does for a single value.
///
/// Strings get double quotes with `\"`, `\\`, `\n`, `\t`, and control characters
/// as `\uXXXX`. Forward slashes are not escaped. Non-ASCII is left as is.
/// Numbers, booleans, and null are bare. Objects and arrays are compact with no
/// spaces.
pub fn json_stringify(value: &JsonValue) -> (r: String)
    ensures
        r@ == stringify(value@),
{
    let mut out = String::new();
    push_json(&mut out, value);
    out
}

/// Serialize a string as a JSON string literal, matching `JSON.stringify` of a
/// string. The result is double-quoted and escaped.
pub fn json_stringify_str(s: &str) -> (r: String)
    ensures
        r@ == json_quote(s@),
{
    let mut out = String::new();
    push_quoted(&mut out, s);
    out
}

/// Split a slice into a left and right half. The split point is `len / 2`
/// rounded down, so for odd lengths the right half is one longer.
pub fn half<T: Clone>(arr: &[T]) -> (r: (Vec<T>, Vec<T>))
    ensures
        r.0@.len() == arr@.len() / 2,
        r.1@.len() == arr@.len() - arr@.len() / 2,
        forall|i: int| 0 <= i < r.0@.len() ==> cloned::<T>(arr@[i], #[trigger] r.0@[i]),
        forall|i: int|
            0 <= i < r.1@.len() ==> cloned::<T>(arr@[arr@.len() / 2 + i], #[trigger] r.1@[i]),
{
    let mid = arr.len() / 2;
    let mut left: Vec<T> = Vec::new();
    let mut right: Vec<T> = Vec::new();
    let mut i: usize = 0;
    while i < arr.len()
        invariant
            mid == arr@.len() / 2,
            i <= arr@.len(),
            left@.len() == if i < mid {
                i as nat
            } else {
                mid as nat
            },
            right@.len() == if i < mid {
                0
            } else {
                (i - mid) as nat
            },
            forall|k: int| 0 <= k < left@.len() ==> cloned::<T>(arr@[k], #[trigger] left@[k]),
            forall|k: int|
                0 <= k < right@.len() ==> cloned::<T>(arr@[mid + k], #[trigger] right@[k]),
        decreases arr@.len() - i,
    {
        let c = arr[i].clone();
        if i < mid {
            left.push(c);
        } else {
            right.push(c);
        }
        i += 1;
    }
    (left, right)
}

/// A builder describing how a modifier renders around an optional message.
///
/// `Two` has an opener and a closer. `Three` carries an opener, a message
/// prefix, and a closer. A message, when there is one, goes between the prefix
/// (empty for `Two`) and the closer.
#[derive(Debug)]
pub enum Builder {
    /// `[opener, closer]`.
    Two(String, String),
    /// `[opener, prefix, closer]` with a message slot between opener and closer.
    Three(String, String, String),
}

impl View for Builder {
    type V = (Seq<char>, Seq<char>, Seq<char>);

    open spec fn view(&self) -> (Seq<char>, Seq<char>, Seq<char>) {
        match self {
            Builder::Two(o, c) => (o@, Seq::empty(), c@),
            Builder::Three(o, p, c) => (o@, p@, c@),
        }
    }
}

/// `schema.errorMessage[key]` when it is a string.
pub open spec fn error_message(schema: Json, key: Seq<char>) -> Option<Seq<char>> {
    match get(schema, "errorMessage"@) {
        Some(m) => match get(m, key) {
            Some(v) => as_str(v),
            None => None,
        },
        None => None,
    }
}

/// A modifier assembled from a builder: the opener, then the message (the
/// schema's error message for `key`, or else the fallback) after the prefix,
/// then the closer.
pub open spec fn assemble(
    schema: Json,
    key: Seq<char>,
    b: (Seq<char>, Seq<char>, Seq<char>),
    fallback: Option<Seq<char>>,
) -> Seq<char> {
    let msg = match error_message(schema, key) {
        Some(m) => Some(m),
        None => fallback,
    };
    match msg {
        Some(m) => b.0 + b.1 + json_quote(m) + b.2,
        None => b.0 + b.2,
    }
}

/// The message text of a schema for a key: its error message, or the fallback.
fn message_for(schema: &JsonValue, key: &str, fallback: Option<&str>) -> (r: Option<String>)
    ensures
        match r {
            Some(m) => match error_message(schema@, key@) {
                Some(e) => m@ == e,
                None => fallback matches Some(f) && m@ == f@,
            },
            None => error_message(schema@, key@) is None && fallback is None,
        },
{
    if let Some(m) = schema.get("errorMessage") {
        if let Some(v) = m.get(key) {
            if let Some(s) = v.as_str() {
                return Some(String::from_str(s));
            }
        }
    }
    match fallback {
        Some(f) => Some(String::from_str(f)),
        None => None,
    }
}

/// Append a modifier assembled from `builder` and the message for `key`.
pub fn push_assembled(
    out: &mut String,
    schema: &JsonValue,
    key: &str,
    builder: Builder,
    fallback: Option<&str>,
)
    ensures
        final(out)@ == old(out)@ + assemble(
            schema@,
            key@,
            builder@,
            match fallback {
                Some(f) => Some(f@),
                None => None,
            },
        ),
{
    let ghost b = builder@;
    let (opener, prefix, closer) = match builder {
        Builder::Two(o, c) => (o, String::new(), c),
        Builder::Three(o, p, c) => (o, p, c),
    };
    out.append(opener.as_str());
    let message = message_for(schema, key, fallback);
    if let Some(msg) = message {
        out.append(prefix.as_str());
        push_quoted(out, msg.as_str());
    }
    out.append(closer.as_str());
    assert(out@ =~= old(out)@ + assemble(
        schema@,
        key@,
        b,
        match fallback {
            Some(f) => Some(f@),
            None => None,
        },
    ));
}

/// Render a constraint modifier with an optional error message.
///
/// Reads `schema[key]`. If absent, returns an empty string. Otherwise calls
/// `get` with the raw value and its `JSON.stringify` form. If `get` returns a
/// builder, assembles the opener, the optional `errorMessage[key]` or
/// `fallback`, and the closer.
pub fn with_message<F: FnOnce(&JsonValue, &str) -> Option<Builder>>(
    schema: &JsonValue,
    key: &str,
    get_builder: F,
    fallback: Option<&str>,
) -> (r: String)
    requires
        forall|v: &JsonValue, j: &str| get_builder.requires((v, j)),
    ensures
        get(schema@, key@) is None ==> r@ == Seq::<char>::empty(),
        get(schema@, key@) matches Some(v) ==> exists|x: &JsonValue, j: &str, b: Option<Builder>|
            {
                &&& x@ == v
                &&& j@ == stringify(v)
                &&& get_builder.ensures((x, j), b)
                &&& r@ == match b {
                    Some(b) => assemble(
                        schema@,
                        key@,
                        b@,
                        match fallback {
                            Some(f) => Some(f@),
                            None => None,
                        },
                    ),
                    None => Seq::empty(),
                }
            },
{
    let value = match schema.get(key) {
        Some(v) => v,
        None => return String::new(),
    };
    let json = json_stringify(value);
    let js = json.as_str();
    let built = get_builder(value, js);
    let ghost b = built;
    let mut r = String::new();
    match built {
        Some(builder) => push_assembled(&mut r, schema, key, builder, fallback),
        None => {},
    }
    assert(get_builder.ensures((value, js), b));
    r
}

/// Return a shallow copy of `obj` with `key` removed. Preserves key order.
/// Non-objects are returned unchanged.
pub fn omit(obj: &JsonValue, key: &str) -> (r: JsonValue)
    ensures
        r@ == omit_key(obj@, key@),
{
    match obj {
        JsonValue::Object(o) => {
            proof {
                lemma_entries_view(o@);
            }
            let ghost m = entries_view(o@);
            let ks = String::from_str(key);
            let mut out: Vec<(String, JsonValue)> = Vec::new();
            let mut i: usize = 0;
            while i < o.len()
                invariant
                    m == entries_view(o@),
                    m.len() == o@.len(),
                    forall|k: int| 0 <= k < o@.len() ==> #[trigger] m[k] == (o@[k].0@, o@[k].1@),
                    ks@ == key@,
                    i <= o@.len(),
                    entries_view(out@) == omit_entries(m, key@, i as nat),
                decreases o@.len() - i,
            {
                if o[i].0 != ks {
                    let e = (o[i].0.clone(), clone_json(&o[i].1));
                    proof {
                        lemma_entries_view_push(out@, e);
                    }
                    out.push(e);
                }
                i += 1;
            }
            JsonValue::Object(out)
        },
        _ => clone_json(obj),
    }
}

} // verus!
