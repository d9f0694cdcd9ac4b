//! The JSON value model that the transform reads, with its size measure and
//! the few edits (remove, set, append) that the parsers apply to objects.
use vstd::prelude::*;

verus! {

/// A JSON number as the schema holds it.
#[derive(Debug, PartialEq, Eq)]
pub enum JsonNumber {
    /// A non-negative integer.
    PosInt(u64),
    /// A negative integer.
    NegInt(i64),
    /// A floating-point number, held as the text `serde_json` writes for it
    /// (`1.5`, `0.0`, `-0.0`, `1e+300`); see [`float_text_wf`] for the shape of
    /// that text. In that shape a float equal to zero is written `0.0` or
    /// `-0.0`, and one equal to one is written `1.0`.
    Float(String),
}

/// A JSON value. Object entries keep their insertion order.
#[derive(Debug, PartialEq, Eq)]
pub enum JsonValue {
    /// `null`.
    Null,
    /// `true` or `false`.
    Bool(bool),
    /// A number.
    Number(JsonNumber),
    /// A string.
    String(String),
    /// An array.
    Array(Vec<JsonValue>),
    /// An object, as its entries in order.
    Object(Vec<(String, JsonValue)>),
}

/// Mathematical model of a JSON number.
pub ghost enum Num {
    PosInt(u64),
    NegInt(i64),
    Float(Seq<char>),
}

/// Mathematical model of a JSON value.
pub ghost enum Json {
    Null,
    Bool(bool),
    Num(Num),
    Str(Seq<char>),
    Arr(Seq<Json>),
    Obj(Seq<(Seq<char>, Json)>),
}

impl View for JsonNumber {
    type V = Num;

    open spec fn view(&self) -> Num {
        match self {
            JsonNumber::PosInt(n) => Num::PosInt(*n),
            JsonNumber::NegInt(n) => Num::NegInt(*n),
            JsonNumber::Float(s) => Num::Float(s@),
        }
    }
}

/// The models of the first `n` items of an array.
pub open spec fn view_items(a: Seq<JsonValue>, n: nat) -> Seq<Json>
    decreases a, n,
{
    if n == 0 || n > a.len() {
        Seq::empty()
    } else {
        view_items(a, (n - 1) as nat).push(view_json(a[n - 1]))
    }
}

/// The models of the first `n` entries of an object.
pub open spec fn view_entries(o: Seq<(String, JsonValue)>, n: nat) -> Seq<(Seq<char>, Json)>
    decreases o, n,
{
    if n == 0 || n > o.len() {
        Seq::empty()
    } else {
        view_entries(o, (n - 1) as nat).push((o[n - 1].0@, view_json(o[n - 1].1)))
    }
}

/// The model of a JSON value.
pub open spec fn view_json(v: JsonValue) -> Json
    decreases v, 0nat,
{
    match v {
        JsonValue::Null => Json::Null,
        JsonValue::Bool(b) => Json::Bool(b),
        JsonValue::Number(n) => Json::Num(n@),
        JsonValue::String(s) => Json::Str(s@),
        JsonValue::Array(a) => Json::Arr(view_items(a@, a@.len())),
        JsonValue::Object(o) => Json::Obj(view_entries(o@, o@.len())),
    }
}

impl View for JsonValue {
    type V = Json;

    open spec fn view(&self) -> Json {
        view_json(*self)
    }
}

pub proof fn lemma_view_items(a: Seq<JsonValue>, n: nat)
    requires
        n <= a.len(),
    ensures
        view_items(a, n).len() == n,
        forall|i: int| 0 <= i < n ==> #[trigger] view_items(a, n)[i] == view_json(a[i]),
    decreases n,
{
    if n > 0 {
        lemma_view_items(a, (n - 1) as nat);
    }
}

pub proof fn lemma_view_entries(o: Seq<(String, JsonValue)>, n: nat)
    requires
        n <= o.len(),
    ensures
        view_entries(o, n).len() == n,
        forall|i: int|
            0 <= i < n ==> #[trigger] view_entries(o, n)[i] == (o[i].0@, view_json(o[i].1)),
    decreases n,
{
    if n > 0 {
        lemma_view_entries(o, (n - 1) as nat);
    }
}

/// The items of an array value, as models.
pub proof fn lemma_array_view(v: JsonValue)
    requires
        v is Array,
    ensures
        v@ is Arr,
        v@->Arr_0.len() == v->Array_0@.len(),
        forall|i: int|
            0 <= i < v->Array_0@.len() ==> #[trigger] v@->Arr_0[i] == v->Array_0@[i]@,
{
    let a = v->Array_0@;
    lemma_view_items(a, a.len());
}

/// The entries of an object value, as models.
pub proof fn lemma_object_view(v: JsonValue)
    requires
        v is Object,
    ensures
        v@ is Obj,
        v@->Obj_0.len() == v->Object_0@.len(),
        forall|i: int|
            0 <= i < v->Object_0@.len() ==> #[trigger] v@->Obj_0[i] == (
                v->Object_0@[i].0@,
                v->Object_0@[i].1@,
            ),
{
    let o = v->Object_0@;
    lemma_view_entries(o, o.len());
}

// ---------------------------------------------------------------------------
// Weighted sums and the size measure.
// ---------------------------------------------------------------------------

/// Sum of `w` over the first `n` elements of `s`.
pub open spec fn wsum<A>(s: Seq<A>, w: spec_fn(A) -> nat, n: nat) -> nat
    decreases n,
{
    if n == 0 || n > s.len() {
        0
    } else {
        wsum(s, w, (n - 1) as nat) + w(s[n - 1])
    }
}

/// Size of a value. Every recursive step of the transform parses a value of
/// smaller size than the one it started from.
pub open spec fn msize(j: Json) -> nat
    decreases j, 1nat,
{
    match j {
        Json::Bool(_) => 4,
        Json::Arr(a) => 1 + arr_msize(a, a.len()),
        Json::Obj(o) => 1 + obj_msize(o, o.len()),
        _ => 1,
    }
}

/// Size of the first `n` items of an array: five per item plus the item's size.
pub open spec fn arr_msize(a: Seq<Json>, n: nat) -> nat
    decreases a, n,
{
    if n == 0 || n > a.len() {
        0
    } else {
        arr_msize(a, (n - 1) as nat) + 5 + msize(a[n - 1])
    }
}

/// Size of the first `n` entries of an object: one per entry plus the value's size.
pub open spec fn obj_msize(o: Seq<(Seq<char>, Json)>, n: nat) -> nat
    decreases o, n,
{
    if n == 0 || n > o.len() {
        0
    } else {
        obj_msize(o, (n - 1) as nat) + 1 + msize(o[n - 1].1)
    }
}

pub open spec fn item_weight() -> spec_fn(Json) -> nat {
    |x: Json| 5 + msize(x)
}

pub open spec fn entry_weight() -> spec_fn((Seq<char>, Json)) -> nat {
    |e: (Seq<char>, Json)| 1 + msize(e.1)
}

pub proof fn lemma_arr_msize_wsum(a: Seq<Json>, n: nat)
    ensures
        arr_msize(a, n) == wsum(a, item_weight(), n),
    decreases n,
{
    if n > 0 && n <= a.len() {
        lemma_arr_msize_wsum(a, (n - 1) as nat);
    }
}

pub proof fn lemma_obj_msize_wsum(o: Seq<(Seq<char>, Json)>, n: nat)
    ensures
        obj_msize(o, n) == wsum(o, entry_weight(), n),
    decreases n,
{
    if n > 0 && n <= o.len() {
        lemma_obj_msize_wsum(o, (n - 1) as nat);
    }
}

/// Sums over sequences that agree on a prefix agree.
pub proof fn lemma_wsum_prefix<A>(s: Seq<A>, t: Seq<A>, w: spec_fn(A) -> nat, n: nat)
    requires
        n <= s.len(),
        n <= t.len(),
        forall|i: int| 0 <= i < n ==> s[i] == t[i],
    ensures
        wsum(s, w, n) == wsum(t, w, n),
    decreases n,
{
    if n > 0 {
        lemma_wsum_prefix(s, t, w, (n - 1) as nat);
    }
}

/// One element's weight is at most the sum.
pub proof fn lemma_wsum_elem<A>(s: Seq<A>, w: spec_fn(A) -> nat, i: int, n: nat)
    requires
        0 <= i < n <= s.len(),
    ensures
        wsum(s, w, n) >= w(s[i]),
        wsum(s, w, n) >= wsum(s, w, i as nat) + w(s[i]),
    decreases n,
{
    if i < n - 1 {
        lemma_wsum_elem(s, w, i, (n - 1) as nat);
    }
}

/// The sum over a sequence splits at any point.
pub proof fn lemma_wsum_split<A>(s: Seq<A>, w: spec_fn(A) -> nat, m: int)
    requires
        0 <= m <= s.len(),
    ensures
        wsum(s, w, s.len()) == wsum(s.take(m), w, m as nat) + wsum(
            s.skip(m),
            w,
            (s.len() - m) as nat,
        ),
    decreases s.len(),
{
    if s.len() == m {
        lemma_wsum_prefix(s, s.take(m), w, m as nat);
        assert(s.skip(m).len() == 0);
    } else {
        let t = s.drop_last();
        lemma_wsum_split(t, w, m);
        lemma_wsum_prefix(s, t, w, t.len());
        lemma_wsum_prefix(s.take(m), t.take(m), w, m as nat);
        lemma_wsum_prefix(s.skip(m), t.skip(m), w, (t.len() - m) as nat);
        assert(s.skip(m)[(s.len() - m - 1) as int] == s[s.len() - 1]);
    }
}

/// Replacing one element changes the sum by the difference of weights.
pub proof fn lemma_wsum_update<A>(s: Seq<A>, w: spec_fn(A) -> nat, i: int, x: A, n: nat)
    requires
        0 <= i < n <= s.len(),
    ensures
        wsum(s.update(i, x), w, n) + w(s[i]) == wsum(s, w, n) + w(x),
    decreases n,
{
    if i < n - 1 {
        lemma_wsum_update(s, w, i, x, (n - 1) as nat);
    } else {
        lemma_wsum_prefix(s, s.update(i, x), w, (n - 1) as nat);
    }
}

/// Appending one element adds its weight.
pub proof fn lemma_wsum_push<A>(s: Seq<A>, w: spec_fn(A) -> nat, x: A)
    ensures
        wsum(s.push(x), w, s.len() + 1) == wsum(s, w, s.len()) + w(x),
{
    lemma_wsum_prefix(s, s.push(x), w, s.len());
}

/// A sum is at most the sum of pointwise larger weights.
pub proof fn lemma_wsum_mono<A, B>(
    s: Seq<A>,
    t: Seq<B>,
    w: spec_fn(A) -> nat,
    v: spec_fn(B) -> nat,
    n: nat,
)
    requires
        n <= s.len(),
        n <= t.len(),
        forall|i: int| 0 <= i < n ==> w(s[i]) <= v(t[i]),
    ensures
        wsum(s, w, n) <= wsum(t, v, n),
    decreases n,
{
    if n > 0 {
        lemma_wsum_mono(s, t, w, v, (n - 1) as nat);
    }
}

// ---------------------------------------------------------------------------
// Object lookup and edits.
// ---------------------------------------------------------------------------

/// Index of the first entry at or after `i` whose key is `k`.
pub open spec fn find_from(o: Seq<(Seq<char>, Json)>, k: Seq<char>, i: int) -> Option<int>
    decreases o.len() - i,
{
    if i < 0 || i >= o.len() {
        None
    } else if o[i].0 == k {
        Some(i)
    } else {
        find_from(o, k, i + 1)
    }
}

/// Index of the first entry whose key is `k`.
pub open spec fn find_key(o: Seq<(Seq<char>, Json)>, k: Seq<char>) -> Option<int> {
    find_from(o, k, 0)
}

pub proof fn lemma_find_from(o: Seq<(Seq<char>, Json)>, k: Seq<char>, i: int)
    requires
        0 <= i,
    ensures
        find_from(o, k, i) matches Some(j) ==> i <= j < o.len() && o[j].0 == k && forall|
            m: int,
        |
            i <= m < j ==> o[m].0 != k,
        find_from(o, k, i) is None ==> forall|m: int| i <= m < o.len() ==> o[m].0 != k,
    decreases o.len() - i,
{
    if i < o.len() && o[i].0 != k {
        lemma_find_from(o, k, i + 1);
    }
}

pub proof fn lemma_find_key(o: Seq<(Seq<char>, Json)>, k: Seq<char>)
    ensures
        find_key(o, k) matches Some(j) ==> 0 <= j < o.len() && o[j].0 == k && forall|m: int|
            0 <= m < j ==> o[m].0 != k,
        find_key(o, k) is None ==> forall|m: int| 0 <= m < o.len() ==> o[m].0 != k,
{
    lemma_find_from(o, k, 0);
}

/// Whether some entry has key `k`.
pub open spec fn has_key(o: Seq<(Seq<char>, Json)>, k: Seq<char>) -> bool {
    exists|i: int| 0 <= i < o.len() && o[i].0 == k
}

/// `value[key]` on an object; absent otherwise. The first entry with the key wins.
pub open spec fn get(j: Json, k: Seq<char>) -> Option<Json> {
    match j {
        Json::Obj(o) => match find_key(o, k) {
            Some(i) => Some(o[i].1),
            None => None,
        },
        _ => None,
    }
}

/// A present member is smaller than its object.
pub proof fn lemma_get_smaller(j: Json, k: Seq<char>)
    ensures
        get(j, k) matches Some(c) ==> msize(c) + 2 <= msize(j),
{
    if let Json::Obj(o) = j {
        lemma_find_key(o, k);
        if let Some(i) = find_key(o, k) {
            lemma_obj_msize_wsum(o, o.len());
            lemma_wsum_elem(o, entry_weight(), i, o.len());
        }
    }
}

/// An array item is smaller than its array.
pub proof fn lemma_item_smaller(a: Seq<Json>, i: int)
    requires
        0 <= i < a.len(),
    ensures
        msize(a[i]) + 5 <= arr_msize(a, a.len()),
{
    lemma_arr_msize_wsum(a, a.len());
    lemma_wsum_elem(a, item_weight(), i, a.len());
}

/// An entry's value is smaller than the entries.
pub proof fn lemma_entry_smaller(o: Seq<(Seq<char>, Json)>, i: int)
    requires
        0 <= i < o.len(),
    ensures
        msize(o[i].1) + 1 <= obj_msize(o, o.len()),
{
    lemma_obj_msize_wsum(o, o.len());
    lemma_wsum_elem(o, entry_weight(), i, o.len());
}

/// The entries whose key is not `k`, in order.
pub open spec fn omit_entries(o: Seq<(Seq<char>, Json)>, k: Seq<char>, n: nat) -> Seq<
    (Seq<char>, Json),
>
    decreases n,
{
    if n == 0 || n > o.len() {
        Seq::empty()
    } else if o[n - 1].0 == k {
        omit_entries(o, k, (n - 1) as nat)
    } else {
        omit_entries(o, k, (n - 1) as nat).push(o[n - 1])
    }
}

/// A copy of an object without the entries whose key is `k`; other values unchanged.
pub open spec fn omit_key(j: Json, k: Seq<char>) -> Json {
    match j {
        Json::Obj(o) => Json::Obj(omit_entries(o, k, o.len())),
        _ => j,
    }
}

pub proof fn lemma_omit_entries_size(o: Seq<(Seq<char>, Json)>, k: Seq<char>, n: nat)
    requires
        n <= o.len(),
    ensures
        ({
            let r = omit_entries(o, k, n);
            &&& obj_msize(r, r.len()) <= obj_msize(o, n)
            &&& (exists|i: int| 0 <= i < n && o[i].0 == k) ==> obj_msize(r, r.len()) + 2
                <= obj_msize(o, n)
        }),
    decreases n,
{
    if n > 0 {
        lemma_omit_entries_size(o, k, (n - 1) as nat);
        let r0 = omit_entries(o, k, (n - 1) as nat);
        lemma_obj_msize_wsum(o, n);
        lemma_obj_msize_wsum(o, (n - 1) as nat);
        lemma_obj_msize_wsum(r0, r0.len());
        if o[n - 1].0 != k {
            let r = r0.push(o[n - 1]);
            lemma_wsum_push(r0, entry_weight(), o[n - 1]);
            lemma_obj_msize_wsum(r, r.len());
            if exists|i: int| 0 <= i < n && o[i].0 == k {
                let i = choose|i: int| 0 <= i < n && o[i].0 == k;
                assert(i < n - 1);
            }
        }
    }
}

/// Removing a present key makes an object smaller.
pub proof fn lemma_omit_smaller(j: Json, k: Seq<char>)
    requires
        get(j, k) is Some,
    ensures
        msize(omit_key(j, k)) + 2 <= msize(j),
{
    let o = j->Obj_0;
    lemma_find_key(o, k);
    lemma_omit_entries_size(o, k, o.len());
}

/// `map.insert(k, v)`: replace the value of the first entry with key `k` in place,
/// or append a new entry.
pub open spec fn set_entry(o: Seq<(Seq<char>, Json)>, k: Seq<char>, v: Json) -> Seq<
    (Seq<char>, Json),
> {
    match find_key(o, k) {
        Some(i) => o.update(i, (k, v)),
        None => o.push((k, v)),
    }
}

/// `map.remove(k)` with entry order kept by swapping: the first entry with key `k`
/// takes the last entry, and the last entry is dropped.
pub open spec fn swap_remove_entry(o: Seq<(Seq<char>, Json)>, k: Seq<char>) -> Seq<
    (Seq<char>, Json),
> {
    match find_key(o, k) {
        Some(i) => o.update(i, o.last()).drop_last(),
        None => o,
    }
}

/// Replacing a present member with a smaller value makes the object smaller.
pub proof fn lemma_set_smaller(j: Json, k: Seq<char>, v: Json)
    requires
        j is Obj,
        get(j, k) is Some,
    ensures
        msize(Json::Obj(set_entry(j->Obj_0, k, v))) + msize(get(j, k)->0) == msize(j) + msize(v),
{
    let o = j->Obj_0;
    lemma_find_key(o, k);
    let i = find_key(o, k)->0;
    lemma_obj_msize_wsum(o, o.len());
    let r = o.update(i, (k, v));
    lemma_obj_msize_wsum(r, r.len());
    lemma_wsum_update(o, entry_weight(), i, (k, v), o.len());
}

/// Appending an entry adds one plus the value's size.
pub proof fn lemma_push_entry_size(o: Seq<(Seq<char>, Json)>, e: (Seq<char>, Json))
    ensures
        obj_msize(o.push(e), o.len() + 1) == obj_msize(o, o.len()) + 1 + msize(e.1),
{
    lemma_obj_msize_wsum(o, o.len());
    lemma_obj_msize_wsum(o.push(e), o.len() + 1);
    lemma_wsum_push(o, entry_weight(), e);
}

/// Swap-removing a present key makes the entries smaller by that entry.
pub proof fn lemma_swap_remove_size(o: Seq<(Seq<char>, Json)>, k: Seq<char>)
    ensures
        ({
            let r = swap_remove_entry(o, k);
            obj_msize(r, r.len()) <= obj_msize(o, o.len())
        }),
{
    lemma_find_key(o, k);
    if let Some(i) = find_key(o, k) {
        let t = o.drop_last();
        let r = o.update(i, o.last()).drop_last();
        lemma_obj_msize_wsum(o, o.len());
        lemma_obj_msize_wsum(r, r.len());
        lemma_wsum_prefix(o, t, entry_weight(), t.len());
        if i < o.len() - 1 {
            assert(r =~= t.update(i, o.last()));
            lemma_wsum_update(t, entry_weight(), i, o.last(), t.len());
        } else {
            assert(r =~= t);
        }
    }
}

// ---------------------------------------------------------------------------
// Reading values.
// ---------------------------------------------------------------------------

/// The string held by a string value.
pub open spec fn as_str(j: Json) -> Option<Seq<char>> {
    match j {
        Json::Str(s) => Some(s),
        _ => None,
    }
}

/// Whether an optional member is exactly `true`.
pub open spec fn is_true(j: Option<Json>) -> bool {
    j == Some(Json::Bool(true))
}

/// Whether a number equals zero.
pub open spec fn num_is_zero(n: Num) -> bool {
    match n {
        Num::PosInt(u) => u == 0,
        Num::NegInt(i) => i == 0,
        Num::Float(t) => t == "0.0"@ || t == "-0.0"@,
    }
}

/// Whether a number equals one.
pub open spec fn num_is_one(n: Num) -> bool {
    match n {
        Num::PosInt(u) => u == 1,
        Num::NegInt(i) => i == 1,
        Num::Float(t) => t == "1.0"@,
    }
}

/// `value.as_u64()`: a non-negative integer.
pub open spec fn as_u64(j: Json) -> Option<u64> {
    match j {
        Json::Num(Num::PosInt(u)) => Some(u),
        _ => None,
    }
}

/// JavaScript truthiness: `null`, `false`, `0`, and `""` are falsy.
pub open spec fn truthy(j: Json) -> bool {
    match j {
        Json::Null => false,
        Json::Bool(b) => b,
        Json::Num(n) => !num_is_zero(n),
        Json::Str(s) => s.len() > 0,
        _ => true,
    }
}

// ---------------------------------------------------------------------------
// Well-formed values.
// ---------------------------------------------------------------------------

/// Whether a character is an ASCII digit.
pub open spec fn is_digit(c: char) -> bool {
    '0' <= c && c <= '9'
}

/// Whether a text is one or more ASCII digits.
pub open spec fn digits(s: Seq<char>) -> bool {
    s.len() > 0 && forall|i: int| 0 <= i < s.len() ==> is_digit(#[trigger] s[i])
}

/// Fixed notation: an integer part without leading zeros, a point, and a
/// fraction without trailing zeros unless it is a lone `0` (`12.5`, `3.0`,
/// `0.001`).
pub open spec fn fixed_notation(b: Seq<char>) -> bool {
    exists|k: int|
        #![trigger b[k]]
        0 <= k < b.len() && b[k] == '.' && digits(b.take(k)) && (k == 1 || b[0] != '0') && digits(
            b.skip(k + 1),
        ) && (b.skip(k + 1) == seq!['0'] || b.last() != '0')
}

/// Scientific notation: a non-zero leading digit, optionally a point and a
/// fraction that does not end in zero, then `e`, a sign and a non-zero
/// exponent (`1e+300`, `2.5e-8`).
pub open spec fn scientific_notation(b: Seq<char>) -> bool {
    exists|k: int|
        #![trigger b[k]]
        0 < k < b.len() - 2 && b[k] == 'e' && is_digit(b[0]) && b[0] != '0' && (k == 1 || (k > 2
            && b[1] == '.' && digits(b.subrange(2, k)) && b[k - 1] != '0')) && (b[k + 1] == '+'
            || b[k + 1] == '-') && digits(b.skip(k + 2)) && exists|m: int|
            k + 2 <= m < b.len() && #[trigger] b[m] != '0'
}

/// The shape of the text `serde_json` writes for a finite float: an optional
/// minus sign, then fixed or scientific notation. In this shape one is written
/// only as `1.0` and zero only as `0.0` or `-0.0`, which is what the numeric
/// tests of the transform rely on.
pub open spec fn float_text_wf(t: Seq<char>) -> bool {
    let b = if t.len() > 0 && t[0] == '-' {
        t.skip(1)
    } else {
        t
    };
    fixed_notation(b) || scientific_notation(b)
}

/// Every float inside a value is in the shape `serde_json` writes.
pub open spec fn json_wf(j: Json) -> bool
    decreases j, 1nat,
{
    match j {
        Json::Num(Num::Float(t)) => float_text_wf(t),
        Json::Arr(a) => items_wf(a, a.len()),
        Json::Obj(o) => entries_wf(o, o.len()),
        _ => true,
    }
}

/// The first `n` items are well formed.
pub open spec fn items_wf(a: Seq<Json>, n: nat) -> bool
    decreases a, n,
{
    if n == 0 || n > a.len() {
        true
    } else {
        items_wf(a, (n - 1) as nat) && json_wf(a[n - 1])
    }
}

/// The values of the first `n` entries are well formed.
pub open spec fn entries_wf(o: Seq<(Seq<char>, Json)>, n: nat) -> bool
    decreases o, n,
{
    if n == 0 || n > o.len() {
        true
    } else {
        entries_wf(o, (n - 1) as nat) && json_wf(o[n - 1].1)
    }
}

// ---------------------------------------------------------------------------
// Executable access.
// ---------------------------------------------------------------------------

impl JsonValue {
    /// `value[key]`: the value of the first entry with `key` when `self` is an
    /// object, `None` otherwise.
    pub fn get(&self, key: &str) -> (r: Option<&JsonValue>)
        ensures
            match r {
                Some(c) => get(self@, key@) == Some(c@),
                None => get(self@, key@) is None,
            },
    {
        match self {
            JsonValue::Object(o) => {
                proof {
                    lemma_object_view(*self);
                    lemma_find_key(self@->Obj_0, key@);
                }
                let ks = String::from_str(key);
                let mut i: usize = 0;
                while i < o.len()
                    invariant
                        self is Object,
                        o == self->Object_0,
                        ks@ == key@,
                        i <= o@.len(),
                        self@->Obj_0.len() == o@.len(),
                        forall|m: int|
                            0 <= m < o@.len() ==> #[trigger] self@->Obj_0[m] == (
                                o@[m].0@,
                                o@[m].1@,
                            ),
                        forall|m: int| 0 <= m < i ==> o@[m].0@ != key@,
                    decreases o@.len() - i,
                {
                    if o[i].0 == ks {
                        proof {
                            lemma_find_key(self@->Obj_0, key@);
                            let f = find_key(self@->Obj_0, key@);
                            if f is None {
                                assert(self@->Obj_0[i as int].0 == key@);
                            } else {
                                let j = f->0;
                                if j < i {
                                    assert(self@->Obj_0[j].0 == o@[j].0@);
                                } else if j > i {
                                    assert(self@->Obj_0[i as int].0 == key@);
                                }
                            }
                        }
                        return Some(&o[i].1);
                    }
                    i += 1;
                }
                proof {
                    lemma_find_key(self@->Obj_0, key@);
                    if let Some(j) = find_key(self@->Obj_0, key@) {
                        assert(self@->Obj_0[j].0 == o@[j].0@);
                    }
                }
                None
            },
            _ => None,
        }
    }

    /// The string held by a string value.
    pub fn as_str(&self) -> (r: Option<&str>)
        ensures
            match r {
                Some(s) => as_str(self@) == Some(s@),
                None => as_str(self@) is None,
            },
    {
        match self {
            JsonValue::String(s) => Some(s.as_str()),
            _ => None,
        }
    }

    /// Whether this is an object.
    pub fn is_object(&self) -> (r: bool)
        ensures
            r == self@ is Obj,
    {
        match self {
            JsonValue::Object(_) => true,
            _ => false,
        }
    }

    /// Whether this is an array.
    pub fn is_array(&self) -> (r: bool)
        ensures
            r == self@ is Arr,
    {
        match self {
            JsonValue::Array(_) => true,
            _ => false,
        }
    }

    /// Whether this is a number.
    pub fn is_number(&self) -> (r: bool)
        ensures
            r == self@ is Num,
    {
        match self {
            JsonValue::Number(_) => true,
            _ => false,
        }
    }

    /// Whether this is a string.
    pub fn is_string(&self) -> (r: bool)
        ensures
            r == self@ is Str,
    {
        match self {
            JsonValue::String(_) => true,
            _ => false,
        }
    }

    /// Whether this is exactly `true`.
    pub fn is_true(&self) -> (r: bool)
        ensures
            r == (self@ == Json::Bool(true)),
    {
        match self {
            JsonValue::Bool(b) => *b,
            _ => false,
        }
    }

    /// `value.as_u64()`.
    pub fn as_u64(&self) -> (r: Option<u64>)
        ensures
            r == as_u64(self@),
    {
        match self {
            JsonValue::Number(JsonNumber::PosInt(u)) => Some(*u),
            _ => None,
        }
    }
}

/// Whether an optional member is exactly `true`.
pub fn opt_is_true(v: Option<&JsonValue>) -> (r: bool)
    ensures
        r == is_true(
            match v {
                Some(x) => Some(x@),
                None => None,
            },
        ),
{
    match v {
        Some(x) => x.is_true(),
        None => false,
    }
}

/// Whether a number equals zero.
pub fn number_is_zero(n: &JsonNumber) -> (r: bool)
    ensures
        r == num_is_zero(n@),
{
    match n {
        JsonNumber::PosInt(u) => *u == 0,
        JsonNumber::NegInt(i) => *i == 0,
        JsonNumber::Float(t) => {
            let z = String::from_str("0.0");
            let mz = String::from_str("-0.0");
            *t == z || *t == mz
        },
    }
}

/// Whether a number equals one.
pub fn number_is_one(n: &JsonNumber) -> (r: bool)
    ensures
        r == num_is_one(n@),
{
    match n {
        JsonNumber::PosInt(u) => *u == 1,
        JsonNumber::NegInt(i) => *i == 1,
        JsonNumber::Float(t) => {
            let one = String::from_str("1.0");
            *t == one
        },
    }
}

/// JavaScript truthiness of a value.
pub fn is_truthy(v: &JsonValue) -> (r: bool)
    ensures
        r == truthy(v@),
{
    match v {
        JsonValue::Null => false,
        JsonValue::Bool(b) => *b,
        JsonValue::Number(n) => !number_is_zero(n),
        JsonValue::String(s) => s.unicode_len() > 0,
        _ => true,
    }
}


// ---------------------------------------------------------------------------
// Models of built vectors.
// ---------------------------------------------------------------------------

/// The model of a vector of items.
pub open spec fn items_view(a: Seq<JsonValue>) -> Seq<Json> {
    view_items(a, a.len())
}

/// The model of a vector of entries.
pub open spec fn entries_view(o: Seq<(String, JsonValue)>) -> Seq<(Seq<char>, Json)> {
    view_entries(o, o.len())
}

pub proof fn lemma_items_view(a: Seq<JsonValue>)
    ensures
        items_view(a).len() == a.len(),
        forall|i: int| 0 <= i < a.len() ==> #[trigger] items_view(a)[i] == a[i]@,
{
    lemma_view_items(a, a.len());
}

pub proof fn lemma_entries_view(o: Seq<(String, JsonValue)>)
    ensures
        entries_view(o).len() == o.len(),
        forall|i: int| 0 <= i < o.len() ==> #[trigger] entries_view(o)[i] == (o[i].0@, o[i].1@),
{
    lemma_view_entries(o, o.len());
}

pub proof fn lemma_items_view_push(a: Seq<JsonValue>, x: JsonValue)
    ensures
        items_view(a.push(x)) == items_view(a).push(x@),
{
    lemma_items_view(a);
    lemma_items_view(a.push(x));
    assert(items_view(a.push(x)) =~= items_view(a).push(x@));
}

pub proof fn lemma_entries_view_push(o: Seq<(String, JsonValue)>, e: (String, JsonValue))
    ensures
        entries_view(o.push(e)) == entries_view(o).push((e.0@, e.1@)),
{
    lemma_entries_view(o);
    lemma_entries_view(o.push(e));
    assert(entries_view(o.push(e)) =~= entries_view(o).push((e.0@, e.1@)));
}

pub proof fn lemma_entries_view_update(o: Seq<(String, JsonValue)>, i: int, e: (String, JsonValue))
    requires
        0 <= i < o.len(),
    ensures
        entries_view(o.update(i, e)) == entries_view(o).update(i, (e.0@, e.1@)),
{
    lemma_entries_view(o);
    lemma_entries_view(o.update(i, e));
    assert(entries_view(o.update(i, e)) =~= entries_view(o).update(i, (e.0@, e.1@)));
}

pub proof fn lemma_entries_view_swap_remove(o: Seq<(String, JsonValue)>, i: int)
    requires
        0 <= i < o.len(),
    ensures
        entries_view(o.update(i, o.last()).drop_last()) == entries_view(o).update(
            i,
            entries_view(o).last(),
        ).drop_last(),
{
    lemma_entries_view(o);
    lemma_entries_view(o.update(i, o.last()).drop_last());
    assert(entries_view(o.update(i, o.last()).drop_last()) =~= entries_view(o).update(
        i,
        entries_view(o).last(),
    ).drop_last());
}

pub proof fn lemma_value_views(v: JsonValue)
    ensures
        v is Array ==> v@ == Json::Arr(items_view(v->Array_0@)),
        v is Object ==> v@ == Json::Obj(entries_view(v->Object_0@)),
{
}

/// Index of the first entry whose key is `key`.
pub fn find_index(o: &Vec<(String, JsonValue)>, key: &str) -> (r: Option<usize>)
    ensures
        match r {
            Some(i) => i < o@.len() && find_key(entries_view(o@), key@) == Some(i as int),
            None => find_key(entries_view(o@), key@) is None,
        },
{
    proof {
        lemma_entries_view(o@);
        lemma_find_key(entries_view(o@), key@);
    }
    let ks = String::from_str(key);
    let mut i: usize = 0;
    while i < o.len()
        invariant
            ks@ == key@,
            i <= o@.len(),
            entries_view(o@).len() == o@.len(),
            forall|m: int|
                0 <= m < o@.len() ==> #[trigger] entries_view(o@)[m] == (o@[m].0@, o@[m].1@),
            forall|m: int| 0 <= m < i ==> o@[m].0@ != key@,
        decreases o@.len() - i,
    {
        if o[i].0 == ks {
            proof {
                lemma_find_key(entries_view(o@), key@);
                let f = find_key(entries_view(o@), key@);
                if f is None {
                    assert(entries_view(o@)[i as int].0 == key@);
                } else {
                    let j = f->0;
                    if j < i {
                        assert(entries_view(o@)[j].0 == o@[j].0@);
                    } else if j > i {
                        assert(entries_view(o@)[i as int].0 == key@);
                    }
                }
            }
            return Some(i);
        }
        i += 1;
    }
    proof {
        if let Some(j) = find_key(entries_view(o@), key@) {
            assert(entries_view(o@)[j].0 == o@[j].0@);
        }
    }
    None
}

/// A copy of a value.
pub fn clone_json(v: &JsonValue) -> (r: JsonValue)
    ensures
        r@ == v@,
    decreases msize(v@),
{
    match v {
        JsonValue::Null => JsonValue::Null,
        JsonValue::Bool(b) => JsonValue::Bool(*b),
        JsonValue::Number(n) => JsonValue::Number(
            match n {
                JsonNumber::PosInt(u) => JsonNumber::PosInt(*u),
                JsonNumber::NegInt(i) => JsonNumber::NegInt(*i),
                JsonNumber::Float(t) => JsonNumber::Float(t.clone()),
            },
        ),
        JsonValue::String(s) => JsonValue::String(s.clone()),
        JsonValue::Array(a) => {
            proof {
                lemma_items_view(a@);
            }
            let mut out: Vec<JsonValue> = Vec::new();
            let mut i: usize = 0;
            while i < a.len()
                invariant
                    v is Array,
                    a == v->Array_0,
                    v@ == Json::Arr(items_view(a@)),
                    items_view(a@).len() == a@.len(),
                    forall|m: int| 0 <= m < a@.len() ==> #[trigger] items_view(a@)[m] == a@[m]@,
                    i <= a@.len(),
                    out@.len() == i,
                    forall|m: int| 0 <= m < i ==> #[trigger] out@[m]@ == a@[m]@,
                decreases a@.len() - i,
            {
                proof {
                    lemma_item_smaller(items_view(a@), i as int);
                }
                let c = clone_json(&a[i]);
                out.push(c);
                i += 1;
            }
            proof {
                lemma_items_view(out@);
                assert(items_view(out@) =~= items_view(a@));
            }
            JsonValue::Array(out)
        },
        JsonValue::Object(o) => {
            proof {
                lemma_entries_view(o@);
            }
            let mut out: Vec<(String, JsonValue)> = Vec::new();
            let mut i: usize = 0;
            while i < o.len()
                invariant
                    v is Object,
                    o == v->Object_0,
                    v@ == Json::Obj(entries_view(o@)),
                    entries_view(o@).len() == o@.len(),
                    forall|m: int|
                        0 <= m < o@.len() ==> #[trigger] entries_view(o@)[m] == (
                            o@[m].0@,
                            o@[m].1@,
                        ),
                    i <= o@.len(),
                    out@.len() == i,
                    forall|m: int|
                        0 <= m < i ==> #[trigger] out@[m].0@ == o@[m].0@ && out@[m].1@
                            == o@[m].1@,
                decreases o@.len() - i,
            {
                proof {
                    lemma_entry_smaller(entries_view(o@), i as int);
                }
                let c = clone_json(&o[i].1);
                out.push((o[i].0.clone(), c));
                i += 1;
            }
            proof {
                lemma_entries_view(out@);
                assert(entries_view(out@) =~= entries_view(o@));
            }
            JsonValue::Object(out)
        },
    }
}


// ---------------------------------------------------------------------------
// Checking well-formedness.
// ---------------------------------------------------------------------------

/// The end of the run of digits that starts at `from`.
fn scan_digits(t: &str, from: usize, n: usize) -> (r: usize)
    requires
        n == t@.len(),
        from <= n,
    ensures
        from <= r <= n,
        forall|i: int| from <= i < r ==> is_digit(#[trigger] t@[i]),
        r < n ==> !is_digit(t@[r as int]),
{
    let mut i = from;
    while i < n
        invariant
            n == t@.len(),
            from <= i <= n,
            forall|k: int| from <= k < i ==> is_digit(#[trigger] t@[k]),
        decreases n - i,
    {
        let c = t.get_char(i);
        if !('0' <= c && c <= '9') {
            return i;
        }
        i += 1;
    }
    i
}

/// Whether the exponent that starts with the `e` at `k` is a sign followed by
/// digits that are not all zeros, running to the end of the text.
fn exponent_ok(t: &str, k: usize, n: usize) -> (r: bool)
    requires
        n == t@.len(),
        k < n,
    ensures
        r ==> k + 2 < n && (t@[k + 1] == '+' || t@[k + 1] == '-') && (forall|i: int|
            k + 2 <= i < n ==> is_digit(#[trigger] t@[i])) && exists|m: int|
            k + 2 <= m < n && #[trigger] t@[m] != '0',
{
    if n - k < 3 {
        return false;
    }
    let sign = t.get_char(k + 1);
    if sign != '+' && sign != '-' {
        return false;
    }
    let e = scan_digits(t, k + 2, n);
    if e != n {
        return false;
    }
    let mut m = k + 2;
    while m < n
        invariant
            n == t@.len(),
            k < n,
            k + 2 < n,
            k + 2 <= m <= n,
            t@[k + 1] == '+' || t@[k + 1] == '-',
            forall|i: int| k + 2 <= i < n ==> is_digit(#[trigger] t@[i]),
            forall|i: int| k + 2 <= i < m ==> t@[i] == '0',
        decreases n - m,
    {
        if t.get_char(m) != '0' {
            assert(t@[m as int] != '0');
            return true;
        }
        m += 1;
    }
    false
}

/// Whether a float text has the shape `serde_json` writes. Every text that
/// `serde_json` writes for a finite float passes.
pub fn float_text_ok(t: &str) -> (r: bool)
    ensures
        r ==> float_text_wf(t@),
{
    let n = t.unicode_len();
    let start: usize = if n > 0 && t.get_char(0) == '-' {
        1
    } else {
        0
    };
    let ghost b = t@.skip(start as int);
    assert(b == if t@.len() > 0 && t@[0] == '-' {
        t@.skip(1)
    } else {
        t@
    }) by {
        if start == 0 {
            assert(t@.skip(0) =~= t@);
        }
    }
    let p = scan_digits(t, start, n);
    if p == start || p == n {
        return false;
    }
    let first = t.get_char(start);
    let c = t.get_char(p);
    let k = p - start;
    assert(b[k as int] == c);
    if c == '.' {
        let q = scan_digits(t, p + 1, n);
        if q == p + 1 {
            return false;
        }
        if q == n {
            if !(k == 1 || first != '0') {
                return false;
            }
            let lone_zero = q - (p + 1) == 1 && t.get_char(p + 1) == '0';
            if !(lone_zero || t.get_char(n - 1) != '0') {
                return false;
            }
            proof {
                assert forall|i: int| 0 <= i < b.take(k as int).len() implies is_digit(
                    #[trigger] b.take(k as int)[i],
                ) by {
                    assert(b.take(k as int)[i] == t@[start + i]);
                }
                assert forall|i: int| 0 <= i < b.skip(k + 1).len() implies is_digit(
                    #[trigger] b.skip(k + 1)[i],
                ) by {
                    assert(b.skip(k + 1)[i] == t@[p + 1 + i]);
                }
                if lone_zero {
                    assert(b.skip(k + 1) =~= seq!['0']);
                }
                assert(b.last() == t@[n - 1]);
                assert(b[0] == first);
                assert(fixed_notation(b));
            }
            return true;
        }
        if t.get_char(q) != 'e' || k != 1 || first == '0' || t.get_char(q - 1) == '0' {
            return false;
        }
        let ok = exponent_ok(t, q, n);
        proof {
            if ok {
                let kk = q - start;
                assert(b[kk as int] == 'e');
                assert(b[1] == '.');
                assert forall|i: int| 0 <= i < b.subrange(2, kk as int).len() implies is_digit(
                    #[trigger] b.subrange(2, kk as int)[i],
                ) by {
                    assert(b.subrange(2, kk as int)[i] == t@[start + 2 + i]);
                }
                assert forall|i: int| 0 <= i < b.skip(kk + 2).len() implies is_digit(
                    #[trigger] b.skip(kk + 2)[i],
                ) by {
                    assert(b.skip(kk + 2)[i] == t@[q + 2 + i]);
                }
                let m = choose|m: int| q + 2 <= m < n && #[trigger] t@[m] != '0';
                assert(b[m - start] != '0');
                assert(b[kk - 1] == t@[q - 1]);
                assert(b[kk + 1] == t@[q + 1]);
                assert(scientific_notation(b));
            }
        }
        return ok;
    }
    if c == 'e' && k == 1 && first != '0' {
        let ok = exponent_ok(t, p, n);
        proof {
            if ok {
                assert forall|i: int| 0 <= i < b.skip(k + 2).len() implies is_digit(
                    #[trigger] b.skip(k + 2)[i],
                ) by {
                    assert(b.skip(k + 2)[i] == t@[p + 2 + i]);
                }
                let m = choose|m: int| p + 2 <= m < n && #[trigger] t@[m] != '0';
                assert(b[m - start] != '0');
                assert(b[k + 1] == t@[p + 1]);
                assert(b[0] == first);
                assert(scientific_notation(b));
            }
        }
        return ok;
    }
    false
}

impl JsonValue {
    /// Whether every float inside the value has the shape `serde_json` writes.
    pub fn is_well_formed(&self) -> (r: bool)
        ensures
            r ==> json_wf(self@),
        decreases msize(self@),
    {
        match self {
            JsonValue::Number(JsonNumber::Float(t)) => float_text_ok(t.as_str()),
            JsonValue::Array(a) => {
                proof {
                    lemma_items_view(a@);
                }
                let ghost av = items_view(a@);
                let mut i: usize = 0;
                while i < a.len()
                    invariant
                        self is Array,
                        a == self->Array_0,
                        self@ == Json::Arr(av),
                        av == items_view(a@),
                        av.len() == a@.len(),
                        forall|m: int| 0 <= m < a@.len() ==> #[trigger] av[m] == a@[m]@,
                        i <= a@.len(),
                        items_wf(av, i as nat),
                    decreases a@.len() - i,
                {
                    proof {
                        lemma_item_smaller(av, i as int);
                    }
                    if !a[i].is_well_formed() {
                        return false;
                    }
                    assert(items_wf(av, (i + 1) as nat) == (items_wf(av, i as nat) && json_wf(
                        av[i as int],
                    )));
                    i += 1;
                }
                true
            },
            JsonValue::Object(o) => {
                proof {
                    lemma_entries_view(o@);
                }
                let ghost ov = entries_view(o@);
                let mut i: usize = 0;
                while i < o.len()
                    invariant
                        self is Object,
                        o == self->Object_0,
                        self@ == Json::Obj(ov),
                        ov == entries_view(o@),
                        ov.len() == o@.len(),
                        forall|m: int| 0 <= m < o@.len() ==> #[trigger] ov[m] == (o@[m].0@, o@[m].1@),
                        i <= o@.len(),
                        entries_wf(ov, i as nat),
                    decreases o@.len() - i,
                {
                    proof {
                        lemma_entry_smaller(ov, i as int);
                    }
                    if !o[i].1.is_well_formed() {
                        return false;
                    }
                    assert(entries_wf(ov, (i + 1) as nat) == (entries_wf(ov, i as nat) && json_wf(
                        ov[i as int].1,
                    )));
                    i += 1;
                }
                true
            },
            _ => true,
        }
    }
}

} // verus!
