//! The JSON data model the evaluator works on: values, objects whose keys are
//! kept in ascending order, and the mathematical view of both.
use vstd::prelude::*;

verus! {

/// Mathematical view of a JSON value. Numbers are kept as their JSON text.
pub enum JsonV {
    Null,
    Bool(bool),
    Number(Seq<char>),
    Str(Seq<char>),
    Array(Seq<JsonV>),
    Object(Seq<(Seq<char>, JsonV)>),
}

/// A JSON value. Numbers are stored as their JSON text (for example `2` or `1.5`).
#[derive(Debug, PartialEq, Eq)]
pub enum Json {
    Null,
    Bool(bool),
    Number(String),
    Str(String),
    Array(Vec<Json>),
    Object(JsonMap),
}

/// A JSON object: entries kept in strictly ascending key order, so every key
/// occurs once and walking the entries visits the keys in sorted order.
#[derive(Debug, PartialEq, Eq)]
pub struct JsonMap {
    entries: Vec<(String, Json)>,
}

// ---------------------------------------------------------------------------
// Views
// ---------------------------------------------------------------------------

pub open spec fn view_items(s: Seq<Json>) -> Seq<JsonV>
    decreases s,
{
    if s.len() == 0 {
        Seq::empty()
    } else {
        seq![view_json(s[0])] + view_items(s.subrange(1, s.len() as int))
    }
}

pub open spec fn view_entries(s: Seq<(String, Json)>) -> Seq<(Seq<char>, JsonV)>
    decreases s,
{
    if s.len() == 0 {
        Seq::empty()
    } else {
        seq![(s[0].0@, view_json(s[0].1))] + view_entries(s.subrange(1, s.len() as int))
    }
}

pub open spec fn view_json(j: Json) -> JsonV
    decreases j,
{
    match j {
        Json::Null => JsonV::Null,
        Json::Bool(b) => JsonV::Bool(b),
        Json::Number(n) => JsonV::Number(n@),
        Json::Str(s) => JsonV::Str(s@),
        Json::Array(v) => JsonV::Array(view_items(v@)),
        Json::Object(m) => JsonV::Object(m.entries_view()),
    }
}

impl JsonMap {
    /// The entries, each key and value by its view.
    pub closed spec fn entries_view(&self) -> Seq<(Seq<char>, JsonV)>
        decreases self,
    {
        view_entries(self.entries@)
    }

    /// The keys are in ascending order, and so are those of every object
    /// reached through the values.
    #[verifier::type_invariant]
    pub open spec fn keys_in_order(&self) -> bool {
        objects_sorted(JsonV::Object(self.entries_view()))
    }
}

impl View for JsonMap {
    type V = Seq<(Seq<char>, JsonV)>;

    open spec fn view(&self) -> Seq<(Seq<char>, JsonV)> {
        self.entries_view()
    }
}

impl View for Json {
    type V = JsonV;

    open spec fn view(&self) -> JsonV {
        view_json(*self)
    }
}

pub proof fn lemma_view_items(s: Seq<Json>)
    ensures
        view_items(s).len() == s.len(),
        forall|i: int| 0 <= i < s.len() ==> #[trigger] view_items(s)[i] == view_json(s[i]),
    decreases s.len(),
{
    if s.len() > 0 {
        let rest = s.subrange(1, s.len() as int);
        lemma_view_items(rest);
        assert forall|i: int| 0 <= i < s.len() implies #[trigger] view_items(s)[i] == view_json(
            s[i],
        ) by {
            if i > 0 {
                assert(rest[i - 1] == s[i]);
            }
        }
    }
}

pub proof fn lemma_view_entries(s: Seq<(String, Json)>)
    ensures
        view_entries(s).len() == s.len(),
        forall|i: int|
            0 <= i < s.len() ==> #[trigger] view_entries(s)[i] == (s[i].0@, view_json(s[i].1)),
    decreases s.len(),
{
    if s.len() > 0 {
        let rest = s.subrange(1, s.len() as int);
        lemma_view_entries(rest);
        assert forall|i: int| 0 <= i < s.len() implies #[trigger] view_entries(s)[i] == (
            s[i].0@,
            view_json(s[i].1),
        ) by {
            if i > 0 {
                assert(rest[i - 1] == s[i]);
            }
        }
    }
}

// ---------------------------------------------------------------------------
// Key order
// ---------------------------------------------------------------------------

/// Lexicographic order of keys by code point, the order of Rust's `str` comparison.
pub open spec fn key_lt(a: Seq<char>, b: Seq<char>) -> bool
    decreases a.len(),
{
    if a.len() == 0 {
        b.len() > 0
    } else if b.len() == 0 {
        false
    } else if a[0] < b[0] {
        true
    } else if a[0] == b[0] {
        key_lt(a.drop_first(), b.drop_first())
    } else {
        false
    }
}

pub open spec fn keys_sorted(s: Seq<(Seq<char>, JsonV)>) -> bool {
    forall|i: int, j: int| 0 <= i < j < s.len() ==> key_lt(#[trigger] s[i].0, #[trigger] s[j].0)
}

/// Every object reached through objects keeps its keys in ascending order.
pub open spec fn objects_sorted(v: JsonV) -> bool
    decreases v,
{
    match v {
        JsonV::Object(es) => keys_sorted(es) && forall|i: int|
            0 <= i < es.len() ==> objects_sorted(#[trigger] es[i].1),
        _ => true,
    }
}

pub proof fn lemma_key_lt_irreflexive(a: Seq<char>)
    ensures
        !key_lt(a, a),
    decreases a.len(),
{
    if a.len() > 0 {
        lemma_key_lt_irreflexive(a.drop_first());
    }
}

pub proof fn lemma_key_lt_transitive(a: Seq<char>, b: Seq<char>, c: Seq<char>)
    requires
        key_lt(a, b),
        key_lt(b, c),
    ensures
        key_lt(a, c),
    decreases a.len(),
{
    if a.len() > 0 && b.len() > 0 && c.len() > 0 {
        if a[0] == b[0] && b[0] == c[0] {
            lemma_key_lt_transitive(a.drop_first(), b.drop_first(), c.drop_first());
        }
    }
}

pub proof fn lemma_key_lt_total(a: Seq<char>, b: Seq<char>)
    ensures
        a == b || key_lt(a, b) || key_lt(b, a),
    decreases a.len(),
{
    if a.len() > 0 && b.len() > 0 {
        if a[0] == b[0] {
            lemma_key_lt_total(a.drop_first(), b.drop_first());
            if a.drop_first() == b.drop_first() {
                assert(a =~= seq![a[0]] + a.drop_first());
                assert(b =~= seq![b[0]] + b.drop_first());
            }
        }
    } else if a.len() == 0 && b.len() == 0 {
        assert(a =~= b);
    }
}

pub proof fn lemma_key_lt_asymmetric(a: Seq<char>, b: Seq<char>)
    requires
        key_lt(a, b),
    ensures
        !key_lt(b, a),
{
    if key_lt(b, a) {
        lemma_key_lt_transitive(a, b, a);
        lemma_key_lt_irreflexive(a);
    }
}

// ---------------------------------------------------------------------------
// Object entries as sequences
// ---------------------------------------------------------------------------

/// The value stored under `k`, if any (the first entry with that key).
pub open spec fn entries_get(s: Seq<(Seq<char>, JsonV)>, k: Seq<char>) -> Option<JsonV>
    decreases s.len(),
{
    if s.len() == 0 {
        None
    } else if s[0].0 == k {
        Some(s[0].1)
    } else {
        entries_get(s.drop_first(), k)
    }
}

/// Sorted insertion: replaces the value of an existing key, or places the new
/// entry before the first larger key.
pub open spec fn entries_insert(s: Seq<(Seq<char>, JsonV)>, k: Seq<char>, v: JsonV) -> Seq<
    (Seq<char>, JsonV),
>
    decreases s.len(),
{
    if s.len() == 0 {
        seq![(k, v)]
    } else if s[0].0 == k {
        seq![(k, v)] + s.drop_first()
    } else if key_lt(k, s[0].0) {
        seq![(k, v)] + s
    } else {
        seq![s[0]] + entries_insert(s.drop_first(), k, v)
    }
}

/// Removal of the first entry with key `k`.
pub open spec fn entries_remove(s: Seq<(Seq<char>, JsonV)>, k: Seq<char>) -> Seq<
    (Seq<char>, JsonV),
>
    decreases s.len(),
{
    if s.len() == 0 {
        s
    } else if s[0].0 == k {
        s.drop_first()
    } else {
        seq![s[0]] + entries_remove(s.drop_first(), k)
    }
}

/// The value of `k` in `v` when `v` is an object (what `Value::get` with a key does).
pub open spec fn json_get(v: JsonV, k: Seq<char>) -> Option<JsonV> {
    match v {
        JsonV::Object(s) => entries_get(s, k),
        _ => None,
    }
}

/// Inserting into a sorted entry list, when every key before position `i` is smaller.
proof fn lemma_insert_skip(s: Seq<(Seq<char>, JsonV)>, k: Seq<char>, v: JsonV, i: int)
    requires
        0 <= i <= s.len(),
        forall|j: int| 0 <= j < i ==> key_lt(#[trigger] s[j].0, k),
    ensures
        entries_insert(s, k, v) == s.subrange(0, i) + entries_insert(s.subrange(i, s.len() as int), k, v),
    decreases i,
{
    if i > 0 {
        lemma_key_lt_irreflexive(k);
        lemma_key_lt_asymmetric(s[0].0, k);
        let rest = s.drop_first();
        assert forall|j: int| 0 <= j < i - 1 implies key_lt(#[trigger] rest[j].0, k) by {
            assert(rest[j] == s[j + 1]);
        }
        lemma_insert_skip(rest, k, v, i - 1);
        assert(rest.subrange(i - 1, rest.len() as int) =~= s.subrange(i, s.len() as int));
        assert(s.subrange(0, i) =~= seq![s[0]] + rest.subrange(0, i - 1));
    } else {
        assert(s.subrange(0, 0) + s.subrange(0, s.len() as int) =~= s);
    }
}

/// Looking up a key, when no key before position `i` equals it.
proof fn lemma_get_skip(s: Seq<(Seq<char>, JsonV)>, k: Seq<char>, i: int)
    requires
        0 <= i <= s.len(),
        forall|j: int| 0 <= j < i ==> #[trigger] s[j].0 != k,
    ensures
        entries_get(s, k) == entries_get(s.subrange(i, s.len() as int), k),
    decreases i,
{
    if i > 0 {
        let rest = s.drop_first();
        assert forall|j: int| 0 <= j < i - 1 implies #[trigger] rest[j].0 != k by {
            assert(rest[j] == s[j + 1]);
        }
        lemma_get_skip(rest, k, i - 1);
        assert(rest.subrange(i - 1, rest.len() as int) =~= s.subrange(i, s.len() as int));
    } else {
        assert(s.subrange(0, s.len() as int) =~= s);
    }
}

proof fn lemma_remove_skip(s: Seq<(Seq<char>, JsonV)>, k: Seq<char>, i: int)
    requires
        0 <= i <= s.len(),
        forall|j: int| 0 <= j < i ==> #[trigger] s[j].0 != k,
    ensures
        entries_remove(s, k) == s.subrange(0, i) + entries_remove(s.subrange(i, s.len() as int), k),
    decreases i,
{
    if i > 0 {
        let rest = s.drop_first();
        assert forall|j: int| 0 <= j < i - 1 implies #[trigger] rest[j].0 != k by {
            assert(rest[j] == s[j + 1]);
        }
        lemma_remove_skip(rest, k, i - 1);
        assert(rest.subrange(i - 1, rest.len() as int) =~= s.subrange(i, s.len() as int));
        assert(s.subrange(0, i) =~= seq![s[0]] + rest.subrange(0, i - 1));
    } else {
        assert(s.subrange(0, 0) + s.subrange(0, s.len() as int) =~= s);
    }
}

/// A lookup after an insertion sees the inserted value under its key and the
/// earlier values under every other key.
pub proof fn lemma_get_insert(s: Seq<(Seq<char>, JsonV)>, k0: Seq<char>, x: JsonV, k: Seq<char>)
    ensures
        entries_get(entries_insert(s, k0, x), k) == if k == k0 {
            Some(x)
        } else {
            entries_get(s, k)
        },
    decreases s.len(),
{
    let t = entries_insert(s, k0, x);
    if s.len() == 0 {
        assert(t =~= seq![(k0, x)]);
        assert(t[0] == (k0, x));
        assert(t.drop_first().len() == 0);
        assert(entries_get(t.drop_first(), k) is None);
    } else if s[0].0 == k0 {
        assert(t[0] == (k0, x));
        assert(t.drop_first() =~= s.drop_first());
    } else if key_lt(k0, s[0].0) {
        assert(t[0] == (k0, x));
        assert(t.drop_first() =~= s);
    } else {
        lemma_get_insert(s.drop_first(), k0, x, k);
        assert(t[0] == s[0]);
        assert(t.drop_first() =~= entries_insert(s.drop_first(), k0, x));
    }
}

/// Inserting a key larger than every key present appends it.
pub proof fn lemma_insert_last(s: Seq<(Seq<char>, JsonV)>, k: Seq<char>, x: JsonV)
    requires
        forall|i: int| 0 <= i < s.len() ==> key_lt(#[trigger] s[i].0, k),
    ensures
        entries_insert(s, k, x) == s.push((k, x)),
    decreases s.len(),
{
    if s.len() > 0 {
        lemma_key_lt_irreflexive(k);
        lemma_key_lt_asymmetric(s[0].0, k);
        let rest = s.drop_first();
        assert forall|i: int| 0 <= i < rest.len() implies key_lt(#[trigger] rest[i].0, k) by {
            assert(rest[i] == s[i + 1]);
        }
        lemma_insert_last(rest, k, x);
        assert(seq![s[0]] + rest.push((k, x)) =~= s.push((k, x)));
    } else {
        assert(seq![(k, x)] =~= s.push((k, x)));
    }
}

/// Removing an absent key changes nothing.
pub proof fn lemma_remove_absent(s: Seq<(Seq<char>, JsonV)>, k: Seq<char>)
    requires
        entries_get(s, k) is None,
    ensures
        entries_remove(s, k) == s,
    decreases s.len(),
{
    if s.len() > 0 {
        lemma_remove_absent(s.drop_first(), k);
        assert(seq![s[0]] + s.drop_first() =~= s);
    }
}

/// Taking a present key out of a sorted entry list and putting it back with a
/// new value is the same as inserting the new value directly.
pub proof fn lemma_remove_insert(s: Seq<(Seq<char>, JsonV)>, k: Seq<char>, v: JsonV)
    requires
        keys_sorted(s),
        entries_get(s, k) is Some,
    ensures
        entries_insert(entries_remove(s, k), k, v) == entries_insert(s, k, v),
    decreases s.len(),
{
    lemma_key_lt_irreflexive(k);
    let rest = s.drop_first();
    if s[0].0 == k {
        if rest.len() > 0 {
            assert(rest[0] == s[1]);
            assert(key_lt(s[0].0, s[1].0));
            assert(entries_insert(rest, k, v) == seq![(k, v)] + rest);
        } else {
            assert(seq![(k, v)] + rest =~= seq![(k, v)]);
        }
    } else {
        assert(keys_sorted(rest)) by {
            assert forall|i: int, j: int| 0 <= i < j < rest.len() implies key_lt(
                #[trigger] rest[i].0,
                #[trigger] rest[j].0,
            ) by {
                assert(rest[i] == s[i + 1] && rest[j] == s[j + 1]);
            }
        }
        lemma_get_some_index(rest, k);
        let i = choose|i: int|
            0 <= i < rest.len() && rest[i].0 == k && entries_get(rest, k) == Some(
                #[trigger] rest[i].1,
            );
        assert(rest[i] == s[i + 1]);
        assert(key_lt(s[0].0, k));
        lemma_key_lt_asymmetric(s[0].0, k);
        lemma_remove_insert(rest, k, v);
        let removed = entries_remove(s, k);
        assert(removed == seq![s[0]] + entries_remove(rest, k));
        assert(removed[0] == s[0]);
        assert(removed.drop_first() =~= entries_remove(rest, k));
    }
}

/// In a sorted entry list, a key occurs at most once, so the lookup finds the
/// entry at any position that holds the key.
pub proof fn lemma_sorted_get(s: Seq<(Seq<char>, JsonV)>, i: int)
    requires
        keys_sorted(s),
        0 <= i < s.len(),
    ensures
        entries_get(s, s[i].0) == Some(s[i].1),
{
    assert forall|j: int| 0 <= j < i implies #[trigger] s[j].0 != s[i].0 by {
        lemma_key_lt_irreflexive(s[i].0);
        assert(key_lt(s[j].0, s[i].0));
    }
    lemma_get_skip(s, s[i].0, i);
}

/// In a sorted entry list, a key that is present is found at some position.
pub proof fn lemma_get_some_index(s: Seq<(Seq<char>, JsonV)>, k: Seq<char>)
    ensures
        entries_get(s, k) is Some ==> exists|i: int|
            0 <= i < s.len() && s[i].0 == k && entries_get(s, k) == Some(#[trigger] s[i].1),
        entries_get(s, k) is None ==> forall|i: int| 0 <= i < s.len() ==> #[trigger] s[i].0 != k,
    decreases s.len(),
{
    if s.len() > 0 {
        let rest = s.drop_first();
        lemma_get_some_index(rest, k);
        if s[0].0 == k {
            assert(s[0].1 == s[0].1);
        } else if entries_get(rest, k) is Some {
            let i = choose|i: int|
                0 <= i < rest.len() && rest[i].0 == k && entries_get(rest, k) == Some(
                    #[trigger] rest[i].1,
                );
            assert(s[i + 1] == rest[i]);
        } else {
            assert forall|i: int| 0 <= i < s.len() implies #[trigger] s[i].0 != k by {
                if i > 0 {
                    assert(s[i] == rest[i - 1]);
                }
            }
        }
    }
}

// ---------------------------------------------------------------------------
// Sizes, for recursion over nested values
// ---------------------------------------------------------------------------

pub open spec fn json_size(v: JsonV) -> nat
    decreases v,
{
    match v {
        JsonV::Array(s) => 1 + items_size(s),
        JsonV::Object(s) => 1 + entries_size(s),
        _ => 1,
    }
}

pub open spec fn items_size(s: Seq<JsonV>) -> nat
    decreases s,
{
    if s.len() == 0 {
        0
    } else {
        1 + json_size(s[0]) + items_size(s.subrange(1, s.len() as int))
    }
}

pub open spec fn entries_size(s: Seq<(Seq<char>, JsonV)>) -> nat
    decreases s,
{
    if s.len() == 0 {
        0
    } else {
        1 + json_size(s[0].1) + entries_size(s.subrange(1, s.len() as int))
    }
}

pub proof fn lemma_items_size(s: Seq<JsonV>, i: int)
    requires
        0 <= i < s.len(),
    ensures
        json_size(s[i]) < items_size(s),
    decreases s.len(),
{
    if i > 0 {
        let rest = s.subrange(1, s.len() as int);
        lemma_items_size(rest, i - 1);
        assert(rest[i - 1] == s[i]);
    }
}

pub proof fn lemma_entries_size(s: Seq<(Seq<char>, JsonV)>, i: int)
    requires
        0 <= i < s.len(),
    ensures
        json_size(s[i].1) < entries_size(s),
    decreases s.len(),
{
    if i > 0 {
        let rest = s.subrange(1, s.len() as int);
        lemma_entries_size(rest, i - 1);
        assert(rest[i - 1] == s[i]);
    }
}

// ---------------------------------------------------------------------------
// Executable string helpers used by the map
// ---------------------------------------------------------------------------

/// The characters of a string.
pub fn chars_of(s: &str) -> (r: Vec<char>)
    ensures
        r@ == s@,
{
    let mut r: Vec<char> = Vec::new();
    for c in it: s.chars()
        invariant
            r@ == it.seq().take(it.index() as int),
            it.seq() == s@,
    {
        r.push(c);
    }
    r
}

/// Whether `a` orders before `b` in key order.
pub fn key_less(a: &str, b: &str) -> (r: bool)
    ensures
        r == key_lt(a@, b@),
{
    let ca = chars_of(a);
    let cb = chars_of(b);
    let mut i: usize = 0;
    proof {
        assert(a@.subrange(0, a@.len() as int) =~= a@);
        assert(b@.subrange(0, b@.len() as int) =~= b@);
    }
    while i < ca.len() && i < cb.len() && ca[i] == cb[i]
        invariant
            ca@ == a@,
            cb@ == b@,
            i <= ca.len(),
            i <= cb.len(),
            key_lt(a@, b@) == key_lt(a@.subrange(i as int, a@.len() as int), b@.subrange(i as int, b@.len() as int)),
        decreases ca.len() - i,
    {
        let ghost sa = a@.subrange(i as int, a@.len() as int);
        let ghost sb = b@.subrange(i as int, b@.len() as int);
        assert(sa.drop_first() =~= a@.subrange(i + 1, a@.len() as int));
        assert(sb.drop_first() =~= b@.subrange(i + 1, b@.len() as int));
        i = i + 1;
    }
    if i == ca.len() {
        i < cb.len()
    } else if i == cb.len() {
        false
    } else {
        ca[i] < cb[i]
    }
}

/// Whether two strings are equal.
pub fn str_equal(a: &str, b: &str) -> (r: bool)
    ensures
        r == (a@ == b@),
{
    let ca = chars_of(a);
    let cb = chars_of(b);
    if ca.len() != cb.len() {
        return false;
    }
    let mut i: usize = 0;
    while i < ca.len()
        invariant
            ca@ == a@,
            cb@ == b@,
            ca.len() == cb.len(),
            i <= ca.len(),
            forall|j: int| 0 <= j < i ==> ca@[j] == cb@[j],
        decreases ca.len() - i,
    {
        if ca[i] != cb[i] {
            return false;
        }
        i = i + 1;
    }
    assert(a@ =~= b@);
    true
}

// ---------------------------------------------------------------------------
// Executable object operations
// ---------------------------------------------------------------------------

impl JsonMap {
    /// The empty object.
    pub fn new() -> (m: JsonMap)
        ensures
            m@ == Seq::<(Seq<char>, JsonV)>::empty(),
    {
        JsonMap { entries: Vec::new() }
    }

    /// Number of entries.
    pub fn len(&self) -> (n: usize)
        ensures
            n == self@.len(),
    {
        proof {
            lemma_view_entries(self.entries@);
        }
        self.entries.len()
    }

    /// The key of the entry at position `i`.
    pub fn key_at(&self, i: usize) -> (k: &String)
        requires
            i < self@.len(),
        ensures
            k@ == self@[i as int].0,
    {
        proof {
            lemma_view_entries(self.entries@);
        }
        &self.entries[i].0
    }

    /// The value of the entry at position `i`.
    pub fn value_at(&self, i: usize) -> (v: &Json)
        requires
            i < self@.len(),
        ensures
            v@ == self@[i as int].1,
            json_size(v@) < json_size(JsonV::Object(self@)),
    {
        proof {
            lemma_view_entries(self.entries@);
            lemma_entries_size(self@, i as int);
        }
        &self.entries[i].1
    }

    /// Position of `key`, if present.
    pub fn index_of(&self, key: &str) -> (r: Option<usize>)
        ensures
            match r {
                Some(i) => i < self@.len() && self@[i as int].0 == key@,
                None => forall|j: int| 0 <= j < self@.len() ==> #[trigger] self@[j].0 != key@,
            },
            r is Some <==> entries_get(self@, key@) is Some,
            r matches Some(i) ==> entries_get(self@, key@) == Some(self@[i as int].1),
    {
        proof {
            lemma_view_entries(self.entries@);
            use_type_invariant(self);
        }
        let mut i: usize = 0;
        while i < self.entries.len()
            invariant
                i <= self.entries@.len(),
                self@.len() == self.entries@.len(),
                keys_sorted(self@),
                forall|j: int| 0 <= j < self@.len() ==> #[trigger] self@[j] == (self.entries@[j].0@, view_json(self.entries@[j].1)),
                forall|j: int| 0 <= j < i ==> #[trigger] self@[j].0 != key@,
            decreases self.entries.len() - i,
        {
            if str_equal(self.entries[i].0.as_str(), key) {
                proof {
                    lemma_sorted_get(self@, i as int);
                }
                return Some(i);
            }
            i = i + 1;
        }
        proof {
            lemma_get_skip(self@, key@, self@.len() as int);
        }
        None
    }

    /// The value stored under `key`.
    pub fn get(&self, key: &str) -> (r: Option<&Json>)
        ensures
            r is Some <==> entries_get(self@, key@) is Some,
            r matches Some(v) ==> entries_get(self@, key@) == Some(v@),
    {
        match self.index_of(key) {
            Some(i) => Some(self.value_at(i)),
            None => None,
        }
    }

    /// Whether `key` is present.
    pub fn contains_key(&self, key: &str) -> (r: bool)
        ensures
            r == (entries_get(self@, key@) is Some),
    {
        self.index_of(key).is_some()
    }

    /// Inserts `value` under `key`, replacing an earlier value of that key.
    pub fn insert(&mut self, key: String, value: Json)
        ensures
            final(self)@ == entries_insert(old(self)@, key@, value@),
    {
        proof {
            use_type_invariant(&*self);
            lemma_view_entries(self.entries@);
            match &value {
                Json::Object(vm) => {
                    use_type_invariant(vm);
                },
                _ => {},
            }
        }
        let ghost s = self@;
        let mut entries: Vec<(String, Json)> = Vec::new();
        std::mem::swap(&mut entries, &mut self.entries);
        let mut i: usize = 0;
        while i < entries.len() && key_less(entries[i].0.as_str(), key.as_str())
            invariant
                i <= entries@.len(),
                s == view_entries(entries@),
                s.len() == entries@.len(),
                forall|j: int| 0 <= j < s.len() ==> #[trigger] s[j] == (entries@[j].0@, view_json(entries@[j].1)),
                forall|j: int| 0 <= j < i ==> key_lt(#[trigger] s[j].0, key@),
            decreases entries.len() - i,
        {
            i = i + 1;
        }
        proof {
            lemma_insert_skip(s, key@, value@, i as int);
            lemma_key_lt_irreflexive(key@);
        }
        let ghost tail = s.subrange(i as int, s.len() as int);
        if i < entries.len() && str_equal(entries[i].0.as_str(), key.as_str()) {
            let ghost old_entries = entries@;
            entries.set(i, (key, value));
            proof {
                lemma_view_entries(entries@);
                let t = view_entries(entries@);
                assert(tail.drop_first() =~= s.subrange(i + 1, s.len() as int));
                assert(t =~= s.subrange(0, i as int) + entries_insert(tail, key@, value@));
                assert forall|a: int, b: int| 0 <= a < b < t.len() implies key_lt(
                    #[trigger] t[a].0,
                    #[trigger] t[b].0,
                ) by {
                    assert(t[a].0 == s[a].0 && t[b].0 == s[b].0);
                }
                assert forall|a: int| 0 <= a < t.len() implies objects_sorted(#[trigger] t[a].1) by {
                    if a != i {
                        assert(t[a] == s[a]);
                    }
                }
            }
            self.entries = entries;
        } else {
            let ghost old_entries = entries@;
            entries.insert(i, (key, value));
            proof {
                lemma_view_entries(entries@);
                let t = view_entries(entries@);
                if i < s.len() {
                    lemma_key_lt_total(key@, s[i as int].0);
                    assert(tail[0] == s[i as int]);
                }
                assert(t =~= s.subrange(0, i as int) + entries_insert(tail, key@, value@));
                assert forall|a: int, b: int| 0 <= a < b < t.len() implies key_lt(
                    #[trigger] t[a].0,
                    #[trigger] t[b].0,
                ) by {
                    if b < i {
                        assert(t[a] == s[a] && t[b] == s[b]);
                    } else if b == i {
                        assert(t[a] == s[a]);
                    } else if a == i {
                        assert(t[b] == s[b - 1]);
                        if b - 1 > i {
                            lemma_key_lt_transitive(key@, s[i as int].0, s[b - 1].0);
                        }
                    } else if a < i {
                        assert(t[a] == s[a] && t[b] == s[b - 1]);
                    } else {
                        assert(t[a] == s[a - 1] && t[b] == s[b - 1]);
                    }
                }
                assert forall|a: int| 0 <= a < t.len() implies objects_sorted(#[trigger] t[a].1) by {
                    if a < i {
                        assert(t[a] == s[a]);
                    } else if a > i {
                        assert(t[a] == s[a - 1]);
                    }
                }
            }
            self.entries = entries;
        }
    }

    /// The entries, in key order.
    pub fn into_entries(self) -> (r: Vec<(String, Json)>)
        ensures
            view_entries(r@) == self@,
            r@.len() == self@.len(),
            forall|j: int| 0 <= j < r@.len() ==> #[trigger] self@[j] == (r@[j].0@, view_json(r@[j].1)),
    {
        proof {
            lemma_view_entries(self.entries@);
        }
        let JsonMap { entries } = self;
        entries
    }

    /// Removes the entry of `key` and gives back its value.
    pub fn remove(&mut self, key: &str) -> (r: Option<Json>)
        ensures
            final(self)@ == entries_remove(old(self)@, key@),
            r is Some <==> entries_get(old(self)@, key@) is Some,
            r matches Some(v) ==> entries_get(old(self)@, key@) == Some(v@),
    {
        proof {
            use_type_invariant(&*self);
            lemma_view_entries(self.entries@);
        }
        let ghost s = self@;
        match self.index_of(key) {
            None => {
                proof {
                    lemma_remove_skip(s, key@, s.len() as int);
                    assert(s.subrange(0, s.len() as int) =~= s);
                    assert(s.subrange(s.len() as int, s.len() as int).len() == 0);
                }
                None
            },
            Some(i) => {
                let mut entries: Vec<(String, Json)> = Vec::new();
                std::mem::swap(&mut entries, &mut self.entries);
                let (_k, v) = entries.remove(i);
                proof {
                    assert forall|j: int| 0 <= j < i implies #[trigger] s[j].0 != key@ by {
                        lemma_key_lt_irreflexive(key@);
                        assert(key_lt(s[j].0, s[i as int].0));
                    }
                    lemma_remove_skip(s, key@, i as int);
                    lemma_view_entries(entries@);
                    let t = view_entries(entries@);
                    let tail = s.subrange(i as int, s.len() as int);
                    assert(tail.drop_first() =~= s.subrange(i + 1, s.len() as int));
                    assert(t =~= s.subrange(0, i as int) + entries_remove(tail, key@));
                    assert forall|a: int, b: int| 0 <= a < b < t.len() implies key_lt(
                        #[trigger] t[a].0,
                        #[trigger] t[b].0,
                    ) by {
                        if b < i {
                            assert(t[a] == s[a] && t[b] == s[b]);
                        } else if a < i {
                            assert(t[a] == s[a] && t[b] == s[b + 1]);
                        } else {
                            assert(t[a] == s[a + 1] && t[b] == s[b + 1]);
                        }
                    }
                }
                self.entries = entries;
                Some(v)
            },
        }
    }
}

impl Json {
    /// A copy of this value.
    pub fn deep_clone(&self) -> (r: Json)
        ensures
            r@ == self@,
        decreases json_size(self@), 1nat,
    {
        match self {
            Json::Null => Json::Null,
            Json::Bool(b) => Json::Bool(*b),
            Json::Number(n) => Json::Number(n.clone()),
            Json::Str(s) => Json::Str(s.clone()),
            Json::Array(items) => {
                let mut out: Vec<Json> = Vec::new();
                let mut i: usize = 0;
                proof {
                    lemma_view_items(items@);
                }
                while i < items.len()
                    invariant
                        i <= items.len(),
                        view_items(items@).len() == items@.len(),
                        forall|j: int| 0 <= j < items@.len() ==> #[trigger] view_items(items@)[j] == view_json(items@[j]),
                        json_size(self@) == 1 + items_size(view_items(items@)),
                        view_items(out@) == view_items(items@).take(i as int),
                    decreases items.len() - i,
                {
                    proof {
                        lemma_items_size(view_items(items@), i as int);
                    }
                    let c = items[i].deep_clone();
                    let ghost prev = out@;
                    out.push(c);
                    proof {
                        lemma_view_items(out@);
                        lemma_view_items(prev);
                        assert(view_items(out@) =~= view_items(items@).take(i + 1));
                    }
                    i = i + 1;
                }
                proof {
                    assert(view_items(items@).take(items@.len() as int) =~= view_items(items@));
                }
                Json::Array(out)
            },
            Json::Object(m) => Json::Object(m.deep_clone()),
        }
    }
}

impl JsonMap {
    /// A copy of this object.
    pub fn deep_clone(&self) -> (r: JsonMap)
        ensures
            r@ == self@,
        decreases json_size(JsonV::Object(self@)), 0nat,
    {
        proof {
            use_type_invariant(self);
            lemma_view_entries(self.entries@);
        }
        let mut out: Vec<(String, Json)> = Vec::new();
        let mut i: usize = 0;
        while i < self.entries.len()
            invariant
                i <= self.entries.len(),
                self@ == view_entries(self.entries@),
                self@.len() == self.entries@.len(),
                forall|j: int| 0 <= j < self@.len() ==> #[trigger] self@[j] == (self.entries@[j].0@, view_json(self.entries@[j].1)),
                view_entries(out@) == self@.take(i as int),
            decreases self.entries.len() - i,
        {
            proof {
                lemma_entries_size(self@, i as int);
            }
            let k = self.entries[i].0.clone();
            let v = self.entries[i].1.deep_clone();
            let ghost prev = out@;
            out.push((k, v));
            proof {
                lemma_view_entries(out@);
                lemma_view_entries(prev);
                assert(view_entries(out@) =~= self@.take(i + 1));
            }
            i = i + 1;
        }
        proof {
            assert(self@.take(self@.len() as int) =~= self@);
        }
        JsonMap { entries: out }
    }
}

impl Clone for Json {
    fn clone(&self) -> (r: Json)
        ensures
            r@ == self@,
    {
        self.deep_clone()
    }
}

impl Clone for JsonMap {
    fn clone(&self) -> (r: JsonMap)
        ensures
            r@ == self@,
    {
        self.deep_clone()
    }
}

} // verus!
