//! Deep merge of JSON values: objects are merged key by key, anything else is replaced.
use vstd::prelude::*;
use crate::json::{
    Json, JsonMap, JsonV, json_size, entries_size, entries_get, entries_insert, keys_sorted, key_lt,
    view_json, lemma_entries_size, lemma_remove_insert, lemma_remove_absent, lemma_get_insert,
    lemma_get_some_index, lemma_key_lt_irreflexive, lemma_insert_last, lemma_key_lt_total,
    lemma_key_lt_transitive, lemma_key_lt_asymmetric, objects_sorted,
};

verus! {

/// The value that `deep_merge(dst, src)` leaves in `dst`: when both are objects,
/// each key of `src` is merged into `dst` in key order; otherwise `src` replaces `dst`.
pub open spec fn merged(dst: JsonV, src: JsonV) -> JsonV
    decreases json_size(src),
{
    match (dst, src) {
        (JsonV::Object(d), JsonV::Object(s)) => JsonV::Object(merge_entries(d, s)),
        _ => src,
    }
}

/// Merging the entries `s` one after the other into `d`.
pub open spec fn merge_entries(d: Seq<(Seq<char>, JsonV)>, s: Seq<(Seq<char>, JsonV)>) -> Seq<
    (Seq<char>, JsonV),
>
    decreases entries_size(s),
{
    if s.len() == 0 {
        d
    } else {
        let k = s[0].0;
        let next = match entries_get(d, k) {
            Some(e) => entries_insert(d, k, merged(e, s[0].1)),
            None => entries_insert(d, k, s[0].1),
        };
        merge_entries(next, s.subrange(1, s.len() as int))
    }
}

/// Merges `src` into `dst`: keys present in both objects are merged
/// recursively, keys only in `src` are added, and a non-object on either side
/// makes `src` replace `dst`. Both values keep their objects' keys in order at
/// every depth, so the merge laws below apply to them.
pub fn deep_merge(dst: &mut Json, src: Json)
    ensures
        final(dst)@ == merged(old(dst)@, src@),
        objects_sorted(old(dst)@),
        objects_sorted(src@),
    decreases json_size(src@), 1nat,
{
    proof {
        match &*dst {
            Json::Object(m) => {
                use_type_invariant(m);
            },
            _ => {},
        }
        match &src {
            Json::Object(m) => {
                use_type_invariant(m);
            },
            _ => {},
        }
    }
    match src {
        Json::Object(src_map) => {
            match dst {
                Json::Object(dst_map) => {
                    merge_maps(dst_map, src_map);
                },
                _ => {
                    *dst = Json::Object(src_map);
                },
            }
        },
        other => {
            *dst = other;
        },
    }
}

fn merge_maps(dst: &mut JsonMap, src: JsonMap)
    ensures
        final(dst)@ == merge_entries(old(dst)@, src@),
    decreases json_size(JsonV::Object(src@)), 0nat,
{
    let ghost s = src@;
    let ghost size = json_size(JsonV::Object(s));
    let entries = src.into_entries();
    let ghost d0 = dst@;
    proof {
        assert(s.subrange(0, s.len() as int) =~= s);
    }
    for e in it: entries.into_iter()
        invariant
            it.seq().len() == s.len(),
            size == json_size(JsonV::Object(s)),
            size == json_size(JsonV::Object(src@)),
            forall|j: int| 0 <= j < s.len() ==> #[trigger] s[j] == (it.seq()[j].0@, view_json(it.seq()[j].1)),
            merge_entries(d0, s) == merge_entries(dst@, s.subrange(it.index() as int, s.len() as int)),
    {
        let ghost i = it.index() as int;
        let ghost rest = s.subrange(i, s.len() as int);
        proof {
            lemma_entries_size(s, i);
            assert(rest[0] == s[i]);
            assert(rest.subrange(1, rest.len() as int) =~= s.subrange(i + 1, s.len() as int));
        }
        assert(e == it.seq()[i]);
        let (k, v) = e;
        let ghost before = dst@;
        proof {
            use_type_invariant(&*dst);
        }
        match dst.remove(k.as_str()) {
            Some(mut existing) => {
                deep_merge(&mut existing, v);
                dst.insert(k, existing);
                proof {
                    lemma_remove_insert(before, k@, merged(entries_get(before, k@).unwrap(), s[i].1));
                }
            },
            None => {
                proof {
                    lemma_remove_absent(before, k@);
                }
                dst.insert(k, v);
            },
        }
    }
}

/// What a merged object holds under one key, given what the two sides hold there.
pub open spec fn merged_at(d: Option<JsonV>, s: Option<JsonV>) -> Option<JsonV> {
    match s {
        None => d,
        Some(v) => match d {
            None => Some(v),
            Some(e) => Some(merged(e, v)),
        },
    }
}

/// Deep merge works key by key: under every key, the merged object holds the
/// destination's value when the source lacks the key, the source's value when
/// the destination lacks it, and the merge of both values when both have it.
pub proof fn law_merge_pointwise(d: Seq<(Seq<char>, JsonV)>, s: Seq<(Seq<char>, JsonV)>, k: Seq<char>)
    requires
        keys_sorted(s),
    ensures
        entries_get(merge_entries(d, s), k) == merged_at(entries_get(d, k), entries_get(s, k)),
    decreases s.len(),
{
    if s.len() > 0 {
        let k0 = s[0].0;
        let rest = s.subrange(1, s.len() as int);
        assert(keys_sorted(rest)) by {
            assert forall|i: int, j: int| 0 <= i < j < rest.len() implies key_lt(
                #[trigger] rest[i].0,
                #[trigger] rest[j].0,
            ) by {
                assert(rest[i] == s[i + 1] && rest[j] == s[j + 1]);
            }
        }
        let x = match entries_get(d, k0) {
            Some(e) => merged(e, s[0].1),
            None => s[0].1,
        };
        let next = entries_insert(d, k0, x);
        law_merge_pointwise(next, rest, k);
        lemma_get_insert(d, k0, x, k);
        assert(rest =~= s.drop_first());
        if k == k0 {
            lemma_get_some_index(rest, k0);
            if entries_get(rest, k0) is Some {
                let i = choose|i: int|
                    0 <= i < rest.len() && rest[i].0 == k0 && entries_get(rest, k0) == Some(
                        #[trigger] rest[i].1,
                    );
                assert(rest[i] == s[i + 1]);
                assert(key_lt(s[0].0, s[i + 1].0));
                lemma_key_lt_irreflexive(k0);
            }
        }
    }
}

/// Merging a sorted object into an empty one gives that object back.
pub proof fn law_merge_into_empty(s: Seq<(Seq<char>, JsonV)>)
    requires
        keys_sorted(s),
    ensures
        merge_entries(Seq::empty(), s) == s,
{
    lemma_merge_appends(Seq::empty(), s);
    assert(Seq::<(Seq<char>, JsonV)>::empty() + s =~= s);
}

proof fn lemma_merge_appends(p: Seq<(Seq<char>, JsonV)>, s: Seq<(Seq<char>, JsonV)>)
    requires
        keys_sorted(s),
        forall|i: int, j: int| 0 <= i < p.len() && 0 <= j < s.len() ==> key_lt(#[trigger] p[i].0, #[trigger] s[j].0),
    ensures
        merge_entries(p, s) == p + s,
    decreases s.len(),
{
    if s.len() > 0 {
        let k0 = s[0].0;
        let rest = s.subrange(1, s.len() as int);
        assert forall|i: int| 0 <= i < p.len() implies key_lt(#[trigger] p[i].0, k0) by {
            assert(key_lt(p[i].0, s[0].0));
        }
        lemma_get_some_index(p, k0);
        if entries_get(p, k0) is Some {
            let i = choose|i: int|
                0 <= i < p.len() && p[i].0 == k0 && entries_get(p, k0) == Some(#[trigger] p[i].1);
            lemma_key_lt_irreflexive(k0);
            assert(key_lt(p[i].0, s[0].0));
        }
        lemma_insert_last(p, k0, s[0].1);
        let q = p.push((k0, s[0].1));
        assert(keys_sorted(rest)) by {
            assert forall|i: int, j: int| 0 <= i < j < rest.len() implies key_lt(
                #[trigger] rest[i].0,
                #[trigger] rest[j].0,
            ) by {
                assert(rest[i] == s[i + 1] && rest[j] == s[j + 1]);
            }
        }
        assert forall|i: int, j: int| 0 <= i < q.len() && 0 <= j < rest.len() implies key_lt(
            #[trigger] q[i].0,
            #[trigger] rest[j].0,
        ) by {
            assert(rest[j] == s[j + 1]);
            if i < p.len() {
                assert(q[i] == p[i]);
                assert(key_lt(p[i].0, s[j + 1].0));
            } else {
                assert(key_lt(s[0].0, s[j + 1].0));
            }
        }
        lemma_merge_appends(q, rest);
        assert(q + rest =~= p + s);
    } else {
        assert(p + s =~= p);
    }
}


/// Sorted insertion keeps the keys sorted, and adds no key but the inserted one.
proof fn lemma_insert_sorted(d: Seq<(Seq<char>, JsonV)>, k: Seq<char>, v: JsonV)
    requires
        keys_sorted(d),
    ensures
        keys_sorted(entries_insert(d, k, v)),
        forall|i: int|
            0 <= i < entries_insert(d, k, v).len() ==> (#[trigger] entries_insert(d, k, v)[i]).0 == k
                || exists|j: int| 0 <= j < d.len() && entries_insert(d, k, v)[i].0 == d[j].0,
    decreases d.len(),
{
    let r = entries_insert(d, k, v);
    if d.len() == 0 {
    } else if d[0].0 == k {
        assert forall|i: int, j: int| 0 <= i < j < r.len() implies key_lt(#[trigger] r[i].0, #[trigger] r[j].0) by {
            assert(r[j] == d[j]);
            if i > 0 {
                assert(r[i] == d[i]);
            }
        }
        assert forall|i: int| 0 <= i < r.len() implies (#[trigger] r[i]).0 == k || exists|j: int|
            0 <= j < d.len() && r[i].0 == d[j].0 by {
            if i > 0 {
                assert(r[i] == d[i]);
            }
        }
    } else if key_lt(k, d[0].0) {
        assert forall|i: int, j: int| 0 <= i < j < r.len() implies key_lt(#[trigger] r[i].0, #[trigger] r[j].0) by {
            assert(r[j] == d[j - 1]);
            if i > 0 {
                assert(r[i] == d[i - 1]);
            } else if j - 1 > 0 {
                lemma_key_lt_transitive(k, d[0].0, d[j - 1].0);
            }
        }
        assert forall|i: int| 0 <= i < r.len() implies (#[trigger] r[i]).0 == k || exists|j: int|
            0 <= j < d.len() && r[i].0 == d[j].0 by {
            if i > 0 {
                assert(r[i] == d[i - 1]);
            }
        }
    } else {
        let t = d.drop_first();
        assert(keys_sorted(t)) by {
            assert forall|i: int, j: int| 0 <= i < j < t.len() implies key_lt(#[trigger] t[i].0, #[trigger] t[j].0) by {
                assert(t[i] == d[i + 1] && t[j] == d[j + 1]);
            }
        }
        lemma_insert_sorted(t, k, v);
        lemma_key_lt_total(k, d[0].0);
        let rt = entries_insert(t, k, v);
        assert(r == seq![d[0]] + rt);
        assert forall|i: int| 0 < i < r.len() implies key_lt(d[0].0, #[trigger] r[i].0) by {
            assert(r[i] == rt[i - 1]);
            if rt[i - 1].0 != k {
                let m = choose|m: int| 0 <= m < t.len() && rt[i - 1].0 == t[m].0;
                assert(t[m] == d[m + 1]);
            }
        }
        assert forall|i: int, j: int| 0 <= i < j < r.len() implies key_lt(#[trigger] r[i].0, #[trigger] r[j].0) by {
            if i > 0 {
                assert(r[i] == rt[i - 1] && r[j] == rt[j - 1]);
            }
        }
        assert forall|i: int| 0 <= i < r.len() implies (#[trigger] r[i]).0 == k || exists|j: int|
            0 <= j < d.len() && r[i].0 == d[j].0 by {
            if i > 0 {
                assert(r[i] == rt[i - 1]);
                if rt[i - 1].0 != k {
                    let m = choose|m: int| 0 <= m < t.len() && rt[i - 1].0 == t[m].0;
                    assert(t[m] == d[m + 1]);
                }
            } else {
                assert(r[0].0 == d[0].0);
            }
        }
    }
}

/// Merging entries into a sorted object keeps it sorted.
proof fn lemma_merge_sorted(d: Seq<(Seq<char>, JsonV)>, s: Seq<(Seq<char>, JsonV)>)
    requires
        keys_sorted(d),
    ensures
        keys_sorted(merge_entries(d, s)),
    decreases s.len(),
{
    if s.len() > 0 {
        let k = s[0].0;
        let x = match entries_get(d, k) {
            Some(e) => merged(e, s[0].1),
            None => s[0].1,
        };
        lemma_insert_sorted(d, k, x);
        lemma_merge_sorted(entries_insert(d, k, x), s.subrange(1, s.len() as int));
    }
}

/// Two sorted entry lists that hold the same value under every key are equal.
proof fn lemma_same_lookups_equal(a: Seq<(Seq<char>, JsonV)>, b: Seq<(Seq<char>, JsonV)>)
    requires
        keys_sorted(a),
        keys_sorted(b),
        forall|k: Seq<char>| #[trigger] entries_get(a, k) == entries_get(b, k),
    ensures
        a == b,
    decreases a.len(),
{
    if a.len() == 0 || b.len() == 0 {
        if b.len() > 0 {
            assert(entries_get(b, b[0].0) is Some);
            assert(entries_get(a, b[0].0) is None);
        }
        if a.len() > 0 {
            assert(entries_get(a, a[0].0) is Some);
            assert(entries_get(b, a[0].0) is None);
        }
        assert(a =~= b);
    } else {
        let a0 = a[0].0;
        let b0 = b[0].0;
        assert(entries_get(b, b0) == Some(b[0].1));
        assert(entries_get(a, a0) == Some(a[0].1));
        lemma_get_some_index(a, b0);
        lemma_get_some_index(b, a0);
        let i = choose|i: int| 0 <= i < a.len() && a[i].0 == b0 && entries_get(a, b0) == Some(#[trigger] a[i].1);
        let j = choose|j: int| 0 <= j < b.len() && b[j].0 == a0 && entries_get(b, a0) == Some(#[trigger] b[j].1);
        if a0 != b0 {
            assert(i > 0 && j > 0);
            assert(key_lt(a[0].0, a[i].0));
            assert(key_lt(b[0].0, b[j].0));
            lemma_key_lt_asymmetric(a0, b0);
        }
        assert(a[0] == b[0]);
        let ta = a.drop_first();
        let tb = b.drop_first();
        assert(keys_sorted(ta)) by {
            assert forall|x: int, y: int| 0 <= x < y < ta.len() implies key_lt(#[trigger] ta[x].0, #[trigger] ta[y].0) by {
                assert(ta[x] == a[x + 1] && ta[y] == a[y + 1]);
            }
        }
        assert(keys_sorted(tb)) by {
            assert forall|x: int, y: int| 0 <= x < y < tb.len() implies key_lt(#[trigger] tb[x].0, #[trigger] tb[y].0) by {
                assert(tb[x] == b[x + 1] && tb[y] == b[y + 1]);
            }
        }
        assert forall|k: Seq<char>| #[trigger] entries_get(ta, k) == entries_get(tb, k) by {
            if k == a0 {
                lemma_key_lt_irreflexive(a0);
                lemma_get_some_index(ta, k);
                lemma_get_some_index(tb, k);
                if entries_get(ta, k) is Some {
                    let x = choose|x: int| 0 <= x < ta.len() && ta[x].0 == k && entries_get(ta, k) == Some(#[trigger] ta[x].1);
                    assert(ta[x] == a[x + 1]);
                    assert(key_lt(a[0].0, a[x + 1].0));
                }
                if entries_get(tb, k) is Some {
                    let x = choose|x: int| 0 <= x < tb.len() && tb[x].0 == k && entries_get(tb, k) == Some(#[trigger] tb[x].1);
                    assert(tb[x] == b[x + 1]);
                    assert(key_lt(b[0].0, b[x + 1].0));
                }
            } else {
                assert(entries_get(a, k) == entries_get(ta, k));
                assert(entries_get(b, k) == entries_get(tb, k));
            }
        }
        lemma_same_lookups_equal(ta, tb);
        assert(a =~= seq![a[0]] + ta);
        assert(b =~= seq![b[0]] + tb);
    }
}

/// In a sorted entry list whose values have sorted objects, the value found
/// under a key has sorted objects, and is smaller than the whole.
proof fn lemma_found_value(es: Seq<(Seq<char>, JsonV)>, k: Seq<char>)
    requires
        objects_sorted(JsonV::Object(es)),
        entries_get(es, k) is Some,
    ensures
        objects_sorted(entries_get(es, k).unwrap()),
        json_size(entries_get(es, k).unwrap()) < json_size(JsonV::Object(es)),
{
    lemma_get_some_index(es, k);
    let i = choose|i: int| 0 <= i < es.len() && es[i].0 == k && entries_get(es, k) == Some(#[trigger] es[i].1);
    lemma_entries_size(es, i);
    assert(objects_sorted(es[i].1));
}

/// Merging a value into itself gives it back.
pub proof fn law_merge_into_itself(x: JsonV)
    requires
        objects_sorted(x),
    ensures
        merged(x, x) == x,
    decreases json_size(x),
{
    if let JsonV::Object(e) = x {
        lemma_merge_sorted(e, e);
        assert forall|k: Seq<char>| #[trigger] entries_get(merge_entries(e, e), k) == entries_get(e, k) by {
            law_merge_pointwise(e, e, k);
            if entries_get(e, k) is Some {
                lemma_found_value(e, k);
                law_merge_into_itself(entries_get(e, k).unwrap());
            }
        }
        lemma_same_lookups_equal(merge_entries(e, e), e);
    }
}

/// Merging the same source a second time changes nothing.
pub proof fn law_merge_twice(d: JsonV, s: JsonV)
    requires
        objects_sorted(d),
        objects_sorted(s),
    ensures
        merged(merged(d, s), s) == merged(d, s),
    decreases json_size(s),
{
    match s {
        JsonV::Object(se) => match d {
            JsonV::Object(de) => {
                let m = merge_entries(de, se);
                lemma_merge_sorted(de, se);
                lemma_merge_sorted(m, se);
                assert forall|k: Seq<char>| #[trigger] entries_get(merge_entries(m, se), k) == entries_get(m, k) by {
                    law_merge_pointwise(m, se, k);
                    law_merge_pointwise(de, se, k);
                    if entries_get(se, k) is Some {
                        lemma_found_value(se, k);
                        let sv = entries_get(se, k).unwrap();
                        if entries_get(de, k) is Some {
                            lemma_found_value(de, k);
                            law_merge_twice(entries_get(de, k).unwrap(), sv);
                        } else {
                            law_merge_into_itself(sv);
                        }
                    }
                }
                lemma_same_lookups_equal(merge_entries(m, se), m);
            },
            _ => {
                law_merge_into_itself(s);
            },
        },
        _ => {},
    }
}

} // verus!
