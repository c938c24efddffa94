//! JSON values as an outside reader hands them over or a writer takes them:
//! object members in the order the outside side keeps them, with no order of
//! their own. Turning them into `Json` sorts the members by inserting them one
//! after the other.
use vstd::prelude::*;
use crate::json::{
    Json, JsonMap, JsonV, json_size, items_size, entries_insert, view_items,
    lemma_view_items, lemma_items_size, lemma_entries_size,
};

verus! {

/// A JSON value with its object members in a given order.
pub enum RawJson {
    Null,
    Bool(bool),
    Number(String),
    Str(String),
    Array(Vec<RawJson>),
    Object(Vec<(String, RawJson)>),
}

pub open spec fn raw_items_view(s: Seq<RawJson>) -> Seq<JsonV>
    decreases s,
{
    if s.len() == 0 {
        Seq::empty()
    } else {
        seq![raw_view(s[0])] + raw_items_view(s.subrange(1, s.len() as int))
    }
}

pub open spec fn raw_members_view(s: Seq<(String, RawJson)>) -> Seq<(Seq<char>, JsonV)>
    decreases s,
{
    if s.len() == 0 {
        Seq::empty()
    } else {
        seq![(s[0].0@, raw_view(s[0].1))] + raw_members_view(s.subrange(1, s.len() as int))
    }
}

/// The view of a raw value: members stay in their given order.
pub open spec fn raw_view(r: RawJson) -> JsonV
    decreases r,
{
    match r {
        RawJson::Null => JsonV::Null,
        RawJson::Bool(b) => JsonV::Bool(b),
        RawJson::Number(n) => JsonV::Number(n@),
        RawJson::Str(s) => JsonV::Str(s@),
        RawJson::Array(v) => JsonV::Array(raw_items_view(v@)),
        RawJson::Object(m) => JsonV::Object(raw_members_view(m@)),
    }
}

impl View for RawJson {
    type V = JsonV;

    open spec fn view(&self) -> JsonV {
        raw_view(*self)
    }
}

pub open spec fn raw_docs_view(d: Seq<RawJson>) -> Seq<JsonV> {
    d.map_values(|r: RawJson| r@)
}

pub proof fn lemma_raw_items(s: Seq<RawJson>)
    ensures
        raw_items_view(s).len() == s.len(),
        forall|i: int| 0 <= i < s.len() ==> #[trigger] raw_items_view(s)[i] == raw_view(s[i]),
    decreases s.len(),
{
    if s.len() > 0 {
        let rest = s.subrange(1, s.len() as int);
        lemma_raw_items(rest);
        assert forall|i: int| 0 <= i < s.len() implies #[trigger] raw_items_view(s)[i] == raw_view(s[i]) by {
            if i > 0 {
                assert(rest[i - 1] == s[i]);
            }
        }
    }
}

pub proof fn lemma_raw_members(s: Seq<(String, RawJson)>)
    ensures
        raw_members_view(s).len() == s.len(),
        forall|i: int|
            0 <= i < s.len() ==> #[trigger] raw_members_view(s)[i] == (s[i].0@, raw_view(s[i].1)),
    decreases s.len(),
{
    if s.len() > 0 {
        let rest = s.subrange(1, s.len() as int);
        lemma_raw_members(rest);
        assert forall|i: int| 0 <= i < s.len() implies #[trigger] raw_members_view(s)[i] == (
            s[i].0@,
            raw_view(s[i].1),
        ) by {
            if i > 0 {
                assert(rest[i - 1] == s[i]);
            }
        }
    }
}

/// A value with every object's members inserted, one after the other, into an
/// object kept in key order: a later member replaces an earlier one with the
/// same key.
pub open spec fn normalized(v: JsonV) -> JsonV
    decreases v,
{
    match v {
        JsonV::Array(xs) => JsonV::Array(normalized_items(xs)),
        JsonV::Object(es) => JsonV::Object(normalized_members(es)),
        _ => v,
    }
}

pub open spec fn normalized_items(s: Seq<JsonV>) -> Seq<JsonV>
    decreases s,
{
    if s.len() == 0 {
        Seq::empty()
    } else {
        normalized_items(s.subrange(0, s.len() - 1)).push(normalized(s[s.len() - 1]))
    }
}

pub open spec fn normalized_members(s: Seq<(Seq<char>, JsonV)>) -> Seq<(Seq<char>, JsonV)>
    decreases s,
{
    if s.len() == 0 {
        Seq::empty()
    } else {
        entries_insert(
            normalized_members(s.subrange(0, s.len() - 1)),
            s[s.len() - 1].0,
            normalized(s[s.len() - 1].1),
        )
    }
}

pub open spec fn normalized_docs(d: Seq<JsonV>) -> Seq<JsonV> {
    d.map_values(|v: JsonV| normalized(v))
}

/// The `Json` of a raw value.
pub fn json_from_raw(r: &RawJson) -> (j: Json)
    ensures
        j@ == normalized(r@),
    decreases json_size(r@),
{
    match r {
        RawJson::Null => Json::Null,
        RawJson::Bool(b) => Json::Bool(*b),
        RawJson::Number(n) => Json::Number(n.clone()),
        RawJson::Str(s) => Json::Str(s.clone()),
        RawJson::Array(items) => {
            let ghost rs = raw_items_view(items@);
            proof {
                lemma_raw_items(items@);
            }
            let mut out: Vec<Json> = Vec::new();
            let mut i: usize = 0;
            proof {
                lemma_view_items(out@);
                assert(view_items(out@) =~= normalized_items(rs.take(0)));
            }
            while i < items.len()
                invariant
                    i <= items.len(),
                    rs == raw_items_view(items@),
                    rs.len() == items@.len(),
                    forall|j: int| 0 <= j < items@.len() ==> #[trigger] rs[j] == raw_view(items@[j]),
                    r@ == JsonV::Array(rs),
                    view_items(out@) == normalized_items(rs.take(i as int)),
                decreases items.len() - i,
            {
                proof {
                    lemma_items_size(rs, i as int);
                }
                let c = json_from_raw(&items[i]);
                let ghost prev = out@;
                out.push(c);
                proof {
                    lemma_view_items(out@);
                    lemma_view_items(prev);
                    let t = rs.take(i + 1);
                    assert(t.subrange(0, i as int) =~= rs.take(i as int));
                    assert(t[i as int] == rs[i as int]);
                    assert(view_items(out@) =~= normalized_items(t));
                }
                i = i + 1;
            }
            proof {
                assert(rs.take(items.len() as int) =~= rs);
            }
            Json::Array(out)
        },
        RawJson::Object(members) => {
            let ghost rm = raw_members_view(members@);
            proof {
                lemma_raw_members(members@);
            }
            let mut m = JsonMap::new();
            let mut i: usize = 0;
            proof {
                assert(m@ =~= normalized_members(rm.take(0)));
            }
            while i < members.len()
                invariant
                    i <= members.len(),
                    rm == raw_members_view(members@),
                    rm.len() == members@.len(),
                    forall|j: int| 0 <= j < members@.len() ==> #[trigger] rm[j] == (members@[j].0@, raw_view(members@[j].1)),
                    r@ == JsonV::Object(rm),
                    m@ == normalized_members(rm.take(i as int)),
                decreases members.len() - i,
            {
                proof {
                    lemma_entries_size(rm, i as int);
                }
                let v = json_from_raw(&members[i].1);
                m.insert(members[i].0.clone(), v);
                proof {
                    let t = rm.take(i + 1);
                    assert(t.subrange(0, i as int) =~= rm.take(i as int));
                    assert(t[i as int] == rm[i as int]);
                }
                i = i + 1;
            }
            proof {
                assert(rm.take(members.len() as int) =~= rm);
            }
            Json::Object(m)
        },
    }
}

/// The `Json` values of raw documents, in order.
pub fn jsons_from_raw(raws: &Vec<RawJson>) -> (r: Vec<Json>)
    ensures
        r@.map_values(|j: Json| j@) == normalized_docs(raw_docs_view(raws@)),
{
    let mut out: Vec<Json> = Vec::new();
    let mut i: usize = 0;
    while i < raws.len()
        invariant
            i <= raws.len(),
            out@.len() == i,
            forall|j: int| 0 <= j < i ==> #[trigger] out@[j]@ == normalized(raws@[j]@),
        decreases raws.len() - i,
    {
        out.push(json_from_raw(&raws[i]));
        i = i + 1;
    }
    proof {
        assert(out@.map_values(|j: Json| j@) =~= normalized_docs(raw_docs_view(raws@)));
    }
    out
}

/// The raw value of a `Json`, its members in key order.
pub fn raw_from_json(j: &Json) -> (r: RawJson)
    ensures
        r@ == j@,
    decreases json_size(j@),
{
    match j {
        Json::Null => RawJson::Null,
        Json::Bool(b) => RawJson::Bool(*b),
        Json::Number(n) => RawJson::Number(n.clone()),
        Json::Str(s) => RawJson::Str(s.clone()),
        Json::Array(items) => {
            let ghost vs = view_items(items@);
            proof {
                lemma_view_items(items@);
            }
            let mut out: Vec<RawJson> = Vec::new();
            let mut i: usize = 0;
            proof {
                lemma_raw_items(out@);
                assert(raw_items_view(out@) =~= vs.take(0));
            }
            while i < items.len()
                invariant
                    i <= items.len(),
                    vs == view_items(items@),
                    vs.len() == items@.len(),
                    forall|k: int| 0 <= k < items@.len() ==> #[trigger] vs[k] == items@[k]@,
                    json_size(j@) == 1 + items_size(vs),
                    raw_items_view(out@) == vs.take(i as int),
                decreases items.len() - i,
            {
                proof {
                    lemma_items_size(vs, i as int);
                }
                let c = raw_from_json(&items[i]);
                let ghost prev = out@;
                out.push(c);
                proof {
                    lemma_raw_items(out@);
                    lemma_raw_items(prev);
                    assert(raw_items_view(out@) =~= vs.take(i + 1));
                }
                i = i + 1;
            }
            proof {
                assert(vs.take(items.len() as int) =~= vs);
            }
            RawJson::Array(out)
        },
        Json::Object(m) => {
            let ghost es = m@;
            let n = m.len();
            let mut out: Vec<(String, RawJson)> = Vec::new();
            let mut i: usize = 0;
            proof {
                lemma_raw_members(out@);
                assert(raw_members_view(out@) =~= es.take(0));
            }
            while i < n
                invariant
                    n == m@.len(),
                    i <= n,
                    es == m@,
                    j@ == JsonV::Object(es),
                    raw_members_view(out@) == es.take(i as int),
                decreases n - i,
            {
                let k = m.key_at(i).clone();
                let v = raw_from_json(m.value_at(i));
                let ghost prev = out@;
                out.push((k, v));
                proof {
                    lemma_raw_members(out@);
                    lemma_raw_members(prev);
                    assert(raw_members_view(out@) =~= es.take(i + 1));
                }
                i = i + 1;
            }
            proof {
                assert(es.take(n as int) =~= es);
            }
            RawJson::Object(out)
        },
    }
}

} // verus!
