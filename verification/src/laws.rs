//! Properties of evaluation and loading that hold for every input.
use vstd::prelude::*;
use crate::json::{JsonV, json_get, entries_get, entries_insert, keys_sorted, lemma_get_insert};
use crate::merge::{merged_at, law_merge_pointwise};
use crate::evaluate::{
    EvaluationV, Stage, ActionV, step_spec, head_step, text_step, debug_list, initial_state,
    with_title,
};
use crate::profile::{PendingV, ProfileV, finish_of, included_info, other_than, no_repeats};
use crate::loader::{FrameV, LoaderV, LoadActionV, load_step, open_spec, start_text, stopped};
use crate::render::{
    EnvV, OutcomeV, StepV, render_step, render_items_step, render_members_step, lookup_path, lookup_segments,
};
use crate::text::{split_on, lemma_split_nonempty};

verus! {

proof fn lemma_key_names_distinct()
    ensures
        "value"@ != "id"@,
        "value"@ != "title"@,
        "error"@ != "id"@,
        "error"@ != "title"@,
        "error"@ != "value"@,
        "debug"@ != "error"@,
        "debug"@ != "value"@,
        "kind"@ != "message"@,
{
    reveal_strlit("value");
    reveal_strlit("id");
    reveal_strlit("title");
    reveal_strlit("error");
    reveal_strlit("debug");
    reveal_strlit("kind");
    reveal_strlit("message");
    assert("value"@.len() != "id"@.len());
    assert("value"@[0] != "title"@[0]);
    assert("error"@.len() != "id"@.len());
    assert("error"@[0] != "title"@[0]);
    assert("error"@[0] != "value"@[0]);
    assert("debug"@[0] != "error"@[0]);
    assert("debug"@[0] != "value"@[0]);
    assert("kind"@.len() != "message"@.len());
}

/// The entry a statement starts with (its id, and its title when that renders
/// to a string) has neither a `value` nor an `error`.
proof fn lemma_start_entry(id: Seq<char>, rendered: Option<JsonV>)
    ensures
        ({
            let out0 = entries_insert(Seq::empty(), "id"@, JsonV::Str(id));
            let out1 = match rendered {
                Some(r) => with_title(out0, r),
                None => out0,
            };
            entries_get(out1, "value"@) is None && entries_get(out1, "error"@) is None
                && entries_get(out1, "debug"@) is None
        }),
{
    lemma_key_names_distinct();
    reveal_strlit("debug");
    reveal_strlit("id");
    reveal_strlit("title");
    assert("debug"@[0] != "id"@[0]);
    assert("debug"@[0] != "title"@[0]);
    let out0 = entries_insert(Seq::empty(), "id"@, JsonV::Str(id));
    lemma_get_insert(Seq::empty(), "id"@, JsonV::Str(id), "value"@);
    lemma_get_insert(Seq::empty(), "id"@, JsonV::Str(id), "error"@);
    lemma_get_insert(Seq::empty(), "id"@, JsonV::Str(id), "debug"@);
    if let Some(JsonV::Str(t)) = rendered {
        lemma_get_insert(out0, "title"@, JsonV::Str(t), "value"@);
        lemma_get_insert(out0, "title"@, JsonV::Str(t), "error"@);
        lemma_get_insert(out0, "title"@, JsonV::Str(t), "debug"@);
    }
}

/// The title part of a statement, as `head_step` works it out.
spec fn title_part(env: EnvV, st: crate::profile::StatementV, answers: Seq<OutcomeV>, pos: nat) -> StepV<
    Seq<(Seq<char>, JsonV)>,
> {
    let out0 = entries_insert(Seq::empty(), "id"@, JsonV::Str(st.id));
    match st.title {
        None => StepV::Done(out0, pos),
        Some(t) => match render_step(env, crate::evaluate::select_text_value(t, None, env.language), answers, pos) {
            StepV::Need(r) => StepV::Need(r),
            StepV::Done(rv, p) => StepV::Done(with_title(out0, rv), p),
        },
    }
}

proof fn lemma_title_part(env: EnvV, st: crate::profile::StatementV, answers: Seq<OutcomeV>, pos: nat)
    ensures
        title_part(env, st, answers, pos) matches StepV::Done(out1, p) ==> entries_get(out1, "value"@) is None
            && entries_get(out1, "error"@) is None && entries_get(out1, "debug"@) is None,
{
    match st.title {
        None => lemma_start_entry(st.id, None),
        Some(t) => match render_step(env, crate::evaluate::select_text_value(t, None, env.language), answers, pos) {
            StepV::Need(_) => {},
            StepV::Done(rv, p) => lemma_start_entry(st.id, Some(rv)),
        },
    }
}

/// A statement whose expression fails gets an `error` entry carrying the
/// failure's `kind` and `message`, no `value`, and no report text; its value
/// for the context is `null`.
pub proof fn law_failed_expression_reports_error(
    env: EnvV,
    st: crate::profile::StatementV,
    answers: Seq<OutcomeV>,
    pos: nat,
    kind: Seq<char>,
    message: Seq<char>,
    text_pos: nat,
)
    requires
        st.expression is Some,
        head_step(env, st, answers, pos) is Done,
        answers[head_step(env, st, answers, pos)->Done_1 - 1] == OutcomeV::Failed(kind, message),
    ensures
        ({
            let h = head_step(env, st, answers, pos)->Done_0;
            &&& h.failed
            &&& h.value == Some(JsonV::Null)
            &&& entries_get(h.out, "value"@) is None
            &&& entries_get(h.out, "error"@) matches Some(JsonV::Object(e)) && entries_get(e, "kind"@)
                == Some(JsonV::Str(kind)) && entries_get(e, "message"@) == Some(JsonV::Str(message))
            &&& text_step(env, st, h, answers, text_pos) == StepV::Done(h.out, text_pos)
        }),
{
    lemma_key_names_distinct();
    lemma_title_part(env, st, answers, pos);
    let out1 = title_part(env, st, answers, pos)->Done_0;
    let e = entries_insert(entries_insert(Seq::empty(), "kind"@, JsonV::Str(kind)), "message"@, JsonV::Str(message));
    lemma_get_insert(out1, "error"@, JsonV::Object(e), "value"@);
    lemma_get_insert(out1, "error"@, JsonV::Object(e), "error"@);
    lemma_get_insert(entries_insert(Seq::empty(), "kind"@, JsonV::Str(kind)), "message"@, JsonV::Str(message), "kind"@);
    lemma_get_insert(entries_insert(Seq::empty(), "kind"@, JsonV::Str(kind)), "message"@, JsonV::Str(message), "message"@);
    lemma_get_insert(Seq::empty(), "kind"@, JsonV::Str(kind), "kind"@);
    lemma_get_insert(Seq::empty(), "kind"@, JsonV::Str(kind), "message"@);
}

/// A statement whose expression yields a value records it under `value`, has
/// no `error`, and lists the engine's messages under `debug` exactly when there are some.
pub proof fn law_value_expression_reports_value(
    env: EnvV,
    st: crate::profile::StatementV,
    answers: Seq<OutcomeV>,
    pos: nat,
    v: JsonV,
    msgs: Seq<Seq<char>>,
)
    requires
        st.expression is Some,
        head_step(env, st, answers, pos) is Done,
        answers[head_step(env, st, answers, pos)->Done_1 - 1] == OutcomeV::Value(v, msgs),
    ensures
        ({
            let h = head_step(env, st, answers, pos)->Done_0;
            &&& !h.failed
            &&& h.value == Some(v)
            &&& entries_get(h.out, "value"@) == Some(v)
            &&& entries_get(h.out, "error"@) is None
            &&& (msgs.len() > 0 ==> entries_get(h.out, "debug"@) == Some(debug_list(msgs)))
            &&& (msgs.len() == 0 ==> entries_get(h.out, "debug"@) is None)
        }),
{
    lemma_key_names_distinct();
    lemma_title_part(env, st, answers, pos);
    let out1 = title_part(env, st, answers, pos)->Done_0;
    let with_value = entries_insert(out1, "value"@, v);
    lemma_get_insert(out1, "value"@, v, "value"@);
    lemma_get_insert(out1, "value"@, v, "error"@);
    lemma_get_insert(out1, "value"@, v, "debug"@);
    lemma_get_insert(with_value, "debug"@, debug_list(msgs), "value"@);
    lemma_get_insert(with_value, "debug"@, debug_list(msgs), "error"@);
    lemma_get_insert(with_value, "debug"@, debug_list(msgs), "debug"@);
}

/// The order in which the machine passes through its stages.
pub open spec fn stage_before(a: Stage, b: Stage) -> bool {
    match (a, b) {
        (Stage::Info, Stage::Items { .. }) => true,
        (Stage::Info, Stage::Finished) => true,
        (Stage::Items { .. }, Stage::Finished) => true,
        (
            Stage::Items { section: s1, item: i1, text: t1 },
            Stage::Items { section: s2, item: i2, text: t2 },
        ) => s1 < s2 || (s1 == s2 && (i1 < i2 || (i1 == i2 && !t1 && t2))),
        _ => false,
    }
}

/// Every step either asks for a formula and changes nothing, or moves the
/// machine forward through its stages (keeping the profile and starting the
/// next unit without answers), or reports the finished result; a finished
/// machine stays as it is.
pub proof fn law_step_progress(m: EvaluationV)
    requires
        m.sections.len() <= usize::MAX,
        forall|i: int| 0 <= i < m.sections.len() ==> #[trigger] m.sections[i].len() <= usize::MAX,
    ensures
        ({
            let (m2, a) = step_spec(m);
            &&& a is Evaluate ==> m2 == m
            &&& a is Continue ==> stage_before(m.stage, m2.stage) && m2.sections == m.sections
                && m2.info == m.info && m2.answers.len() == 0
            &&& a is Finished ==> m2.stage is Finished
            &&& m.stage is Finished ==> m2 == m && a == ActionV::Finished(JsonV::Object(m.report))
        }),
{
    match m.stage {
        Stage::Items { section, item, text } => {
            if section < m.sections.len() {
                assert(m.sections[section as int].len() <= usize::MAX);
                if item < m.sections[section as int].len() {
                    match m.sections[section as int][item as int] {
                        crate::profile::ItemV::Block { name, value } => {
                            match render_step(m.env, value, m.answers, 0) {
                                StepV::Need(_) => {},
                                StepV::Done(_, _) => {},
                            }
                        },
                        crate::profile::ItemV::Statement(st) => {
                            if !text {
                                match head_step(m.env, st, m.answers, 0) {
                                    StepV::Need(_) => {},
                                    StepV::Done(_, _) => {},
                                }
                            } else {
                                match text_step(m.env, st, m.head, m.answers, 0) {
                                    StepV::Need(_) => {},
                                    StepV::Done(_, _) => {},
                                }
                            }
                        },
                    }
                }
            }
        },
        _ => {},
    }
}

/// The context the formulas and templates see is an object from the start,
/// and every step keeps it one.
pub proof fn law_context_stays_object(p: ProfileV, indicators: JsonV, m: EvaluationV)
    ensures
        initial_state(p, indicators).env.context is Object,
        m.env.context is Object ==> step_spec(m).0.env.context is Object,
{
}

/// A loaded profile's information object holds, under every key, the merge of
/// what the included profiles hold there with what the profile itself holds:
/// the profile's own values win over the included ones, and objects are merged.
pub proof fn law_own_info_over_includes(p: PendingV, incs: Seq<ProfileV>, k: Seq<char>)
    requires
        p.info matches JsonV::Object(es) && keys_sorted(es),
        forall|i: int| 0 <= i < incs.len() ==> #[trigger] incs[i].info is Object,
        finish_of(p, incs) is Ok,
    ensures
        json_get(finish_of(p, incs)->Ok_0.info, k) == merged_at(json_get(included_info(incs), k), json_get(p.info, k)),
{
    lemma_included_info_object(incs);
    let d = included_info(incs)->Object_0;
    let s = p.info->Object_0;
    law_merge_pointwise(d, s, k);
}

proof fn lemma_included_info_object(incs: Seq<ProfileV>)
    requires
        forall|i: int| 0 <= i < incs.len() ==> #[trigger] incs[i].info is Object,
    ensures
        included_info(incs) is Object,
    decreases incs.len(),
{
    if incs.len() > 0 {
        let rest = incs.drop_last();
        assert forall|i: int| 0 <= i < rest.len() implies #[trigger] rest[i].info is Object by {
            assert(rest[i] == incs[i]);
        }
        lemma_included_info_object(rest);
        assert(incs.last().info is Object);
    }
}

/// Leaving a file right after entering it gives back the stack of files being
/// loaded as it was: entering pushes a file that is not on the stack, and
/// leaving takes that file off again.
pub proof fn law_leave_undoes_enter(s: Seq<Seq<char>>, k: Seq<char>)
    requires
        !s.contains(k),
    ensures
        s.push(k).filter(other_than(k)) == s,
{
    let pred = other_than(k);
    assert forall|i: int| 0 <= i < s.len() implies pred(#[trigger] s[i]) by {
        if s[i] == k {
            assert(s.contains(k));
        }
    }
    lemma_filter_keeps_all(s, pred);
    reveal_with_fuel(Seq::<_>::filter, 1);
    assert(s.push(k).drop_last() =~= s);
    assert(s.push(k).filter(pred) == s.filter(pred));
}

proof fn lemma_filter_keeps_all(s: Seq<Seq<char>>, pred: spec_fn(Seq<char>) -> bool)
    requires
        forall|i: int| 0 <= i < s.len() ==> pred(#[trigger] s[i]),
    ensures
        s.filter(pred) == s,
    decreases s.len(),
{
    reveal_with_fuel(Seq::<_>::filter, 1);
    if s.len() > 0 {
        let rest = s.drop_last();
        assert forall|i: int| 0 <= i < rest.len() implies pred(#[trigger] rest[i]) by {
            assert(rest[i] == s[i]);
        }
        lemma_filter_keeps_all(rest, pred);
        assert(pred(s[s.len() - 1]));
        assert(rest.push(s.last()) =~= s);
    } else {
        assert(s.filter(pred) =~= s);
    }
}

/// The keys of an object's entries, in order.
pub open spec fn keys_of(s: Seq<(Seq<char>, JsonV)>) -> Seq<Seq<char>> {
    s.map_values(|e: (Seq<char>, JsonV)| e.0)
}

/// Rendering keeps the shape of a value: an array stays an array of the same
/// length, an object stays an object with the same keys in the same order,
/// and `null`, booleans and numbers come back unchanged; only strings are
/// rendered into something else.
pub proof fn law_render_keeps_shape(env: EnvV, v: JsonV, answers: Seq<OutcomeV>, pos: nat)
    ensures
        render_step(env, v, answers, pos) matches StepV::Done(r, _) ==> match v {
            JsonV::Array(xs) => r matches JsonV::Array(ys) && ys.len() == xs.len(),
            JsonV::Object(es) => r matches JsonV::Object(fs) && keys_of(fs) == keys_of(es),
            JsonV::Str(_) => true,
            _ => r == v,
        },
{
    match v {
        JsonV::Array(xs) => lemma_items_keep_length(env, xs, answers, pos),
        JsonV::Object(es) => lemma_members_keep_keys(env, es, answers, pos),
        _ => {},
    }
}

proof fn lemma_items_keep_length(env: EnvV, s: Seq<JsonV>, answers: Seq<OutcomeV>, pos: nat)
    ensures
        render_items_step(env, s, answers, pos) matches StepV::Done(ys, _) ==> ys.len() == s.len(),
    decreases s.len(),
{
    if s.len() > 0 {
        lemma_items_keep_length(env, s.subrange(0, s.len() - 1), answers, pos);
    }
}

proof fn lemma_members_keep_keys(env: EnvV, s: Seq<(Seq<char>, JsonV)>, answers: Seq<OutcomeV>, pos: nat)
    ensures
        render_members_step(env, s, answers, pos) matches StepV::Done(ys, _) ==> keys_of(ys) == keys_of(s),
    decreases s.len(),
{
    if s.len() > 0 {
        let init = s.subrange(0, s.len() - 1);
        lemma_members_keep_keys(env, init, answers, pos);
        match render_members_step(env, init, answers, pos) {
            StepV::Need(_) => {},
            StepV::Done(ys, p) => match render_step(env, s[s.len() - 1].1, answers, p) {
                StepV::Need(_) => {},
                StepV::Done(x, p2) => {
                    assert(keys_of(ys.push((s[s.len() - 1].0, x))) =~= keys_of(init).push(s[s.len() - 1].0));
                    assert(keys_of(init).push(s[s.len() - 1].0) =~= keys_of(s));
                },
            },
        }
    } else {
        assert(keys_of(Seq::<(Seq<char>, JsonV)>::empty()) =~= keys_of(s));
    }
}

/// Looking up the path `p.q` is looking up `p` and then `q` in what was found.
pub proof fn law_lookup_dotted_path(r: JsonV, p: Seq<char>, q: Seq<char>)
    ensures
        lookup_path(r, p + seq!['.'] + q) == match lookup_path(r, p) {
            Some(v) => lookup_path(v, q),
            None => None,
        },
{
    lemma_split_join(p, q, '.');
    lemma_lookup_append(r, split_on(p, '.'), split_on(q, '.'));
}

proof fn lemma_split_join(a: Seq<char>, b: Seq<char>, sep: char)
    ensures
        split_on(a + seq![sep] + b, sep) == split_on(a, sep) + split_on(b, sep),
    decreases b.len(),
{
    let x = a + seq![sep] + b;
    if b.len() == 0 {
        assert(x.drop_last() =~= a);
        assert(x.last() == sep);
        assert(split_on(b, sep) =~= seq![Seq::<char>::empty()]);
        assert(split_on(a, sep).push(Seq::<char>::empty()) =~= split_on(a, sep) + split_on(b, sep));
    } else {
        let b1 = b.drop_last();
        lemma_split_join(a, b1, sep);
        assert(x.drop_last() =~= a + seq![sep] + b1);
        assert(x.last() == b.last());
        let pa = split_on(a, sep);
        let q1 = split_on(b1, sep);
        lemma_split_nonempty(b1, sep);
        if b.last() == sep {
            assert(split_on(x, sep) == (pa + q1).push(Seq::<char>::empty()));
            assert((pa + q1).push(Seq::<char>::empty()) =~= pa + q1.push(Seq::<char>::empty()));
        } else {
            let pq = pa + q1;
            assert(pq.last() == q1.last());
            assert(split_on(x, sep) == pq.update(pq.len() - 1, pq.last().push(b.last())));
            assert(pq.update(pq.len() - 1, pq.last().push(b.last())) =~= pa + q1.update(
                q1.len() - 1,
                q1.last().push(b.last()),
            ));
        }
    }
}

proof fn lemma_lookup_append(v: JsonV, a: Seq<Seq<char>>, b: Seq<Seq<char>>)
    ensures
        lookup_segments(v, a + b) == match lookup_segments(v, a) {
            Some(w) => lookup_segments(w, b),
            None => None,
        },
    decreases a.len(),
{
    if a.len() == 0 {
        assert(a + b =~= b);
    } else {
        assert((a + b)[0] == a[0]);
        assert((a + b).drop_first() =~= a.drop_first() + b);
        match json_get(v, a[0]) {
            Some(c) => lemma_lookup_append(c, a.drop_first(), b),
            None => {},
        }
    }
}

/// A value that holds no string at any depth.
pub open spec fn holds_no_strings(v: JsonV) -> bool
    decreases v,
{
    match v {
        JsonV::Str(_) => false,
        JsonV::Array(xs) => forall|i: int| 0 <= i < xs.len() ==> holds_no_strings(#[trigger] xs[i]),
        JsonV::Object(es) => forall|i: int| 0 <= i < es.len() ==> holds_no_strings(#[trigger] es[i].1),
        _ => true,
    }
}

/// Rendering a value that holds no string gives it back unchanged and uses no
/// formula answer.
pub proof fn law_render_without_strings(env: EnvV, v: JsonV, answers: Seq<OutcomeV>, pos: nat)
    requires
        holds_no_strings(v),
    ensures
        render_step(env, v, answers, pos) == StepV::Done(v, pos),
    decreases v,
{
    match v {
        JsonV::Array(xs) => lemma_items_without_strings(env, xs, answers, pos),
        JsonV::Object(es) => lemma_members_without_strings(env, es, answers, pos),
        _ => {},
    }
}

proof fn lemma_items_without_strings(env: EnvV, s: Seq<JsonV>, answers: Seq<OutcomeV>, pos: nat)
    requires
        forall|i: int| 0 <= i < s.len() ==> holds_no_strings(#[trigger] s[i]),
    ensures
        render_items_step(env, s, answers, pos) == StepV::Done(s, pos),
    decreases s,
{
    if s.len() > 0 {
        let init = s.subrange(0, s.len() - 1);
        assert forall|i: int| 0 <= i < init.len() implies holds_no_strings(#[trigger] init[i]) by {
            assert(init[i] == s[i]);
        }
        lemma_items_without_strings(env, init, answers, pos);
        assert(holds_no_strings(s[s.len() - 1]));
        law_render_without_strings(env, s[s.len() - 1], answers, pos);
        assert(init.push(s[s.len() - 1]) =~= s);
    } else {
        assert(s =~= Seq::<JsonV>::empty());
    }
}

proof fn lemma_members_without_strings(
    env: EnvV,
    s: Seq<(Seq<char>, JsonV)>,
    answers: Seq<OutcomeV>,
    pos: nat,
)
    requires
        forall|i: int| 0 <= i < s.len() ==> holds_no_strings(#[trigger] s[i].1),
    ensures
        render_members_step(env, s, answers, pos) == StepV::Done(s, pos),
    decreases s,
{
    if s.len() > 0 {
        let init = s.subrange(0, s.len() - 1);
        assert forall|i: int| 0 <= i < init.len() implies holds_no_strings(#[trigger] init[i].1) by {
            assert(init[i] == s[i]);
        }
        lemma_members_without_strings(env, init, answers, pos);
        assert(holds_no_strings(s[s.len() - 1].1));
        law_render_without_strings(env, s[s.len() - 1].1, answers, pos);
        assert(init.push((s[s.len() - 1].0, s[s.len() - 1].1)) =~= s);
    } else {
        assert(s =~= Seq::<(Seq<char>, JsonV)>::empty());
    }
}

/// A machine loading a profile from its file (whose key is `k0`) and one
/// loading the same profile from its text stand alike: the same files are
/// being loaded, with the same progress, and the file machine's stack holds
/// `k0` below what the text machine's holds.
pub open spec fn loads_alike(a: LoaderV, b: LoaderV, k0: Seq<char>) -> bool {
    &&& a.frames.len() == b.frames.len()
    &&& a.frames.len() > 0
    &&& b.frames[0].key is None
    &&& a.frames[0] == (FrameV { key: Some(k0), ..b.frames[0] })
    &&& forall|i: int| 1 <= i < a.frames.len() ==> #[trigger] a.frames[i] == b.frames[i]
    &&& b.stack.len() == b.frames.len() - 1
    &&& forall|i: int| 1 <= i < b.frames.len() ==> (#[trigger] b.frames[i]).key == Some(b.stack[i - 1])
    &&& a.stack == seq![k0] + b.stack
    &&& no_repeats(a.stack)
}

/// Loading a profile from its file starts like loading it from its text with
/// the file's folder as base: one succeeds exactly when the other does, and
/// then the two machines stand alike.
pub proof fn law_load_start(k0: Seq<char>, shown: Seq<char>, text: Seq<char>, base: Option<Seq<char>>)
    ensures
        ({
            let (a, ra) = open_spec(stopped(Seq::empty()), k0, shown, text, base);
            &&& (ra is Ok <==> start_text(text, base) is Ok)
            &&& (start_text(text, base) matches Ok(b) ==> loads_alike(a, b, k0))
        }),
{
    let (a, ra) = open_spec(stopped(Seq::empty()), k0, shown, text, base);
    if let Ok(b) = start_text(text, base) {
        assert(a.frames.len() == 1);
        assert(a.stack =~= seq![k0] + b.stack);
    }
}

/// Handing the two machines that stand alike the same file gives the same
/// result, unless that file is the first one (a file machine refuses it as a
/// cycle); when both go on they stay alike.
pub proof fn law_load_open(
    a: LoaderV,
    b: LoaderV,
    k0: Seq<char>,
    k: Seq<char>,
    shown: Seq<char>,
    text: Seq<char>,
    base: Option<Seq<char>>,
)
    requires
        loads_alike(a, b, k0),
        k != k0,
    ensures
        open_spec(a, k, shown, text, base).1 == open_spec(b, k, shown, text, base).1,
        open_spec(b, k, shown, text, base).1 is Ok ==> loads_alike(
            open_spec(a, k, shown, text, base).0,
            open_spec(b, k, shown, text, base).0,
            k0,
        ),
{
    assert(a.stack.contains(k) <==> b.stack.contains(k)) by {
        if a.stack.contains(k) {
            let j = choose|j: int| 0 <= j < a.stack.len() && a.stack[j] == k;
            assert(j > 0);
            assert(b.stack[j - 1] == k);
        }
        if b.stack.contains(k) {
            let j = choose|j: int| 0 <= j < b.stack.len() && b.stack[j] == k;
            assert(a.stack[j + 1] == k);
        }
    }
    let (a2, ra) = open_spec(a, k, shown, text, base);
    let (b2, rb) = open_spec(b, k, shown, text, base);
    if rb is Ok {
        let n = a.frames.len();
        assert(a2.stack =~= seq![k0] + b2.stack);
        assert(a2.frames[0] == a.frames[0] && b2.frames[0] == b.frames[0]);
        assert forall|i: int| 1 <= i < a2.frames.len() implies #[trigger] a2.frames[i] == b2.frames[i] by {
            if i < n {
                assert(a.frames[i] == b.frames[i]);
            }
        }
        assert forall|i: int| 1 <= i < b2.frames.len() implies (#[trigger] b2.frames[i]).key == Some(b2.stack[i - 1]) by {
            if i < n {
                assert(b.frames[i].key == Some(b.stack[i - 1]));
            }
        }
        assert(no_repeats(a2.stack)) by {
            assert forall|x: int, y: int| 0 <= x < y < a2.stack.len() implies #[trigger] a2.stack[x] != #[trigger] a2.stack[y] by {
                if y < a.stack.len() {
                    assert(a2.stack[x] == a.stack[x] && a2.stack[y] == a.stack[y]);
                } else {
                    assert(a2.stack[x] == a.stack[x]);
                }
            }
        }
    }
}

/// A step of the two machines that stand alike gives the same action, and
/// while they go on they stay alike.
pub proof fn law_load_step(a: LoaderV, b: LoaderV, k0: Seq<char>)
    requires
        loads_alike(a, b, k0),
    ensures
        load_step(a).1 == load_step(b).1,
        (load_step(b).1 is Read || load_step(b).1 is Continue) ==> loads_alike(load_step(a).0, load_step(b).0, k0),
{
    let n = a.frames.len();
    if n == 1 {
        assert(b.stack =~= Seq::<Seq<char>>::empty());
        assert(a.stack =~= Seq::<Seq<char>>::empty().push(k0));
        law_leave_undoes_enter(Seq::empty(), k0);
    } else {
        lemma_load_step_deeper(a, b, k0);
    }
}

proof fn lemma_load_pop_frames(a: LoaderV, b: LoaderV, k0: Seq<char>, pp: Seq<Seq<char>>)
    requires
        loads_alike(a, b, k0),
        a.frames.len() > 1,
        a.frames.last() == b.frames.last(),
        pp == b.stack.take(a.frames.len() - 2),
        load_step(b).1 is Continue,
    ensures
        ({
            let fa = load_step(a).0.frames;
            let fb = load_step(b).0.frames;
            &&& fa.len() == fb.len()
            &&& fa.len() > 0
            &&& fb[0].key is None
            &&& fa[0] == (FrameV { key: Some(k0), ..fb[0] })
            &&& forall|i: int| 1 <= i < fa.len() ==> #[trigger] fa[i] == fb[i]
            &&& pp.len() == fb.len() - 1
            &&& forall|i: int| 1 <= i < fb.len() ==> (#[trigger] fb[i]).key == Some(pp[i - 1])
        }),
{
}

proof fn lemma_load_step_deeper(a: LoaderV, b: LoaderV, k0: Seq<char>)
    requires
        loads_alike(a, b, k0),
        a.frames.len() > 1,
    ensures
        load_step(a).1 == load_step(b).1,
        (load_step(b).1 is Read || load_step(b).1 is Continue) ==> loads_alike(load_step(a).0, load_step(b).0, k0),
{
    let n = a.frames.len();
    assert(a.frames.last() == a.frames[n - 1] && b.frames.last() == b.frames[n - 1]);
    assert(a.frames[n - 1] == b.frames[n - 1]);
    let tb = b.frames[n - 1];
    if !(tb.included.len() < tb.pending.includes.len()) {
        lemma_load_pop(a, b, k0);
    }
}

proof fn lemma_load_pop(a: LoaderV, b: LoaderV, k0: Seq<char>)
    requires
        loads_alike(a, b, k0),
        a.frames.len() > 1,
        a.frames.last() == b.frames.last(),
        !(b.frames.last().included.len() < b.frames.last().pending.includes.len()),
    ensures
        load_step(b).1 is Continue ==> loads_alike(load_step(a).0, load_step(b).0, k0),
{
    let n = a.frames.len();
    let k = b.stack[n - 2];
    assert(b.frames[n - 1].key == Some(k));
    let pp = b.stack.take(n - 2);
    assert(b.stack =~= pp.push(k));
    let qq = seq![k0] + pp;
    assert(a.stack =~= qq.push(k));
    assert(!qq.contains(k)) by {
        if qq.contains(k) {
            let j = choose|j: int| 0 <= j < qq.len() && qq[j] == k;
            assert(a.stack[j] == a.stack[n - 1]);
        }
    }
    assert(!pp.contains(k)) by {
        if pp.contains(k) {
            let j = choose|j: int| 0 <= j < pp.len() && pp[j] == k;
            assert(qq[j + 1] == k);
        }
    }
    law_leave_undoes_enter(qq, k);
    law_leave_undoes_enter(pp, k);
    assert(no_repeats(qq)) by {
        assert forall|x: int, y: int| 0 <= x < y < qq.len() implies #[trigger] qq[x] != #[trigger] qq[y] by {
            assert(qq[x] == a.stack[x] && qq[y] == a.stack[y]);
        }
    }
    let sa = load_step(a).0;
    let sb = load_step(b).0;
    if load_step(b).1 is Continue {
        assert(sa.stack == qq);
        assert(sb.stack == pp);
        lemma_load_pop_frames(a, b, k0, pp);
    }
}

/// A report text keyed by results: when the expression's result is a string
/// under which the texts hold a member, that member (in the report language)
/// is the text chosen.
pub proof fn law_text_chosen_by_string_result(
    es: Seq<(Seq<char>, JsonV)>,
    s: Seq<char>,
    f: JsonV,
    language: Seq<char>,
)
    requires
        entries_get(es, s) == Some(f),
    ensures
        crate::evaluate::select_text_value(JsonV::Object(es), Some(JsonV::Str(s)), language)
            == crate::evaluate::select_language(f, language),
{
}

/// A call `_Name()` of a named expression whose body holds a `$` anywhere
/// runs against the whole context.
pub proof fn law_dollar_body_runs_on_whole_context(env: EnvV, expr: Seq<char>, body: Seq<char>, i: int)
    requires
        crate::pattern::regex_scan_of(crate::render::no_arg_call_pattern(), expr).matches.len() > 0,
        entries_get(
            env.expressions,
            crate::render::group_or_empty(
                crate::pattern::regex_scan_of(crate::render::no_arg_call_pattern(), expr).matches[0],
            ),
        ) == Some(JsonV::Str(body)),
        0 <= i < body.len(),
        body[i] == '$',
    ensures
        crate::render::request_for(env, expr).context == env.context,
        crate::render::request_for(env, expr).expression == expr,
        crate::render::request_for(env, expr).globals == env.globals,
{
    assert(body.contains('$'));
}

/// A call `_Name()` of a named expression whose body holds no `$` runs
/// against the context's `profile` member, which it can name fields of
/// directly.
pub proof fn law_plain_body_runs_on_profile(env: EnvV, expr: Seq<char>, body: Seq<char>, prof: JsonV)
    requires
        crate::pattern::regex_scan_of(crate::render::no_arg_call_pattern(), expr).matches.len() > 0,
        entries_get(
            env.expressions,
            crate::render::group_or_empty(
                crate::pattern::regex_scan_of(crate::render::no_arg_call_pattern(), expr).matches[0],
            ),
        ) == Some(JsonV::Str(body)),
        forall|i: int| 0 <= i < body.len() ==> body[i] != '$',
        json_get(env.context, "profile"@) == Some(prof),
    ensures
        crate::render::request_for(env, expr).context == prof,
{
}

/// The text of inline formula templates put in place, written front to back:
/// each match's text before it, then the inline text of its formula's value.
pub open spec fn joined_pieces(ms: Seq<crate::pattern::RegexMatchV>, answers: Seq<OutcomeV>, pos: nat) -> Seq<char>
    decreases ms.len(),
{
    if ms.len() == 0 {
        Seq::empty()
    } else {
        ms[0].before + crate::serialize::inline_text(crate::render::outcome_value(answers[pos as int]))
            + joined_pieces(ms.drop_first(), answers, pos + 1)
    }
}

proof fn lemma_joined_last(ms: Seq<crate::pattern::RegexMatchV>, answers: Seq<OutcomeV>, pos: nat)
    requires
        ms.len() > 0,
    ensures
        joined_pieces(ms, answers, pos) == joined_pieces(ms.drop_last(), answers, pos) + ms.last().before
            + crate::serialize::inline_text(crate::render::outcome_value(answers[pos + ms.len() - 1])),
    decreases ms.len(),
{
    if ms.len() > 1 {
        let df = ms.drop_first();
        let dl = ms.drop_last();
        lemma_joined_last(df, answers, pos + 1);
        assert(df.drop_last() =~= dl.drop_first());
        assert(dl[0] == ms[0]);
        assert(df.last() == ms.last());
        let x = ms[0].before + crate::serialize::inline_text(crate::render::outcome_value(answers[pos as int]));
        let tail = ms.last().before + crate::serialize::inline_text(
            crate::render::outcome_value(answers[pos + ms.len() - 1]),
        );
        assert(joined_pieces(ms, answers, pos) == x + joined_pieces(df, answers, pos + 1));
        assert(joined_pieces(dl, answers, pos) == x + joined_pieces(dl.drop_first(), answers, pos + 1));
        assert(joined_pieces(df, answers, pos + 1) == joined_pieces(dl.drop_first(), answers, pos + 1) + tail);
        assert(joined_pieces(ms, answers, pos) =~= joined_pieces(dl, answers, pos) + tail);
    } else {
        assert(ms.drop_first() =~= Seq::<crate::pattern::RegexMatchV>::empty());
        assert(ms.drop_last() =~= Seq::<crate::pattern::RegexMatchV>::empty());
        assert(ms.last() == ms[0]);
        let x = ms[0].before + crate::serialize::inline_text(crate::render::outcome_value(answers[pos as int]));
        assert(joined_pieces(ms.drop_first(), answers, pos + 1) == Seq::<char>::empty());
        assert(joined_pieces(ms.drop_last(), answers, pos) == Seq::<char>::empty());
        assert(joined_pieces(ms, answers, pos) == x + Seq::<char>::empty());
        assert(joined_pieces(ms, answers, pos) =~= Seq::<char>::empty() + ms.last().before
            + crate::serialize::inline_text(crate::render::outcome_value(answers[pos + ms.len() - 1])));
    }
}

/// With an answer for every inline formula, splicing keeps all the text: the
/// result is each match's preceding text followed by its formula's value,
/// in order, and one answer is used per formula.
pub proof fn law_splice_keeps_text(env: EnvV, ms: Seq<crate::pattern::RegexMatchV>, answers: Seq<OutcomeV>, pos: nat)
    requires
        pos + ms.len() <= answers.len(),
    ensures
        crate::render::splice_step(env, ms, answers, pos) == StepV::Done(joined_pieces(ms, answers, pos), pos + ms.len()),
    decreases ms.len(),
{
    if ms.len() > 0 {
        law_splice_keeps_text(env, ms.drop_last(), answers, pos);
        lemma_joined_last(ms, answers, pos);
    }
}

/// Rendering a string that is not a single formula template, with an answer
/// for every inline formula: the template engine gets the whole text with
/// each formula replaced in place by its value.
pub proof fn law_render_string_splices_in_place(env: EnvV, s: Seq<char>, answers: Seq<OutcomeV>, pos: nat)
    requires
        !({
            let full = crate::pattern::regex_scan_of(crate::render::full_expr_pattern(), s);
            full.matches.len() > 0 && full.matches[0].group is Some
        }),
        pos + crate::pattern::regex_scan_of(crate::render::inline_expr_pattern(), s).matches.len() <= answers.len(),
    ensures
        ({
            let scan = crate::pattern::regex_scan_of(crate::render::inline_expr_pattern(), s);
            crate::render::render_string_step(env, s, answers, pos) == StepV::Done(
                JsonV::Str(crate::render::template_text(env.context, joined_pieces(scan.matches, answers, pos) + scan.rest)),
                pos + scan.matches.len(),
            )
        }),
{
    let scan = crate::pattern::regex_scan_of(crate::render::inline_expr_pattern(), s);
    law_splice_keeps_text(env, scan.matches, answers, pos);
}

/// Included profiles are merged in the order they are listed, each over the
/// ones before: under a key that the profile itself leaves out and the last
/// include sets to a value other than an object, the loaded profile holds
/// the last include's value.
pub proof fn law_later_include_wins(p: PendingV, incs: Seq<ProfileV>, k: Seq<char>, v: JsonV)
    requires
        incs.len() > 0,
        forall|i: int| 0 <= i < incs.len() ==> #[trigger] incs[i].info is Object,
        p.info matches JsonV::Object(es) && keys_sorted(es),
        incs.last().info matches JsonV::Object(ls) && keys_sorted(ls),
        json_get(p.info, k) is None,
        json_get(incs.last().info, k) == Some(v),
        !(v is Object),
        finish_of(p, incs) is Ok,
    ensures
        json_get(finish_of(p, incs)->Ok_0.info, k) == Some(v),
{
    let rest = incs.drop_last();
    assert forall|i: int| 0 <= i < rest.len() implies #[trigger] rest[i].info is Object by {
        assert(rest[i] == incs[i]);
    }
    lemma_included_info_object(rest);
    lemma_included_info_object(incs);
    let d = included_info(rest)->Object_0;
    let ls = incs.last().info->Object_0;
    law_merge_pointwise(d, ls, k);
    let inc = included_info(incs)->Object_0;
    law_merge_pointwise(inc, p.info->Object_0, k);
}

/// Formulas see the profile's `variables` as their globals.
pub proof fn law_formulas_see_variables(p: ProfileV, indicators: JsonV, g: JsonV)
    requires
        json_get(p.info, "variables"@) == Some(g),
    ensures
        initial_state(p, indicators).env.globals == g,
{
}

proof fn lemma_splice_need_globals(env: EnvV, ms: Seq<crate::pattern::RegexMatchV>, answers: Seq<OutcomeV>, pos: nat)
    ensures
        crate::render::splice_step(env, ms, answers, pos) matches StepV::Need(r) ==> r.globals == env.globals,
    decreases ms.len(),
{
    if ms.len() > 0 {
        lemma_splice_need_globals(env, ms.drop_last(), answers, pos);
    }
}

proof fn lemma_render_need_globals(env: EnvV, v: JsonV, answers: Seq<OutcomeV>, pos: nat)
    ensures
        render_step(env, v, answers, pos) matches StepV::Need(r) ==> r.globals == env.globals,
    decreases v,
{
    match v {
        JsonV::Str(s) => {
            let scan = crate::pattern::regex_scan_of(crate::render::inline_expr_pattern(), s);
            lemma_splice_need_globals(env, scan.matches, answers, pos);
        },
        JsonV::Array(xs) => lemma_items_need_globals(env, xs, answers, pos),
        JsonV::Object(es) => lemma_members_need_globals(env, es, answers, pos),
        _ => {},
    }
}

proof fn lemma_items_need_globals(env: EnvV, s: Seq<JsonV>, answers: Seq<OutcomeV>, pos: nat)
    ensures
        render_items_step(env, s, answers, pos) matches StepV::Need(r) ==> r.globals == env.globals,
    decreases s,
{
    if s.len() > 0 {
        let init = s.subrange(0, s.len() - 1);
        lemma_items_need_globals(env, init, answers, pos);
        if let StepV::Done(xs, p) = render_items_step(env, init, answers, pos) {
            lemma_render_need_globals(env, s[s.len() - 1], answers, p);
        }
    }
}

proof fn lemma_members_need_globals(env: EnvV, s: Seq<(Seq<char>, JsonV)>, answers: Seq<OutcomeV>, pos: nat)
    ensures
        render_members_step(env, s, answers, pos) matches StepV::Need(r) ==> r.globals == env.globals,
    decreases s,
{
    if s.len() > 0 {
        let init = s.subrange(0, s.len() - 1);
        lemma_members_need_globals(env, init, answers, pos);
        if let StepV::Done(ys, p) = render_members_step(env, init, answers, pos) {
            lemma_render_need_globals(env, s[s.len() - 1].1, answers, p);
        }
    }
}

/// Every step keeps the globals, and every formula the machine asks for
/// carries them.
pub proof fn law_requests_carry_globals(m: EvaluationV)
    ensures
        step_spec(m).0.env.globals == m.env.globals,
        step_spec(m).1 matches ActionV::Evaluate(r) ==> r.globals == m.env.globals,
{
    match m.stage {
        Stage::Info => lemma_render_need_globals(m.env, m.info, m.answers, 0),
        Stage::Items { section, item, text } => {
            if section < m.sections.len() && item < m.sections[section as int].len() {
                match m.sections[section as int][item as int] {
                    crate::profile::ItemV::Block { name, value } => {
                        lemma_render_need_globals(m.env, value, m.answers, 0);
                    },
                    crate::profile::ItemV::Statement(st) => {
                        if !text {
                            match st.title {
                                Some(t) => lemma_render_need_globals(
                                    m.env,
                                    crate::evaluate::select_text_value(t, None, m.env.language),
                                    m.answers,
                                    0,
                                ),
                                None => {},
                            }
                        } else {
                            lemma_render_need_globals(
                                m.env,
                                crate::evaluate::select_text_value(st.report_text, m.head.value, m.env.language),
                                m.answers,
                                0,
                            );
                        }
                    },
                }
            }
        },
        _ => {},
    }
}

/// The language variant of a text: its member for the language when there is
/// one; else its `en` member; else its first member.
pub proof fn law_language_variant(es: Seq<(Seq<char>, JsonV)>, language: Seq<char>)
    ensures
        entries_get(es, language) matches Some(v) ==> crate::evaluate::select_language(JsonV::Object(es), language) == v,
        entries_get(es, language) is None ==> (entries_get(es, "en"@) matches Some(v)
            ==> crate::evaluate::select_language(JsonV::Object(es), language) == v),
        entries_get(es, language) is None && entries_get(es, "en"@) is None && es.len() > 0
            ==> crate::evaluate::select_language(JsonV::Object(es), language) == es[0].1,
{
}

/// Putting a value under a key of the context's `profile` object: later
/// templates and formulas find it there.
proof fn lemma_profile_insert_found(ctx: JsonV, k: Seq<char>, v: JsonV)
    requires
        json_get(ctx, "profile"@) matches Some(JsonV::Object(_)),
    ensures
        json_get(crate::evaluate::profile_insert(ctx, k, v), "profile"@) matches Some(pr) && json_get(pr, k) == Some(v),
{
    let es = ctx->Object_0;
    let p = json_get(ctx, "profile"@).unwrap()->Object_0;
    lemma_get_insert(es, "profile"@, JsonV::Object(entries_insert(p, k, v)), "profile"@);
    lemma_get_insert(p, k, v, k);
}

/// After a block is rendered, the report holds the rendered value under the
/// block's name, and so does the context's `profile` object.
pub proof fn law_block_is_recorded(
    m: EvaluationV,
    section: usize,
    item: usize,
    name: Seq<char>,
    value: JsonV,
    rv: JsonV,
    p: nat,
)
    requires
        m.stage == (Stage::Items { section, item, text: false }),
        section < m.sections.len(),
        item < m.sections[section as int].len(),
        m.sections[section as int][item as int] == (crate::profile::ItemV::Block { name, value }),
        render_step(m.env, value, m.answers, 0) == StepV::Done(rv, p),
        json_get(m.env.context, "profile"@) matches Some(JsonV::Object(_)),
    ensures
        entries_get(step_spec(m).0.report, name) == Some(rv),
        json_get(step_spec(m).0.env.context, "profile"@) matches Some(pr) && json_get(pr, name) == Some(rv),
{
    lemma_get_insert(m.report, name, rv, name);
    lemma_profile_insert_found(m.env.context, name, rv);
}

/// After a statement's expression gives a value, the context's `profile`
/// object holds that value under the statement's id.
pub proof fn law_statement_value_is_bound(
    m: EvaluationV,
    section: usize,
    item: usize,
    st: crate::profile::StatementV,
    h: crate::evaluate::HeadV,
    p: nat,
    v: JsonV,
)
    requires
        m.stage == (Stage::Items { section, item, text: false }),
        section < m.sections.len(),
        item < m.sections[section as int].len(),
        m.sections[section as int][item as int] == crate::profile::ItemV::Statement(st),
        head_step(m.env, st, m.answers, 0) == StepV::Done(h, p),
        h.value == Some(v),
        json_get(m.env.context, "profile"@) matches Some(JsonV::Object(_)),
    ensures
        json_get(step_spec(m).0.env.context, "profile"@) matches Some(pr) && json_get(pr, st.id) == Some(v),
{
    lemma_profile_insert_found(m.env.context, st.id, v);
}

/// Inside templates, a formula stands for its result; a formula error for
/// `null`; a panic of the engine for `false`.
pub proof fn law_formula_outcome_values(v: JsonV, msgs: Seq<Seq<char>>, kind: Seq<char>, message: Seq<char>)
    ensures
        crate::render::outcome_value(OutcomeV::Value(v, msgs)) == v,
        crate::render::outcome_value(OutcomeV::Failed(kind, message)) == JsonV::Null,
        crate::render::outcome_value(OutcomeV::Panicked) == JsonV::Bool(false),
{
}

/// A statement without an expression shows its report text, rendered, when
/// the rendering gives a string; the rest of its entry stays as it was.
pub proof fn law_report_text_shown(
    env: EnvV,
    st: crate::profile::StatementV,
    h: crate::evaluate::HeadV,
    answers: Seq<OutcomeV>,
    pos: nat,
    t: Seq<char>,
    p: nat,
)
    requires
        st.expression is None,
        !h.failed,
        render_step(env, crate::evaluate::select_text_value(st.report_text, h.value, env.language), answers, pos)
            == StepV::Done(JsonV::Str(t), p),
    ensures
        text_step(env, st, h, answers, pos) matches StepV::Done(out, q) && q == p && entries_get(out, "report_text"@)
            == Some(JsonV::Str(t)),
        forall|k: Seq<char>| k != "report_text"@ ==> #[trigger] entries_get(text_step(env, st, h, answers, pos)->Done_0, k)
            == entries_get(h.out, k),
{
    lemma_get_insert(h.out, "report_text"@, JsonV::Str(t), "report_text"@);
    assert forall|k: Seq<char>| k != "report_text"@ implies #[trigger] entries_get(
        text_step(env, st, h, answers, pos)->Done_0,
        k,
    ) == entries_get(h.out, k) by {
        lemma_get_insert(h.out, "report_text"@, JsonV::Str(t), k);
    }
}

/// When handlebars cannot render a template, each token naming a path found
/// in the context gives that value's inline text, a formula template stays as
/// written, and any other token gives a marker naming it.
pub proof fn law_fallback_tokens(ctx: JsonV, m: crate::pattern::RegexMatchV)
    ensures
        ({
            let token = crate::text::trim(crate::render::group_or_empty(m));
            let is_formula = "expr "@.len() <= token.len() && token.take("expr "@.len() as int) == "expr "@;
            &&& is_formula ==> crate::render::token_text(ctx, m) == m.whole
            &&& !is_formula ==> (crate::render::lookup_path(ctx, token) matches Some(v)
                ==> crate::render::token_text(ctx, m) == crate::serialize::inline_text(v))
            &&& !is_formula && crate::render::lookup_path(ctx, token) is None ==> crate::render::token_text(ctx, m)
                == "\u{1F534} Missing: "@ + token + "()"@
        }),
{
}

} // verus!
