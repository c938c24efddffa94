//! Evaluation of a profile against indicator data, as a machine that works
//! through the profile one unit at a time (the information object, then each
//! block and statement) and asks its driver for every formula result.
use vstd::prelude::*;
use crate::json::{Json, JsonMap, JsonV, json_get, entries_get, entries_insert, view_items, lemma_view_items};
use crate::merge::{merged, deep_merge};
use crate::profile::{CompiledProfile, ProfileItem, StatementEntry, ItemV, StatementV, sections_view, ProfileV};
use crate::render::{
    FormulaOutcome, FormulaRequest, OutcomeV, RequestV, Progress, ProgressV, StepV, EnvV, RenderEnv,
    outcomes_view, render_step, render_value, request_for, request_of,
};
use crate::serialize::{inline_text, json_to_inline_string};
use crate::text::owned;

verus! {

// ---------------------------------------------------------------------------
// Choosing the text for the report
// ---------------------------------------------------------------------------

/// The variant of a text for a language: the text itself unless it is an
/// object, else its member for the language, else its `en` member, else its
/// first member, else `null`.
pub open spec fn select_language(value: JsonV, language: Seq<char>) -> JsonV {
    match value {
        JsonV::Object(es) => match entries_get(es, language) {
            Some(v) => v,
            None => match entries_get(es, "en"@) {
                Some(v) => v,
                None => if es.len() > 0 {
                    es[0].1
                } else {
                    JsonV::Null
                },
            },
        },
        _ => value,
    }
}

/// The text chosen for a result: an object of texts is first indexed by the
/// result (written inline: strings as they are, other values as JSON); then
/// the language variant is chosen.
pub open spec fn select_text_value(value: JsonV, selected: Option<JsonV>, language: Seq<char>) -> JsonV {
    match value {
        JsonV::Object(es) => {
            let found = match selected {
                Some(x) => entries_get(es, inline_text(x)),
                None => None,
            };
            match found {
                Some(f) => select_language(f, language),
                None => select_language(value, language),
            }
        },
        _ => value,
    }
}

/// The language variant of a text (see `select_language`).
pub fn choose_language(value: &Json, language: &str) -> (r: Json)
    ensures
        r@ == select_language(value@, language@),
{
    match value {
        Json::Object(m) => match m.get(language) {
            Some(v) => v.deep_clone(),
            None => match m.get("en") {
                Some(v) => v.deep_clone(),
                None => if m.len() > 0 {
                    m.value_at(0).deep_clone()
                } else {
                    Json::Null
                },
            },
        },
        _ => value.deep_clone(),
    }
}

/// The text chosen for a result (see `select_text_value`).
pub fn choose_text(value: &Json, selected: Option<&Json>, language: &str) -> (r: Json)
    ensures
        r@ == select_text_value(
            value@,
            match selected {
                Some(x) => Some(x@),
                None => None,
            },
            language@,
        ),
{
    match value {
        Json::Object(m) => {
            let found = match selected {
                Some(x) => {
                    let key = json_to_inline_string(x);
                    m.get(key.as_str())
                },
                None => None,
            };
            match found {
                Some(f) => choose_language(f, language),
                None => choose_language(value, language),
            }
        },
        _ => value.deep_clone(),
    }
}

// ---------------------------------------------------------------------------
// Statements
// ---------------------------------------------------------------------------

/// The first part of a statement's entry in the report: its id, title, and the
/// result of its expression.
#[derive(Debug)]
pub struct Head {
    pub out: JsonMap,
    pub value: Option<Json>,
    pub failed: bool,
}

pub struct HeadV {
    pub out: Seq<(Seq<char>, JsonV)>,
    pub value: Option<JsonV>,
    pub failed: bool,
}

impl View for Head {
    type V = HeadV;

    open spec fn view(&self) -> HeadV {
        HeadV {
            out: self.out@,
            value: match self.value {
                Some(v) => Some(v@),
                None => None,
            },
            failed: self.failed,
        }
    }
}

pub open spec fn debug_list(msgs: Seq<Seq<char>>) -> JsonV {
    JsonV::Array(msgs.map_values(|m: Seq<char>| JsonV::Str(m)))
}

/// How the result of a statement's expression enters its report entry: a value
/// is recorded under `value` (with the engine's messages under `debug` when
/// there are any); a formula error is recorded under `error` with its `kind`
/// and `message`, with no `value` entry, and the statement's value for the
/// context is then `null`; a panic of the engine counts as the value `false`.
pub open spec fn record_outcome(out: Seq<(Seq<char>, JsonV)>, o: OutcomeV) -> HeadV {
    match o {
        OutcomeV::Value(v, msgs) => {
            let with_value = entries_insert(out, "value"@, v);
            HeadV {
                out: if msgs.len() > 0 {
                    entries_insert(with_value, "debug"@, debug_list(msgs))
                } else {
                    with_value
                },
                value: Some(v),
                failed: false,
            }
        },
        OutcomeV::Failed(kind, message) => HeadV {
            out: entries_insert(
                out,
                "error"@,
                JsonV::Object(
                    entries_insert(
                        entries_insert(Seq::empty(), "kind"@, JsonV::Str(kind)),
                        "message"@,
                        JsonV::Str(message),
                    ),
                ),
            ),
            value: Some(JsonV::Null),
            failed: true,
        },
        OutcomeV::Panicked => HeadV {
            out: entries_insert(out, "value"@, JsonV::Bool(false)),
            value: Some(JsonV::Bool(false)),
            failed: false,
        },
    }
}

/// The entry with `title` added when the rendered title is a string.
pub open spec fn with_title(out: Seq<(Seq<char>, JsonV)>, rendered: JsonV) -> Seq<(Seq<char>, JsonV)> {
    match rendered {
        JsonV::Str(t) => entries_insert(out, "title"@, JsonV::Str(t)),
        _ => out,
    }
}

/// The first part of a statement: `id`, then the title (rendered in the
/// report language), then the expression's result.
pub open spec fn head_step(env: EnvV, st: StatementV, answers: Seq<OutcomeV>, pos: nat) -> StepV<HeadV> {
    let out0 = entries_insert(Seq::empty(), "id"@, JsonV::Str(st.id));
    let titled = match st.title {
        None => StepV::Done(out0, pos),
        Some(t) => match render_step(env, select_text_value(t, None, env.language), answers, pos) {
            StepV::Need(r) => StepV::Need(r),
            StepV::Done(rv, p) => StepV::Done(with_title(out0, rv), p),
        },
    };
    match titled {
        StepV::Need(r) => StepV::Need(r),
        StepV::Done(out1, p) => match st.expression {
            None => StepV::Done(HeadV { out: out1, value: None, failed: false }, p),
            Some(e) => if p < answers.len() {
                StepV::Done(record_outcome(out1, answers[p as int]), p + 1)
            } else {
                StepV::Need(request_for(env, e))
            },
        },
    }
}

/// Whether a statement's entry gets a report text: when it has no expression
/// or its report text is an object of texts, and its expression did not fail.
pub open spec fn wants_report_text(st: StatementV, head: HeadV) -> bool {
    (st.expression is None || st.report_text is Object) && !head.failed
}

/// The second part of a statement: its report text, chosen by the expression's
/// result and the language and then rendered, added when it is a string.
pub open spec fn text_step(env: EnvV, st: StatementV, head: HeadV, answers: Seq<OutcomeV>, pos: nat) -> StepV<
    Seq<(Seq<char>, JsonV)>,
> {
    if wants_report_text(st, head) {
        match render_step(env, select_text_value(st.report_text, head.value, env.language), answers, pos) {
            StepV::Need(r) => StepV::Need(r),
            StepV::Done(rv, p) => StepV::Done(
                match rv {
                    JsonV::Str(t) => entries_insert(head.out, "report_text"@, JsonV::Str(t)),
                    _ => head.out,
                },
                p,
            ),
        }
    } else {
        StepV::Done(head.out, pos)
    }
}

fn record_outcome_of(out: JsonMap, o: &FormulaOutcome) -> (r: Head)
    ensures
        r@ == record_outcome(out@, o@),
{
    let mut out = out;
    match o {
        FormulaOutcome::Value { value, debug } => {
            out.insert(owned("value"), value.deep_clone());
            if debug.len() > 0 {
                let mut msgs: Vec<Json> = Vec::new();
                let mut i: usize = 0;
                while i < debug.len()
                    invariant
                        i <= debug.len(),
                        msgs@.len() == i,
                        forall|j: int| 0 <= j < i ==> #[trigger] msgs@[j]@ == JsonV::Str(debug@[j]@),
                    decreases debug.len() - i,
                {
                    msgs.push(Json::Str(debug[i].clone()));
                    i = i + 1;
                }
                proof {
                    lemma_view_items(msgs@);
                    let texts = debug@.map_values(|m: String| m@);
                    let target = texts.map_values(|m: Seq<char>| JsonV::Str(m));
                    assert forall|j: int| 0 <= j < msgs@.len() implies view_items(msgs@)[j] == target[j] by {
                        assert(msgs@[j]@ == JsonV::Str(debug@[j]@));
                        assert(texts[j] == debug@[j]@);
                    }
                    assert(view_items(msgs@) =~= target);
                }
                out.insert(owned("debug"), Json::Array(msgs));
            }
            Head { out, value: Some(value.deep_clone()), failed: false }
        },
        FormulaOutcome::Failed { kind, message } => {
            let mut err = JsonMap::new();
            err.insert(owned("kind"), Json::Str(kind.clone()));
            err.insert(owned("message"), Json::Str(message.clone()));
            out.insert(owned("error"), Json::Object(err));
            Head { out, value: Some(Json::Null), failed: true }
        },
        FormulaOutcome::Panicked => {
            out.insert(owned("value"), Json::Bool(false));
            Head { out, value: Some(Json::Bool(false)), failed: false }
        },
    }
}

/// Works out the first part of a statement's entry (see `head_step`).
pub fn statement_head(env: &RenderEnv, st: &StatementEntry, answers: &Vec<FormulaOutcome>) -> (r: Progress<Head>)
    ensures
        step_matches_any(r@, head_step(env@, st@, outcomes_view(answers@), 0)),
{
    let mut pos: usize = 0;
    let mut out = JsonMap::new();
    out.insert(owned("id"), Json::Str(st.id.clone()));
    if let Some(t) = &st.title {
        let selected = choose_text(t, None, env.language.as_str());
        match render_value(env, &selected, answers, &mut pos) {
            Progress::Need(req) => {
                return Progress::Need(req);
            },
            Progress::Done(rv) => {
                if let Json::Str(text) = rv {
                    out.insert(owned("title"), Json::Str(text));
                }
            },
        }
    }
    match &st.expression {
        None => Progress::Done(Head { out, value: None, failed: false }),
        Some(e) => {
            if pos < answers.len() {
                Progress::Done(record_outcome_of(out, &answers[pos]))
            } else {
                Progress::Need(request_of(env, e.as_str()))
            }
        },
    }
}

/// A progress matches a step whatever position the step ends at.
pub open spec fn step_matches_any<T>(r: ProgressV<T>, s: StepV<T>) -> bool {
    match (r, s) {
        (ProgressV::Need(a), StepV::Need(b)) => a == b,
        (ProgressV::Done(a), StepV::Done(b, _)) => a == b,
        _ => false,
    }
}

/// Works out the rest of a statement's entry (see `text_step`).
pub fn statement_text(env: &RenderEnv, st: &StatementEntry, head: &Head, answers: &Vec<FormulaOutcome>) -> (r:
    Progress<JsonMap>)
    ensures
        step_matches_any(r@, text_step(env@, st@, head@, outcomes_view(answers@), 0)),
{
    let mut out = head.out.deep_clone();
    if (st.expression.is_none() || matches!(st.report_text, Json::Object(_))) && !head.failed {
        let selected = choose_text(&st.report_text, head.value.as_ref(), env.language.as_str());
        let mut pos: usize = 0;
        match render_value(env, &selected, answers, &mut pos) {
            Progress::Need(req) => {
                return Progress::Need(req);
            },
            Progress::Done(rv) => {
                if let Json::Str(text) = rv {
                    out.insert(owned("report_text"), Json::Str(text));
                }
            },
        }
    }
    Progress::Done(out)
}

// ---------------------------------------------------------------------------
// The evaluation machine
// ---------------------------------------------------------------------------

/// Where the evaluation stands: rendering the information object, at an item
/// of a section (`text` tells whether the statement's first part is done), or
/// finished.
#[derive(Clone, Copy, Debug, PartialEq, Eq)]
pub enum Stage {
    Info,
    Items { section: usize, item: usize, text: bool },
    Finished,
}

/// An evaluation in progress. Drive it with `step`: on `Evaluate`, evaluate
/// the formula and hand the outcome to `provide`; on `Finished`, the report is done.
pub struct Evaluation {
    info: Json,
    sections: Vec<Vec<ProfileItem>>,
    env: RenderEnv,
    report: JsonMap,
    statements: Vec<Json>,
    section_entries: Vec<Json>,
    stage: Stage,
    head: Head,
    answers: Vec<FormulaOutcome>,
}

pub struct EvaluationV {
    pub info: JsonV,
    pub sections: Seq<Seq<ItemV>>,
    pub env: EnvV,
    pub report: Seq<(Seq<char>, JsonV)>,
    pub statements: Seq<JsonV>,
    pub section_entries: Seq<JsonV>,
    pub stage: Stage,
    pub head: HeadV,
    pub answers: Seq<OutcomeV>,
}

impl View for Evaluation {
    type V = EvaluationV;

    closed spec fn view(&self) -> EvaluationV {
        EvaluationV {
            info: self.info@,
            sections: sections_view(self.sections@),
            env: self.env@,
            report: self.report@,
            statements: crate::json::view_items(self.statements@),
            section_entries: crate::json::view_items(self.section_entries@),
            stage: self.stage,
            head: self.head@,
            answers: outcomes_view(self.answers@),
        }
    }
}

/// What a step asks of its driver.
#[derive(Debug)]
pub enum Action {
    Continue,
    Evaluate(FormulaRequest),
    Finished(Json),
}

pub enum ActionV {
    Continue,
    Evaluate(RequestV),
    Finished(JsonV),
}

impl View for Action {
    type V = ActionV;

    open spec fn view(&self) -> ActionV {
        match self {
            Action::Continue => ActionV::Continue,
            Action::Evaluate(r) => ActionV::Evaluate(r@),
            Action::Finished(j) => ActionV::Finished(j@),
        }
    }
}

/// The report language: `profile_metadata.language` when it is a string, else `en`.
pub open spec fn language_of(info: JsonV) -> Seq<char> {
    match json_get(info, "profile_metadata"@) {
        Some(pm) => match json_get(pm, "language"@) {
            Some(JsonV::Str(l)) => l,
            _ => "en"@,
        },
        None => "en"@,
    }
}

/// The globals formulas see: the `variables` member, else an empty object.
pub open spec fn globals_of(info: JsonV) -> JsonV {
    match json_get(info, "variables"@) {
        Some(g) => g,
        None => JsonV::Object(Seq::empty()),
    }
}

/// The named expressions: the `expressions` member when it is an object.
pub open spec fn expressions_of(info: JsonV) -> Seq<(Seq<char>, JsonV)> {
    match json_get(info, "expressions"@) {
        Some(JsonV::Object(es)) => es,
        _ => Seq::empty(),
    }
}

/// The context made an object with a `profile` member.
pub open spec fn with_profile_object(ctx: JsonV) -> JsonV {
    let es = match ctx {
        JsonV::Object(es) => es,
        _ => Seq::empty(),
    };
    if entries_get(es, "profile"@) is Some {
        JsonV::Object(es)
    } else {
        JsonV::Object(entries_insert(es, "profile"@, JsonV::Object(Seq::empty())))
    }
}

/// The named expressions whose bodies are strings, as the formula engine registers them.
pub open spec fn string_members(es: Seq<(Seq<char>, JsonV)>) -> Seq<(Seq<char>, Seq<char>)>
    decreases es.len(),
{
    if es.len() == 0 {
        Seq::empty()
    } else {
        let p = string_members(es.drop_last());
        match es.last().1 {
            JsonV::Str(b) => p.push((es.last().0, b)),
            _ => p,
        }
    }
}

pub open spec fn empty_head() -> HeadV {
    HeadV { out: Seq::empty(), value: None, failed: false }
}

/// The machine at the start: the context is the indicators with the
/// information object merged in and a `profile` object ensured.
pub open spec fn initial_state(p: ProfileV, indicators: JsonV) -> EvaluationV {
    EvaluationV {
        info: p.info,
        sections: p.sections,
        env: EnvV {
            context: with_profile_object(merged(indicators, p.info)),
            globals: globals_of(p.info),
            expressions: expressions_of(p.info),
            language: language_of(p.info),
        },
        report: Seq::empty(),
        statements: Seq::empty(),
        section_entries: Seq::empty(),
        stage: Stage::Info,
        head: empty_head(),
        answers: Seq::empty(),
    }
}

pub open spec fn extend_entries(c: Seq<(Seq<char>, JsonV)>, r: Seq<(Seq<char>, JsonV)>) -> Seq<
    (Seq<char>, JsonV),
>
    decreases r.len(),
{
    if r.len() == 0 {
        c
    } else {
        extend_entries(entries_insert(c, r[0].0, r[0].1), r.drop_first())
    }
}

/// The context extended with the members of the rendered information object.
pub open spec fn extend_context(ctx: JsonV, resolved: JsonV) -> JsonV {
    match (ctx, resolved) {
        (JsonV::Object(c), JsonV::Object(r)) => JsonV::Object(extend_entries(c, r)),
        _ => ctx,
    }
}

/// The context with `k` set to `v` in its `profile` object, when that is an object.
pub open spec fn profile_insert(ctx: JsonV, k: Seq<char>, v: JsonV) -> JsonV {
    match ctx {
        JsonV::Object(es) => match entries_get(es, "profile"@) {
            Some(JsonV::Object(p)) => JsonV::Object(
                entries_insert(es, "profile"@, JsonV::Object(entries_insert(p, k, v))),
            ),
            _ => ctx,
        },
        _ => ctx,
    }
}

/// The report with the non-empty sections of statement entries under `statements`.
pub open spec fn final_report(report: Seq<(Seq<char>, JsonV)>, statements: Seq<JsonV>) -> Seq<
    (Seq<char>, JsonV),
> {
    if statements.len() > 0 {
        entries_insert(report, "statements"@, JsonV::Array(statements))
    } else {
        report
    }
}

pub open spec fn with_context(m: EvaluationV, ctx: JsonV) -> EvaluationV {
    EvaluationV { env: EnvV { context: ctx, ..m.env }, ..m }
}

/// One step of the machine. A unit (the information object, a block, the first
/// or second part of a statement) is worked out with the answers collected so
/// far; when it needs one more, the step asks for it and changes nothing;
/// when it completes, its result is committed, the answers are cleared and
/// the machine moves to the next unit.
pub open spec fn step_spec(m: EvaluationV) -> (EvaluationV, ActionV) {
    match m.stage {
        Stage::Info => match render_step(m.env, m.info, m.answers, 0) {
            StepV::Need(r) => (m, ActionV::Evaluate(r)),
            StepV::Done(resolved, _) => (
                EvaluationV {
                    stage: Stage::Items { section: 0, item: 0, text: false },
                    answers: Seq::empty(),
                    ..with_context(m, extend_context(m.env.context, resolved))
                },
                ActionV::Continue,
            ),
        },
        Stage::Items { section, item, text } => if section >= m.sections.len() {
            let report = final_report(m.report, m.statements);
            (
                EvaluationV { report, statements: Seq::empty(), stage: Stage::Finished, ..m },
                ActionV::Finished(JsonV::Object(report)),
            )
        } else if item >= m.sections[section as int].len() {
            (
                EvaluationV {
                    statements: if m.section_entries.len() > 0 {
                        m.statements.push(JsonV::Array(m.section_entries))
                    } else {
                        m.statements
                    },
                    section_entries: Seq::empty(),
                    stage: Stage::Items { section: (section + 1) as usize, item: 0, text: false },
                    answers: Seq::empty(),
                    ..m
                },
                ActionV::Continue,
            )
        } else {
            match m.sections[section as int][item as int] {
                ItemV::Block { name, value } => match render_step(m.env, value, m.answers, 0) {
                    StepV::Need(r) => (m, ActionV::Evaluate(r)),
                    StepV::Done(rv, _) => (
                        EvaluationV {
                            report: entries_insert(m.report, name, rv),
                            stage: Stage::Items { section, item: (item + 1) as usize, text: false },
                            answers: Seq::empty(),
                            ..with_context(m, profile_insert(m.env.context, name, rv))
                        },
                        ActionV::Continue,
                    ),
                },
                ItemV::Statement(st) => if !text {
                    match head_step(m.env, st, m.answers, 0) {
                        StepV::Need(r) => (m, ActionV::Evaluate(r)),
                        StepV::Done(h, _) => (
                            EvaluationV {
                                head: h,
                                stage: Stage::Items { section, item, text: true },
                                answers: Seq::empty(),
                                ..with_context(
                                    m,
                                    match h.value {
                                        Some(v) => profile_insert(m.env.context, st.id, v),
                                        None => m.env.context,
                                    },
                                )
                            },
                            ActionV::Continue,
                        ),
                    }
                } else {
                    match text_step(m.env, st, m.head, m.answers, 0) {
                        StepV::Need(r) => (m, ActionV::Evaluate(r)),
                        StepV::Done(out, _) => (
                            EvaluationV {
                                section_entries: m.section_entries.push(JsonV::Object(out)),
                                stage: Stage::Items { section, item: (item + 1) as usize, text: false },
                                answers: Seq::empty(),
                                ..m
                            },
                            ActionV::Continue,
                        ),
                    }
                },
            }
        },
        Stage::Finished => (m, ActionV::Finished(JsonV::Object(m.report))),
    }
}

fn extend_context_exec(ctx: &mut Json, resolved: Json)
    ensures
        final(ctx)@ == extend_context(old(ctx)@, resolved@),
{
    match ctx {
        Json::Object(c) => match resolved {
            Json::Object(r) => {
                let ghost rs = r@;
                let ghost c0 = c@;
                let entries = r.into_entries();
                proof {
                    assert(rs.skip(0) =~= rs);
                }
                for e in it: entries.into_iter()
                    invariant
                        it.seq().len() == rs.len(),
                        forall|j: int| 0 <= j < rs.len() ==> #[trigger] rs[j] == (it.seq()[j].0@, it.seq()[j].1@),
                        extend_entries(c0, rs) == extend_entries(c@, rs.skip(it.index() as int)),
                {
                    let ghost i = it.index() as int;
                    proof {
                        assert(e == it.seq()[i]);
                        assert(rs.skip(i)[0] == rs[i]);
                        assert(rs.skip(i).drop_first() =~= rs.skip(i + 1));
                    }
                    let (k, v) = e;
                    c.insert(k, v);
                }
                proof {
                    assert(rs.skip(rs.len() as int) =~= Seq::<(Seq<char>, JsonV)>::empty());
                }
            },
            _ => {},
        },
        _ => {},
    }
}

fn profile_insert_exec(ctx: &mut Json, key: &String, v: Json)
    ensures
        final(ctx)@ == profile_insert(old(ctx)@, key@, v@),
{
    match ctx {
        Json::Object(m) => {
            proof {
                use_type_invariant(&*m);
            }
            let is_object = match m.get("profile") {
                Some(Json::Object(_)) => true,
                _ => false,
            };
            if is_object {
                let ghost before = m@;
                let profile_key = owned("profile");
                if let Some(Json::Object(mut p)) = m.remove("profile") {
                    p.insert(key.clone(), v);
                    proof {
                        crate::json::lemma_remove_insert(before, "profile"@, JsonV::Object(p@));
                    }
                    m.insert(profile_key, Json::Object(p));
                }
            }
        },
        _ => {},
    }
}

impl Evaluation {
    /// Starts evaluating `profile` against `indicators`.
    pub fn new(profile: CompiledProfile, indicators: Json) -> (e: Evaluation)
        ensures
            e@ == initial_state(profile@, indicators@),
    {
        let CompiledProfile { info, sections } = profile;
        let language = match info_member(&info, "profile_metadata") {
            Some(pm) => match info_member(pm, "language") {
                Some(Json::Str(l)) => l.clone(),
                _ => owned("en"),
            },
            None => owned("en"),
        };
        let globals = match info_member(&info, "variables") {
            Some(g) => g.deep_clone(),
            None => Json::Object(JsonMap::new()),
        };
        let expressions = match info_member(&info, "expressions") {
            Some(Json::Object(es)) => es.deep_clone(),
            _ => JsonMap::new(),
        };
        let mut context = indicators;
        deep_merge(&mut context, info.deep_clone());
        ensure_profile_object(&mut context);
        let e = Evaluation {
            info,
            sections,
            env: RenderEnv { context, globals, expressions, language },
            report: JsonMap::new(),
            statements: Vec::new(),
            section_entries: Vec::new(),
            stage: Stage::Info,
            head: Head { out: JsonMap::new(), value: None, failed: false },
            answers: Vec::new(),
        };
        proof {
            lemma_view_items(e.statements@);
            lemma_view_items(e.section_entries@);
            assert(e@.statements =~= Seq::<JsonV>::empty());
            assert(e@.section_entries =~= Seq::<JsonV>::empty());
            assert(e@.answers =~= Seq::<OutcomeV>::empty());
        }
        e
    }

    /// The named expressions with string bodies, for registering with the formula engine.
    pub fn expression_list(&self) -> (r: Vec<(String, String)>)
        ensures
            r@.map_values(|p: (String, String)| (p.0@, p.1@)) == string_members(self@.env.expressions),
    {
        let m = &self.env.expressions;
        let ghost es = m@;
        let mut out: Vec<(String, String)> = Vec::new();
        let mut i: usize = 0;
        let n = m.len();
        proof {
            assert(es.take(0) =~= Seq::<(Seq<char>, JsonV)>::empty());
            assert(out@.map_values(|p: (String, String)| (p.0@, p.1@)) =~= Seq::<(Seq<char>, Seq<char>)>::empty());
        }
        while i < n
            invariant
                n == es.len(),
                i <= n,
                es == m@,
                out@.map_values(|p: (String, String)| (p.0@, p.1@)) == string_members(es.take(i as int)),
            decreases n - i,
        {
            proof {
                assert(es.take(i + 1).drop_last() =~= es.take(i as int));
                assert(es.take(i + 1).last() == es[i as int]);
            }
            let ghost prev = out@;
            if let Json::Str(body) = m.value_at(i) {
                out.push((m.key_at(i).clone(), body.clone()));
                proof {
                    assert(out@.map_values(|p: (String, String)| (p.0@, p.1@)) =~= prev.map_values(
                        |p: (String, String)| (p.0@, p.1@),
                    ).push((es[i as int].0, body@)));
                }
            }
            i = i + 1;
        }
        proof {
            assert(es.take(n as int) =~= es);
        }
        out
    }

    /// Hands the machine the outcome of the formula it asked for.
    pub fn provide(&mut self, outcome: FormulaOutcome)
        ensures
            final(self)@ == (EvaluationV { answers: old(self)@.answers.push(outcome@), ..old(self)@ }),
    {
        self.answers.push(outcome);
        proof {
            assert(outcomes_view(self.answers@) =~= old(self)@.answers.push(outcome@));
        }
    }

    /// Where the machine stands.
    pub fn stage(&self) -> (s: Stage)
        ensures
            s == self@.stage,
    {
        self.stage
    }

    /// Advances the machine by one step (see `step_spec`).
    #[verifier::rlimit(60)]
    pub fn step(&mut self) -> (a: Action)
        ensures
            (final(self)@, a@) == step_spec(old(self)@),
    {
        let ghost m = self@;
        match self.stage {
            Stage::Info => {
                let mut pos: usize = 0;
                match render_value(&self.env, &self.info, &self.answers, &mut pos) {
                    Progress::Need(req) => Action::Evaluate(req),
                    Progress::Done(resolved) => {
                        extend_context_exec(&mut self.env.context, resolved);
                        self.stage = Stage::Items { section: 0, item: 0, text: false };
                        self.answers = Vec::new();
                        proof {
                            assert(self@.answers =~= Seq::<OutcomeV>::empty());
                        }
                        Action::Continue
                    },
                }
            },
            Stage::Items { section, item, text } => {
                if section >= self.sections.len() {
                    let mut statements: Vec<Json> = Vec::new();
                    std::mem::swap(&mut statements, &mut self.statements);
                    if statements.len() > 0 {
                        proof {
                            lemma_view_items(statements@);
                        }
                        self.report.insert(owned("statements"), Json::Array(statements));
                    }
                    self.stage = Stage::Finished;
                    proof {
                        lemma_view_items(self.statements@);
                        assert(self@.statements =~= Seq::<JsonV>::empty());
                    }
                    Action::Finished(Json::Object(self.report.deep_clone()))
                } else if item >= self.sections[section].len() {
                    let mut entries: Vec<Json> = Vec::new();
                    std::mem::swap(&mut entries, &mut self.section_entries);
                    if entries.len() > 0 {
                        let ghost prev = self.statements@;
                        self.statements.push(Json::Array(entries));
                        proof {
                            lemma_view_items(prev);
                            lemma_view_items(self.statements@);
                            assert(crate::json::view_items(self.statements@) =~= crate::json::view_items(prev).push(JsonV::Array(m.section_entries)));
                        }
                    }
                    self.stage = Stage::Items { section: section + 1, item: 0, text: false };
                    self.answers = Vec::new();
                    proof {
                        lemma_view_items(self.section_entries@);
                        assert(self@.section_entries =~= Seq::<JsonV>::empty());
                        assert(self@.answers =~= Seq::<OutcomeV>::empty());
                    }
                    Action::Continue
                } else {
                    proof {
                        assert(self@.sections[section as int][item as int] == self.sections@[section as int]@[item as int]@);
                    }
                    match &self.sections[section][item] {
                        ProfileItem::Block(b) => {
                            let mut pos: usize = 0;
                            match render_value(&self.env, &b.value, &self.answers, &mut pos) {
                                Progress::Need(req) => Action::Evaluate(req),
                                Progress::Done(rv) => {
                                    self.report.insert(b.name.clone(), rv.deep_clone());
                                    profile_insert_exec(&mut self.env.context, &b.name, rv);
                                    self.stage = Stage::Items { section, item: item + 1, text: false };
                                    self.answers = Vec::new();
                                    proof {
                                        assert(self@.answers =~= Seq::<OutcomeV>::empty());
                                    }
                                    Action::Continue
                                },
                            }
                        },
                        ProfileItem::Statement(st) => {
                            if !text {
                                match statement_head(&self.env, st, &self.answers) {
                                    Progress::Need(req) => Action::Evaluate(req),
                                    Progress::Done(h) => {
                                        if let Some(v) = &h.value {
                                            profile_insert_exec(&mut self.env.context, &st.id, v.deep_clone());
                                        }
                                        self.head = h;
                                        self.stage = Stage::Items { section, item, text: true };
                                        self.answers = Vec::new();
                                        proof {
                                            assert(self@.answers =~= Seq::<OutcomeV>::empty());
                                        }
                                        Action::Continue
                                    },
                                }
                            } else {
                                match statement_text(&self.env, st, &self.head, &self.answers) {
                                    Progress::Need(req) => Action::Evaluate(req),
                                    Progress::Done(out) => {
                                        let ghost prev = self.section_entries@;
                                        self.section_entries.push(Json::Object(out));
                                        self.stage = Stage::Items { section, item: item + 1, text: false };
                                        self.answers = Vec::new();
                                        proof {
                                            lemma_view_items(prev);
                                            lemma_view_items(self.section_entries@);
                                            assert(crate::json::view_items(self.section_entries@) =~= crate::json::view_items(prev).push(JsonV::Object(out@)));
                                            assert(self@.answers =~= Seq::<OutcomeV>::empty());
                                        }
                                        Action::Continue
                                    },
                                }
                            }
                        },
                    }
                }
            },
            Stage::Finished => Action::Finished(Json::Object(self.report.deep_clone())),
        }
    }
}

fn info_member<'a>(v: &'a Json, key: &str) -> (r: Option<&'a Json>)
    ensures
        match r {
            Some(x) => json_get(v@, key@) == Some(x@),
            None => json_get(v@, key@) is None,
        },
{
    match v {
        Json::Object(m) => m.get(key),
        _ => None,
    }
}

fn ensure_profile_object(ctx: &mut Json)
    ensures
        final(ctx)@ == with_profile_object(old(ctx)@),
{
    match ctx {
        Json::Object(_) => {},
        _ => {
            *ctx = Json::Object(JsonMap::new());
        },
    }
    match ctx {
        Json::Object(m) => {
            if !m.contains_key("profile") {
                m.insert(owned("profile"), Json::Object(JsonMap::new()));
            }
        },
        _ => {},
    }
}

} // verus!
