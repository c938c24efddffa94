//! Rendering of profile values: strings are templates that may hold formula
//! expressions (`{{ expr "..." }}`) and handlebars tokens; arrays and objects are
//! rendered element by element. Formula results come from outside, as a
//! sequence of answers consumed in order.
use vstd::prelude::*;
use crate::json::{
    Json, JsonMap, JsonV, json_size, json_get, entries_get, view_items,
    lemma_view_items, lemma_items_size, lemma_insert_last, key_lt,
};
use crate::pattern::{regex_scan, regex_scan_of, RegexMatchV};
use crate::serialize::{inline_text, json_to_inline_string};
use crate::template::{handlebars_render_of, render_handlebars, partial_free, is_partial_free};
use crate::text::{owned, push_str, trim, trimmed, split_on, split_char, starts_with, contains_char};

verus! {

// ---------------------------------------------------------------------------
// Formula requests and answers
// ---------------------------------------------------------------------------

/// A formula to evaluate: the expression, the data it runs against, and the
/// globals it may refer to.
#[derive(Debug)]
pub struct FormulaRequest {
    pub expression: String,
    pub context: Json,
    pub globals: Json,
}

/// What evaluating a formula gave: a value with the engine's diagnostic
/// messages, an error with its kind and message, or a panic of the engine.
#[derive(Debug)]
pub enum FormulaOutcome {
    Value { value: Json, debug: Vec<String> },
    Failed { kind: String, message: String },
    Panicked,
}

pub struct RequestV {
    pub expression: Seq<char>,
    pub context: JsonV,
    pub globals: JsonV,
}

pub enum OutcomeV {
    Value(JsonV, Seq<Seq<char>>),
    Failed(Seq<char>, Seq<char>),
    Panicked,
}

impl View for FormulaRequest {
    type V = RequestV;

    open spec fn view(&self) -> RequestV {
        RequestV { expression: self.expression@, context: self.context@, globals: self.globals@ }
    }
}

impl View for FormulaOutcome {
    type V = OutcomeV;

    open spec fn view(&self) -> OutcomeV {
        match self {
            FormulaOutcome::Value { value, debug } => OutcomeV::Value(
                value@,
                debug@.map_values(|m: String| m@),
            ),
            FormulaOutcome::Failed { kind, message } => OutcomeV::Failed(kind@, message@),
            FormulaOutcome::Panicked => OutcomeV::Panicked,
        }
    }
}

pub open spec fn outcomes_view(a: Seq<FormulaOutcome>) -> Seq<OutcomeV> {
    a.map_values(|o: FormulaOutcome| o@)
}

/// Either a request for the next formula answer, or a result.
#[derive(Debug)]
pub enum Progress<T> {
    Need(FormulaRequest),
    Done(T),
}

pub enum ProgressV<T> {
    Need(RequestV),
    Done(T),
}

impl<T: View> View for Progress<T> {
    type V = ProgressV<T::V>;

    open spec fn view(&self) -> ProgressV<T::V> {
        match self {
            Progress::Need(r) => ProgressV::Need(r@),
            Progress::Done(x) => ProgressV::Done(x@),
        }
    }
}

/// A rendering step of the specification: it needs the answer to a request,
/// or it is done with a result and the position of the next unused answer.
pub enum StepV<T> {
    Need(RequestV),
    Done(T, nat),
}

pub open spec fn step_matches<T>(r: ProgressV<T>, pos: usize, s: StepV<T>) -> bool {
    match (r, s) {
        (ProgressV::Need(a), StepV::Need(b)) => a == b,
        (ProgressV::Done(a), StepV::Done(b, p)) => a == b && pos == p,
        _ => false,
    }
}

// ---------------------------------------------------------------------------
// The rendering environment
// ---------------------------------------------------------------------------

/// What rendering reads: the context data, the globals, the named expressions
/// of the profile, and the report language.
pub struct RenderEnv {
    pub context: Json,
    pub globals: Json,
    pub expressions: JsonMap,
    pub language: String,
}

pub struct EnvV {
    pub context: JsonV,
    pub globals: JsonV,
    pub expressions: Seq<(Seq<char>, JsonV)>,
    pub language: Seq<char>,
}

impl View for RenderEnv {
    type V = EnvV;

    open spec fn view(&self) -> EnvV {
        EnvV {
            context: self.context@,
            globals: self.globals@,
            expressions: self.expressions@,
            language: self.language@,
        }
    }
}

// ---------------------------------------------------------------------------
// Patterns
// ---------------------------------------------------------------------------

/// A call of a named expression without arguments, such as `_Total()`.
pub open spec fn no_arg_call_pattern() -> Seq<char> {
    r"^\s*(_[A-Za-z0-9_]+)\(\)\s*$"@
}

/// A string that is a single formula template `{{ expr "..." }}`.
pub open spec fn full_expr_pattern() -> Seq<char> {
    r#"(?s)^\s*\{\{\s*expr\s+"(.+?)"\s*\}\}\s*$"#@
}

/// A formula template inside a string.
pub open spec fn inline_expr_pattern() -> Seq<char> {
    r#"\{\{\s*expr\s+"(.+?)"\s*\}\}"#@
}

/// A handlebars token `{{ ... }}`.
pub open spec fn token_pattern() -> Seq<char> {
    r"\{\{\s*([^{}]+?)\s*\}\}"@
}

pub open spec fn group_or_empty(m: RegexMatchV) -> Seq<char> {
    match m.group {
        Some(g) => g,
        None => Seq::empty(),
    }
}

// ---------------------------------------------------------------------------
// Formulas
// ---------------------------------------------------------------------------

/// The `profile` member of the context, or the whole context when it has none.
pub open spec fn profile_or_context(ctx: JsonV) -> JsonV {
    match json_get(ctx, "profile"@) {
        Some(p) => p,
        None => ctx,
    }
}

/// The data a formula runs against. A call `_Name()` of a named expression
/// whose body does not mention `$` runs against the `profile` member, so that
/// its body can name profile fields directly; everything else runs against the
/// whole context.
pub open spec fn formula_context(env: EnvV, expr: Seq<char>) -> JsonV {
    let scan = regex_scan_of(no_arg_call_pattern(), expr);
    if scan.matches.len() > 0 {
        match entries_get(env.expressions, group_or_empty(scan.matches[0])) {
            Some(JsonV::Str(body)) => if body.contains('$') {
                env.context
            } else {
                profile_or_context(env.context)
            },
            _ => env.context,
        }
    } else {
        env.context
    }
}

pub open spec fn request_for(env: EnvV, expr: Seq<char>) -> RequestV {
    RequestV { expression: expr, context: formula_context(env, expr), globals: env.globals }
}

/// The value a formula yields inside a template: its result, `null` on a
/// formula error, `false` when the engine panicked.
pub open spec fn outcome_value(o: OutcomeV) -> JsonV {
    match o {
        OutcomeV::Value(v, _) => v,
        OutcomeV::Failed(_, _) => JsonV::Null,
        OutcomeV::Panicked => JsonV::Bool(false),
    }
}

pub open spec fn eval_step(env: EnvV, expr: Seq<char>, answers: Seq<OutcomeV>, pos: nat) -> StepV<JsonV> {
    if pos < answers.len() {
        StepV::Done(outcome_value(answers[pos as int]), pos + 1)
    } else {
        StepV::Need(request_for(env, expr))
    }
}

// ---------------------------------------------------------------------------
// Templates
// ---------------------------------------------------------------------------

/// Looks a dot-separated path up through nested objects.
pub open spec fn lookup_segments(v: JsonV, segs: Seq<Seq<char>>) -> Option<JsonV>
    decreases segs.len(),
{
    if segs.len() == 0 {
        Some(v)
    } else {
        match json_get(v, segs[0]) {
            Some(c) => lookup_segments(c, segs.drop_first()),
            None => None,
        }
    }
}

pub open spec fn lookup_path(root: JsonV, path: Seq<char>) -> Option<JsonV> {
    lookup_segments(root, split_on(path, '.'))
}

pub open spec fn missing_marker(token: Seq<char>) -> Seq<char> {
    "\u{1F534} Missing: "@ + token + "()"@
}

/// What a handlebars token becomes when the template engine could not render:
/// formula templates stay as written, paths found in the context give their
/// value, other tokens give a marker naming them.
pub open spec fn token_text(ctx: JsonV, m: RegexMatchV) -> Seq<char> {
    let token = trim(group_or_empty(m));
    if "expr "@.len() <= token.len() && token.take("expr "@.len() as int) == "expr "@ {
        m.whole
    } else {
        match lookup_path(ctx, token) {
            Some(v) => inline_text(v),
            None => missing_marker(token),
        }
    }
}

pub open spec fn fallback_pieces(ctx: JsonV, ms: Seq<RegexMatchV>) -> Seq<char>
    decreases ms.len(),
{
    if ms.len() == 0 {
        Seq::empty()
    } else {
        fallback_pieces(ctx, ms.drop_last()) + ms.last().before + token_text(ctx, ms.last())
    }
}

/// The simple template substitution used when handlebars fails.
pub open spec fn fallback_text(ctx: JsonV, input: Seq<char>) -> Seq<char> {
    let scan = regex_scan_of(token_pattern(), input);
    fallback_pieces(ctx, scan.matches) + scan.rest
}

/// A template rendered against the context: by handlebars, or by the
/// fallback when handlebars fails or the template holds partials or decorators.
pub open spec fn template_text(ctx: JsonV, input: Seq<char>) -> Seq<char> {
    if partial_free(input) {
        match handlebars_render_of(input, ctx) {
            Some(t) => t,
            None => fallback_text(ctx, input),
        }
    } else {
        fallback_text(ctx, input)
    }
}

/// The text with each inline formula template replaced by its value.
pub open spec fn splice_step(env: EnvV, ms: Seq<RegexMatchV>, answers: Seq<OutcomeV>, pos: nat) -> StepV<
    Seq<char>,
>
    decreases ms.len(),
{
    if ms.len() == 0 {
        StepV::Done(Seq::empty(), pos)
    } else {
        match splice_step(env, ms.drop_last(), answers, pos) {
            StepV::Need(r) => StepV::Need(r),
            StepV::Done(t, p) => match eval_step(env, group_or_empty(ms.last()), answers, p) {
                StepV::Need(r) => StepV::Need(r),
                StepV::Done(v, p2) => StepV::Done(t + ms.last().before + inline_text(v), p2),
            },
        }
    }
}

/// Rendering a string: a string that is a single formula template gives the
/// formula's value as it is; otherwise the inline formula templates are
/// replaced by their values and the result is rendered as a template.
pub open spec fn render_string_step(env: EnvV, s: Seq<char>, answers: Seq<OutcomeV>, pos: nat) -> StepV<
    JsonV,
> {
    let full = regex_scan_of(full_expr_pattern(), s);
    if full.matches.len() > 0 && full.matches[0].group is Some {
        eval_step(env, full.matches[0].group.unwrap(), answers, pos)
    } else {
        let scan = regex_scan_of(inline_expr_pattern(), s);
        match splice_step(env, scan.matches, answers, pos) {
            StepV::Need(r) => StepV::Need(r),
            StepV::Done(t, p) => StepV::Done(JsonV::Str(template_text(env.context, t + scan.rest)), p),
        }
    }
}

/// Rendering a value: strings as templates, arrays and objects element by
/// element (keys unchanged), anything else unchanged.
pub open spec fn render_step(env: EnvV, v: JsonV, answers: Seq<OutcomeV>, pos: nat) -> StepV<JsonV>
    decreases v,
{
    match v {
        JsonV::Str(s) => render_string_step(env, s, answers, pos),
        JsonV::Array(items) => match render_items_step(env, items, answers, pos) {
            StepV::Need(r) => StepV::Need(r),
            StepV::Done(xs, p) => StepV::Done(JsonV::Array(xs), p),
        },
        JsonV::Object(es) => match render_members_step(env, es, answers, pos) {
            StepV::Need(r) => StepV::Need(r),
            StepV::Done(ys, p) => StepV::Done(JsonV::Object(ys), p),
        },
        _ => StepV::Done(v, pos),
    }
}

pub open spec fn render_items_step(env: EnvV, s: Seq<JsonV>, answers: Seq<OutcomeV>, pos: nat) -> StepV<
    Seq<JsonV>,
>
    decreases s,
{
    if s.len() == 0 {
        StepV::Done(Seq::empty(), pos)
    } else {
        match render_items_step(env, s.subrange(0, s.len() - 1), answers, pos) {
            StepV::Need(r) => StepV::Need(r),
            StepV::Done(xs, p) => match render_step(env, s[s.len() - 1], answers, p) {
                StepV::Need(r) => StepV::Need(r),
                StepV::Done(x, p2) => StepV::Done(xs.push(x), p2),
            },
        }
    }
}

pub open spec fn render_members_step(
    env: EnvV,
    s: Seq<(Seq<char>, JsonV)>,
    answers: Seq<OutcomeV>,
    pos: nat,
) -> StepV<Seq<(Seq<char>, JsonV)>>
    decreases s,
{
    if s.len() == 0 {
        StepV::Done(Seq::empty(), pos)
    } else {
        match render_members_step(env, s.subrange(0, s.len() - 1), answers, pos) {
            StepV::Need(r) => StepV::Need(r),
            StepV::Done(ys, p) => match render_step(env, s[s.len() - 1].1, answers, p) {
                StepV::Need(r) => StepV::Need(r),
                StepV::Done(x, p2) => StepV::Done(ys.push((s[s.len() - 1].0, x)), p2),
            },
        }
    }
}

// ---------------------------------------------------------------------------
// Executable formulas
// ---------------------------------------------------------------------------

fn profile_or_context_of(ctx: &Json) -> (r: &Json)
    ensures
        r@ == profile_or_context(ctx@),
{
    match ctx {
        Json::Object(m) => match m.get("profile") {
            Some(p) => p,
            None => ctx,
        },
        _ => ctx,
    }
}

fn formula_context_of<'a>(env: &'a RenderEnv, expr: &str) -> (r: &'a Json)
    ensures
        r@ == formula_context(env@, expr@),
{
    let scan = regex_scan(r"^\s*(_[A-Za-z0-9_]+)\(\)\s*$", expr);
    if scan.matches.len() > 0 {
        let name = match &scan.matches[0].group {
            Some(g) => g.clone(),
            None => String::new(),
        };
        proof {
            assert(scan@.matches[0] == scan.matches@[0]@);
        }
        match env.expressions.get(name.as_str()) {
            Some(Json::Str(body)) => {
                if contains_char(body.as_str(), '$') {
                    &env.context
                } else {
                    profile_or_context_of(&env.context)
                }
            },
            _ => &env.context,
        }
    } else {
        &env.context
    }
}

/// The request for evaluating `expr` in `env`.
pub fn request_of(env: &RenderEnv, expr: &str) -> (r: FormulaRequest)
    ensures
        r@ == request_for(env@, expr@),
{
    FormulaRequest {
        expression: owned(expr),
        context: formula_context_of(env, expr).deep_clone(),
        globals: env.globals.deep_clone(),
    }
}

fn outcome_value_of(o: &FormulaOutcome) -> (r: Json)
    ensures
        r@ == outcome_value(o@),
{
    match o {
        FormulaOutcome::Value { value, .. } => value.deep_clone(),
        FormulaOutcome::Failed { .. } => Json::Null,
        FormulaOutcome::Panicked => Json::Bool(false),
    }
}

/// Evaluates a formula inside a template: the next unused answer, or a request for it.
pub fn eval_expression(env: &RenderEnv, expr: &str, answers: &Vec<FormulaOutcome>, pos: &mut usize) -> (r:
    Progress<Json>)
    requires
        *old(pos) <= answers.len(),
    ensures
        *final(pos) <= answers.len(),
        step_matches(r@, *final(pos), eval_step(env@, expr@, outcomes_view(answers@), *old(pos) as nat)),
{
    if *pos < answers.len() {
        let v = outcome_value_of(&answers[*pos]);
        *pos = *pos + 1;
        Progress::Done(v)
    } else {
        Progress::Need(request_of(env, expr))
    }
}

// ---------------------------------------------------------------------------
// Executable templates
// ---------------------------------------------------------------------------

/// Looks up a dot-separated path through nested objects.
pub fn lookup<'a>(root: &'a Json, path: &str) -> (r: Option<&'a Json>)
    ensures
        match r {
            Some(v) => lookup_path(root@, path@) == Some(v@),
            None => lookup_path(root@, path@) is None,
        },
{
    let segs = split_char(path, '.');
    let ghost ss = split_on(path@, '.');
    let mut cur: &Json = root;
    let mut i: usize = 0;
    proof {
        assert(ss.skip(0) =~= ss);
    }
    while i < segs.len()
        invariant
            i <= segs@.len(),
            segs@.len() == ss.len(),
            forall|j: int| 0 <= j < segs@.len() ==> #[trigger] segs@[j]@ == ss[j],
            lookup_path(root@, path@) == lookup_segments(cur@, ss.skip(i as int)),
            ss == split_on(path@, '.'),
        decreases segs.len() - i,
    {
        proof {
            assert(ss.skip(i as int)[0] == ss[i as int]);
            assert(ss.skip(i as int).drop_first() =~= ss.skip(i + 1));
        }
        match cur {
            Json::Object(m) => match m.get(segs[i].as_str()) {
                Some(c) => {
                    cur = c;
                },
                None => {
                    return None;
                },
            },
            _ => {
                return None;
            },
        }
        i = i + 1;
    }
    Some(cur)
}

fn token_replacement(ctx: &Json, m: &crate::pattern::RegexMatch) -> (r: String)
    ensures
        r@ == token_text(ctx@, m@),
{
    let token = match &m.group {
        Some(g) => trimmed(g.as_str()),
        None => trimmed(""),
    };
    proof {
        if m.group is None {
            assert(""@ =~= Seq::<char>::empty()) by {
                reveal_strlit("");
            }
        }
    }
    if starts_with(token.as_str(), "expr ") {
        m.whole.clone()
    } else {
        match lookup(ctx, token.as_str()) {
            Some(v) => json_to_inline_string(v),
            None => {
                let mut out = owned("\u{1F534} Missing: ");
                push_str(&mut out, token.as_str());
                push_str(&mut out, "()");
                out
            },
        }
    }
}

/// The simple template substitution used when handlebars fails: each token
/// `{{ path }}` becomes the value at that path in the context, or a marker
/// naming the missing path; formula templates are left as written.
pub fn fallback_render(ctx: &Json, input: &str) -> (r: String)
    ensures
        r@ == fallback_text(ctx@, input@),
{
    let scan = regex_scan(r"\{\{\s*([^{}]+?)\s*\}\}", input);
    let ghost ms = scan@.matches;
    let mut out = String::new();
    let mut i: usize = 0;
    proof {
        assert(ms.take(0) =~= Seq::<RegexMatchV>::empty());
    }
    while i < scan.matches.len()
        invariant
            i <= scan.matches@.len(),
            ms == scan@.matches,
            ms.len() == scan.matches@.len(),
            out@ == fallback_pieces(ctx@, ms.take(i as int)),
        decreases scan.matches.len() - i,
    {
        proof {
            assert(ms.take(i + 1).drop_last() =~= ms.take(i as int));
            assert(ms.take(i + 1).last() == scan.matches@[i as int]@);
        }
        push_str(&mut out, scan.matches[i].before.as_str());
        let piece = token_replacement(ctx, &scan.matches[i]);
        push_str(&mut out, piece.as_str());
        i = i + 1;
    }
    proof {
        assert(ms.take(scan.matches@.len() as int) =~= ms);
    }
    push_str(&mut out, scan.rest.as_str());
    out
}

proof fn lemma_splice_need(env: EnvV, ms: Seq<RegexMatchV>, answers: Seq<OutcomeV>, pos: nat, n: int)
    requires
        0 <= n <= ms.len(),
        splice_step(env, ms.take(n), answers, pos) is Need,
    ensures
        splice_step(env, ms, answers, pos) == splice_step(env, ms.take(n), answers, pos),
    decreases ms.len() - n,
{
    if n < ms.len() {
        assert(ms.take(n + 1).drop_last() =~= ms.take(n));
        lemma_splice_need(env, ms, answers, pos, n + 1);
    } else {
        assert(ms.take(n) =~= ms);
    }
}

/// Renders a string against the environment (see `render_string_step`).
pub fn render_string(env: &RenderEnv, s: &str, answers: &Vec<FormulaOutcome>, pos: &mut usize) -> (r:
    Progress<Json>)
    requires
        *old(pos) <= answers.len(),
    ensures
        *final(pos) <= answers.len(),
        step_matches(r@, *final(pos), render_string_step(env@, s@, outcomes_view(answers@), *old(pos) as nat)),
{
    let full = regex_scan(r#"(?s)^\s*\{\{\s*expr\s+"(.+?)"\s*\}\}\s*$"#, s);
    if full.matches.len() > 0 {
        proof {
            assert(full@.matches[0] == full.matches@[0]@);
        }
        if let Some(g) = &full.matches[0].group {
            return eval_expression(env, g.as_str(), answers, pos);
        }
    }
    let scan = regex_scan(r#"\{\{\s*expr\s+"(.+?)"\s*\}\}"#, s);
    let ghost ms = scan@.matches;
    let ghost av = outcomes_view(answers@);
    let ghost pos0 = *pos as nat;
    let mut text = String::new();
    let mut i: usize = 0;
    proof {
        assert(ms.take(0) =~= Seq::<RegexMatchV>::empty());
    }
    while i < scan.matches.len()
        invariant
            i <= scan.matches@.len(),
            ms == scan@.matches,
            ms.len() == scan.matches@.len(),
            av == outcomes_view(answers@),
            *pos <= answers.len(),
            full@ == regex_scan_of(full_expr_pattern(), s@),
            scan@ == regex_scan_of(inline_expr_pattern(), s@),
            pos0 == *old(pos) as nat,
            !(full@.matches.len() > 0 && full@.matches[0].group is Some),
            splice_step(env@, ms.take(i as int), av, pos0) == StepV::Done(text@, *pos as nat),
        decreases scan.matches.len() - i,
    {
        proof {
            assert(ms.take(i + 1).drop_last() =~= ms.take(i as int));
            assert(ms.take(i + 1).last() == scan.matches@[i as int]@);
        }
        let m = &scan.matches[i];
        let expr: &str = match &m.group {
            Some(g) => g.as_str(),
            None => "",
        };
        proof {
            if m.group is None {
                reveal_strlit("");
                assert(expr@ =~= Seq::<char>::empty());
            }
        }
        match eval_expression(env, expr, answers, pos) {
            Progress::Need(req) => {
                proof {
                    assert(splice_step(env@, ms.take(i + 1), av, pos0) == StepV::<Seq<char>>::Need(req@));
                    lemma_splice_need(env@, ms, av, pos0, i + 1);
                }
                return Progress::Need(req);
            },
            Progress::Done(v) => {
                push_str(&mut text, m.before.as_str());
                let piece = json_to_inline_string(&v);
                push_str(&mut text, piece.as_str());
            },
        }
        i = i + 1;
    }
    proof {
        assert(ms.take(scan.matches@.len() as int) =~= ms);
    }
    push_str(&mut text, scan.rest.as_str());
    let rendered = if is_partial_free(text.as_str()) {
        let data = crate::raw::raw_from_json(&env.context);
        match render_handlebars(text.as_str(), &data) {
            Some(t) => t,
            None => fallback_render(&env.context, text.as_str()),
        }
    } else {
        fallback_render(&env.context, text.as_str())
    };
    Progress::Done(Json::Str(rendered))
}

proof fn lemma_items_need(env: EnvV, s: Seq<JsonV>, answers: Seq<OutcomeV>, pos: nat, n: int)
    requires
        0 <= n <= s.len(),
        render_items_step(env, s.take(n), answers, pos) is Need,
    ensures
        render_items_step(env, s, answers, pos) == render_items_step(env, s.take(n), answers, pos),
    decreases s.len() - n,
{
    if n < s.len() {
        let t = s.take(n + 1);
        assert(t.subrange(0, t.len() - 1) =~= s.take(n));
        lemma_items_need(env, s, answers, pos, n + 1);
    } else {
        assert(s.take(n) =~= s);
    }
}

proof fn lemma_members_need(
    env: EnvV,
    s: Seq<(Seq<char>, JsonV)>,
    answers: Seq<OutcomeV>,
    pos: nat,
    n: int,
)
    requires
        0 <= n <= s.len(),
        render_members_step(env, s.take(n), answers, pos) is Need,
    ensures
        render_members_step(env, s, answers, pos) == render_members_step(env, s.take(n), answers, pos),
    decreases s.len() - n,
{
    if n < s.len() {
        let t = s.take(n + 1);
        assert(t.subrange(0, t.len() - 1) =~= s.take(n));
        lemma_members_need(env, s, answers, pos, n + 1);
    } else {
        assert(s.take(n) =~= s);
    }
}

/// Renders a value against the environment (see `render_step`).
pub fn render_value(env: &RenderEnv, v: &Json, answers: &Vec<FormulaOutcome>, pos: &mut usize) -> (r:
    Progress<Json>)
    requires
        *old(pos) <= answers.len(),
    ensures
        *final(pos) <= answers.len(),
        step_matches(r@, *final(pos), render_step(env@, v@, outcomes_view(answers@), *old(pos) as nat)),
    decreases json_size(v@),
{
    let ghost av = outcomes_view(answers@);
    let ghost pos0 = *pos as nat;
    match v {
        Json::Str(s) => render_string(env, s.as_str(), answers, pos),
        Json::Array(items) => {
            proof {
                lemma_view_items(items@);
            }
            let ghost vs = view_items(items@);
            let mut out: Vec<Json> = Vec::new();
            let mut i: usize = 0;
            proof {
                assert(vs.take(0) =~= Seq::<JsonV>::empty());
                lemma_view_items(out@);
                assert(view_items(out@) =~= Seq::<JsonV>::empty());
            }
            while i < items.len()
                invariant
                    i <= items.len(),
                    vs == view_items(items@),
                    vs.len() == items@.len(),
                    forall|j: int| 0 <= j < vs.len() ==> #[trigger] vs[j] == items@[j]@,
                    v@ == JsonV::Array(vs),
                    json_size(v@) == 1 + crate::json::items_size(vs),
                    av == outcomes_view(answers@),
                    pos0 == *old(pos) as nat,
                    *pos <= answers.len(),
                    render_items_step(env@, vs.take(i as int), av, pos0) == StepV::Done(view_items(out@), *pos as nat),
                decreases items.len() - i,
            {
                proof {
                    lemma_items_size(vs, i as int);
                    let t = vs.take(i + 1);
                    assert(t.subrange(0, t.len() - 1) =~= vs.take(i as int));
                    assert(t[t.len() - 1] == vs[i as int]);
                }
                let ghost prev = out@;
                match render_value(env, &items[i], answers, pos) {
                    Progress::Need(req) => {
                        proof {
                            lemma_items_need(env@, vs, av, pos0, i + 1);
                        }
                        return Progress::Need(req);
                    },
                    Progress::Done(x) => {
                        out.push(x);
                        proof {
                            lemma_view_items(out@);
                            lemma_view_items(prev);
                            assert(view_items(out@) =~= view_items(prev).push(x@));
                        }
                    },
                }
                i = i + 1;
            }
            proof {
                assert(vs.take(items.len() as int) =~= vs);
            }
            Progress::Done(Json::Array(out))
        },
        Json::Object(m) => {
            proof {
                use_type_invariant(m);
            }
            let ghost es = m@;
            let n = m.len();
            let mut out = JsonMap::new();
            let mut i: usize = 0;
            proof {
                assert(es.take(0) =~= Seq::<(Seq<char>, JsonV)>::empty());
            }
            while i < n
                invariant
                    i <= n,
                    n == es.len(),
                    es == m@,
                    crate::json::keys_sorted(es),
                    v@ == JsonV::Object(es),
                    av == outcomes_view(answers@),
                    pos0 == *old(pos) as nat,
                    *pos <= answers.len(),
                    out@.len() == i,
                    forall|j: int| 0 <= j < i ==> #[trigger] out@[j].0 == es[j].0,
                    render_members_step(env@, es.take(i as int), av, pos0) == StepV::Done(out@, *pos as nat),
                decreases n - i,
            {
                proof {
                    let t = es.take(i + 1);
                    assert(t.subrange(0, t.len() - 1) =~= es.take(i as int));
                    assert(t[t.len() - 1] == es[i as int]);
                }
                let key = m.key_at(i).clone();
                let ghost prev = out@;
                match render_value(env, m.value_at(i), answers, pos) {
                    Progress::Need(req) => {
                        proof {
                            lemma_members_need(env@, es, av, pos0, i + 1);
                        }
                        return Progress::Need(req);
                    },
                    Progress::Done(x) => {
                        proof {
                            assert forall|j: int| 0 <= j < prev.len() implies key_lt(#[trigger] prev[j].0, key@) by {
                                assert(key_lt(es[j].0, es[i as int].0));
                            }
                            lemma_insert_last(prev, key@, x@);
                        }
                        out.insert(key, x);
                    },
                }
                i = i + 1;
            }
            proof {
                assert(es.take(n as int) =~= es);
            }
            Progress::Done(Json::Object(out))
        },
        _ => Progress::Done(v.deep_clone()),
    }
}

} // verus!
