//! Profiles: the documents of a profile file turned into the profile's information
//! object and its sections of blocks and statements.
use vstd::prelude::*;
use crate::json::{Json, JsonMap, JsonV, entries_get, entries_remove};
use crate::merge::{merged, deep_merge};
use crate::text::{owned, push_str, push_char};

verus! {

// ---------------------------------------------------------------------------
// Errors
// ---------------------------------------------------------------------------

/// Why loading or evaluating a profile failed; each variant carries its message.
#[derive(Debug, PartialEq, Eq)]
pub enum EvaluatorError {
    Io(String),
    Yaml(String),
    Json(String),
    InvalidProfile(String),
}

pub enum ErrorV {
    Io(Seq<char>),
    Yaml(Seq<char>),
    Json(Seq<char>),
    InvalidProfile(Seq<char>),
}

impl View for EvaluatorError {
    type V = ErrorV;

    open spec fn view(&self) -> ErrorV {
        match self {
            EvaluatorError::Io(m) => ErrorV::Io(m@),
            EvaluatorError::Yaml(m) => ErrorV::Yaml(m@),
            EvaluatorError::Json(m) => ErrorV::Json(m@),
            EvaluatorError::InvalidProfile(m) => ErrorV::InvalidProfile(m@),
        }
    }
}

/// The text an error is shown as.
pub open spec fn error_text(e: ErrorV) -> Seq<char> {
    match e {
        ErrorV::Io(m) => "io error: "@ + m,
        ErrorV::Yaml(m) => "yaml parse error: "@ + m,
        ErrorV::Json(m) => "json parse error: "@ + m,
        ErrorV::InvalidProfile(m) => "invalid profile: "@ + m,
    }
}

impl EvaluatorError {
    /// The text this error is shown as.
    pub fn message(&self) -> (r: String)
        ensures
            r@ == error_text(self@),
    {
        let (mut out, detail) = match self {
            EvaluatorError::Io(m) => (owned("io error: "), m),
            EvaluatorError::Yaml(m) => (owned("yaml parse error: "), m),
            EvaluatorError::Json(m) => (owned("json parse error: "), m),
            EvaluatorError::InvalidProfile(m) => (owned("invalid profile: "), m),
        };
        push_str(&mut out, detail.as_str());
        out
    }

    /// The error for an expression of the profile that the formula engine refuses.
    pub fn invalid_expression(name: &str, detail: &str) -> (r: EvaluatorError)
        ensures
            r@ == ErrorV::InvalidProfile("invalid expression \""@ + name@ + "\": "@ + detail@),
    {
        let mut m = owned("invalid expression \"");
        push_str(&mut m, name);
        push_str(&mut m, "\": ");
        push_str(&mut m, detail);
        EvaluatorError::InvalidProfile(m)
    }
}

// ---------------------------------------------------------------------------
// Profile items
// ---------------------------------------------------------------------------

/// A named value placed in the report and in the `profile` context object.
#[derive(Debug, Clone)]
pub struct BlockEntry {
    pub name: String,
    pub value: Json,
}

/// A statement: an optional title and expression, and the report text.
#[derive(Debug, Clone)]
pub struct StatementEntry {
    pub id: String,
    pub description: Option<Json>,
    pub title: Option<Json>,
    pub expression: Option<String>,
    pub report_text: Json,
}

#[derive(Debug, Clone)]
pub enum ProfileItem {
    Block(BlockEntry),
    Statement(StatementEntry),
}

/// A loaded profile: the merged information object and the sections in order.
#[derive(Debug, Clone)]
pub struct CompiledProfile {
    pub info: Json,
    pub sections: Vec<Vec<ProfileItem>>,
}

pub struct StatementV {
    pub id: Seq<char>,
    pub description: Option<JsonV>,
    pub title: Option<JsonV>,
    pub expression: Option<Seq<char>>,
    pub report_text: JsonV,
}

pub enum ItemV {
    Block { name: Seq<char>, value: JsonV },
    Statement(StatementV),
}

pub struct ProfileV {
    pub info: JsonV,
    pub sections: Seq<Seq<ItemV>>,
}

pub open spec fn opt_json_view(o: Option<Json>) -> Option<JsonV> {
    match o {
        Some(j) => Some(j@),
        None => None,
    }
}

pub open spec fn opt_string_view(o: Option<String>) -> Option<Seq<char>> {
    match o {
        Some(s) => Some(s@),
        None => None,
    }
}

impl View for StatementEntry {
    type V = StatementV;

    open spec fn view(&self) -> StatementV {
        StatementV {
            id: self.id@,
            description: opt_json_view(self.description),
            title: opt_json_view(self.title),
            expression: opt_string_view(self.expression),
            report_text: self.report_text@,
        }
    }
}

impl View for ProfileItem {
    type V = ItemV;

    open spec fn view(&self) -> ItemV {
        match self {
            ProfileItem::Block(b) => ItemV::Block { name: b.name@, value: b.value@ },
            ProfileItem::Statement(s) => ItemV::Statement(s@),
        }
    }
}

pub open spec fn items_view(s: Seq<ProfileItem>) -> Seq<ItemV> {
    s.map_values(|i: ProfileItem| i@)
}

pub open spec fn sections_view(s: Seq<Vec<ProfileItem>>) -> Seq<Seq<ItemV>> {
    s.map_values(|v: Vec<ProfileItem>| items_view(v@))
}

impl View for CompiledProfile {
    type V = ProfileV;

    open spec fn view(&self) -> ProfileV {
        ProfileV { info: self.info@, sections: sections_view(self.sections@) }
    }
}

// ---------------------------------------------------------------------------
// Messages in the form serde_json gives them when a value does not fit a field
// ---------------------------------------------------------------------------

/// What `<str as Debug>::fmt` writes for a string: the string in double
/// quotes, with the characters that Rust escapes in debug output escaped.
pub uninterp spec fn str_debug_of(s: Seq<char>) -> Seq<char>;

/// The debug form of `s`, written with `format!("{:?}", s)`. Trusted: the
/// result is the named text `str_debug_of`.
#[verifier::external_body]
fn str_debug(s: &str) -> (r: String)
    ensures
        r@ == str_debug_of(s@),
{
    format!("{:?}", s)
}

pub open spec fn decimal_text(n: nat) -> Seq<char>
    decreases n,
{
    if n < 10 {
        seq![(48 + n) as char]
    } else {
        decimal_text(n / 10) + seq![(48 + n % 10) as char]
    }
}

/// A number written with a fraction or an exponent is a floating point number.
pub open spec fn is_float_text(n: Seq<char>) -> bool {
    n.contains('.') || n.contains('e') || n.contains('E')
}

pub open spec fn invalid_type_text(v: JsonV, expected: Seq<char>) -> Seq<char> {
    "invalid type: "@ + unexpected_text(v) + ", expected "@ + expected
}

pub open spec fn missing_field_text(field: Seq<char>) -> Seq<char> {
    "missing field `"@ + field + "`"@
}

/// Appends the decimal digits of `n`.
pub fn write_decimal(out: &mut String, n: usize)
    ensures
        final(out)@ == old(out)@ + decimal_text(n as nat),
    decreases n,
{
    if n < 10 {
        push_char(out, ((48 + n) as u8) as char);
    } else {
        write_decimal(out, n / 10);
        push_char(out, ((48 + n % 10) as u8) as char);
    }
}

/// How a value is described when it has the wrong type. Numbers appear as
/// their JSON text, which is how `serde_json` writes them in these messages.
pub open spec fn unexpected_text(v: JsonV) -> Seq<char> {
    match v {
        JsonV::Null => "null"@,
        JsonV::Bool(b) => if b {
            "boolean `true`"@
        } else {
            "boolean `false`"@
        },
        JsonV::Number(n) => if is_float_text(n) {
            "floating point `"@ + n + "`"@
        } else {
            "integer `"@ + n + "`"@
        },
        JsonV::Str(s) => "string "@ + str_debug_of(s),
        JsonV::Array(_) => "sequence"@,
        JsonV::Object(_) => "map"@,
    }
}

fn write_unexpected(out: &mut String, v: &Json)
    ensures
        final(out)@ == old(out)@ + unexpected_text(v@),
{
    let ghost start = out@;
    match v {
        Json::Null => push_str(out, "null"),
        Json::Bool(b) => {
            if *b {
                push_str(out, "boolean `true`");
            } else {
                push_str(out, "boolean `false`");
            }
        },
        Json::Number(n) => {
            let float = crate::text::contains_char(n.as_str(), '.') || crate::text::contains_char(
                n.as_str(),
                'e',
            ) || crate::text::contains_char(n.as_str(), 'E');
            if float {
                push_str(out, "floating point `");
            } else {
                push_str(out, "integer `");
            }
            push_str(out, n.as_str());
            push_str(out, "`");
            proof {
                assert(out@ =~= start + unexpected_text(v@));
            }
        },
        Json::Str(s) => {
            push_str(out, "string ");
            let d = str_debug(s.as_str());
            push_str(out, d.as_str());
            proof {
                assert(out@ =~= start + unexpected_text(v@));
            }
        },
        Json::Array(_) => push_str(out, "sequence"),
        Json::Object(_) => push_str(out, "map"),
    }
}

fn invalid_type(v: &Json, expected: &str) -> (r: EvaluatorError)
    ensures
        r@ == ErrorV::Json(invalid_type_text(v@, expected@)),
{
    let mut m = owned("invalid type: ");
    write_unexpected(&mut m, v);
    push_str(&mut m, ", expected ");
    push_str(&mut m, expected);
    proof {
        assert(m@ =~= invalid_type_text(v@, expected@));
    }
    EvaluatorError::Json(m)
}

fn missing_field(field: &str) -> (r: EvaluatorError)
    ensures
        r@ == ErrorV::Json(missing_field_text(field@)),
{
    let mut m = owned("missing field `");
    push_str(&mut m, field);
    push_str(&mut m, "`");
    proof {
        assert(m@ =~= missing_field_text(field@));
    }
    EvaluatorError::Json(m)
}

// ---------------------------------------------------------------------------
// Reading blocks and statements out of section documents
// ---------------------------------------------------------------------------

/// A field that may be absent: absent and `null` both mean none.
pub open spec fn optional_field(es: Seq<(Seq<char>, JsonV)>, k: Seq<char>) -> Option<JsonV> {
    match entries_get(es, k) {
        Some(JsonV::Null) => None,
        Some(v) => Some(v),
        None => None,
    }
}

/// A statement read from the fields of a mapping, the way the derived
/// deserializer reads it: fields are visited in key order (`expression` before
/// `id`), so a wrongly typed `expression` is reported first; then the required
/// fields `id` and `report_text` are checked for presence, in that order.
pub open spec fn statement_of(es: Seq<(Seq<char>, JsonV)>) -> Result<ItemV, ErrorV> {
    let expr = entries_get(es, "expression"@);
    let id = entries_get(es, "id"@);
    let rt = entries_get(es, "report_text"@);
    if expr matches Some(e) && !(e is Null) && !(e is Str) {
        Err(ErrorV::Json(invalid_type_text(expr.unwrap(), "a string"@)))
    } else if id matches Some(i) && !(i is Str) {
        Err(ErrorV::Json(invalid_type_text(id.unwrap(), "a string"@)))
    } else if id is None {
        Err(ErrorV::Json(missing_field_text("id"@)))
    } else if rt is None {
        Err(ErrorV::Json(missing_field_text("report_text"@)))
    } else {
        Ok(
            ItemV::Statement(
                StatementV {
                    id: id.unwrap()->Str_0,
                    description: optional_field(es, "description"@),
                    title: optional_field(es, "title"@),
                    expression: match expr {
                        Some(JsonV::Str(e)) => Some(e),
                        _ => None,
                    },
                    report_text: rt.unwrap(),
                },
            ),
        )
    }
}

/// A block entry read from the value of a `block` field: a mapping with a string
/// `name` and a `value`, or a sequence holding exactly those two in that order.
pub open spec fn block_of(v: JsonV) -> Result<ItemV, ErrorV> {
    match v {
        JsonV::Object(es) => {
            let name = entries_get(es, "name"@);
            let value = entries_get(es, "value"@);
            if name matches Some(n) && !(n is Str) {
                Err(ErrorV::Json(invalid_type_text(name.unwrap(), "a string"@)))
            } else if name is None {
                Err(ErrorV::Json(missing_field_text("name"@)))
            } else if value is None {
                Err(ErrorV::Json(missing_field_text("value"@)))
            } else {
                Ok(ItemV::Block { name: name.unwrap()->Str_0, value: value.unwrap() })
            }
        },
        JsonV::Array(items) => {
            if items.len() == 0 {
                Err(ErrorV::Json("invalid length 0, expected struct BlockEntry with 2 elements"@))
            } else if !(items[0] is Str) {
                Err(ErrorV::Json(invalid_type_text(items[0], "a string"@)))
            } else if items.len() == 1 {
                Err(ErrorV::Json("invalid length 1, expected struct BlockEntry with 2 elements"@))
            } else if items.len() > 2 {
                Err(
                    ErrorV::Json(
                        "invalid length "@ + decimal_text(items.len()) + ", expected fewer elements in array"@,
                    ),
                )
            } else {
                Ok(ItemV::Block { name: items[0]->Str_0, value: items[1] })
            }
        },
        _ => Err(ErrorV::Json(invalid_type_text(v, "struct BlockEntry"@))),
    }
}

/// One item of a section: a mapping holding `block` is a block, any other
/// mapping is a statement.
pub open spec fn item_of(v: JsonV) -> Result<ItemV, ErrorV> {
    match v {
        JsonV::Object(es) => match entries_get(es, "block"@) {
            Some(b) => block_of(b),
            None => statement_of(es),
        },
        _ => Err(ErrorV::InvalidProfile("section item must be a mapping"@)),
    }
}

/// The items of a section, or the error of the first item that fails.
pub open spec fn items_of(s: Seq<JsonV>) -> Result<Seq<ItemV>, ErrorV>
    decreases s.len(),
{
    if s.len() == 0 {
        Ok(Seq::empty())
    } else {
        match items_of(s.drop_last()) {
            Err(e) => Err(e),
            Ok(p) => match item_of(s.last()) {
                Err(e) => Err(e),
                Ok(it) => Ok(p.push(it)),
            },
        }
    }
}

/// A section document: an array of items.
pub open spec fn section_of(doc: JsonV) -> Result<Seq<ItemV>, ErrorV> {
    match doc {
        JsonV::Array(items) => items_of(items),
        _ => Err(ErrorV::InvalidProfile("section document must be a YAML array"@)),
    }
}

/// Once a prefix of a section fails, the whole section fails with the same error.
proof fn lemma_items_of_error(s: Seq<JsonV>, n: int)
    requires
        0 <= n <= s.len(),
        items_of(s.take(n)) is Err,
    ensures
        items_of(s) == items_of(s.take(n)),
    decreases s.len() - n,
{
    if n < s.len() {
        assert(s.take(n + 1).drop_last() =~= s.take(n));
        lemma_items_of_error(s, n + 1);
    } else {
        assert(s.take(n) =~= s);
    }
}

fn statement_from(m: &JsonMap) -> (r: Result<ProfileItem, EvaluatorError>)
    ensures
        match r {
            Ok(it) => statement_of(m@) == Ok::<ItemV, ErrorV>(it@),
            Err(e) => statement_of(m@) == Err::<ItemV, ErrorV>(e@),
        },
{
    let expr = m.get("expression");
    let id = m.get("id");
    let rt = m.get("report_text");
    match expr {
        Some(Json::Null) | Some(Json::Str(_)) | None => {},
        Some(other) => {
            return Err(invalid_type(other, "a string"));
        },
    }
    let id_text = match id {
        Some(Json::Str(s)) => s.clone(),
        Some(other) => {
            return Err(invalid_type(other, "a string"));
        },
        None => {
            return Err(missing_field("id"));
        },
    };
    let report_text = match rt {
        Some(v) => v.deep_clone(),
        None => {
            return Err(missing_field("report_text"));
        },
    };
    let description = match m.get("description") {
        Some(Json::Null) | None => None,
        Some(v) => Some(v.deep_clone()),
    };
    let title = match m.get("title") {
        Some(Json::Null) | None => None,
        Some(v) => Some(v.deep_clone()),
    };
    let expression = match expr {
        Some(Json::Str(e)) => Some(e.clone()),
        _ => None,
    };
    Ok(
        ProfileItem::Statement(
            StatementEntry { id: id_text, description, title, expression, report_text },
        ),
    )
}

fn block_from(v: &Json) -> (r: Result<ProfileItem, EvaluatorError>)
    ensures
        match r {
            Ok(it) => block_of(v@) == Ok::<ItemV, ErrorV>(it@),
            Err(e) => block_of(v@) == Err::<ItemV, ErrorV>(e@),
        },
{
    match v {
        Json::Object(m) => {
            let name = m.get("name");
            let value = m.get("value");
            let name_text = match name {
                Some(Json::Str(s)) => s.clone(),
                Some(other) => {
                    return Err(invalid_type(other, "a string"));
                },
                None => {
                    return Err(missing_field("name"));
                },
            };
            match value {
                Some(x) => Ok(ProfileItem::Block(BlockEntry { name: name_text, value: x.deep_clone() })),
                None => Err(missing_field("value")),
            }
        },
        Json::Array(items) => {
            proof {
                crate::json::lemma_view_items(items@);
            }
            if items.len() == 0 {
                return Err(
                    EvaluatorError::Json(
                        owned("invalid length 0, expected struct BlockEntry with 2 elements"),
                    ),
                );
            }
            let name_text = match &items[0] {
                Json::Str(s) => s.clone(),
                other => {
                    return Err(invalid_type(other, "a string"));
                },
            };
            if items.len() == 1 {
                return Err(
                    EvaluatorError::Json(
                        owned("invalid length 1, expected struct BlockEntry with 2 elements"),
                    ),
                );
            }
            if items.len() > 2 {
                let mut m = owned("invalid length ");
                write_decimal(&mut m, items.len());
                push_str(&mut m, ", expected fewer elements in array");
                return Err(EvaluatorError::Json(m));
            }
            Ok(ProfileItem::Block(BlockEntry { name: name_text, value: items[1].deep_clone() }))
        },
        _ => Err(invalid_type(v, "struct BlockEntry")),
    }
}

fn item_from(v: &Json) -> (r: Result<ProfileItem, EvaluatorError>)
    ensures
        match r {
            Ok(it) => item_of(v@) == Ok::<ItemV, ErrorV>(it@),
            Err(e) => item_of(v@) == Err::<ItemV, ErrorV>(e@),
        },
{
    match v {
        Json::Object(m) => match m.get("block") {
            Some(b) => block_from(b),
            None => statement_from(m),
        },
        _ => Err(EvaluatorError::InvalidProfile(owned("section item must be a mapping"))),
    }
}

/// Reads the blocks and statements of a section document.
#[verifier::rlimit(40)]
pub fn parse_section(doc: &Json) -> (r: Result<Vec<ProfileItem>, EvaluatorError>)
    ensures
        match r {
            Ok(items) => section_of(doc@) == Ok::<Seq<ItemV>, ErrorV>(items_view(items@)),
            Err(e) => section_of(doc@) == Err::<Seq<ItemV>, ErrorV>(e@),
        },
{
    match doc {
        Json::Array(items) => {
            proof {
                crate::json::lemma_view_items(items@);
            }
            let ghost vs = crate::json::view_items(items@);
            let mut out: Vec<ProfileItem> = Vec::new();
            let mut i: usize = 0;
            proof {
                assert(vs.take(0) =~= Seq::<JsonV>::empty());
                assert(items_view(out@) =~= Seq::<ItemV>::empty());
            }
            while i < items.len()
                invariant
                    i <= items.len(),
                    vs == crate::json::view_items(items@),
                    doc@ == JsonV::Array(vs),
                    vs.len() == items@.len(),
                    forall|j: int| 0 <= j < vs.len() ==> #[trigger] vs[j] == items@[j]@,
                    items_of(vs.take(i as int)) == Ok::<Seq<ItemV>, ErrorV>(items_view(out@)),
                decreases items.len() - i,
            {
                proof {
                    assert(vs.take(i + 1).drop_last() =~= vs.take(i as int));
                    assert(vs.take(i + 1).last() == vs[i as int]);
                }
                let ghost prev = out@;
                match item_from(&items[i]) {
                    Ok(it) => {
                        out.push(it);
                        proof {
                            assert(items_view(out@) =~= items_view(prev).push(it@));
                        }
                    },
                    Err(e) => {
                        proof {
                            assert(items_of(vs.take(i + 1)) == Err::<Seq<ItemV>, ErrorV>(e@));
                            lemma_items_of_error(vs, i as int + 1);
                            assert(doc@ == JsonV::Array(vs));
                            assert(section_of(doc@) == Err::<Seq<ItemV>, ErrorV>(e@));
                        }
                        return Err(e);
                    },
                }
                i = i + 1;
            }
            proof {
                assert(vs.take(items.len() as int) =~= vs);
            }
            Ok(out)
        },
        _ => Err(EvaluatorError::InvalidProfile(owned("section document must be a YAML array"))),
    }
}

// ---------------------------------------------------------------------------
// Include lists
// ---------------------------------------------------------------------------

/// The texts of an array's elements, when all of them are strings.
pub open spec fn strings_of(items: Seq<JsonV>) -> Option<Seq<Seq<char>>>
    decreases items.len(),
{
    if items.len() == 0 {
        Some(Seq::empty())
    } else {
        match strings_of(items.drop_last()) {
            None => None,
            Some(p) => match items.last() {
                JsonV::Str(t) => Some(p.push(t)),
                _ => None,
            },
        }
    }
}

/// The paths listed under `include` in the information document.
pub open spec fn include_list_of(info: JsonV) -> Result<Seq<Seq<char>>, ErrorV> {
    match info {
        JsonV::Object(es) => match entries_get(es, "include"@) {
            None => Ok(Seq::empty()),
            Some(JsonV::Array(items)) => match strings_of(items) {
                Some(ps) => Ok(ps),
                None => Err(ErrorV::InvalidProfile("include entries must be string file paths"@)),
            },
            Some(_) => Err(ErrorV::InvalidProfile("include must be a YAML array"@)),
        },
        _ => Ok(Seq::empty()),
    }
}

/// The information document with its `include` entry taken out.
pub open spec fn without_include(info: JsonV) -> JsonV {
    match info {
        JsonV::Object(es) => JsonV::Object(entries_remove(es, "include"@)),
        _ => info,
    }
}

pub open spec fn strings_view(v: Seq<String>) -> Seq<Seq<char>> {
    v.map_values(|s: String| s@)
}

/// Takes the `include` entry out of the information document and returns the
/// paths it lists.
pub fn extract_include_list(info: &mut Json) -> (r: Result<Vec<String>, EvaluatorError>)
    ensures
        final(info)@ == without_include(old(info)@),
        match r {
            Ok(paths) => include_list_of(old(info)@) == Ok::<Seq<Seq<char>>, ErrorV>(strings_view(paths@)),
            Err(e) => include_list_of(old(info)@) == Err::<Seq<Seq<char>>, ErrorV>(e@),
        },
{
    match info {
        Json::Object(m) => {
            let removed = m.remove("include");
            match removed {
                None => {
                    let none: Vec<String> = Vec::new();
                    proof {
                        assert(strings_view(none@) =~= Seq::<Seq<char>>::empty());
                    }
                    Ok(none)
                },
                Some(Json::Array(items)) => match strings_from(&items) {
                    Some(paths) => Ok(paths),
                    None => Err(
                        EvaluatorError::InvalidProfile(owned("include entries must be string file paths")),
                    ),
                },
                Some(_) => Err(EvaluatorError::InvalidProfile(owned("include must be a YAML array"))),
            }
        },
        _ => {
            let none: Vec<String> = Vec::new();
            proof {
                assert(strings_view(none@) =~= Seq::<Seq<char>>::empty());
            }
            Ok(none)
        },
    }
}

/// The texts of the elements, when all of them are strings.
fn strings_from(items: &Vec<Json>) -> (r: Option<Vec<String>>)
    ensures
        match r {
            Some(paths) => strings_of(crate::json::view_items(items@)) == Some(strings_view(paths@)),
            None => strings_of(crate::json::view_items(items@)) is None,
        },
{
    proof {
        crate::json::lemma_view_items(items@);
    }
    let ghost vs = crate::json::view_items(items@);
    let mut paths: Vec<String> = Vec::new();
    let mut i: usize = 0;
    proof {
        assert(vs.take(0) =~= Seq::<JsonV>::empty());
        assert(strings_view(paths@) =~= Seq::<Seq<char>>::empty());
    }
    while i < items.len()
        invariant
            i <= items.len(),
            vs == crate::json::view_items(items@),
            vs.len() == items@.len(),
            forall|j: int| 0 <= j < vs.len() ==> #[trigger] vs[j] == items@[j]@,
            strings_of(vs.take(i as int)) == Some(strings_view(paths@)),
        decreases items.len() - i,
    {
        proof {
            assert(vs.take(i + 1).drop_last() =~= vs.take(i as int));
            assert(vs.take(i + 1).last() == vs[i as int]);
        }
        match &items[i] {
            Json::Str(t) => {
                let ghost prev = paths@;
                paths.push(t.clone());
                proof {
                    assert(strings_view(paths@) =~= strings_view(prev).push(t@));
                }
            },
            _ => {
                proof {
                    lemma_strings_of_none(vs, i as int + 1);
                }
                return None;
            },
        }
        i = i + 1;
    }
    proof {
        assert(vs.take(items.len() as int) =~= vs);
    }
    Some(paths)
}

proof fn lemma_strings_of_none(s: Seq<JsonV>, n: int)
    requires
        0 <= n <= s.len(),
        strings_of(s.take(n)) is None,
    ensures
        strings_of(s) is None,
    decreases s.len() - n,
{
    if n < s.len() {
        assert(s.take(n + 1).drop_last() =~= s.take(n));
        lemma_strings_of_none(s, n + 1);
    } else {
        assert(s.take(n) =~= s);
    }
}

// ---------------------------------------------------------------------------
// Assembling a profile from its documents
// ---------------------------------------------------------------------------

/// A profile whose first document has been read, waiting for its includes.
pub struct PendingProfile {
    pub info: Json,
    pub includes: Vec<String>,
    pub section_docs: Vec<Json>,
}

pub struct PendingV {
    pub info: JsonV,
    pub includes: Seq<Seq<char>>,
    pub section_docs: Seq<JsonV>,
}

pub open spec fn docs_view(v: Seq<Json>) -> Seq<JsonV> {
    v.map_values(|j: Json| j@)
}

impl View for PendingProfile {
    type V = PendingV;

    open spec fn view(&self) -> PendingV {
        PendingV {
            info: self.info@,
            includes: strings_view(self.includes@),
            section_docs: docs_view(self.section_docs@),
        }
    }
}

/// The error for a profile without documents; `source` names the file when there is one.
pub open spec fn no_documents_text(source: Option<Seq<char>>) -> Seq<char> {
    match source {
        Some(p) => "profile "@ + p + " has no YAML documents"@,
        None => "profile has no YAML documents"@,
    }
}

/// Reading the documents of a profile file: the first must be a mapping, from
/// which the `include` list is taken; the others are section documents.
pub open spec fn begin_of(docs: Seq<JsonV>, source: Option<Seq<char>>) -> Result<PendingV, ErrorV> {
    if docs.len() == 0 {
        Err(ErrorV::InvalidProfile(no_documents_text(source)))
    } else if !(docs[0] is Object) {
        Err(ErrorV::InvalidProfile("first profile document must be a mapping"@))
    } else {
        match include_list_of(docs[0]) {
            Err(e) => Err(e),
            Ok(paths) => Ok(
                PendingV {
                    info: without_include(docs[0]),
                    includes: paths,
                    section_docs: docs.drop_first(),
                },
            ),
        }
    }
}

/// Reads the YAML text of a profile file (each document's objects put in key
/// order) and then its first document and its include list; `source` names the file when there is one. A text that is not
/// YAML gives the YAML error with the reader's message.
pub fn begin_profile_text(text: &str, source: Option<&str>) -> (r: Result<PendingProfile, EvaluatorError>)
    ensures
        match crate::formats::yaml_documents_of(text@) {
            Err(m) => r matches Err(e) && e@ == ErrorV::Yaml(m),
            Ok(d) => match r {
                Ok(p) => begin_of(crate::raw::normalized_docs(d), opt_str_view(source)) == Ok::<
                    PendingV,
                    ErrorV,
                >(p@),
                Err(e) => begin_of(crate::raw::normalized_docs(d), opt_str_view(source)) == Err::<
                    PendingV,
                    ErrorV,
                >(e@),
            },
        },
{
    match crate::formats::yaml_documents(text) {
        Ok(raws) => {
            let docs = crate::raw::jsons_from_raw(&raws);
            proof {
                assert(docs_view(docs@) =~= docs@.map_values(|j: Json| j@));
            }
            begin_profile(docs, source)
        },
        Err(m) => Err(EvaluatorError::Yaml(m)),
    }
}

/// Reads the first document of a profile and the list of profiles it includes.
pub fn begin_profile(docs: Vec<Json>, source: Option<&str>) -> (r: Result<PendingProfile, EvaluatorError>)
    ensures
        match r {
            Ok(p) => begin_of(docs_view(docs@), opt_str_view(source)) == Ok::<PendingV, ErrorV>(p@),
            Err(e) => begin_of(docs_view(docs@), opt_str_view(source)) == Err::<PendingV, ErrorV>(e@),
        },
{
    let ghost dv = docs_view(docs@);
    if docs.len() == 0 {
        let mut m = owned("profile ");
        match source {
            Some(p) => {
                push_str(&mut m, p);
                push_str(&mut m, " has no YAML documents");
            },
            None => {
                m = owned("profile has no YAML documents");
            },
        }
        return Err(EvaluatorError::InvalidProfile(m));
    }
    let mut docs = docs;
    let mut info = docs.remove(0);
    proof {
        assert(info@ == dv[0]);
        assert(docs_view(docs@) =~= dv.drop_first());
    }
    match &info {
        Json::Object(_) => {},
        _ => {
            return Err(
                EvaluatorError::InvalidProfile(owned("first profile document must be a mapping")),
            );
        },
    }
    let includes = extract_include_list(&mut info)?;
    Ok(PendingProfile { info, includes, section_docs: docs })
}

pub open spec fn opt_str_view(o: Option<&str>) -> Option<Seq<char>> {
    match o {
        Some(s) => Some(s@),
        None => None,
    }
}

/// The section documents read in order, or the error of the first that fails.
pub open spec fn sections_of(docs: Seq<JsonV>) -> Result<Seq<Seq<ItemV>>, ErrorV>
    decreases docs.len(),
{
    if docs.len() == 0 {
        Ok(Seq::empty())
    } else {
        match sections_of(docs.drop_last()) {
            Err(e) => Err(e),
            Ok(p) => match section_of(docs.last()) {
                Err(e) => Err(e),
                Ok(s) => Ok(p.push(s)),
            },
        }
    }
}

/// The information objects of the included profiles merged in order into an empty object.
pub open spec fn included_info(incs: Seq<ProfileV>) -> JsonV
    decreases incs.len(),
{
    if incs.len() == 0 {
        JsonV::Object(Seq::empty())
    } else {
        merged(included_info(incs.drop_last()), incs.last().info)
    }
}

/// The sections of the included profiles, one profile after the other.
pub open spec fn included_sections(incs: Seq<ProfileV>) -> Seq<Seq<ItemV>>
    decreases incs.len(),
{
    if incs.len() == 0 {
        Seq::empty()
    } else {
        included_sections(incs.drop_last()) + incs.last().sections
    }
}

/// A profile assembled from its own documents and its included profiles: the
/// own information object is merged over the included ones, and the own
/// sections come before the included ones.
pub open spec fn finish_of(p: PendingV, incs: Seq<ProfileV>) -> Result<ProfileV, ErrorV> {
    match sections_of(p.section_docs) {
        Err(e) => Err(e),
        Ok(secs) => Ok(
            ProfileV { info: merged(included_info(incs), p.info), sections: secs + included_sections(incs) },
        ),
    }
}

pub open spec fn profiles_view(v: Seq<CompiledProfile>) -> Seq<ProfileV> {
    v.map_values(|c: CompiledProfile| c@)
}

proof fn lemma_sections_of_error(s: Seq<JsonV>, n: int)
    requires
        0 <= n <= s.len(),
        sections_of(s.take(n)) is Err,
    ensures
        sections_of(s) == sections_of(s.take(n)),
    decreases s.len() - n,
{
    if n < s.len() {
        assert(s.take(n + 1).drop_last() =~= s.take(n));
        lemma_sections_of_error(s, n + 1);
    } else {
        assert(s.take(n) =~= s);
    }
}

/// Completes a profile once the profiles it includes have been loaded, in the
/// order of its include list.
#[verifier::rlimit(40)]
pub fn finish_profile(pending: PendingProfile, included: Vec<CompiledProfile>) -> (r: Result<
    CompiledProfile,
    EvaluatorError,
>)
    ensures
        match r {
            Ok(c) => finish_of(pending@, profiles_view(included@)) == Ok::<ProfileV, ErrorV>(c@),
            Err(e) => finish_of(pending@, profiles_view(included@)) == Err::<ProfileV, ErrorV>(e@),
        },
{
    let ghost pv = pending@;
    let ghost iv = profiles_view(included@);
    let PendingProfile { info, includes: _, section_docs } = pending;
    let mut sections: Vec<Vec<ProfileItem>> = Vec::new();
    let mut i: usize = 0;
    proof {
        assert(pv.section_docs.take(0) =~= Seq::<JsonV>::empty());
        assert(sections_view(sections@) =~= Seq::<Seq<ItemV>>::empty());
    }
    while i < section_docs.len()
        invariant
            i <= section_docs.len(),
            pv == pending@,
            iv == profiles_view(included@),
            pv.section_docs == docs_view(section_docs@),
            sections_of(pv.section_docs.take(i as int)) == Ok::<Seq<Seq<ItemV>>, ErrorV>(sections_view(sections@)),
        decreases section_docs.len() - i,
    {
        proof {
            assert(pv.section_docs.take(i + 1).drop_last() =~= pv.section_docs.take(i as int));
            assert(pv.section_docs.take(i + 1).last() == section_docs@[i as int]@);
        }
        let ghost prev = sections@;
        match parse_section(&section_docs[i]) {
            Ok(items) => {
                sections.push(items);
                proof {
                    assert(sections_view(sections@) =~= sections_view(prev).push(items_view(items@)));
                }
            },
            Err(e) => {
                proof {
                    assert(sections_of(pv.section_docs.take(i + 1)) == Err::<Seq<Seq<ItemV>>, ErrorV>(e@));
                    lemma_sections_of_error(pv.section_docs, i + 1);
                }
                return Err(e);
            },
        }
        i = i + 1;
    }
    proof {
        assert(pv.section_docs.take(section_docs.len() as int) =~= pv.section_docs);
    }
    let ghost own = sections_view(sections@);
    let mut acc = Json::Object(JsonMap::new());
    let mut j: usize = 0;
    proof {
        assert(iv.take(0) =~= Seq::<ProfileV>::empty());
        assert(sections_view(sections@) =~= own + included_sections(iv.take(0)));
    }
    for inc in it: included.into_iter()
        invariant
            it.seq() == included@,
            iv == profiles_view(included@),
            acc@ == included_info(iv.take(it.index() as int)),
            sections_view(sections@) == own + included_sections(iv.take(it.index() as int)),
    {
        let ghost k = it.index() as int;
        proof {
            assert(iv.take(k + 1).drop_last() =~= iv.take(k));
            assert(iv.take(k + 1).last() == inc@);
        }
        let CompiledProfile { info: inc_info, sections: inc_sections } = inc;
        deep_merge(&mut acc, inc_info);
        let ghost before = sections@;
        for sec in it2: inc_sections.into_iter()
            invariant
                it2.seq() == inc_sections@,
                sections_view(sections@) == sections_view(before) + sections_view(inc_sections@).take(it2.index() as int),
        {
            let ghost prev = sections@;
            sections.push(sec);
            proof {
                assert(sections_view(inc_sections@).take(it2.index() + 1) =~= sections_view(inc_sections@).take(it2.index() as int).push(items_view(sec@)));
                assert(sections_view(sections@) =~= sections_view(prev).push(items_view(sec@)));
            }
        }
        proof {
            assert(sections_view(inc_sections@).take(inc_sections@.len() as int) =~= sections_view(inc_sections@));
            assert(sections_view(sections@) =~= own + included_sections(iv.take(k + 1)));
        }
    }
    proof {
        assert(iv.take(included@.len() as int) =~= iv);
    }
    deep_merge(&mut acc, info);
    Ok(CompiledProfile { info: acc, sections })
}

// ---------------------------------------------------------------------------
// Include cycles
// ---------------------------------------------------------------------------

/// The profile files being loaded, from the outermost to the current one.
pub struct IncludeStack {
    visiting: Vec<String>,
}

impl View for IncludeStack {
    type V = Seq<Seq<char>>;

    closed spec fn view(&self) -> Seq<Seq<char>> {
        strings_view(self.visiting@)
    }
}

/// Holds of every file but `key`.
pub open spec fn other_than(key: Seq<char>) -> spec_fn(Seq<char>) -> bool {
    |p: Seq<char>| p != key
}

/// No file occurs twice in the sequence.
pub open spec fn no_repeats(s: Seq<Seq<char>>) -> bool {
    forall|i: int, j: int| 0 <= i < j < s.len() ==> #[trigger] s[i] != #[trigger] s[j]
}

impl IncludeStack {
    /// A file is entered at most once at a time.
    #[verifier::type_invariant]
    closed spec fn files_distinct(&self) -> bool {
        no_repeats(self@)
    }

    pub fn new() -> (s: IncludeStack)
        ensures
            s@ == Seq::<Seq<char>>::empty(),
    {
        let s = IncludeStack { visiting: Vec::new() };
        proof {
            assert(s@ =~= Seq::<Seq<char>>::empty());
        }
        s
    }

    /// Starts loading the file `key` (its canonical path); refuses a file that
    /// is already being loaded, naming it as `shown`.
    pub fn enter(&mut self, key: String, shown: &str) -> (r: Result<(), EvaluatorError>)
        ensures
            old(self)@.contains(key@) ==> final(self)@ == old(self)@ && (r matches Err(e) && e@
                == ErrorV::InvalidProfile("include cycle detected at "@ + shown@)),
            !old(self)@.contains(key@) ==> final(self)@ == old(self)@.push(key@) && r is Ok,
            no_repeats(final(self)@),
    {
        proof {
            use_type_invariant(&*self);
        }
        let mut i: usize = 0;
        while i < self.visiting.len()
            invariant
                i <= self.visiting@.len(),
                self@ == strings_view(self.visiting@),
                no_repeats(self@),
                forall|j: int| 0 <= j < i ==> #[trigger] self.visiting@[j]@ != key@,
            decreases self.visiting.len() - i,
        {
            if self.visiting[i] == key {
                assert(self@[i as int] == key@);
                let mut m = owned("include cycle detected at ");
                push_str(&mut m, shown);
                return Err(EvaluatorError::InvalidProfile(m));
            }
            i = i + 1;
        }
        let ghost prev = self@;
        proof {
            assert forall|j: int| 0 <= j < prev.len() implies prev[j] != key@ by {
                assert(prev[j] == self.visiting@[j]@);
            }
        }
        let mut visiting: Vec<String> = Vec::new();
        std::mem::swap(&mut visiting, &mut self.visiting);
        visiting.push(key);
        proof {
            assert(strings_view(visiting@) =~= prev.push(key@));
            let t = prev.push(key@);
            assert forall|a: int, b: int| 0 <= a < b < t.len() implies #[trigger] t[a] != #[trigger] t[b] by {
                if b < prev.len() {
                    assert(t[a] == prev[a] && t[b] == prev[b]);
                } else {
                    assert(t[a] == prev[a]);
                }
            }
        }
        self.visiting = visiting;
        Ok(())
    }

    /// Finishes loading the file `key`.
    pub fn leave(&mut self, key: &str)
        ensures
            final(self)@ == old(self)@.filter(other_than(key@)),
            no_repeats(final(self)@),
    {
        proof {
            use_type_invariant(&*self);
        }
        let ghost start = self@;
        let mut kept: Vec<String> = Vec::new();
        let mut i: usize = 0;
        let k = owned(key);
        proof {
            assert(start.take(0) =~= Seq::<Seq<char>>::empty());
            reveal_with_fuel(Seq::<_>::filter, 1);
            assert(strings_view(kept@) =~= start.take(0).filter(other_than(key@)));
        }
        while i < self.visiting.len()
            invariant
                i <= self.visiting@.len(),
                start == strings_view(self.visiting@),
                k@ == key@,
                strings_view(kept@) == start.take(i as int).filter(other_than(key@)),
                no_repeats(start),
                no_repeats(strings_view(kept@)),
                forall|a: int| 0 <= a < kept@.len() ==> exists|b: int| 0 <= b < i && #[trigger] kept@[a]@ == start[b],
            decreases self.visiting.len() - i,
        {
            let ghost prev = kept@;
            proof {
                reveal_with_fuel(Seq::<_>::filter, 1);
                assert(start.take(i + 1).drop_last() =~= start.take(i as int));
                assert(start.take(i + 1).last() == self.visiting@[i as int]@);
            }
            if self.visiting[i] != k {
                kept.push(self.visiting[i].clone());
                proof {
                    let kv = strings_view(kept@);
                    assert(kv =~= strings_view(prev).push(self.visiting@[i as int]@));
                    assert(start[i as int] == self.visiting@[i as int]@);
                    assert forall|a: int| 0 <= a < kept@.len() implies exists|b: int| 0 <= b < i + 1 && #[trigger] kept@[a]@ == start[b] by {
                        if a < prev.len() {
                            assert(kept@[a] == prev[a]);
                            let b = choose|b: int| 0 <= b < i && prev[a]@ == start[b];
                            assert(kept@[a]@ == start[b]);
                        } else {
                            assert(kept@[a]@ == start[i as int]);
                        }
                    }
                    assert forall|a: int, b: int| 0 <= a < b < kv.len() implies #[trigger] kv[a] != #[trigger] kv[b] by {
                        if b < prev.len() {
                            assert(kv[a] == strings_view(prev)[a] && kv[b] == strings_view(prev)[b]);
                        } else {
                            assert(kv[a] == prev[a]@);
                            let c = choose|c: int| 0 <= c < i && prev[a]@ == start[c];
                            assert(kv[b] == start[i as int]);
                        }
                    }
                }
            }
            i = i + 1;
        }
        proof {
            assert(start.take(self.visiting@.len() as int) =~= start);
        }
        self.visiting = kept;
    }
}

} // verus!
