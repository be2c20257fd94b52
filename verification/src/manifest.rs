//! The rule manifest: an identifier, a creation timestamp and a map of named
//! fields holding JSON values (slug, title, state, scopes, feedback counts).
use vstd::prelude::*;

use crate::text::{ascii_lower, chars_eq, chars_of, owned, starts_with, str_eq};

verus! {

/// Rule identifiers are UUIDs, held as their 128-bit value.
pub type RuleId = u128;

/// Lifecycle state of a rule.
#[derive(Debug, Clone, Copy, PartialEq, Eq, Structural)]
pub enum RuleState {
    Draft,
    Reviewed,
    Adopted,
    Deprecated,
}

impl RuleState {
    /// The lower-case name of the state.
    pub open spec fn name(self) -> Seq<char> {
        match self {
            RuleState::Draft => "draft"@,
            RuleState::Reviewed => "reviewed"@,
            RuleState::Adopted => "adopted"@,
            RuleState::Deprecated => "deprecated"@,
        }
    }

    pub fn as_str(self) -> (r: &'static str)
        ensures
            r@ == self.name(),
    {
        match self {
            RuleState::Draft => "draft",
            RuleState::Reviewed => "reviewed",
            RuleState::Adopted => "adopted",
            RuleState::Deprecated => "deprecated",
        }
    }
}

// ---------------------------------------------------------------------------
// JSON values

/// A JSON number: signed or unsigned integer, or the text of a float.
#[derive(Debug)]
pub enum JsonNumber {
    Int(i64),
    UInt(u64),
    Float(String),
}

/// A JSON value as stored in manifest fields.
#[derive(Debug)]
pub enum JsonValue {
    Null,
    Bool(bool),
    Number(JsonNumber),
    String(String),
    Array(Vec<JsonValue>),
    Object(Vec<(String, JsonValue)>),
}

/// Mathematical view of a JSON number.
pub enum NumberView {
    Int(int),
    UInt(int),
    Float(Seq<char>),
}

/// Mathematical view of a JSON value.
pub enum JsonView {
    Null,
    Bool(bool),
    Number(NumberView),
    String(Seq<char>),
    Array(Seq<JsonView>),
    Object(Seq<(Seq<char>, JsonView)>),
}

pub open spec fn number_view(n: JsonNumber) -> NumberView {
    match n {
        JsonNumber::Int(i) => NumberView::Int(i as int),
        JsonNumber::UInt(u) => NumberView::UInt(u as int),
        JsonNumber::Float(s) => NumberView::Float(s@),
    }
}

pub open spec fn json_view(v: JsonValue) -> JsonView
    decreases v,
{
    match v {
        JsonValue::Null => JsonView::Null,
        JsonValue::Bool(b) => JsonView::Bool(b),
        JsonValue::Number(n) => JsonView::Number(number_view(n)),
        JsonValue::String(s) => JsonView::String(s@),
        JsonValue::Array(items) => JsonView::Array(json_views(items@)),
        JsonValue::Object(entries) => JsonView::Object(json_entry_views(entries@)),
    }
}

pub open spec fn json_views(s: Seq<JsonValue>) -> Seq<JsonView>
    decreases s,
{
    if s.len() == 0 {
        Seq::empty()
    } else {
        json_views(s.drop_last()).push(json_view(s.last()))
    }
}

pub open spec fn json_entry_views(s: Seq<(String, JsonValue)>) -> Seq<(Seq<char>, JsonView)>
    decreases s,
{
    if s.len() == 0 {
        Seq::empty()
    } else {
        json_entry_views(s.drop_last()).push((s.last().0@, json_view(s.last().1)))
    }
}

impl View for JsonValue {
    type V = JsonView;

    open spec fn view(&self) -> JsonView {
        json_view(*self)
    }
}

/// `serde_json::Value::as_str`.
pub open spec fn view_as_str(v: JsonView) -> Option<Seq<char>> {
    match v {
        JsonView::String(s) => Some(s),
        _ => None,
    }
}

/// `serde_json::Value::as_i64`: integers that fit in `i64`.
pub open spec fn view_as_i64(v: JsonView) -> Option<int> {
    match v {
        JsonView::Number(NumberView::Int(i)) => Some(i),
        JsonView::Number(NumberView::UInt(u)) => if u <= i64::MAX {
            Some(u)
        } else {
            None
        },
        _ => None,
    }
}

/// The string items of a JSON array, in order (`filter_map(Value::as_str)`).
pub open spec fn string_items(items: Seq<JsonView>) -> Seq<Seq<char>>
    decreases items.len(),
{
    if items.len() == 0 {
        Seq::empty()
    } else {
        let init = string_items(items.drop_last());
        match items.last() {
            JsonView::String(s) => init.push(s),
            _ => init,
        }
    }
}

/// The string items of an optional array value (empty when absent or not an array).
pub open spec fn view_string_array(v: Option<JsonView>) -> Seq<Seq<char>> {
    match v {
        Some(JsonView::Array(items)) => string_items(items),
        _ => Seq::empty(),
    }
}

impl JsonValue {
    pub fn as_str(&self) -> (r: Option<&str>)
        ensures
            r matches Some(s) ==> view_as_str(self@) == Some(s@),
            r is None ==> view_as_str(self@) is None,
    {
        match self {
            JsonValue::String(s) => Some(s.as_str()),
            _ => None,
        }
    }

    pub fn as_i64(&self) -> (r: Option<i64>)
        ensures
            r matches Some(n) ==> view_as_i64(self@) == Some(n as int),
            r is None ==> view_as_i64(self@) is None,
    {
        match self {
            JsonValue::Number(JsonNumber::Int(i)) => Some(*i),
            JsonValue::Number(JsonNumber::UInt(u)) => if *u <= 9223372036854775807u64 {
                Some(*u as i64)
            } else {
                None
            },
            _ => None,
        }
    }

    /// A JSON string holding a copy of `s`.
    pub fn string(s: &str) -> (v: JsonValue)
        ensures
            v@ == JsonView::String(s@),
    {
        JsonValue::String(owned(s))
    }

    /// A JSON integer.
    pub fn integer(n: i64) -> (v: JsonValue)
        ensures
            v@ == JsonView::Number(NumberView::Int(n as int)),
    {
        JsonValue::Number(JsonNumber::Int(n))
    }

    /// A JSON array of copies of the given strings.
    pub fn string_array(items: &Vec<String>) -> (v: JsonValue)
        ensures
            view_string_array(Some(v@)) == Seq::new(items@.len(), |i: int| items@[i]@),
    {
        let mut out: Vec<JsonValue> = Vec::new();
        let mut i: usize = 0;
        while i < items.len()
            invariant
                0 <= i <= items@.len(),
                out@.len() == i,
                forall|j: int| 0 <= j < i ==> json_view(#[trigger] out@[j]) == JsonView::String(
                    items@[j]@,
                ),
                string_items(json_views(out@)) == Seq::new(i as nat, |j: int| items@[j]@),
            decreases items@.len() - i,
        {
            let item = JsonValue::String(owned(items[i].as_str()));
            let ghost before = out@;
            let ghost iv = json_view(item);
            out.push(item);
            assert(out@.drop_last() == before);
            assert(json_views(out@).drop_last() =~= json_views(before));
            assert(json_views(out@).last() == iv);
            assert(string_items(json_views(out@)) =~= Seq::new((i + 1) as nat, |j: int| items@[j]@));
            i += 1;
        }
        JsonValue::Array(out)
    }
}

// ---------------------------------------------------------------------------
// Field maps

/// The fields named by an entry list; a later entry for a key replaces an
/// earlier one.
pub open spec fn fields_map(e: Seq<(Seq<char>, JsonView)>) -> Map<Seq<char>, JsonView>
    decreases e.len(),
{
    if e.len() == 0 {
        Map::empty()
    } else {
        fields_map(e.drop_last()).insert(e.last().0, e.last().1)
    }
}

/// Entries whose key is not `k`.
pub open spec fn without_key(e: Seq<(Seq<char>, JsonView)>, k: Seq<char>) -> Seq<(Seq<char>, JsonView)>
    decreases e.len(),
{
    if e.len() == 0 {
        e
    } else {
        let init = without_key(e.drop_last(), k);
        if e.last().0 == k {
            init
        } else {
            init.push(e.last())
        }
    }
}

pub proof fn lemma_without_key(e: Seq<(Seq<char>, JsonView)>, k: Seq<char>)
    ensures
        fields_map(without_key(e, k)) == fields_map(e).remove(k),
    decreases e.len(),
{
    if e.len() > 0 {
        lemma_without_key(e.drop_last(), k);
        let init = without_key(e.drop_last(), k);
        if e.last().0 != k {
            assert(init.push(e.last()).drop_last() == init);
        }
        assert(fields_map(without_key(e, k)) =~= fields_map(e).remove(k));
    }
}

pub proof fn lemma_entry_views_take(e: Seq<(String, JsonValue)>, i: int)
    requires
        0 <= i <= e.len(),
    ensures
        json_entry_views(e.take(i)).len() == i,
        json_entry_views(e.take(i)) == json_entry_views(e).take(i),
        forall|j: int| 0 <= j < i ==> #[trigger] json_entry_views(e)[j] == (e[j].0@, json_view(e[j].1)),
    decreases e.len(),
{
    lemma_entry_views_index(e);
    if i < e.len() {
        lemma_entry_views_take(e.drop_last(), i);
        assert(e.drop_last().take(i) =~= e.take(i));
    } else {
        assert(e.take(i) =~= e);
    }
    assert(json_entry_views(e.take(i)) =~= json_entry_views(e).take(i));
}

pub proof fn lemma_json_views_index(e: Seq<JsonValue>)
    ensures
        json_views(e).len() == e.len(),
        forall|j: int| 0 <= j < e.len() ==> #[trigger] json_views(e)[j] == json_view(e[j]),
    decreases e.len(),
{
    if e.len() > 0 {
        lemma_json_views_index(e.drop_last());
    }
}

pub proof fn lemma_json_views_take(e: Seq<JsonValue>, i: int)
    requires
        0 <= i <= e.len(),
    ensures
        json_views(e.take(i)) == json_views(e).take(i),
    decreases e.len(),
{
    lemma_json_views_index(e);
    lemma_json_views_index(e.take(i));
    assert(json_views(e.take(i)) =~= json_views(e).take(i));
}

pub proof fn lemma_entry_views_index(e: Seq<(String, JsonValue)>)
    ensures
        json_entry_views(e).len() == e.len(),
        forall|j: int| 0 <= j < e.len() ==> #[trigger] json_entry_views(e)[j] == (e[j].0@, json_view(e[j].1)),
    decreases e.len(),
{
    if e.len() > 0 {
        lemma_entry_views_index(e.drop_last());
    }
}

/// The value of the last entry with key `k`.
pub fn fields_get<'a>(e: &'a Vec<(String, JsonValue)>, k: &str) -> (r: Option<&'a JsonValue>)
    ensures
        r matches Some(v) ==> fields_map(json_entry_views(e@)).contains_key(k@) && fields_map(json_entry_views(e@))[k@] == v@,
        r is None ==> !fields_map(json_entry_views(e@)).contains_key(k@),
{
    let ghost ev = json_entry_views(e@);
    proof {
        lemma_entry_views_index(e@);
    }
    let mut i = e.len();
    assert(ev.take(i as int) =~= ev);
    while i > 0
        invariant
            0 <= i <= e@.len(),
            ev == json_entry_views(e@),
            ev.len() == e@.len(),
            forall|j: int| 0 <= j < e@.len() ==> #[trigger] ev[j] == (e@[j].0@, json_view(e@[j].1)),
            forall|j: int| i <= j < e@.len() ==> (#[trigger] e@[j]).0@ != k@,
            fields_map(ev.take(i as int)).contains_key(k@) == fields_map(ev).contains_key(k@),
            fields_map(ev.take(i as int)).contains_key(k@) ==> fields_map(ev)[k@] == fields_map(
                ev.take(i as int),
            )[k@],
        decreases i,
    {
        assert(ev.take(i as int).drop_last() =~= ev.take(i - 1));
        assert(ev.take(i as int).last() == ev[i - 1]);
        if str_eq(e[i - 1].0.as_str(), k) {
            return Some(&e[i - 1].1);
        }
        i -= 1;
    }
    assert(fields_map(ev.take(0)) =~= Map::<Seq<char>, JsonView>::empty());
    None
}

/// Entries of `e` with key `k` left out.
pub fn fields_without(e: &Vec<(String, JsonValue)>, k: &str) -> (r: Vec<(String, JsonValue)>)
    ensures
        fields_map(json_entry_views(r@)) == fields_map(json_entry_views(e@)).remove(k@),
{
    let ghost ev = json_entry_views(e@);
    proof {
        lemma_entry_views_index(e@);
    }
    let mut r: Vec<(String, JsonValue)> = Vec::new();
    let mut i: usize = 0;
    while i < e.len()
        invariant
            0 <= i <= e@.len(),
            ev == json_entry_views(e@),
            ev.len() == e@.len(),
            forall|j: int| 0 <= j < e@.len() ==> #[trigger] ev[j] == (e@[j].0@, json_view(e@[j].1)),
            json_entry_views(r@) == without_key(ev.take(i as int), k@),
        decreases e@.len() - i,
    {
        assert(ev.take(i + 1).drop_last() =~= ev.take(i as int));
        if !str_eq(e[i].0.as_str(), k) {
            let ghost before = r@;
            r.push(copy_entry(&e[i]));
            assert(r@.drop_last() == before);
        }
        i += 1;
    }
    assert(ev.take(e@.len() as int) =~= ev);
    proof {
        lemma_without_key(ev, k@);
    }
    r
}

fn copy_entry(x: &(String, JsonValue)) -> (r: (String, JsonValue))
    ensures
        r.0@ == x.0@,
        json_view(r.1) == json_view(x.1),
{
    (x.0.clone(), copy_json(&x.1))
}

/// A copy of a JSON value.
pub fn copy_json(v: &JsonValue) -> (r: JsonValue)
    ensures
        json_view(r) == json_view(*v),
    decreases v,
{
    match v {
        JsonValue::Null => JsonValue::Null,
        JsonValue::Bool(b) => JsonValue::Bool(*b),
        JsonValue::Number(JsonNumber::Int(i)) => JsonValue::Number(JsonNumber::Int(*i)),
        JsonValue::Number(JsonNumber::UInt(u)) => JsonValue::Number(JsonNumber::UInt(*u)),
        JsonValue::Number(JsonNumber::Float(f)) => JsonValue::Number(JsonNumber::Float(f.clone())),
        JsonValue::String(s) => JsonValue::String(s.clone()),
        JsonValue::Array(items) => {
            let mut out: Vec<JsonValue> = Vec::new();
            let mut i: usize = 0;
            while i < items.len()
                invariant
                    0 <= i <= items@.len(),
                    *v == JsonValue::Array(*items),
                    json_views(out@) == json_views(items@.take(i as int)),
                decreases items@.len() - i,
            {
                assert(decreases_to!(*v => (*v)->Array_0));
                assert(decreases_to!(*items => items@));
                assert(decreases_to!(items@ => items@[i as int]));
                let c = copy_json(&items[i]);
                let ghost before = out@;
                out.push(c);
                assert(out@.drop_last() == before);
                assert(items@.take(i + 1).drop_last() =~= items@.take(i as int));
                i += 1;
            }
            assert(items@.take(items@.len() as int) =~= items@);
            JsonValue::Array(out)
        },
        JsonValue::Object(entries) => {
            let mut out: Vec<(String, JsonValue)> = Vec::new();
            let mut i: usize = 0;
            while i < entries.len()
                invariant
                    0 <= i <= entries@.len(),
                    *v == JsonValue::Object(*entries),
                    json_entry_views(out@) == json_entry_views(entries@.take(i as int)),
                decreases entries@.len() - i,
            {
                let k = entries[i].0.clone();
                assert(decreases_to!(*v => (*v)->Object_0));
                assert(decreases_to!(*entries => entries@));
                assert(decreases_to!(entries@ => entries@[i as int]));
                assert(decreases_to!(entries@[i as int] => entries@[i as int].1));
                let c = copy_json(&entries[i].1);
                let ghost before = out@;
                out.push((k, c));
                assert(out@.drop_last() == before);
                assert(entries@.take(i + 1).drop_last() =~= entries@.take(i as int));
                i += 1;
            }
            assert(entries@.take(entries@.len() as int) =~= entries@);
            JsonValue::Object(out)
        },
    }
}

// ---------------------------------------------------------------------------
// Manifest

/// A rule entry: identifier, creation time (RFC 3339) and named fields.
#[derive(Debug)]
pub struct RuleManifest {
    pub id: RuleId,
    pub created_at: String,
    pub extra: Vec<(String, JsonValue)>,
}

/// A fresh random (version 4) UUID, as its 128-bit value (`uuid::Uuid::new_v4`).
#[verifier::external_body]
pub(crate) fn new_uuid() -> u128 {
    uuid::Uuid::new_v4().as_u128()
}

/// The current time in RFC 3339 form (`chrono::Utc::now`).
#[verifier::external_body]
pub(crate) fn now_rfc3339() -> String {
    chrono::Utc::now().to_rfc3339()
}

// ---------------------------------------------------------------------------
// UUID text

/// The lower-case hexadecimal digit of `d` (0 to 15).
pub open spec fn hex_digit(d: int) -> char {
    if d < 10 {
        (d + 48) as char
    } else {
        (d + 87) as char
    }
}

/// `16` to the power `n`.
pub open spec fn pow16(n: nat) -> int
    decreases n,
{
    if n == 0 {
        1
    } else {
        16 * pow16((n - 1) as nat)
    }
}

/// The 32 hexadecimal digits of a UUID, most significant first.
pub open spec fn uuid_hex(id: u128) -> Seq<char> {
    Seq::new(32, |i: int| hex_digit((id as int / pow16((31 - i) as nat)) % 16))
}

/// The hyphenated lower-case text of a UUID: its digits in groups of 8, 4, 4,
/// 4 and 12, joined by `-` (what `uuid::Uuid`'s `Display` writes).
pub open spec fn uuid_text(id: u128) -> Seq<char> {
    let h = uuid_hex(id);
    h.subrange(0, 8) + seq!['-'] + h.subrange(8, 12) + seq!['-'] + h.subrange(12, 16) + seq!['-']
        + h.subrange(16, 20) + seq!['-'] + h.subrange(20, 32)
}

/// `uuid::Uuid::from_u128(id).to_string()`: the hyphenated lower-case form.
#[verifier::external_body]
pub(crate) fn uuid_to_string(id: u128) -> (s: String)
    ensures
        s@ == uuid_text(id),
{
    uuid::Uuid::from_u128(id).to_string()
}

/// The value of a hexadecimal digit of either case.
pub open spec fn hex_value(c: char) -> Option<int> {
    if '0' <= c && c <= '9' {
        Some(c as int - 48)
    } else if 'a' <= c && c <= 'f' {
        Some(c as int - 87)
    } else if 'A' <= c && c <= 'F' {
        Some(c as int - 55)
    } else {
        None
    }
}

/// The number written by hexadecimal digits, most significant first.
pub open spec fn hex_number(s: Seq<char>) -> Option<int>
    decreases s.len(),
{
    if s.len() == 0 {
        Some(0)
    } else {
        match (hex_number(s.drop_last()), hex_value(s.last())) {
            (Some(a), Some(d)) => Some(a * 16 + d),
            _ => None,
        }
    }
}

/// The number of a hyphenated UUID text: 36 characters with `-` at 8, 13,
/// 18 and 23 and hexadecimal digits elsewhere.
pub open spec fn hyphenated_value(s: Seq<char>) -> Option<int> {
    if s.len() == 36 && s[8] == '-' && s[13] == '-' && s[18] == '-' && s[23] == '-' {
        hex_number(
            s.subrange(0, 8) + s.subrange(9, 13) + s.subrange(14, 18) + s.subrange(19, 23)
                + s.subrange(24, 36),
        )
    } else {
        None
    }
}

/// The UUID `str::parse::<uuid::Uuid>` reads from a text, if any: 32
/// hexadecimal digits; a hyphenated text; a hyphenated text in braces; or a
/// hyphenated text behind `urn:uuid:` in any ASCII case.
pub open spec fn uuid_value(s: Seq<char>) -> Option<u128> {
    let v = if s.len() == 32 {
        hex_number(s)
    } else if s.len() == 36 {
        hyphenated_value(s)
    } else if s.len() == 38 && s[0] == '{' && s[37] == '}' {
        hyphenated_value(s.subrange(1, 37))
    } else if s.len() == 45 && Seq::new(9, |i: int| ascii_lower(s[i])) == "urn:uuid:"@ {
        hyphenated_value(s.skip(9))
    } else {
        None
    };
    match v {
        Some(n) => Some(n as u128),
        None => None,
    }
}

/// The text of the error `str::parse::<uuid::Uuid>` reports for a text it
/// refuses.
pub uninterp spec fn uuid_parse_error(s: Seq<char>) -> Seq<char>;

/// `s.parse::<uuid::Uuid>()`: the UUID of an accepted text, or the text of
/// the error, which depends on the text alone.
#[verifier::external_body]
pub(crate) fn parse_uuid(s: &str) -> (r: Result<u128, String>)
    ensures
        match r {
            Ok(a) => uuid_value(s@) == Some(a),
            Err(m) => uuid_value(s@) is None && m@ == uuid_parse_error(s@),
        },
{
    s.parse::<uuid::Uuid>().map(|u| u.as_u128()).map_err(|e| e.to_string())
}

/// Every character of a UUID text is a lower-case hexadecimal digit or `-`.
pub open spec fn is_uuid_char(c: char) -> bool {
    ('0' <= c && c <= '9') || ('a' <= c && c <= 'f') || c == '-'
}

pub proof fn lemma_uuid_text_chars(id: u128)
    ensures
        uuid_text(id).len() == 36,
        forall|i: int| 0 <= i < 36 ==> is_uuid_char(#[trigger] uuid_text(id)[i]),
{
    let h = uuid_hex(id);
    assert forall|i: int| 0 <= i < 32 implies is_uuid_char(#[trigger] h[i]) by {
        let d = (id as int / pow16((31 - i) as nat)) % 16;
        assert(0 <= d < 16);
    }
    let t = uuid_text(id);
    assert forall|i: int| 0 <= i < 36 implies is_uuid_char(#[trigger] t[i]) by {
        if i < 8 {
            assert(t[i] == h[i]);
        } else if i == 8 || i == 13 || i == 18 || i == 23 {
        } else if i < 13 {
            assert(t[i] == h[i - 1]);
        } else if i < 18 {
            assert(t[i] == h[i - 2]);
        } else if i < 23 {
            assert(t[i] == h[i - 3]);
        } else {
            assert(t[i] == h[i - 4]);
        }
    }
}

proof fn lemma_hex_number_none(s: Seq<char>, j: int)
    requires
        0 <= j < s.len(),
        hex_value(s[j]) is None,
    ensures
        hex_number(s) is None,
    decreases s.len(),
{
    if j < s.len() - 1 {
        assert(s.drop_last()[j] == s[j]);
        lemma_hex_number_none(s.drop_last(), j);
    }
}

/// A text holding a `/` is no UUID, and no UUID text starts with it.
pub proof fn lemma_slash_is_no_uuid(s: Seq<char>, id: u128)
    requires
        s.contains('/'),
    ensures
        uuid_value(s) is None,
        !starts_with(uuid_text(id), s),
{
    let j = choose|j: int| 0 <= j < s.len() && s[j] == '/';
    lemma_uuid_text_chars(id);
    if starts_with(uuid_text(id), s) {
        assert(uuid_text(id)[j] == s[j]);
    }
    if s.len() == 32 {
        lemma_hex_number_none(s, j);
    } else if s.len() == 36 {
        lemma_hyphenated_none(s, j);
    } else if s.len() == 38 && s[0] == '{' && s[37] == '}' {
        lemma_hyphenated_none(s.subrange(1, 37), j - 1);
    } else if s.len() == 45 && Seq::new(9, |i: int| ascii_lower(s[i])) == "urn:uuid:"@ {
        reveal_strlit("urn:uuid:");
        if j < 9 {
            assert(Seq::new(9, |i: int| ascii_lower(s[i]))[j] == '/');
        } else {
            lemma_hyphenated_none(s.skip(9), j - 9);
        }
    }
}

proof fn lemma_hyphenated_none(s: Seq<char>, j: int)
    requires
        0 <= j < s.len(),
        s[j] == '/',
    ensures
        hyphenated_value(s) is None,
{
    if s.len() == 36 && s[8] == '-' && s[13] == '-' && s[18] == '-' && s[23] == '-' {
        let t = s.subrange(0, 8) + s.subrange(9, 13) + s.subrange(14, 18) + s.subrange(19, 23)
            + s.subrange(24, 36);
        let k = if j < 8 {
            j
        } else if j < 13 {
            j - 1
        } else if j < 18 {
            j - 2
        } else if j < 23 {
            j - 3
        } else {
            j - 4
        };
        assert(t[k] == '/');
        lemma_hex_number_none(t, k);
    }
}

pub open spec fn opt_view(o: Option<&str>) -> Option<Seq<char>> {
    match o {
        Some(s) => Some(s@),
        None => None,
    }
}

pub open spec fn opt_i64_view(o: Option<i64>) -> Option<int> {
    match o {
        Some(n) => Some(n as int),
        None => None,
    }
}

/// Lengths of the field names that `RuleManifest::new` sets, and the first
/// characters of those that share a length: enough to tell them apart.
proof fn lemma_manifest_keys_distinct()
    ensures
        "slug"@.len() == 4,
        "title"@.len() == 5,
        "type"@.len() == 4,
        "state"@.len() == 5,
        "file_kind"@.len() == 9,
        "section"@.len() == 7,
        "body"@.len() == 4,
        "order_key"@.len() == 9,
        "repo_scopes"@.len() == 11,
        "path_scopes"@.len() == 11,
        "sentence_anchors"@.len() == 16,
        "feedback_helpful_count"@.len() == 22,
        "feedback_mixed_count"@.len() == 20,
        "feedback_not_helpful_count"@.len() == 26,
        "feedback_note_count"@.len() == 19,
        "feedback_unresolved_count"@.len() == 25,
        "slug"@[0] == 's' && "type"@[0] == 't' && "body"@[0] == 'b',
        "title"@[0] == 't' && "state"@[0] == 's',
        "file_kind"@[0] == 'f' && "order_key"@[0] == 'o',
        "repo_scopes"@[0] == 'r' && "path_scopes"@[0] == 'p',
{
    reveal_strlit("slug");
    reveal_strlit("title");
    reveal_strlit("type");
    reveal_strlit("state");
    reveal_strlit("file_kind");
    reveal_strlit("section");
    reveal_strlit("body");
    reveal_strlit("order_key");
    reveal_strlit("repo_scopes");
    reveal_strlit("path_scopes");
    reveal_strlit("sentence_anchors");
    reveal_strlit("feedback_helpful_count");
    reveal_strlit("feedback_mixed_count");
    reveal_strlit("feedback_not_helpful_count");
    reveal_strlit("feedback_note_count");
    reveal_strlit("feedback_unresolved_count");
}

/// A manifest as values: its id, creation time and field map.
pub struct ManifestView {
    pub id: RuleId,
    pub created_at: Seq<char>,
    pub fields: Map<Seq<char>, JsonView>,
}

impl View for RuleManifest {
    type V = ManifestView;

    open spec fn view(&self) -> ManifestView {
        ManifestView { id: self.id, created_at: self.created_at@, fields: self.fields() }
    }
}

/// A string field of a field map.
pub open spec fn map_str(f: Map<Seq<char>, JsonView>, k: Seq<char>) -> Option<Seq<char>> {
    if f.contains_key(k) {
        view_as_str(f[k])
    } else {
        None
    }
}

/// An integer field of a field map.
pub open spec fn map_int(f: Map<Seq<char>, JsonView>, k: Seq<char>) -> Option<int> {
    if f.contains_key(k) {
        view_as_i64(f[k])
    } else {
        None
    }
}

impl RuleManifest {
    /// The field map.
    pub open spec fn fields(self) -> Map<Seq<char>, JsonView> {
        fields_map(json_entry_views(self.extra@))
    }

    pub open spec fn field(self, k: Seq<char>) -> Option<JsonView> {
        if self.fields().contains_key(k) {
            Some(self.fields()[k])
        } else {
            None
        }
    }

    /// A string field.
    pub open spec fn str_field(self, k: Seq<char>) -> Option<Seq<char>> {
        match self.field(k) {
            Some(v) => view_as_str(v),
            None => None,
        }
    }

    /// An integer field.
    pub open spec fn int_field(self, k: Seq<char>) -> Option<int> {
        match self.field(k) {
            Some(v) => view_as_i64(v),
            None => None,
        }
    }

    /// The string items of an array field.
    pub open spec fn strings_field(self, k: Seq<char>) -> Seq<Seq<char>> {
        view_string_array(self.field(k))
    }

    pub open spec fn spec_slug(self) -> Option<Seq<char>> {
        self.str_field("slug"@)
    }

    pub open spec fn spec_title(self) -> Option<Seq<char>> {
        self.str_field("title"@)
    }

    pub open spec fn spec_state(self) -> Option<Seq<char>> {
        self.str_field("state"@)
    }

    pub open spec fn spec_file_kind(self) -> Option<Seq<char>> {
        self.str_field("file_kind"@)
    }

    pub open spec fn spec_section(self) -> Option<Seq<char>> {
        self.str_field("section"@)
    }

    pub open spec fn spec_body(self) -> Option<Seq<char>> {
        self.str_field("body"@)
    }

    pub open spec fn spec_order_key(self) -> Option<int> {
        self.int_field("order_key"@)
    }

    pub open spec fn spec_repo_scopes(self) -> Seq<Seq<char>> {
        self.strings_field("repo_scopes"@)
    }

    pub open spec fn spec_path_scopes(self) -> Seq<Seq<char>> {
        self.strings_field("path_scopes"@)
    }

    pub open spec fn spec_helpful(self) -> Option<int> {
        self.int_field("feedback_helpful_count"@)
    }

    pub open spec fn spec_mixed(self) -> Option<int> {
        self.int_field("feedback_mixed_count"@)
    }

    pub open spec fn spec_not_helpful(self) -> Option<int> {
        self.int_field("feedback_not_helpful_count"@)
    }

    pub open spec fn spec_note_count(self) -> Option<int> {
        self.int_field("feedback_note_count"@)
    }

    pub open spec fn spec_unresolved(self) -> Option<int> {
        self.int_field("feedback_unresolved_count"@)
    }

    /// A manifest with no fields.
    pub fn from_parts(id: RuleId, created_at: String) -> (m: RuleManifest)
        ensures
            m.id == id,
            m.created_at == created_at,
            m.fields() == Map::<Seq<char>, JsonView>::empty(),
    {
        RuleManifest { id, created_at, extra: Vec::new() }
    }

    /// The raw field entries.
    pub fn extra(&self) -> (r: &Vec<(String, JsonValue)>)
        ensures
            fields_map(json_entry_views(r@)) == self.fields(),
    {
        &self.extra
    }

    /// Sets field `key` to `value`.
    pub fn insert_field(&mut self, key: &str, value: JsonValue)
        ensures
            final(self).fields() == old(self).fields().insert(key@, value@),
            final(self).id == old(self).id,
            final(self).created_at == old(self).created_at,
    {
        let mut rest = fields_without(&self.extra, key);
        let ghost before = rest@;
        let ghost vv = json_view(value);
        let k = owned(key);
        let ghost kv = k@;
        rest.push((k, value));
        assert(rest@.drop_last() == before);
        assert(json_entry_views(rest@).drop_last() =~= json_entry_views(before));
        assert(json_entry_views(rest@).last() == (kv, vv));
        assert(fields_map(json_entry_views(rest@)) =~= old(self).fields().insert(key@, value@));
        self.extra = rest;
    }

    /// Removes field `key`.
    pub fn remove_field(&mut self, key: &str)
        ensures
            final(self).fields() == old(self).fields().remove(key@),
            final(self).id == old(self).id,
            final(self).created_at == old(self).created_at,
    {
        self.extra = fields_without(&self.extra, key);
    }

    /// A new draft rule with a fresh id, the current time, zero feedback counts
    /// and empty scope lists.
    pub fn new(slug: &str, title: &str, file_kind: &str, section: &str, body: &str) -> (m:
        RuleManifest)
        ensures
            m.spec_slug() == Some(slug@),
            m.spec_title() == Some(title@),
            m.str_field("type"@) == Some("rule-entry"@),
            m.spec_state() == Some("draft"@),
            m.spec_file_kind() == Some(file_kind@),
            m.spec_section() == Some(section@),
            m.spec_body() == Some(body@),
            m.spec_order_key() == Some(0int),
            m.spec_repo_scopes() == Seq::<Seq<char>>::empty(),
            m.spec_path_scopes() == Seq::<Seq<char>>::empty(),
            m.strings_field("sentence_anchors"@) == Seq::<Seq<char>>::empty(),
            m.spec_helpful() == Some(0int),
            m.spec_mixed() == Some(0int),
            m.spec_not_helpful() == Some(0int),
            m.spec_note_count() == Some(0int),
            m.spec_unresolved() == Some(0int),
            m.fields().dom() == set![
                "slug"@,
                "title"@,
                "type"@,
                "state"@,
                "file_kind"@,
                "section"@,
                "body"@,
                "order_key"@,
                "repo_scopes"@,
                "path_scopes"@,
                "sentence_anchors"@,
                "feedback_helpful_count"@,
                "feedback_mixed_count"@,
                "feedback_not_helpful_count"@,
                "feedback_note_count"@,
                "feedback_unresolved_count"@,
            ],
    {
        proof {
            lemma_manifest_keys_distinct();
        }
        let mut m = RuleManifest::from_parts(new_uuid(), now_rfc3339());
        m.insert_field("slug", JsonValue::string(slug));
        m.insert_field("title", JsonValue::string(title));
        m.insert_field("type", JsonValue::string("rule-entry"));
        m.insert_field("state", JsonValue::string(RuleState::Draft.as_str()));
        m.insert_field("file_kind", JsonValue::string(file_kind));
        m.insert_field("section", JsonValue::string(section));
        m.insert_field("body", JsonValue::string(body));
        m.insert_field("order_key", JsonValue::integer(0));
        m.insert_field("repo_scopes", JsonValue::Array(Vec::new()));
        m.insert_field("path_scopes", JsonValue::Array(Vec::new()));
        m.insert_field("sentence_anchors", JsonValue::Array(Vec::new()));
        m.insert_field("feedback_helpful_count", JsonValue::integer(0));
        m.insert_field("feedback_mixed_count", JsonValue::integer(0));
        m.insert_field("feedback_not_helpful_count", JsonValue::integer(0));
        m.insert_field("feedback_note_count", JsonValue::integer(0));
        m.insert_field("feedback_unresolved_count", JsonValue::integer(0));
        assert(m.fields().dom() =~= set![
            "slug"@,
            "title"@,
            "type"@,
            "state"@,
            "file_kind"@,
            "section"@,
            "body"@,
            "order_key"@,
            "repo_scopes"@,
            "path_scopes"@,
            "sentence_anchors"@,
            "feedback_helpful_count"@,
            "feedback_mixed_count"@,
            "feedback_not_helpful_count"@,
            "feedback_note_count"@,
            "feedback_unresolved_count"@,
        ]);
        m
    }

    /// A copy of the manifest.
    pub fn duplicate(&self) -> (r: RuleManifest)
        ensures
            r.id == self.id,
            r.created_at@ == self.created_at@,
            r.fields() == self.fields(),
            r@ == self@,
    {
        let mut extra: Vec<(String, JsonValue)> = Vec::new();
        let mut i: usize = 0;
        while i < self.extra.len()
            invariant
                0 <= i <= self.extra@.len(),
                json_entry_views(extra@) == json_entry_views(self.extra@.take(i as int)),
            decreases self.extra@.len() - i,
        {
            let ghost before = extra@;
            let entry = copy_entry(&self.extra[i]);
            let ghost ev = (entry.0@, json_view(entry.1));
            extra.push(entry);
            assert(extra@.drop_last() == before);
            assert(json_entry_views(extra@).drop_last() =~= json_entry_views(before));
            assert(json_entry_views(extra@).last() == ev);
            assert(self.extra@.take(i + 1).drop_last() =~= self.extra@.take(i as int));
            i += 1;
        }
        assert(self.extra@.take(self.extra@.len() as int) =~= self.extra@);
        RuleManifest { id: self.id, created_at: self.created_at.clone(), extra }
    }

    /// A string field, when present and a string.
    pub fn get_str(&self, key: &str) -> (r: Option<&str>)
        ensures
            opt_view(r) == self.str_field(key@),
    {
        match fields_get(&self.extra, key) {
            Some(v) => v.as_str(),
            None => None,
        }
    }

    /// An integer field, when present and an `i64`.
    pub fn get_i64(&self, key: &str) -> (r: Option<i64>)
        ensures
            opt_i64_view(r) == self.int_field(key@),
    {
        match fields_get(&self.extra, key) {
            Some(v) => v.as_i64(),
            None => None,
        }
    }

    /// The string items of an array field (empty when absent).
    pub fn get_strings(&self, key: &str) -> (r: Vec<String>)
        ensures
            Seq::new(r@.len(), |i: int| r@[i]@) == self.strings_field(key@),
    {
        let mut out: Vec<String> = Vec::new();
        match fields_get(&self.extra, key) {
            Some(JsonValue::Array(items)) => {
                proof {
                    lemma_json_views_index(items@);
                }
                let mut i: usize = 0;
                while i < items.len()
                    invariant
                        0 <= i <= items@.len(),
                        json_views(items@).len() == items@.len(),
                        forall|j: int| 0 <= j < items@.len() ==> #[trigger] json_views(items@)[j] == json_view(items@[j]),
                        Seq::new(out@.len(), |j: int| out@[j]@) == string_items(json_views(items@).take(i as int)),
                    decreases items@.len() - i,
                {
                    assert(json_views(items@).take(i + 1).drop_last() =~= json_views(items@).take(i as int));
                    match &items[i] {
                        JsonValue::String(x) => {
                            out.push(x.clone());
                        },
                        _ => {},
                    }
                    assert(Seq::new(out@.len(), |j: int| out@[j]@) =~= string_items(json_views(items@).take(i + 1)));
                    i += 1;
                }
                assert(json_views(items@).take(items@.len() as int) =~= json_views(items@));
            },
            _ => {},
        }
        assert(Seq::new(out@.len(), |j: int| out@[j]@) =~= self.strings_field(key@));
        out
    }

    pub fn slug(&self) -> (r: Option<&str>)
        ensures
            opt_view(r) == self.spec_slug(),
    {
        self.get_str("slug")
    }

    pub fn title(&self) -> (r: Option<&str>)
        ensures
            opt_view(r) == self.spec_title(),
    {
        self.get_str("title")
    }

    pub fn state(&self) -> (r: Option<&str>)
        ensures
            opt_view(r) == self.spec_state(),
    {
        self.get_str("state")
    }

    pub fn file_kind(&self) -> (r: Option<&str>)
        ensures
            opt_view(r) == self.spec_file_kind(),
    {
        self.get_str("file_kind")
    }

    pub fn section(&self) -> (r: Option<&str>)
        ensures
            opt_view(r) == self.spec_section(),
    {
        self.get_str("section")
    }

    pub fn body(&self) -> (r: Option<&str>)
        ensures
            opt_view(r) == self.spec_body(),
    {
        self.get_str("body")
    }

    pub fn order_key(&self) -> (r: Option<i64>)
        ensures
            opt_i64_view(r) == self.spec_order_key(),
    {
        self.get_i64("order_key")
    }

    pub fn repo_scopes(&self) -> (r: Vec<String>)
        ensures
            Seq::new(r@.len(), |i: int| r@[i]@) == self.spec_repo_scopes(),
    {
        self.get_strings("repo_scopes")
    }

    pub fn path_scopes(&self) -> (r: Vec<String>)
        ensures
            Seq::new(r@.len(), |i: int| r@[i]@) == self.spec_path_scopes(),
    {
        self.get_strings("path_scopes")
    }

    pub fn sentence_anchors(&self) -> (r: Vec<String>)
        ensures
            Seq::new(r@.len(), |i: int| r@[i]@) == self.strings_field("sentence_anchors"@),
    {
        self.get_strings("sentence_anchors")
    }

    pub fn source_repo(&self) -> (r: Option<&str>)
        ensures
            opt_view(r) == self.str_field("source_repo"@),
    {
        self.get_str("source_repo")
    }

    pub fn source_path(&self) -> (r: Option<&str>)
        ensures
            opt_view(r) == self.str_field("source_path"@),
    {
        self.get_str("source_path")
    }

    pub fn source_start_line(&self) -> (r: Option<i64>)
        ensures
            opt_i64_view(r) == self.int_field("source_start_line"@),
    {
        self.get_i64("source_start_line")
    }

    pub fn source_end_line(&self) -> (r: Option<i64>)
        ensures
            opt_i64_view(r) == self.int_field("source_end_line"@),
    {
        self.get_i64("source_end_line")
    }

    pub fn feedback_helpful_count(&self) -> (r: Option<i64>)
        ensures
            opt_i64_view(r) == self.spec_helpful(),
    {
        self.get_i64("feedback_helpful_count")
    }

    pub fn feedback_mixed_count(&self) -> (r: Option<i64>)
        ensures
            opt_i64_view(r) == self.spec_mixed(),
    {
        self.get_i64("feedback_mixed_count")
    }

    pub fn feedback_not_helpful_count(&self) -> (r: Option<i64>)
        ensures
            opt_i64_view(r) == self.spec_not_helpful(),
    {
        self.get_i64("feedback_not_helpful_count")
    }

    pub fn feedback_note_count(&self) -> (r: Option<i64>)
        ensures
            opt_i64_view(r) == self.spec_note_count(),
    {
        self.get_i64("feedback_note_count")
    }

    pub fn feedback_unresolved_count(&self) -> (r: Option<i64>)
        ensures
            opt_i64_view(r) == self.spec_unresolved(),
    {
        self.get_i64("feedback_unresolved_count")
    }

    pub fn feedback_last_at(&self) -> (r: Option<&str>)
        ensures
            opt_view(r) == self.str_field("feedback_last_at"@),
    {
        self.get_str("feedback_last_at")
    }

    pub fn set_state(&mut self, state: RuleState)
        ensures
            final(self).fields() == old(self).fields().insert("state"@, JsonView::String(state.name())),
            final(self).id == old(self).id,
    {
        self.insert_field("state", JsonValue::string(state.as_str()));
    }

    pub fn set_body(&mut self, body: &str)
        ensures
            final(self).fields() == old(self).fields().insert("body"@, JsonView::String(body@)),
            final(self).id == old(self).id,
            final(self).created_at == old(self).created_at,
    {
        self.insert_field("body", JsonValue::string(body));
    }

    pub fn set_order_key(&mut self, order_key: i64)
        ensures
            final(self).fields() == old(self).fields().insert(
                "order_key"@,
                JsonView::Number(NumberView::Int(order_key as int)),
            ),
            final(self).id == old(self).id,
    {
        self.insert_field("order_key", JsonValue::integer(order_key));
    }

    pub fn set_repo_scopes(&mut self, scopes: &Vec<String>)
        ensures
            final(self).fields().remove("repo_scopes"@) == old(self).fields().remove("repo_scopes"@),
            final(self).spec_repo_scopes() == Seq::new(scopes@.len(), |i: int| scopes@[i]@),
            final(self).id == old(self).id,
    {
        let v = JsonValue::string_array(scopes);
        self.insert_field("repo_scopes", v);
        assert(self.fields().remove("repo_scopes"@) =~= old(self).fields().remove("repo_scopes"@));
    }

    pub fn set_path_scopes(&mut self, scopes: &Vec<String>)
        ensures
            final(self).fields().remove("path_scopes"@) == old(self).fields().remove("path_scopes"@),
            final(self).spec_path_scopes() == Seq::new(scopes@.len(), |i: int| scopes@[i]@),
            final(self).id == old(self).id,
    {
        let v = JsonValue::string_array(scopes);
        self.insert_field("path_scopes", v);
        assert(self.fields().remove("path_scopes"@) =~= old(self).fields().remove("path_scopes"@));
    }

    pub fn set_sentence_anchors(&mut self, anchors: &Vec<String>)
        ensures
            final(self).fields().remove("sentence_anchors"@) == old(self).fields().remove("sentence_anchors"@),
            final(self).strings_field("sentence_anchors"@) == Seq::new(anchors@.len(), |i: int| anchors@[i]@),
            final(self).id == old(self).id,
    {
        let v = JsonValue::string_array(anchors);
        self.insert_field("sentence_anchors", v);
        assert(self.fields().remove("sentence_anchors"@) =~= old(self).fields().remove("sentence_anchors"@));
    }

    pub fn set_source_location(
        &mut self,
        source_repo: &str,
        source_path: &str,
        source_start_line: i64,
        source_end_line: i64,
    )
        ensures
            final(self).fields() == old(self).fields().insert(
                "source_repo"@,
                JsonView::String(source_repo@),
            ).insert("source_path"@, JsonView::String(source_path@)).insert(
                "source_start_line"@,
                JsonView::Number(NumberView::Int(source_start_line as int)),
            ).insert("source_end_line"@, JsonView::Number(NumberView::Int(source_end_line as int))),
            final(self).id == old(self).id,
    {
        self.insert_field("source_repo", JsonValue::string(source_repo));
        self.insert_field("source_path", JsonValue::string(source_path));
        self.insert_field("source_start_line", JsonValue::integer(source_start_line));
        self.insert_field("source_end_line", JsonValue::integer(source_end_line));
    }

    pub fn set_feedback_summary(
        &mut self,
        helpful_count: i64,
        mixed_count: i64,
        not_helpful_count: i64,
        note_count: i64,
        unresolved_count: i64,
        last_at: Option<&str>,
    )
        ensures
            ({
                let counted = old(self).fields().insert(
                    "feedback_helpful_count"@,
                    JsonView::Number(NumberView::Int(helpful_count as int)),
                ).insert(
                    "feedback_mixed_count"@,
                    JsonView::Number(NumberView::Int(mixed_count as int)),
                ).insert(
                    "feedback_not_helpful_count"@,
                    JsonView::Number(NumberView::Int(not_helpful_count as int)),
                ).insert(
                    "feedback_note_count"@,
                    JsonView::Number(NumberView::Int(note_count as int)),
                ).insert(
                    "feedback_unresolved_count"@,
                    JsonView::Number(NumberView::Int(unresolved_count as int)),
                );
                final(self).fields() == match last_at {
                    Some(t) => counted.insert("feedback_last_at"@, JsonView::String(t@)),
                    None => counted.remove("feedback_last_at"@),
                }
            }),
            final(self).id == old(self).id,
    {
        self.insert_field("feedback_helpful_count", JsonValue::integer(helpful_count));
        self.insert_field("feedback_mixed_count", JsonValue::integer(mixed_count));
        self.insert_field("feedback_not_helpful_count", JsonValue::integer(not_helpful_count));
        self.insert_field("feedback_note_count", JsonValue::integer(note_count));
        self.insert_field("feedback_unresolved_count", JsonValue::integer(unresolved_count));
        match last_at {
            Some(t) => self.insert_field("feedback_last_at", JsonValue::string(t)),
            None => self.remove_field("feedback_last_at"),
        }
    }
}

} // verus!
