//! JSON values: what the tool server answers and what it is asked.
//!
//! [`Json`] holds a value, [`JsonView`] says what it is. Reading text into a
//! value and writing it out again is the work of `serde_json`.

use vstd::prelude::*;

use crate::text;
use crate::text::same;

verus! {

/// A number of `serde_json`, carried as it is.
#[verifier::external_type_specification]
#[verifier::external_body]
pub struct ExNumber(serde_json::Number);

/// A value of `serde_json`, carried as it is.
#[verifier::external_type_specification]
#[verifier::external_body]
pub struct ExValue(serde_json::Value);

/// `serde_json::Number` derives `Clone`: the copy is the same number.
pub assume_specification[ <serde_json::Number as Clone>::clone ](n: &serde_json::Number) -> (r:
    serde_json::Number)
    ensures
        r == *n,
;

// --- what a value is ---------------------------------------------------------

/// What a JSON value is: an object is the map of its fields, so neither the
/// order of the fields nor how the value is held makes a difference.
pub enum JsonView {
    Null,
    Bool(bool),
    Int(int),
    Real(serde_json::Number),
    Str(Seq<char>),
    Array(Seq<JsonView>),
    Object(Map<Seq<char>, JsonView>),
}

impl JsonView {
    /// The field `key`, where the value is an object that has it.
    pub open spec fn field(self, key: Seq<char>) -> Option<JsonView> {
        match self {
            JsonView::Object(m) => if m.contains_key(key) {
                Some(m[key])
            } else {
                None
            },
            _ => None,
        }
    }

    /// The text, where the value is a string.
    pub open spec fn as_text(self) -> Option<Seq<char>> {
        match self {
            JsonView::Str(s) => Some(s),
            _ => None,
        }
    }

    /// The integer, where the value is one that fits in 64 bits with a sign.
    pub open spec fn as_int(self) -> Option<int> {
        match self {
            JsonView::Int(n) => if i64::MIN <= n <= i64::MAX {
                Some(n)
            } else {
                None
            },
            _ => None,
        }
    }

    /// The truth value, where the value is one.
    pub open spec fn as_truth(self) -> Option<bool> {
        match self {
            JsonView::Bool(b) => Some(b),
            _ => None,
        }
    }

    /// The items, where the value is an array.
    pub open spec fn as_items(self) -> Option<Seq<JsonView>> {
        match self {
            JsonView::Array(s) => Some(s),
            _ => None,
        }
    }

    /// The text of the field `key`.
    pub open spec fn text_field(self, key: Seq<char>) -> Option<Seq<char>> {
        match self.field(key) {
            Some(v) => v.as_text(),
            None => None,
        }
    }

    /// The integer in the field `key`.
    pub open spec fn int_field(self, key: Seq<char>) -> Option<int> {
        match self.field(key) {
            Some(v) => v.as_int(),
            None => None,
        }
    }

    /// The truth value in the field `key`.
    pub open spec fn truth_field(self, key: Seq<char>) -> Option<bool> {
        match self.field(key) {
            Some(v) => v.as_truth(),
            None => None,
        }
    }

    /// The items of the field `key`.
    pub open spec fn items_field(self, key: Seq<char>) -> Option<Seq<JsonView>> {
        match self.field(key) {
            Some(v) => v.as_items(),
            None => None,
        }
    }

    /// Whether the value holds integers only for numbers and nests at most
    /// `depth` arrays and objects in one another.
    pub open spec fn fits(self, depth: nat) -> bool
        decreases self,
    {
        match self {
            JsonView::Real(_) => false,
            JsonView::Array(s) => depth > 0 && forall|i: int|
                0 <= i < s.len() ==> (#[trigger] s[i]).fits((depth - 1) as nat),
            JsonView::Object(m) => depth > 0 && forall|k: Seq<char>|
                m.contains_key(k) ==> (#[trigger] m[k]).fits((depth - 1) as nat),
            _ => true,
        }
    }

    /// Whether the value is the same as another but for the numbers that are no integers:
    /// where one has such a number the other has one too, of whatever value.
    pub open spec fn alike(self, other: JsonView) -> bool
        decreases self,
    {
        match self {
            JsonView::Real(_) => other is Real,
            JsonView::Array(s) => other matches JsonView::Array(t) && s.len() == t.len() && forall|
                i: int,
            |
                0 <= i < s.len() ==> (#[trigger] s[i]).alike(t[i]),
            JsonView::Object(m) => other matches JsonView::Object(n) && m.dom() == n.dom()
                && forall|k: Seq<char>| m.contains_key(k) ==> (#[trigger] m[k]).alike(n[k]),
            _ => self == other,
        }
    }
}

/// An optional text as a value: `null` where there is none.
pub open spec fn text_or_null(o: Option<Seq<char>>) -> JsonView {
    match o {
        Some(s) => JsonView::Str(s),
        None => JsonView::Null,
    }
}

/// An optional integer as a value: `null` where there is none.
pub open spec fn int_or_null(o: Option<int>) -> JsonView {
    match o {
        Some(n) => JsonView::Int(n),
        None => JsonView::Null,
    }
}

/// An optional value as a value: `null` where there is none.
pub open spec fn value_or_null(o: Option<JsonView>) -> JsonView {
    match o {
        Some(v) => v,
        None => JsonView::Null,
    }
}

// --- the value as it is held -------------------------------------------------

/// A JSON value.
#[derive(Debug)]
pub enum Json {
    Null,
    Bool(bool),
    UInt(u64),
    Int(i64),
    Real(RealNumber),
    Str(String),
    Array(Vec<Json>),
    Object(JsonMap),
}

/// A JSON number that is no integer. It comes out of a `serde_json` value and
/// is carried on unchanged.
#[derive(Debug)]
pub struct RealNumber {
    number: serde_json::Number,
}

/// The fields of a JSON object.
#[derive(Debug)]
pub struct JsonMap {
    entries: Vec<(String, Json)>,
}

impl RealNumber {
    /// The number itself.
    pub closed spec fn number(&self) -> serde_json::Number {
        self.number
    }

    /// It is the number of a value that holds no integer.
    #[verifier::type_invariant]
    spec fn comes_out_of_a_value(self) -> bool {
        exists|v: serde_json::Value| #[trigger] held(v) == JsonView::Real(self.number)
    }

    /// The same number again.
    fn copy(&self) -> (r: RealNumber)
        ensures
            r.number() == self.number(),
    {
        proof {
            use_type_invariant(self);
        }
        RealNumber { number: self.number.clone() }
    }
}

impl Json {
    /// What the value is.
    pub open spec fn view(&self) -> JsonView
        decreases self, 1nat,
    {
        match self {
            Json::Null => JsonView::Null,
            Json::Bool(b) => JsonView::Bool(*b),
            Json::UInt(n) => JsonView::Int(*n as int),
            Json::Int(n) => JsonView::Int(*n as int),
            Json::Real(n) => JsonView::Real(n.number()),
            Json::Str(s) => JsonView::Str(s@),
            Json::Array(items) => JsonView::Array(items_view(items@)),
            Json::Object(m) => JsonView::Object(m.view()),
        }
    }
}

impl JsonMap {
    /// The fields by name.
    pub closed spec fn view(&self) -> Map<Seq<char>, JsonView>
        decreases self, 1nat,
    {
        fields_upto(self.entries@, self.entries@.len())
    }
}

/// What each of the given values is.
pub open spec fn items_view(items: Seq<Json>) -> Seq<JsonView>
    decreases items, 0nat,
{
    Seq::new(
        items.len(),
        |i: int|
            if 0 <= i < items.len() {
                items[i].view()
            } else {
                JsonView::Null
            },
    )
}

/// The fields that the first `n` entries make, a later entry before an earlier one.
spec fn fields_upto(entries: Seq<(String, Json)>, n: nat) -> Map<Seq<char>, JsonView>
    decreases entries, n,
{
    if n == 0 || n > entries.len() {
        Map::empty()
    } else {
        fields_upto(entries, (n - 1) as nat).insert(entries[n - 1].0@, entries[n - 1].1.view())
    }
}

/// What an optional value is.
pub open spec fn seen(o: Option<&Json>) -> Option<JsonView> {
    match o {
        Some(v) => Some(v.view()),
        None => None,
    }
}

/// What an optional integer is.
pub open spec fn seen_int(o: Option<i64>) -> Option<int> {
    match o {
        Some(n) => Some(n as int),
        None => None,
    }
}

/// An array of strings.
pub open spec fn text_array(v: Seq<Seq<char>>) -> JsonView {
    JsonView::Array(v.map_values(|s: Seq<char>| JsonView::Str(s)))
}

impl JsonMap {
    /// No fields.
    pub fn new() -> (r: JsonMap)
        ensures
            r@ == Map::<Seq<char>, JsonView>::empty(),
    {
        JsonMap { entries: Vec::new() }
    }

    /// Sets the field `key`, new or not.
    pub fn insert(&mut self, key: &str, value: Json)
        ensures
            final(self)@ == old(self)@.insert(key@, value@),
    {
        let ghost before = self.entries@;
        self.entries.push((key.to_owned(), value));
        proof {
            lemma_fields_agree(before, self.entries@, before.len());
        }
    }

    /// The field `key`.
    pub fn get(&self, key: &str) -> (r: Option<&Json>)
        ensures
            seen(r) == JsonView::Object(self@).field(key@),
    {
        let mut n: usize = self.entries.len();
        while n > 0
            invariant
                n <= self.entries@.len(),
                self@ == fields_upto(self.entries@, self.entries@.len()),
                self@.contains_key(key@) == fields_upto(self.entries@, n as nat).contains_key(key@),
                self@.contains_key(key@) ==> self@[key@] == fields_upto(
                    self.entries@,
                    n as nat,
                )[key@],
            decreases n,
        {
            if same(self.entries[n - 1].0.as_str(), key) {
                return Some(&self.entries[n - 1].1);
            }
            n = n - 1;
        }
        None
    }

    /// Whether the field `key` is there.
    pub fn contains_key(&self, key: &str) -> (r: bool)
        ensures
            r == self@.contains_key(key@),
    {
        self.get(key).is_some()
    }
}

proof fn lemma_fields_agree(a: Seq<(String, Json)>, b: Seq<(String, Json)>, n: nat)
    requires
        n <= a.len() <= b.len(),
        forall|i: int| 0 <= i < n ==> a[i] == b[i],
    ensures
        fields_upto(a, n) == fields_upto(b, n),
    decreases n,
{
    if n > 0 {
        lemma_fields_agree(a, b, (n - 1) as nat);
    }
}

impl Json {
    /// A string.
    pub fn text(s: &str) -> (r: Json)
        ensures
            r@ == JsonView::Str(s@),
    {
        Json::Str(s.to_owned())
    }

    /// A string, or `null`.
    pub fn opt_text(o: Option<&str>) -> (r: Json)
        ensures
            r@ == text_or_null(text::seen_text(o)),
    {
        match o {
            Some(s) => Json::text(s),
            None => Json::Null,
        }
    }

    /// An integer, or `null`.
    pub fn opt_int(o: Option<i64>) -> (r: Json)
        ensures
            r@ == int_or_null(seen_int(o)),
    {
        match o {
            Some(n) => Json::Int(n),
            None => Json::Null,
        }
    }

    /// A copy of the value, or `null`.
    pub fn opt_copy(o: Option<&Json>) -> (r: Json)
        ensures
            r@ == value_or_null(seen(o)),
    {
        match o {
            Some(v) => v.copy(),
            None => Json::Null,
        }
    }

    /// An array of strings.
    pub fn strings(v: &Vec<String>) -> (r: Json)
        ensures
            r@ == text_array(text::texts(v@)),
    {
        let mut items: Vec<Json> = Vec::new();
        let mut i: usize = 0;
        while i < v.len()
            invariant
                i <= v@.len(),
                items@.len() == i,
                forall|j: int| 0 <= j < i ==> (#[trigger] items@[j])@ == JsonView::Str(v@[j]@),
            decreases v@.len() - i,
        {
            items.push(Json::text(v[i].as_str()));
            i += 1;
        }
        assert(items_view(items@) =~= text::texts(v@).map_values(|s: Seq<char>| JsonView::Str(s)));
        Json::Array(items)
    }

    /// The field `key`, where the value is an object that has it.
    pub fn get(&self, key: &str) -> (r: Option<&Json>)
        ensures
            seen(r) == self@.field(key@),
    {
        match self {
            Json::Object(m) => m.get(key),
            _ => None,
        }
    }

    /// The text, where the value is a string.
    pub fn as_str(&self) -> (r: Option<&str>)
        ensures
            text::seen_text(r) == self@.as_text(),
    {
        match self {
            Json::Str(s) => Some(s.as_str()),
            _ => None,
        }
    }

    /// The integer, where the value is one that an `i64` holds.
    pub fn as_i64(&self) -> (r: Option<i64>)
        ensures
            seen_int(r) == self@.as_int(),
    {
        match self {
            Json::UInt(n) => if *n <= 0x7fff_ffff_ffff_ffff {
                Some(*n as i64)
            } else {
                None
            },
            Json::Int(n) => Some(*n),
            _ => None,
        }
    }

    /// The truth value, where the value is one.
    pub fn as_bool(&self) -> (r: Option<bool>)
        ensures
            r == self@.as_truth(),
    {
        match self {
            Json::Bool(b) => Some(*b),
            _ => None,
        }
    }

    /// The items, where the value is an array.
    pub fn as_array(&self) -> (r: Option<&Vec<Json>>)
        ensures
            match r {
                Some(v) => self@ == JsonView::Array(items_view(v@)),
                None => self@.as_items() is None,
            },
    {
        match self {
            Json::Array(v) => Some(v),
            _ => None,
        }
    }

    /// Whether the value is an object.
    pub fn is_object(&self) -> (r: bool)
        ensures
            r == (self@ is Object),
    {
        match self {
            Json::Object(_) => true,
            _ => false,
        }
    }

    /// The text of the field `key`.
    pub fn get_str(&self, key: &str) -> (r: Option<&str>)
        ensures
            text::seen_text(r) == self@.text_field(key@),
    {
        match self.get(key) {
            Some(v) => v.as_str(),
            None => None,
        }
    }

    /// The integer in the field `key`.
    pub fn get_i64(&self, key: &str) -> (r: Option<i64>)
        ensures
            seen_int(r) == self@.int_field(key@),
    {
        match self.get(key) {
            Some(v) => v.as_i64(),
            None => None,
        }
    }

    /// The truth value in the field `key`.
    pub fn get_bool(&self, key: &str) -> (r: Option<bool>)
        ensures
            r == self@.truth_field(key@),
    {
        match self.get(key) {
            Some(v) => v.as_bool(),
            None => None,
        }
    }

    /// The items of the field `key`.
    pub fn get_array(&self, key: &str) -> (r: Option<&Vec<Json>>)
        ensures
            match r {
                Some(v) => self@.items_field(key@) == Some(items_view(v@)),
                None => self@.items_field(key@) is None,
            },
    {
        match self.get(key) {
            Some(v) => v.as_array(),
            None => None,
        }
    }

    /// The same value again.
    pub fn copy(&self) -> (r: Json)
        ensures
            r@ == self@,
        decreases self,
    {
        match self {
            Json::Null => Json::Null,
            Json::Bool(b) => Json::Bool(*b),
            Json::UInt(n) => Json::UInt(*n),
            Json::Int(n) => Json::Int(*n),
            Json::Real(n) => Json::Real(n.copy()),
            Json::Str(s) => Json::Str(s.clone()),
            Json::Array(items) => {
                let mut out: Vec<Json> = Vec::new();
                let mut i: usize = 0;
                while i < items.len()
                    invariant
                        self == Json::Array(*items),
                        i <= items@.len(),
                        out@.len() == i,
                        forall|j: int| 0 <= j < i ==> (#[trigger] out@[j])@ == items@[j]@,
                    decreases items@.len() - i,
                {
                    assert(decreases_to!(*self => self->Array_0));
                    assert(decreases_to!(items@ => items@[i as int]));
                    out.push(items[i].copy());
                    i += 1;
                }
                assert(items_view(out@) =~= items_view(items@));
                Json::Array(out)
            },
            Json::Object(m) => {
                let mut out: Vec<(String, Json)> = Vec::new();
                let mut i: usize = 0;
                while i < m.entries.len()
                    invariant
                        self == Json::Object(*m),
                        i <= m.entries@.len(),
                        out@.len() == i,
                        fields_upto(out@, i as nat) == fields_upto(m.entries@, i as nat),
                    decreases m.entries@.len() - i,
                {
                    let ghost before = out@;
                    assert(decreases_to!(*self => self->Object_0));
                    assert(decreases_to!(*m => m.entries));
                    assert(decreases_to!(m.entries@ => m.entries@[i as int]));
                    assert(decreases_to!(m.entries@[i as int] => m.entries@[i as int].1));
                    out.push((m.entries[i].0.clone(), m.entries[i].1.copy()));
                    proof {
                        lemma_fields_agree(before, out@, before.len());
                    }
                    i += 1;
                }
                Json::Object(JsonMap { entries: out })
            },
        }
    }
}

// --- reading and writing -------------------------------------------------------

/// What a `serde_json::Value` holds.
pub uninterp spec fn held(v: serde_json::Value) -> JsonView;

/// What `serde_json::from_str` reads out of a text as a value, or the message
/// of its error.
pub uninterp spec fn json_of_text(text: Seq<char>) -> Result<JsonView, Seq<char>>;

/// What `serde_json::to_string` writes for a value.
pub uninterp spec fn text_of_json(v: JsonView) -> Seq<char>;

/// What `serde_json::to_string_pretty` writes for a value.
pub uninterp spec fn pretty_of_json(v: JsonView) -> Seq<char>;

/// The JSON text of an integer, of a truth value and of `null`.
pub open spec fn plain_text(v: JsonView) -> Option<Seq<char>> {
    match v {
        JsonView::Null => Some("null"@),
        JsonView::Bool(b) => Some(
            if b {
                "true"@
            } else {
                "false"@
            },
        ),
        JsonView::Int(n) => Some(text::int_text(n)),
        _ => None,
    }
}

/// The outermost layer of a `serde_json` value.
enum Layer {
    Null,
    Bool(bool),
    UInt(u64),
    Int(i64),
    Real(RealNumber),
    Str(String),
    Items(Vec<serde_json::Value>),
    Fields(Vec<(String, serde_json::Value)>),
}

spec fn held_fields(fields: Seq<(String, serde_json::Value)>, n: nat) -> Map<
    Seq<char>,
    JsonView,
>
    decreases n,
{
    if n == 0 || n > fields.len() {
        Map::empty()
    } else {
        held_fields(fields, (n - 1) as nat).insert(fields[n - 1].0@, held(fields[n - 1].1))
    }
}

spec fn distinct_names(fields: Seq<(String, serde_json::Value)>) -> bool {
    forall|i: int, j: int|
        0 <= i < j < fields.len() ==> (#[trigger] fields[i]).0@ != (#[trigger] fields[j]).0@
}

impl Layer {
    spec fn view(&self) -> JsonView {
        match self {
            Layer::Null => JsonView::Null,
            Layer::Bool(b) => JsonView::Bool(*b),
            Layer::UInt(n) => JsonView::Int(*n as int),
            Layer::Int(n) => JsonView::Int(*n as int),
            Layer::Real(n) => JsonView::Real(n.number()),
            Layer::Str(s) => JsonView::Str(s@),
            Layer::Items(v) => JsonView::Array(v@.map_values(|x: serde_json::Value| held(x))),
            Layer::Fields(f) => JsonView::Object(held_fields(f@, f@.len())),
        }
    }
}

/// Takes the outermost layer off a `serde_json::Value`: its variants one by one,
/// a number by `Number::as_u64` and `Number::as_i64` where it is an integer. The fields
/// that `serde_json::Map` hands out have names that differ.
#[verifier::external_body]
fn open_value(v: serde_json::Value) -> (r: Layer)
    ensures
        r@ == held(v),
        r matches Layer::Fields(f) ==> distinct_names(f@),
{
    match v {
        serde_json::Value::Null => Layer::Null,
        serde_json::Value::Bool(b) => Layer::Bool(b),
        serde_json::Value::Number(n) => match (n.as_u64(), n.as_i64()) {
            (Some(u), _) => Layer::UInt(u),
            (None, Some(i)) => Layer::Int(i),
            (None, None) => Layer::Real(RealNumber { number: n }),
        },
        serde_json::Value::String(s) => Layer::Str(s),
        serde_json::Value::Array(a) => Layer::Items(a),
        serde_json::Value::Object(m) => Layer::Fields(m.into_iter().collect()),
    }
}

/// Makes a `serde_json::Value` of its outermost layer; fields whose names differ are all kept
/// by `serde_json::Map`. A [`RealNumber`] is no integer, so it stays one.
#[verifier::external_body]
fn close_value(l: Layer) -> (r: serde_json::Value)
    requires
        l matches Layer::Fields(f) ==> distinct_names(f@),
    ensures
        held(r) == l@,
{
    match l {
        Layer::Null => serde_json::Value::Null,
        Layer::Bool(b) => serde_json::Value::Bool(b),
        Layer::UInt(n) => serde_json::Value::Number(n.into()),
        Layer::Int(n) => serde_json::Value::Number(n.into()),
        Layer::Real(n) => serde_json::Value::Number(n.number),
        Layer::Str(s) => serde_json::Value::String(s),
        Layer::Items(v) => serde_json::Value::Array(v),
        Layer::Fields(f) => serde_json::Value::Object(f.into_iter().collect()),
    }
}

/// `serde_json::from_str` into a `serde_json::Value`; an error is turned into its message.
#[verifier::external_body]
fn value_from_str(text: &str) -> (r: Result<serde_json::Value, String>)
    ensures
        match r {
            Ok(v) => json_of_text(text@) == Ok::<JsonView, Seq<char>>(held(v)),
            Err(e) => json_of_text(text@) == Err::<JsonView, Seq<char>>(e@),
        },
{
    serde_json::from_str(text).map_err(|e: serde_json::Error| e.to_string())
}

/// `serde_json::to_string` of a `serde_json::Value`, which does not fail on one. A
/// value without fractions, nested no deeper than `serde_json` reads, is read back as it was.
/// Any other, if it can be read back, is the same but for its fractions, which
/// `serde_json::from_str` reads to within rounding. An integer is written in decimal, and a
/// truth value and `null` as their words.
#[verifier::external_body]
fn value_to_text(v: &serde_json::Value) -> (r: String)
    ensures
        r@ == text_of_json(held(*v)),
        held(*v).fits(127) ==> json_of_text(r@) is Ok && json_of_text(r@)->Ok_0 == held(*v),
        json_of_text(r@) is Ok ==> held(*v).alike(json_of_text(r@)->Ok_0),
        plain_text(held(*v)) is Some ==> r@ == plain_text(held(*v))->0,
{
    serde_json::to_string(v).unwrap_or_default()
}

/// `serde_json::to_string_pretty` of a `serde_json::Value`, which does not fail on one.
#[verifier::external_body]
fn value_to_pretty(v: &serde_json::Value) -> (r: String)
    ensures
        r@ == pretty_of_json(held(*v)),
{
    serde_json::to_string_pretty(v).unwrap_or_default()
}

/// Sets a field: in place of the one that has its name, or behind the others.
fn set_field(fields: &mut Vec<(String, serde_json::Value)>, name: String, value: serde_json::Value)
    requires
        distinct_names(old(fields)@),
    ensures
        distinct_names(final(fields)@),
        held_fields(final(fields)@, final(fields)@.len()) == held_fields(
            old(fields)@,
            old(fields)@.len(),
        ).insert(name@, held(value)),
{
    let ghost before = fields@;
    let mut i: usize = 0;
    while i < fields.len()
        invariant
            before == old(fields)@,
            distinct_names(before),
            fields@ == before,
            i <= before.len(),
            forall|j: int| 0 <= j < i ==> (#[trigger] before[j]).0@ != name@,
        decreases before.len() - i,
    {
        if same(fields[i].0.as_str(), name.as_str()) {
            fields.set(i, (name, value));
            proof {
                lemma_held_field_set(before, i as int, (name, value));
            }
            return;
        }
        i += 1;
    }
    fields.push((name, value));
    proof {
        lemma_held_fields_agree(before, fields@, before.len());
    }
}

impl Json {
    /// The value that a `serde_json::Value` holds.
    pub fn from_value(v: serde_json::Value) -> (r: Json)
        ensures
            r@ == held(v),
        decreases held(v),
    {
        match open_value(v) {
            Layer::Null => Json::Null,
            Layer::Bool(b) => Json::Bool(b),
            Layer::UInt(n) => Json::UInt(n),
            Layer::Int(n) => Json::Int(n),
            Layer::Real(n) => Json::Real(n),
            Layer::Str(s) => Json::Str(s),
            Layer::Items(items) => {
                let ghost all = items@;
                let mut out: Vec<Json> = Vec::new();
                for x in it: items
                    invariant
                        it.seq() == all,
                        held(v) == JsonView::Array(all.map_values(|x: serde_json::Value| held(x))),
                        out@.len() == it.index(),
                        forall|j: int| 0 <= j < out@.len() ==> (#[trigger] out@[j])@ == held(all[j]),
                {
                    let ghost views = all.map_values(|x: serde_json::Value| held(x));
                    assert(views[it.index() as int] == held(x));
                    assert(decreases_to!(held(v) => held(v)->Array_0));
                    assert(decreases_to!(views => views[it.index() as int]));
                    out.push(Json::from_value(x));
                }
                assert(items_view(out@) =~= all.map_values(|x: serde_json::Value| held(x)));
                Json::Array(out)
            },
            Layer::Fields(fields) => {
                let ghost all = fields@;
                let mut out = JsonMap::new();
                for x in it: fields
                    invariant
                        it.seq() == all,
                        distinct_names(all),
                        held(v) == JsonView::Object(held_fields(all, all.len())),
                        out@ == held_fields(all, it.index() as nat),
                {
                    proof {
                        lemma_held_field(all, it.index() as int, all.len());
                        let m = held(v)->Object_0;
                        assert(decreases_to!(held(v) => held(v)->Object_0));
                        assert(decreases_to!(m => m[x.0@]));
                    }
                    out.insert(x.0.as_str(), Json::from_value(x.1));
                }
                Json::Object(out)
            },
        }
    }

    /// The value as a `serde_json::Value`.
    pub fn to_value(&self) -> (r: serde_json::Value)
        ensures
            held(r) == self@,
        decreases self,
    {
        match self {
            Json::Null => close_value(Layer::Null),
            Json::Bool(b) => close_value(Layer::Bool(*b)),
            Json::UInt(n) => close_value(Layer::UInt(*n)),
            Json::Int(n) => close_value(Layer::Int(*n)),
            Json::Real(n) => close_value(Layer::Real(n.copy())),
            Json::Str(s) => close_value(Layer::Str(s.clone())),
            Json::Array(items) => {
                let mut out: Vec<serde_json::Value> = Vec::new();
                let mut i: usize = 0;
                while i < items.len()
                    invariant
                        self == Json::Array(*items),
                        i <= items@.len(),
                        out@.len() == i,
                        forall|j: int| 0 <= j < i ==> held(#[trigger] out@[j]) == items@[j]@,
                    decreases items@.len() - i,
                {
                    assert(decreases_to!(*self => self->Array_0));
                    assert(decreases_to!(items@ => items@[i as int]));
                    out.push(items[i].to_value());
                    i += 1;
                }
                assert(out@.map_values(|x: serde_json::Value| held(x)) =~= items_view(items@));
                close_value(Layer::Items(out))
            },
            Json::Object(m) => {
                let mut out: Vec<(String, serde_json::Value)> = Vec::new();
                let mut i: usize = 0;
                while i < m.entries.len()
                    invariant
                        self == Json::Object(*m),
                        i <= m.entries@.len(),
                        distinct_names(out@),
                        held_fields(out@, out@.len()) == fields_upto(m.entries@, i as nat),
                    decreases m.entries@.len() - i,
                {
                    assert(decreases_to!(*self => self->Object_0));
                    assert(decreases_to!(*m => m.entries));
                    assert(decreases_to!(m.entries@ => m.entries@[i as int]));
                    assert(decreases_to!(m.entries@[i as int] => m.entries@[i as int].1));
                    set_field(&mut out, m.entries[i].0.clone(), m.entries[i].1.to_value());
                    i += 1;
                }
                close_value(Layer::Fields(out))
            },
        }
    }

    /// Reads a value from its JSON text.
    pub fn parse(text: &str) -> (r: Result<Json, String>)
        ensures
            match r {
                Ok(v) => json_of_text(text@) == Ok::<JsonView, Seq<char>>(v@),
                Err(e) => json_of_text(text@) == Err::<JsonView, Seq<char>>(e@),
            },
    {
        match value_from_str(text) {
            Ok(v) => Ok(Json::from_value(v)),
            Err(e) => Err(e),
        }
    }

    /// The value as JSON text on one line. Read back, the text of a value without
    /// fractions that is not too deep to be read gives the value again; if the text of
    /// another can be read, it gives the value again but for its fractions. An integer, a
    /// truth value and `null` are written plainly.
    pub fn to_text(&self) -> (r: String)
        ensures
            r@ == text_of_json(self@),
            self@.fits(127) ==> json_of_text(r@) is Ok && json_of_text(r@)->Ok_0 == self@,
            json_of_text(r@) is Ok ==> self@.alike(json_of_text(r@)->Ok_0),
            plain_text(self@) is Some ==> r@ == plain_text(self@)->0,
    {
        value_to_text(&self.to_value())
    }

    /// The value as indented JSON text.
    pub fn to_pretty(&self) -> (r: String)
        ensures
            r@ == pretty_of_json(self@),
    {
        value_to_pretty(&self.to_value())
    }
}

proof fn lemma_held_field(fields: Seq<(String, serde_json::Value)>, i: int, n: nat)
    requires
        0 <= i < n <= fields.len(),
        distinct_names(fields),
    ensures
        held_fields(fields, n).dom().finite(),
        held_fields(fields, n).contains_key(fields[i].0@),
        held_fields(fields, n)[fields[i].0@] == held(fields[i].1),
    decreases n,
{
    if i < n - 1 {
        lemma_held_field(fields, i, (n - 1) as nat);
    } else if n > 1 {
        lemma_held_field(fields, 0, (n - 1) as nat);
    } else {
        assert(held_fields(fields, 0) == Map::<Seq<char>, JsonView>::empty());
    }
}

proof fn lemma_held_name(fields: Seq<(String, serde_json::Value)>, n: nat, name: Seq<char>)
    requires
        n <= fields.len(),
        held_fields(fields, n).contains_key(name),
    ensures
        exists|i: int| 0 <= i < n && (#[trigger] fields[i]).0@ == name,
    decreases n,
{
    if n > 0 && fields[n - 1].0@ != name {
        lemma_held_name(fields, (n - 1) as nat, name);
    }
}

proof fn lemma_held_field_set(
    fields: Seq<(String, serde_json::Value)>,
    i: int,
    field: (String, serde_json::Value),
)
    requires
        0 <= i < fields.len(),
        distinct_names(fields),
        fields[i].0@ == field.0@,
    ensures
        distinct_names(fields.update(i, field)),
        held_fields(fields.update(i, field), fields.len()) == held_fields(
            fields,
            fields.len(),
        ).insert(field.0@, held(field.1)),
{
    let after = fields.update(i, field);
    let n = fields.len();
    let was = held_fields(fields, n);
    let is = held_fields(after, n);
    assert forall|j: int, k: int| 0 <= j < k < after.len() implies (#[trigger] after[j]).0@ != (
    #[trigger] after[k]).0@ by {
        assert(fields[j].0@ != fields[k].0@);
    }
    assert forall|name: Seq<char>| #[trigger] is.contains_key(name) == was.contains_key(name) by {
        if is.contains_key(name) {
            lemma_held_name(after, n, name);
            let j = choose|j: int| 0 <= j < n && (#[trigger] after[j]).0@ == name;
            lemma_held_field(fields, j, n);
        }
        if was.contains_key(name) {
            lemma_held_name(fields, n, name);
            let j = choose|j: int| 0 <= j < n && (#[trigger] fields[j]).0@ == name;
            lemma_held_field(after, j, n);
        }
    }
    lemma_held_field(fields, i, n);
    lemma_held_field(after, i, n);
    assert forall|name: Seq<char>| was.contains_key(name) && name != field.0@ implies
        #[trigger] is[name] == was[name] by {
        lemma_held_name(fields, n, name);
        let j = choose|j: int| 0 <= j < n && (#[trigger] fields[j]).0@ == name;
        lemma_held_field(fields, j, n);
        lemma_held_field(after, j, n);
    }
    assert(is =~= was.insert(field.0@, held(field.1)));
}

proof fn lemma_held_fields_agree(
    a: Seq<(String, serde_json::Value)>,
    b: Seq<(String, serde_json::Value)>,
    n: nat,
)
    requires
        n <= a.len() <= b.len(),
        forall|i: int| 0 <= i < n ==> a[i] == b[i],
    ensures
        held_fields(a, n) == held_fields(b, n),
    decreases n,
{
    if n > 0 {
        lemma_held_fields_agree(a, b, (n - 1) as nat);
    }
}

/// Of a value only an object has fields: those that were put in.
pub proof fn law_object_has_its_fields(m: Map<Seq<char>, JsonView>, key: Seq<char>, v: JsonView)
    ensures
        JsonView::Object(m.insert(key, v)).field(key) == Some(v),
        JsonView::Object(m.remove(key)).field(key) is None,
        !(v is Object) ==> v.field(key) is None,
        forall|other: Seq<char>|
            other != key ==> #[trigger] JsonView::Object(m.insert(key, v)).field(other)
                == JsonView::Object(m).field(other),
{
}

/// A value is read as what it is, and as nothing else.
pub proof fn law_value_is_read_as_what_it_is(v: JsonView)
    ensures
        v matches JsonView::Str(s) ==> v.as_text() == Some(s),
        !(v is Str) ==> v.as_text() is None,
        v matches JsonView::Int(n) ==> i64::MIN <= n <= i64::MAX ==> v.as_int() == Some(n),
        v matches JsonView::Int(n) ==> n < i64::MIN || n > i64::MAX ==> v.as_int() is None,
        !(v is Int) ==> v.as_int() is None,
        v matches JsonView::Bool(b) ==> v.as_truth() == Some(b),
        !(v is Bool) ==> v.as_truth() is None,
        v matches JsonView::Array(s) ==> v.as_items() == Some(s),
        !(v is Array) ==> v.as_items() is None,
{
}

/// A field is read as what it holds: as nothing where there is none, or one of another kind.
pub proof fn law_field_is_read_as_what_it_holds(v: JsonView, key: Seq<char>)
    ensures
        v.text_field(key) == (match v.field(key) {
            Some(JsonView::Str(s)) => Some(s),
            _ => None,
        }),
        v.truth_field(key) == (match v.field(key) {
            Some(JsonView::Bool(b)) => Some(b),
            _ => None,
        }),
        v.items_field(key) == (match v.field(key) {
            Some(JsonView::Array(s)) => Some(s),
            _ => None,
        }),
        v.field(key) matches Some(JsonView::Int(n)) ==> i64::MIN <= n <= i64::MAX ==> v.int_field(
            key,
        ) == Some(n),
        !(v.field(key) matches Some(JsonView::Int(_))) ==> v.int_field(key) is None,
{
}

/// A list of texts as JSON has as many items, each of them its text, in order.
pub proof fn law_texts_are_kept_as_items(v: Seq<Seq<char>>)
    ensures
        text_array(v) is Array,
        text_array(v)->Array_0.len() == v.len(),
        forall|i: int|
            0 <= i < v.len() ==> #[trigger] text_array(v)->Array_0[i] == JsonView::Str(v[i]),
{
}

/// What is there stays what it is as JSON; what is not there is null.
pub proof fn law_what_is_missing_is_null(s: Option<Seq<char>>, n: Option<int>, v: Option<JsonView>)
    ensures
        s is Some ==> text_or_null(s).as_text() == s,
        s is None ==> text_or_null(s) is Null,
        n matches Some(i) ==> int_or_null(n) == JsonView::Int(i),
        n is None ==> int_or_null(n) is Null,
        v matches Some(x) ==> value_or_null(v) == x,
        v is None ==> value_or_null(v) is Null,
{
}

} // verus!
