//! JSON documents as plain values, and the calls into `serde_json` that read
//! and write them.

use vstd::prelude::*;
use vstd::string::*;

use crate::text::number::{
    decimal, decimal_text, is_digit, lemma_decimal_digits, lemma_decimal_read_back,
};
use crate::text::same_text;

verus! {

broadcast use {
    vstd::string::group_string_axioms,
    vstd::seq_lib::group_seq_properties,
};

// ---------------------------------------------------------------------------
// Documents
// ---------------------------------------------------------------------------

/// A JSON number.
#[derive(Debug)]
pub enum JsonNumber {
    /// An integer that is not negative.
    Unsigned(u64),
    /// A negative integer.
    Negative(i64),
    /// Any other number, by the text that it displays as.
    Fraction(String),
}

/// A JSON document. The entries of an object keep their order.
#[derive(Debug)]
pub enum Json {
    Null,
    Bool(bool),
    Number(JsonNumber),
    Text(String),
    Array(Vec<Json>),
    Object(Vec<(String, Json)>),
}

/// What a [`JsonNumber`] stands for.
pub ghost enum NumberModel {
    Unsigned(u64),
    Negative(i64),
    Fraction(Seq<char>),
}

/// What a [`Json`] document stands for.
pub ghost enum JsonModel {
    Null,
    Bool(bool),
    Number(NumberModel),
    Text(Seq<char>),
    Array(Seq<JsonModel>),
    Object(Seq<(Seq<char>, JsonModel)>),
}

impl View for JsonNumber {
    type V = NumberModel;

    open spec fn view(&self) -> NumberModel {
        match *self {
            JsonNumber::Unsigned(n) => NumberModel::Unsigned(n),
            JsonNumber::Negative(n) => NumberModel::Negative(n),
            JsonNumber::Fraction(text) => NumberModel::Fraction(text@),
        }
    }
}

/// The document that a value stands for.
pub open spec fn json_model(value: Json) -> JsonModel
    decreases value,
{
    match value {
        Json::Null => JsonModel::Null,
        Json::Bool(b) => JsonModel::Bool(b),
        Json::Number(n) => JsonModel::Number(n@),
        Json::Text(t) => JsonModel::Text(t@),
        Json::Array(items) => JsonModel::Array(
            Seq::new(
                items@.len(),
                |i: int|
                    if 0 <= i < items@.len() {
                        json_model(items@[i])
                    } else {
                        JsonModel::Null
                    },
            ),
        ),
        Json::Object(entries) => JsonModel::Object(
            Seq::new(
                entries@.len(),
                |i: int|
                    if 0 <= i < entries@.len() {
                        (entries@[i].0@, json_model(entries@[i].1))
                    } else {
                        (Seq::empty(), JsonModel::Null)
                    },
            ),
        ),
    }
}

impl View for Json {
    type V = JsonModel;

    open spec fn view(&self) -> JsonModel {
        json_model(*self)
    }
}

/// The documents that a list of values stands for.
pub open spec fn models(items: Seq<Json>) -> Seq<JsonModel> {
    items.map_values(|item: Json| item@)
}

/// The entries that a list of keys and values stands for.
pub open spec fn entry_models(entries: Seq<(String, Json)>) -> Seq<(Seq<char>, JsonModel)> {
    entries.map_values(|entry: (String, Json)| (entry.0@, entry.1@))
}

/// An array stands for its items, in order.
pub broadcast proof fn lemma_array_model(items: Vec<Json>)
    ensures
        #[trigger] json_model(Json::Array(items)) == JsonModel::Array(models(items@)),
{
    assert(json_model(Json::Array(items))->Array_0 =~= models(items@));
}

/// An object stands for its entries, in order.
pub broadcast proof fn lemma_object_model(entries: Vec<(String, Json)>)
    ensures
        #[trigger] json_model(Json::Object(entries)) == JsonModel::Object(
            entry_models(entries@),
        ),
{
    assert(json_model(Json::Object(entries))->Object_0 =~= entry_models(entries@));
}

impl Clone for JsonNumber {
    fn clone(&self) -> (res: Self)
        ensures
            res@ == self@,
    {
        match self {
            JsonNumber::Unsigned(n) => JsonNumber::Unsigned(*n),
            JsonNumber::Negative(n) => JsonNumber::Negative(*n),
            JsonNumber::Fraction(text) => JsonNumber::Fraction(text.clone()),
        }
    }
}

impl Clone for Json {
    fn clone(&self) -> (res: Self)
        ensures
            res@ == self@,
        decreases self,
    {
        broadcast use {lemma_array_model, lemma_object_model};

        match self {
            Json::Null => Json::Null,
            Json::Bool(b) => Json::Bool(*b),
            Json::Number(n) => Json::Number(n.clone()),
            Json::Text(t) => Json::Text(t.clone()),
            Json::Array(items) => {
                let mut copies: Vec<Json> = Vec::new();
                let mut i: usize = 0;
                while i < items.len()
                    invariant
                        i <= items@.len(),
                        *self == Json::Array(*items),
                        models(copies@) == models(items@).take(i as int),
                    decreases items@.len() - i,
                {
                    let ghost before = copies@;
                    assert(decreases_to!(self->Array_0 => self->Array_0@[i as int]));
                    copies.push(items[i].clone());
                    i += 1;
                    assert(models(copies@) == models(before).push(copies@[i - 1]@));
                    assert(models(items@).take(i as int) == models(items@).take(i - 1).push(
                        items@[i - 1]@,
                    ));
                }
                assert(models(items@).take(i as int) == models(items@));
                Json::Array(copies)
            },
            Json::Object(entries) => {
                let mut copies: Vec<(String, Json)> = Vec::new();
                let mut i: usize = 0;
                while i < entries.len()
                    invariant
                        i <= entries@.len(),
                        *self == Json::Object(*entries),
                        entry_models(copies@) == entry_models(entries@).take(i as int),
                    decreases entries@.len() - i,
                {
                    let ghost before = copies@;
                    assert(decreases_to!(self->Object_0 => self->Object_0@[i as int]));
                    let entry: &(String, Json) = &entries[i];
                    let copy: (String, Json) = (entry.0.clone(), entry.1.clone());
                    copies.push(copy);
                    i += 1;
                    assert(entry_models(copies@) == entry_models(before).push(
                        (copy.0@, copy.1@),
                    ));
                    assert(entry_models(entries@).take(i as int) == entry_models(entries@).take(
                        i - 1,
                    ).push((entries@[i - 1].0@, entries@[i - 1].1@)));
                }
                assert(entry_models(entries@).take(i as int) == entry_models(entries@));
                Json::Object(copies)
            },
        }
    }
}

// ---------------------------------------------------------------------------
// Reading a document
// ---------------------------------------------------------------------------

/// The value of the first entry with a key.
pub open spec fn entry_of(entries: Seq<(Seq<char>, JsonModel)>, key: Seq<char>) -> Option<
    JsonModel,
>
    decreases entries.len(),
{
    if entries.len() == 0 {
        None
    } else if entries[0].0 == key {
        Some(entries[0].1)
    } else {
        entry_of(entries.drop_first(), key)
    }
}

/// The value under a key, where the document is an object that has it.
pub open spec fn get(m: JsonModel, key: Seq<char>) -> Option<JsonModel> {
    match m {
        JsonModel::Object(entries) => entry_of(entries, key),
        _ => None,
    }
}

/// The value under a key, null where there is none.
pub open spec fn at(m: JsonModel, key: Seq<char>) -> JsonModel {
    match get(m, key) {
        Some(value) => value,
        None => JsonModel::Null,
    }
}

/// The text of a string.
pub open spec fn as_text(m: JsonModel) -> Option<Seq<char>> {
    match m {
        JsonModel::Text(t) => Some(t),
        _ => None,
    }
}

/// The text of a string, empty for anything else.
pub open spec fn text_or_empty(m: JsonModel) -> Seq<char> {
    match m {
        JsonModel::Text(t) => t,
        _ => Seq::empty(),
    }
}

/// The value of an unsigned integer of 64 bits.
pub open spec fn as_count(m: JsonModel) -> Option<u64> {
    match m {
        JsonModel::Number(NumberModel::Unsigned(n)) => Some(n),
        _ => None,
    }
}

/// The value of an unsigned integer of 64 bits, `default` for anything else.
pub open spec fn count_or(m: JsonModel, default: u64) -> u64 {
    match as_count(m) {
        Some(n) => n,
        None => default,
    }
}

/// The value of a signed integer of 64 bits.
pub open spec fn as_integer(m: JsonModel) -> Option<i64> {
    match m {
        JsonModel::Number(NumberModel::Unsigned(n)) => if n <= i64::MAX {
            Some(n as i64)
        } else {
            None
        },
        JsonModel::Number(NumberModel::Negative(n)) => Some(n),
        _ => None,
    }
}

/// The value of a boolean, false for anything else.
pub open spec fn is_true(m: JsonModel) -> bool {
    match m {
        JsonModel::Bool(b) => b,
        _ => false,
    }
}

/// What an optional reference into a document shows: null where it is absent.
pub open spec fn shown(value: Option<&Json>) -> JsonModel {
    match value {
        Some(v) => v@,
        None => JsonModel::Null,
    }
}

impl Json {
    /// Looks a key up in an object.
    pub fn get(&self, key: &str) -> (found: Option<&Json>)
        ensures
            match found {
                Some(v) => get(self@, key@) == Some(v@),
                None => get(self@, key@) is None,
            },
            shown(found) == at(self@, key@),
    {
        broadcast use lemma_object_model;

        match self {
            Json::Object(entries) => {
                let mut i: usize = 0;
                let ghost all = entry_models(entries@);
                assert(all.skip(0) == all);
                while i < entries.len()
                    invariant
                        i <= entries@.len(),
                        all == entry_models(entries@),
                        get(self@, key@) == entry_of(all.skip(i as int), key@),
                    decreases entries@.len() - i,
                {
                    if same_text(entries[i].0.as_str(), key) {
                        return Some(&entries[i].1);
                    }
                    assert(all.skip(i as int).drop_first() == all.skip(i + 1));
                    i += 1;
                }
                None
            },
            _ => None,
        }
    }

    /// The text of a string.
    pub fn as_text(&self) -> (text: Option<&str>)
        ensures
            match text {
                Some(t) => as_text(self@) == Some(t@),
                None => as_text(self@) is None,
            },
    {
        match self {
            Json::Text(t) => Some(t.as_str()),
            _ => None,
        }
    }

    /// The value of an unsigned integer.
    pub fn as_count(&self) -> (n: Option<u64>)
        ensures
            n == as_count(self@),
    {
        match self {
            Json::Number(JsonNumber::Unsigned(n)) => Some(*n),
            _ => None,
        }
    }

    /// The value of a signed integer.
    pub fn as_integer(&self) -> (n: Option<i64>)
        ensures
            n == as_integer(self@),
    {
        match self {
            Json::Number(JsonNumber::Unsigned(n)) => if *n <= i64::MAX as u64 {
                Some(*n as i64)
            } else {
                None
            },
            Json::Number(JsonNumber::Negative(n)) => Some(*n),
            _ => None,
        }
    }
}

/// Follows a key from a place in a document.
pub fn field<'a>(value: Option<&'a Json>, key: &str) -> (found: Option<&'a Json>)
    ensures
        shown(found) == at(shown(value), key@),
{
    match value {
        Some(v) => v.get(key),
        None => None,
    }
}

/// The text at a place in a document.
pub fn text_at<'a>(value: Option<&'a Json>) -> (text: Option<&'a str>)
    ensures
        match text {
            Some(t) => as_text(shown(value)) == Some(t@),
            None => as_text(shown(value)) is None,
        },
{
    match value {
        Some(v) => v.as_text(),
        None => None,
    }
}

/// A copy of the text at a place in a document, empty if none is there.
pub fn text_or_empty_at(value: Option<&Json>) -> (text: String)
    ensures
        text@ == text_or_empty(shown(value)),
{
    match text_at(value) {
        Some(t) => t.to_owned(),
        None => String::new(),
    }
}

/// The unsigned integer at a place in a document.
pub fn count_at(value: Option<&Json>) -> (n: Option<u64>)
    ensures
        n == as_count(shown(value)),
{
    match value {
        Some(v) => v.as_count(),
        None => None,
    }
}

/// The unsigned integer at a place in a document, or a default.
pub fn count_or_at(value: Option<&Json>, default: u64) -> (n: u64)
    ensures
        n == count_or(shown(value), default),
{
    match count_at(value) {
        Some(n) => n,
        None => default,
    }
}

/// Whether the place in a document holds `true`.
pub fn is_true_at(value: Option<&Json>) -> (b: bool)
    ensures
        b == is_true(shown(value)),
{
    match value {
        Some(Json::Bool(b)) => *b,
        _ => false,
    }
}

/// A copy of what a place in a document holds.
pub fn copy_at(value: Option<&Json>) -> (copy: Json)
    ensures
        copy@ == shown(value),
{
    match value {
        Some(v) => v.clone(),
        None => Json::Null,
    }
}

// ---------------------------------------------------------------------------
// Making a document
// ---------------------------------------------------------------------------

/// The document for an unsigned integer.
pub open spec fn count_model(n: u64) -> JsonModel {
    JsonModel::Number(NumberModel::Unsigned(n))
}

/// The decimal notation of a signed integer.
pub open spec fn signed_decimal(n: int) -> Seq<char> {
    if n < 0 {
        seq!['-'] + decimal((-n) as nat)
    } else {
        decimal(n as nat)
    }
}

/// The document for a signed integer.
pub open spec fn integer_model(n: i64) -> JsonModel {
    JsonModel::Number(
        if n >= 0 {
            NumberModel::Unsigned(n as u64)
        } else {
            NumberModel::Negative(n)
        },
    )
}

/// Writes a signed integer in decimal.
pub fn signed_text(n: i64) -> (out: String)
    ensures
        out@ == signed_decimal(n as int),
{
    if n < 0 {
        let mut out: String = String::new();
        out.push('-');
        let size: u128 = (-(n as i128)) as u128;
        let digits: String = decimal_text(size);
        out.append(digits.as_str());
        assert(out@ == seq!['-'] + digits@);
        out
    } else {
        decimal_text(n as u128)
    }
}

impl Json {
    /// A string.
    pub fn text(s: &str) -> (value: Json)
        ensures
            value@ == JsonModel::Text(s@),
    {
        Json::Text(s.to_owned())
    }

    /// An unsigned integer.
    pub fn count(n: u64) -> (value: Json)
        ensures
            value@ == count_model(n),
    {
        Json::Number(JsonNumber::Unsigned(n))
    }

    /// A signed integer.
    pub fn integer(n: i64) -> (value: Json)
        ensures
            value@ == integer_model(n),
    {
        if n >= 0 {
            Json::Number(JsonNumber::Unsigned(n as u64))
        } else {
            Json::Number(JsonNumber::Negative(n))
        }
    }

    /// An array.
    pub fn array(items: Vec<Json>) -> (value: Json)
        ensures
            value@ == JsonModel::Array(models(items@)),
    {
        broadcast use lemma_array_model;

        Json::Array(items)
    }

    /// An object without entries.
    pub fn object() -> (value: Json)
        ensures
            value@ == JsonModel::Object(Seq::empty()),
    {
        broadcast use lemma_object_model;

        let entries: Vec<(String, Json)> = Vec::new();
        assert(entry_models(entries@) == Seq::<(Seq<char>, JsonModel)>::empty());
        Json::Object(entries)
    }

    /// An object with one more entry at its end.
    pub fn with(self, key: &str, value: Json) -> (extended: Json)
        requires
            self@ is Object,
        ensures
            extended@ == JsonModel::Object(self@->Object_0.push((key@, value@))),
    {
        broadcast use lemma_object_model;

        match self {
            Json::Object(mut entries) => {
                let ghost before = entries@;
                let entry: (String, Json) = (key.to_owned(), value);
                entries.push(entry);
                assert(entry_models(entries@) == entry_models(before).push((entry.0@, entry.1@)));
                Json::Object(entries)
            },
            other => other,
        }
    }
}

// ---------------------------------------------------------------------------
// Calls into serde_json
// ---------------------------------------------------------------------------

/// The error of `serde_json`.
#[verifier::external_type_specification]
#[verifier::external_body]
pub struct ExError(serde_json::Error);

/// The number type of `serde_json`.
#[verifier::external_type_specification]
#[verifier::external_body]
pub struct ExNumber(serde_json::Number);

/// The document type of `serde_json`.
#[verifier::external_type_specification]
#[verifier::external_body]
pub struct ExValue(serde_json::Value);

/// What `serde_json::from_str` reads from a text; nothing where it fails.
pub uninterp spec fn document_of_text(text: Seq<char>) -> Option<JsonModel>;

/// What `serde_json::from_slice` reads from bytes; nothing where it fails.
pub uninterp spec fn document_of_bytes(bytes: Seq<u8>) -> Option<JsonModel>;

/// The text that a `serde_json::Value` displays.
pub uninterp spec fn text_of_document(document: JsonModel) -> Seq<char>;

/// The text that `serde_json::to_string_pretty` gives of a document.
pub uninterp spec fn pretty_text_of_document(document: JsonModel) -> Seq<char>;

/// The texts that the entries of an object hold, by key: of a key that occurs
/// more than once, the last entry counts. Nothing where a value is no text.
pub open spec fn text_map(entries: Seq<(Seq<char>, JsonModel)>) -> Option<
    Map<Seq<char>, Seq<char>>,
>
    decreases entries.len(),
{
    if entries.len() == 0 {
        Some(Map::empty())
    } else {
        match (text_map(entries.drop_last()), entries.last().1) {
            (Some(held), JsonModel::Text(text)) => Some(held.insert(entries.last().0, text)),
            _ => None,
        }
    }
}

/// Whether a document is an object that holds just these texts.
pub open spec fn holds_texts(
    document: Option<JsonModel>,
    held: Map<Seq<char>, Seq<char>>,
) -> bool {
    document matches Some(JsonModel::Object(entries)) && text_map(entries) == Some(held)
}

/// Takes a `serde_json::Number` apart: an integer as it is, any other number as
/// the text that it displays as. Nothing is claimed of it: the readers below
/// claim what they return.
#[verifier::external_body]
fn from_number(number: serde_json::Number) -> JsonNumber {
    match (number.as_u64(), number.as_i64()) {
        (Some(n), _) => JsonNumber::Unsigned(n),
        (None, Some(n)) => JsonNumber::Negative(n),
        (None, None) => JsonNumber::Fraction(number.to_string()),
    }
}

/// Puts a number together as a `serde_json::Value`. The text of a number that is
/// no integer is read by `str::parse`, which gives the closest value, so a
/// number that was taken apart is the same again. Nothing is claimed of it: the
/// writers below claim what they return.
#[verifier::external_body]
fn to_number(number: &JsonNumber) -> serde_json::Value {
    match number {
        JsonNumber::Unsigned(n) => serde_json::Value::from(*n),
        JsonNumber::Negative(n) => serde_json::Value::from(*n),
        JsonNumber::Fraction(text) => serde_json::Value::from(
            text.parse().ok().and_then(serde_json::Number::from_f64),
        ),
    }
}

/// Takes a `serde_json::Value` apart, variant for variant. Nothing is claimed
/// of it: the readers below claim what they return.
#[verifier::external_body]
fn from_value(value: serde_json::Value) -> Json {
    match value {
        serde_json::Value::Null => Json::Null,
        serde_json::Value::Bool(b) => Json::Bool(b),
        serde_json::Value::Number(n) => Json::Number(from_number(n)),
        serde_json::Value::String(t) => Json::Text(t),
        serde_json::Value::Array(items) => Json::Array(items.into_iter().map(from_value).collect()),
        serde_json::Value::Object(entries) => Json::Object(
            entries.into_iter().map(|(key, item)| (key, from_value(item))).collect(),
        ),
    }
}

/// Puts a `serde_json::Value` together, variant for variant. Nothing is claimed
/// of it: the writers below claim what they return.
#[verifier::external_body]
fn to_value(value: &Json) -> serde_json::Value {
    match value {
        Json::Null => serde_json::Value::Null,
        Json::Bool(b) => serde_json::Value::Bool(*b),
        Json::Number(n) => to_number(n),
        Json::Text(t) => serde_json::Value::String(t.clone()),
        Json::Array(items) => serde_json::Value::Array(items.iter().map(to_value).collect()),
        Json::Object(entries) => serde_json::Value::Object(
            entries.iter().map(|(key, item)| (key.clone(), to_value(item))).collect(),
        ),
    }
}

/// `serde_json::from_str`: reads a document from a text. The result is the
/// named one, and an error where there is none.
#[verifier::external_body]
fn read_text(text: &str) -> (res: Result<Json, serde_json::Error>)
    ensures
        match res {
            Ok(value) => document_of_text(text@) == Some(value@),
            Err(_) => document_of_text(text@) is None,
        },
{
    serde_json::from_str::<serde_json::Value>(text).map(from_value)
}

/// `serde_json::from_slice`: reads a document from bytes. The result is the
/// named one, and an error where there is none.
#[verifier::external_body]
fn read_bytes(bytes: &[u8]) -> (res: Result<Json, serde_json::Error>)
    ensures
        match res {
            Ok(value) => document_of_bytes(bytes@) == Some(value@),
            Err(_) => document_of_bytes(bytes@) is None,
        },
{
    serde_json::from_slice::<serde_json::Value>(bytes).map(from_value)
}

/// `serde_json::Value::to_string`: writes a document. The text is the named
/// one.
#[verifier::external_body]
fn write_text(value: &Json) -> (text: String)
    ensures
        text@ == text_of_document(value@),
{
    to_value(value).to_string()
}

/// `serde_json::to_string_pretty`: writes a document over several lines. It
/// does not fail on a `serde_json::Value`. The text is the named one, and what
/// is written of an object of texts is read back by `serde_json::from_str` as
/// an object of the same texts.
#[verifier::external_body]
fn write_pretty_text(value: &Json) -> (text: String)
    ensures
        text@ == pretty_text_of_document(value@),
        value@ matches JsonModel::Object(entries) ==> (text_map(entries) matches Some(held)
            ==> holds_texts(document_of_text(text@), held)),
{
    serde_json::to_string_pretty(&to_value(value)).unwrap_or_default()
}

impl Json {
    /// Reads a document from a text.
    pub fn parse(text: &str) -> (document: Option<Json>)
        ensures
            match document {
                Some(value) => document_of_text(text@) == Some(value@),
                None => document_of_text(text@) is None,
            },
    {
        match read_text(text) {
            Ok(value) => Some(value),
            Err(_) => None,
        }
    }

    /// Reads a document from bytes.
    pub fn parse_bytes(bytes: &[u8]) -> (document: Option<Json>)
        ensures
            match document {
                Some(value) => document_of_bytes(bytes@) == Some(value@),
                None => document_of_bytes(bytes@) is None,
            },
    {
        match read_bytes(bytes) {
            Ok(value) => Some(value),
            Err(_) => None,
        }
    }

    /// Writes the document as compact text.
    pub fn to_text(&self) -> (text: String)
        ensures
            text@ == text_of_document(self@),
    {
        write_text(self)
    }

    /// Writes the document over several lines. An object of texts reads back
    /// as one that holds the same texts.
    pub fn to_pretty_text(&self) -> (text: String)
        ensures
            text@ == pretty_text_of_document(self@),
            self@ matches JsonModel::Object(entries) ==> (text_map(entries) matches Some(held)
                ==> holds_texts(document_of_text(text@), held)),
    {
        write_pretty_text(self)
    }
}

// ---------------------------------------------------------------------------
// What reading gives of what was made
// ---------------------------------------------------------------------------

/// Looking a key up in an object gives the value of the first entry with that
/// key, and nothing just if there is no such entry; a place without a value
/// reads as null. What is no object has no entries.
pub proof fn law_lookup_finds_the_first_entry(document: JsonModel, key: Seq<char>)
    ensures
        match document {
            JsonModel::Object(entries) => {
                &&& get(document, key) matches Some(value) ==> exists|i: int|
                    {
                        &&& 0 <= i < entries.len()
                        &&& (#[trigger] entries[i]).0 == key
                        &&& entries[i].1 == value
                        &&& forall|j: int| 0 <= j < i ==> (#[trigger] entries[j]).0 != key
                    }
                &&& get(document, key) is None <==> forall|i: int|
                    0 <= i < entries.len() ==> (#[trigger] entries[i]).0 != key
            },
            _ => get(document, key) is None,
        },
        get(document, key) matches Some(value) ==> at(document, key) == value,
        get(document, key) is None ==> at(document, key) == JsonModel::Null,
{
    if let JsonModel::Object(entries) = document {
        lemma_first_entry(entries, key);
    }
}

proof fn lemma_first_entry(entries: Seq<(Seq<char>, JsonModel)>, key: Seq<char>)
    ensures
        match entry_of(entries, key) {
            Some(value) => exists|i: int|
                {
                    &&& 0 <= i < entries.len()
                    &&& (#[trigger] entries[i]).0 == key
                    &&& entries[i].1 == value
                    &&& forall|j: int| 0 <= j < i ==> (#[trigger] entries[j]).0 != key
                },
            None => forall|i: int| 0 <= i < entries.len() ==> (#[trigger] entries[i]).0 != key,
        },
    decreases entries.len(),
{
    if entries.len() > 0 && entries[0].0 != key {
        let rest = entries.drop_first();
        lemma_first_entry(rest, key);
        if let Some(value) = entry_of(rest, key) {
            let i = choose|i: int|
                {
                    &&& 0 <= i < rest.len()
                    &&& (#[trigger] rest[i]).0 == key
                    &&& rest[i].1 == value
                    &&& forall|j: int| 0 <= j < i ==> (#[trigger] rest[j]).0 != key
                };
            assert(entries[i + 1] == rest[i]);
            assert forall|j: int| 0 <= j < i + 1 implies (#[trigger] entries[j]).0 != key by {
                if j > 0 {
                    assert(rest[j - 1] == entries[j]);
                }
            }
        } else {
            assert forall|j: int| 0 <= j < entries.len() implies (#[trigger] entries[j]).0
                != key by {
                if j > 0 {
                    assert(rest[j - 1] == entries[j]);
                }
            }
        }
    }
}

/// An entry that is added under a new key is read back under it, and every
/// other key reads as before.
pub proof fn law_added_entry_is_read_back(
    entries: Seq<(Seq<char>, JsonModel)>,
    key: Seq<char>,
    value: JsonModel,
    other: Seq<char>,
)
    requires
        get(JsonModel::Object(entries), key) is None,
    ensures
        get(JsonModel::Object(entries.push((key, value))), key) == Some(value),
        other != key ==> get(JsonModel::Object(entries.push((key, value))), other) == get(
            JsonModel::Object(entries),
            other,
        ),
    decreases entries.len(),
{
    let more = entries.push((key, value));
    if entries.len() > 0 {
        assert(more.drop_first() == entries.drop_first().push((key, value)));
        law_added_entry_is_read_back(entries.drop_first(), key, value, other);
    } else {
        assert(more.drop_first() == entries);
        assert(entry_of(more.drop_first(), other) is None);
    }
}

/// Each reader takes just the documents of its kind, and gives what they hold:
/// texts are read as texts, what is not negative as a count, integers that fit
/// as integers, and only the value true as true.
pub proof fn law_readers_take_their_kind(
    document: JsonModel,
    text: Seq<char>,
    count: u64,
    n: i64,
    default: u64,
)
    ensures
        as_text(document) == Some(text) <==> document == JsonModel::Text(text),
        as_text(document) is None ==> text_or_empty(document) == Seq::<char>::empty(),
        text_or_empty(JsonModel::Text(text)) == text,
        as_count(document) == Some(count) <==> document == JsonModel::Number(
            NumberModel::Unsigned(count),
        ),
        as_count(document) is None ==> count_or(document, default) == default,
        count_or(JsonModel::Number(NumberModel::Unsigned(count)), default) == count,
        as_integer(document) == Some(n) <==> {
            ||| document == JsonModel::Number(NumberModel::Negative(n))
            ||| n >= 0 && document == JsonModel::Number(NumberModel::Unsigned(n as u64))
        },
        is_true(document) <==> document == JsonModel::Bool(true),
{
}

/// What is made of a number is read back as that number.
pub proof fn law_numbers_are_read_back(count: u64, n: i64)
    ensures
        as_count(count_model(count)) == Some(count),
        as_integer(integer_model(n)) == Some(n),
        n >= 0 ==> as_count(integer_model(n)) == Some(n as u64),
        n < 0 ==> as_count(integer_model(n)) is None,
{
}

/// No two integers are written alike.
pub proof fn law_signed_decimal_tells_apart(n: int, m: int)
    ensures
        signed_decimal(n) == signed_decimal(m) ==> n == m,
        n >= 0 ==> signed_decimal(n) == decimal(n as nat),
        n < 0 ==> signed_decimal(n).len() > 1 && signed_decimal(n)[0] == '-',
{
    lemma_decimal_digits(if n < 0 { (-n) as nat } else { n as nat });
    lemma_decimal_digits(if m < 0 { (-m) as nat } else { m as nat });
    lemma_decimal_read_back(if n < 0 { (-n) as nat } else { n as nat });
    lemma_decimal_read_back(if m < 0 { (-m) as nat } else { m as nat });
    if n < 0 {
        assert(signed_decimal(n).drop_first() == decimal((-n) as nat));
    } else {
        assert(is_digit(decimal(n as nat)[0]));
    }
    if m < 0 {
        assert(signed_decimal(m).drop_first() == decimal((-m) as nat));
    } else {
        assert(is_digit(decimal(m as nat)[0]));
    }
}

/// The texts of an object are those of its entries: each key that occurs has
/// the text of its last entry, and there are such texts just if every value is
/// a text.
pub proof fn law_last_entry_counts(entries: Seq<(Seq<char>, JsonModel)>)
    ensures
        text_map(entries) is Some <==> forall|i: int|
            0 <= i < entries.len() ==> (#[trigger] entries[i]).1 is Text,
        text_map(entries) matches Some(held) ==> {
            &&& forall|i: int|
                0 <= i < entries.len() && (forall|j: int|
                    i < j < entries.len() ==> (#[trigger] entries[j]).0 != entries[i].0)
                    ==> held.contains_key((#[trigger] entries[i]).0) && entries[i].1
                    == JsonModel::Text(held[entries[i].0])
            &&& forall|key: Seq<char>| #[trigger]
                held.contains_key(key) ==> exists|i: int|
                    0 <= i < entries.len() && (#[trigger] entries[i]).0 == key
        },
    decreases entries.len(),
{
    if entries.len() > 0 {
        let front = entries.drop_last();
        let last = entries.last();
        law_last_entry_counts(front);
        assert forall|i: int| 0 <= i < front.len() implies #[trigger] front[i] == entries[i] by {}
        assert(entries[entries.len() - 1] == last);
        assert(text_map(entries) is Some <==> forall|i: int|
            0 <= i < entries.len() ==> (#[trigger] entries[i]).1 is Text) by {
            if forall|i: int| 0 <= i < entries.len() ==> (#[trigger] entries[i]).1 is Text {
                assert forall|i: int| 0 <= i < front.len() implies (
                #[trigger] front[i]).1 is Text by {
                    assert(entries[i].1 is Text);
                }
            }
            if text_map(entries) is Some {
                assert forall|i: int| 0 <= i < entries.len() implies (
                #[trigger] entries[i]).1 is Text by {
                    if i < front.len() {
                        assert(front[i].1 is Text);
                    }
                }
            }
        }
        if let Some(held) = text_map(entries) {
            let before = text_map(front)->Some_0;
            assert forall|i: int|
                0 <= i < entries.len() && (forall|j: int|
                    i < j < entries.len() ==> (#[trigger] entries[j]).0
                        != entries[i].0) implies held.contains_key((#[trigger] entries[i]).0)
                && entries[i].1 == JsonModel::Text(held[entries[i].0]) by {
                if i < front.len() {
                    assert(entries[entries.len() - 1].0 != entries[i].0);
                    assert forall|j: int| i < j < front.len() implies (#[trigger] front[j]).0
                        != front[i].0 by {
                        assert(entries[j].0 != entries[i].0);
                    }
                    assert(before.contains_key(front[i].0));
                }
            }
            assert forall|key: Seq<char>| #[trigger] held.contains_key(key) implies exists|i: int|
                0 <= i < entries.len() && (#[trigger] entries[i]).0 == key by {
                if key != last.0 {
                    assert(before.contains_key(key));
                    let i = choose|i: int| 0 <= i < front.len() && (#[trigger] front[i]).0 == key;
                    assert(entries[i].0 == key);
                }
            }
        }
    }
}

/// A document stands for what it holds: an array for its items and an object
/// for its entries, all of them and in order, anything else for its value.
pub proof fn law_documents_show_what_they_hold(value: Json)
    ensures
        match value {
            Json::Null => value@ == JsonModel::Null,
            Json::Bool(b) => value@ == JsonModel::Bool(b),
            Json::Text(t) => value@ == JsonModel::Text(t@),
            Json::Number(JsonNumber::Unsigned(n)) => value@ == JsonModel::Number(
                NumberModel::Unsigned(n),
            ),
            Json::Number(JsonNumber::Negative(n)) => value@ == JsonModel::Number(
                NumberModel::Negative(n),
            ),
            Json::Number(JsonNumber::Fraction(text)) => value@ == JsonModel::Number(
                NumberModel::Fraction(text@),
            ),
            Json::Array(items) => value@ matches JsonModel::Array(shown) && {
                &&& shown.len() == items@.len()
                &&& forall|i: int| 0 <= i < items@.len() ==> #[trigger] shown[i] == items@[i]@
            },
            Json::Object(entries) => value@ matches JsonModel::Object(shown) && {
                &&& shown.len() == entries@.len()
                &&& forall|i: int|
                    0 <= i < entries@.len() ==> (#[trigger] shown[i]).0 == entries@[i].0@
                        && shown[i].1 == entries@[i].1@
            },
        },
{
}

} // verus!
