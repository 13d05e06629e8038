//! JSON documents, and the reply that the answer of a chat server holds.
use vstd::prelude::*;

use crate::text::{equal, text_of};

verus! {

/// A decoded JSON document.
#[derive(Debug)]
pub enum Json {
    Null,
    Bool(bool),
    /// A number as it is written.
    Number(String),
    Text(String),
    Array(Vec<Json>),
    Object(Vec<JsonField>),
}

/// A field of an object.
#[derive(Debug)]
pub struct JsonField {
    pub key: String,
    pub value: Json,
}

/// A decoded JSON document with its texts.
pub enum JsonView {
    Null,
    Bool(bool),
    Number(Seq<char>),
    Text(Seq<char>),
    Array(Seq<JsonView>),
    Object(Seq<FieldView>),
}

/// A field of an object with its texts.
pub struct FieldView {
    pub key: Seq<char>,
    pub value: JsonView,
}

impl View for Json {
    type V = JsonView;

    open spec fn view(&self) -> JsonView
        decreases self,
    {
        match self {
            Json::Null => JsonView::Null,
            Json::Bool(b) => JsonView::Bool(*b),
            Json::Number(n) => JsonView::Number(n@),
            Json::Text(s) => JsonView::Text(s@),
            Json::Array(items) => JsonView::Array(
                Seq::new(
                    items@.len(),
                    |i: int|
                        if 0 <= i < items@.len() {
                            items@[i].view()
                        } else {
                            JsonView::Null
                        },
                ),
            ),
            Json::Object(fields) => JsonView::Object(
                Seq::new(
                    fields@.len(),
                    |i: int|
                        if 0 <= i < fields@.len() {
                            FieldView { key: fields@[i].key@, value: fields@[i].value.view() }
                        } else {
                            FieldView { key: seq![], value: JsonView::Null }
                        },
                ),
            ),
        }
    }
}

/// The first value that stands under `key`.
pub open spec fn value_under(fields: Seq<FieldView>, key: Seq<char>) -> Option<JsonView>
    decreases fields.len(),
{
    if fields.len() == 0 {
        None
    } else if fields[0].key == key {
        Some(fields[0].value)
    } else {
        value_under(fields.drop_first(), key)
    }
}

impl JsonView {
    /// The value of a field; only an object has fields.
    pub open spec fn field(self, key: Seq<char>) -> Option<JsonView> {
        match self {
            JsonView::Object(fields) => value_under(fields, key),
            _ => None,
        }
    }

    /// The first item; only an array that is not empty has one.
    pub open spec fn first(self) -> Option<JsonView> {
        match self {
            JsonView::Array(items) => if items.len() > 0 {
                Some(items[0])
            } else {
                None
            },
            _ => None,
        }
    }

    /// The text, of a text.
    pub open spec fn text(self) -> Option<Seq<char>> {
        match self {
            JsonView::Text(s) => Some(s),
            _ => None,
        }
    }
}

/// The text at `choices`, its first item, `message`, `content`.
pub open spec fn reply_in(answer: JsonView) -> Option<Seq<char>> {
    match answer.field("choices"@) {
        None => None,
        Some(choices) => match choices.first() {
            None => None,
            Some(choice) => match choice.field("message"@) {
                None => None,
                Some(message) => match message.field("content"@) {
                    None => None,
                    Some(content) => content.text(),
                },
            },
        },
    }
}

/// The reply that an answer holds, with words of our own where it holds none.
pub open spec fn reply_of(answer: JsonView) -> Seq<char> {
    match reply_in(answer) {
        Some(reply) => reply,
        None => "(no content)"@,
    }
}

impl Json {
    /// The value of a field; only an object has fields.
    pub fn field(&self, key: &str) -> (r: Option<&Json>)
        ensures
            match r {
                Some(value) => self@.field(key@) == Some(value@),
                None => self@.field(key@) is None,
            },
    {
        match self {
            Json::Object(fields) => {
                let ghost all = match self@ {
                    JsonView::Object(list) => list,
                    _ => seq![],
                };
                let mut i: usize = 0;
                assert(all.skip(0) =~= all);
                while i < fields.len()
                    invariant
                        i <= fields@.len(),
                        all.len() == fields@.len(),
                        forall|j: int|
                            0 <= j < fields@.len() ==> (#[trigger] all[j]).key == fields@[j].key@
                                && all[j].value == fields@[j].value@,
                        self@.field(key@) == value_under(all.skip(i as int), key@),
                    decreases fields@.len() - i,
                {
                    assert(all.skip(i as int)[0] == all[i as int]);
                    assert(all.skip(i as int).drop_first() =~= all.skip(i + 1));
                    if equal(fields[i].key.as_str(), key) {
                        return Some(&fields[i].value);
                    }
                    i += 1;
                }
                None
            },
            _ => None,
        }
    }

    /// The first item; only an array that is not empty has one.
    pub fn first(&self) -> (r: Option<&Json>)
        ensures
            match r {
                Some(value) => self@.first() == Some(value@),
                None => self@.first() is None,
            },
    {
        match self {
            Json::Array(items) => if items.len() > 0 {
                Some(&items[0])
            } else {
                None
            },
            _ => None,
        }
    }

    /// The text, of a text.
    pub fn text(&self) -> (r: Option<String>)
        ensures
            text_of(r) == self@.text(),
    {
        match self {
            Json::Text(s) => Some(s.clone()),
            _ => None,
        }
    }

    /// The text at `choices`, its first item, `message`, `content`.
    fn reply(&self) -> (r: Option<String>)
        ensures
            text_of(r) == reply_in(self@),
    {
        self.field("choices")?.first()?.field("message")?.field("content")?.text()
    }
}

/// The reply that an answer holds, with words of our own where it holds none.
pub fn reply_text(answer: &Json) -> (r: String)
    ensures
        r@ == reply_of(answer@),
{
    match answer.reply() {
        Some(reply) => reply,
        None => "(no content)".to_owned(),
    }
}

/// A document as `serde_json` holds it.
#[verifier::external_type_specification]
#[verifier::external_body]
pub struct ExValue(serde_json::Value);

/// Why `serde_json` refused a document.
#[verifier::external_type_specification]
#[verifier::external_body]
pub struct ExJsonError(serde_json::Error);

/// What a `serde_json::Value` holds.
pub uninterp spec fn json_contents(value: serde_json::Value) -> JsonView;

/// The document that the bytes are read as by `serde_json::from_slice`, where they are one.
pub uninterp spec fn decoded_json(body: Seq<u8>) -> Option<JsonView>;

/// Calls `serde_json::from_slice` for a `serde_json::Value`: the bytes alone decide whether they
/// are a document, and which.
#[verifier::external_body]
fn parse_value(body: &[u8]) -> (r: Result<serde_json::Value, serde_json::Error>)
    ensures
        match r {
            Ok(value) => decoded_json(body@) == Some(json_contents(value)),
            Err(_) => decoded_json(body@) is None,
        },
{
    serde_json::from_slice(body)
}

/// Takes a `serde_json::Value` apart: each variant becomes the one of the same name, and what it
/// holds stays as it is, in its order; a number becomes the text that it is printed as.
#[verifier::external_body]
fn json_from_value(value: serde_json::Value) -> (r: Json)
    ensures
        r@ == json_contents(value),
{
    match value {
        serde_json::Value::Null => Json::Null,
        serde_json::Value::Bool(b) => Json::Bool(b),
        serde_json::Value::Number(n) => Json::Number(n.to_string()),
        serde_json::Value::String(s) => Json::Text(s),
        serde_json::Value::Array(items) => Json::Array(items.into_iter().map(json_from_value).collect()),
        serde_json::Value::Object(fields) => Json::Object(
            fields.into_iter().map(|(key, value)| JsonField { key, value: json_from_value(value) }).collect(),
        ),
    }
}

/// The document that the bytes hold, where they hold one.
pub fn decode(body: &[u8]) -> (r: Option<Json>)
    ensures
        match r {
            Some(document) => decoded_json(body@) == Some(document@),
            None => decoded_json(body@) is None,
        },
{
    match parse_value(body) {
        Ok(value) => Some(json_from_value(value)),
        Err(_) => None,
    }
}

/// A field is the first entry under its key; a key that no entry has gives nothing, and neither
/// does what is no object.
pub proof fn law_field_by_its_key(fields: Seq<FieldView>, key: Seq<char>, i: int)
    ensures
        0 <= i < fields.len() && fields[i].key == key && (forall|j: int|
            0 <= j < i ==> (#[trigger] fields[j]).key != key) ==> JsonView::Object(fields).field(
            key,
        ) == Some(fields[i].value),
        (forall|j: int| 0 <= j < fields.len() ==> (#[trigger] fields[j]).key != key)
            ==> JsonView::Object(fields).field(key) is None,
    decreases fields.len(),
{
    if fields.len() > 0 {
        let rest = fields.drop_first();
        law_field_by_its_key(rest, key, i - 1);
        if fields[0].key != key {
            if 0 < i < fields.len() && fields[i].key == key && (forall|j: int|
                0 <= j < i ==> (#[trigger] fields[j]).key != key) {
                assert(rest[i - 1] == fields[i]);
                assert forall|j: int| 0 <= j < i - 1 implies (#[trigger] rest[j]).key != key by {
                    assert(fields[j + 1].key != key);
                }
            }
            if forall|j: int| 0 <= j < fields.len() ==> (#[trigger] fields[j]).key != key {
                assert forall|j: int| 0 <= j < rest.len() implies (#[trigger] rest[j]).key
                    != key by {
                    assert(fields[j + 1].key != key);
                }
            }
        }
    }
}

/// Only an object has fields, only an array has items, and only a text is one.
pub proof fn law_parts_of_documents(
    items: Seq<JsonView>,
    fields: Seq<FieldView>,
    text: Seq<char>,
    flag: bool,
    key: Seq<char>,
)
    ensures
        items.len() > 0 ==> JsonView::Array(items).first() == Some(items[0]),
        items.len() == 0 ==> JsonView::Array(items).first() is None,
        JsonView::Object(fields).first() is None,
        JsonView::Text(text).first() is None,
        JsonView::Number(text).first() is None,
        JsonView::Bool(flag).first() is None,
        JsonView::Null.first() is None,
        JsonView::Array(items).field(key) is None,
        JsonView::Text(text).field(key) is None,
        JsonView::Number(text).field(key) is None,
        JsonView::Bool(flag).field(key) is None,
        JsonView::Null.field(key) is None,
        JsonView::Text(text).text() == Some(text),
        JsonView::Array(items).text() is None,
        JsonView::Object(fields).text() is None,
        JsonView::Number(text).text() is None,
        JsonView::Bool(flag).text() is None,
        JsonView::Null.text() is None,
{
}

/// The reply is the whole text at `choices`, its first item, `message`, `content`, whatever else
/// the answer holds.
pub proof fn law_reply_is_the_content(
    answer: JsonView,
    choices: Seq<JsonView>,
    message: JsonView,
    text: Seq<char>,
)
    requires
        answer.field("choices"@) == Some(JsonView::Array(choices)),
        choices.len() > 0,
        choices[0].field("message"@) == Some(message),
        message.field("content"@) == Some(JsonView::Text(text)),
    ensures
        reply_of(answer) == text,
{
}

/// Where a step of the way is missing, or no text stands at its end, the reply says that there is
/// none.
pub proof fn law_reply_where_there_is_none(answer: JsonView)
    requires
        ({
            let choices = answer.field("choices"@);
            let message = choices->0->Array_0[0].field("message"@);
            let content = message->0.field("content"@);
            ||| choices is None
            ||| !(choices->0 is Array)
            ||| choices->0->Array_0.len() == 0
            ||| message is None
            ||| content is None
            ||| !(content->0 is Text)
        }),
    ensures
        reply_of(answer) == "(no content)"@,
{
}

/// What contracts say of a document is said of its parts, in their order.
pub proof fn law_what_stands_for_a_document(
    items: Vec<Json>,
    fields: Vec<JsonField>,
    text: String,
    flag: bool,
    i: int,
)
    ensures
        Json::Null@ == JsonView::Null,
        Json::Bool(flag)@ == JsonView::Bool(flag),
        Json::Number(text)@ == JsonView::Number(text@),
        Json::Text(text)@ == JsonView::Text(text@),
        Json::Array(items)@ is Array,
        Json::Array(items)@->Array_0.len() == items@.len(),
        0 <= i < items@.len() ==> Json::Array(items)@->Array_0[i] == items@[i]@,
        Json::Object(fields)@ is Object,
        Json::Object(fields)@->Object_0.len() == fields@.len(),
        0 <= i < fields@.len() ==> Json::Object(fields)@->Object_0[i].key == fields@[i].key@
            && Json::Object(fields)@->Object_0[i].value == fields@[i].value@,
{
}

} // verus!
