//! The way between [`Json`] and the JSON text that `serde_json` reads and writes.
//!
//! Values of `serde_json` are opaque here. [`value_tree`] names what such a value holds; two
//! functions open one layer of a value and close one again, and the recursion over the layers
//! is verified.
use vstd::prelude::*;

use crate::json::{Json, JsonView};

verus! {

/// The JSON value of `serde_json`.
#[verifier::external_type_specification]
#[verifier::external_body]
pub struct ExValue(serde_json::Value);

/// The tree of members and items that a value of `serde_json` holds.
pub uninterp spec fn value_tree(value: serde_json::Value) -> JsonView;

/// What `serde_json::from_str` makes of a text: the value it denotes, or the message of the
/// error.
pub uninterp spec fn parsed(text: Seq<char>) -> Result<JsonView, Seq<char>>;

/// The text that `serde_json::to_string` writes.
pub uninterp spec fn compact(tree: JsonView) -> Seq<char>;

/// The text that `serde_json::to_string_pretty` writes.
pub uninterp spec fn pretty(tree: JsonView) -> Seq<char>;

/// The deepest nesting of arrays and objects that `serde_json` reads.
pub open spec fn max_nesting() -> nat {
    127
}

/// A tree without fractional numbers whose arrays and objects nest at most `levels` deep.
pub open spec fn exact(tree: JsonView, levels: nat) -> bool
    decreases tree,
{
    match tree {
        JsonView::Float(_) => false,
        JsonView::Array(items) => {
            &&& levels > 0
            &&& forall|i: int|
                0 <= i < items.len() ==> exact(#[trigger] items[i], (levels - 1) as nat)
        },
        JsonView::Object(entries) => {
            &&& levels > 0
            &&& forall|i: int|
                0 <= i < entries.len() ==> exact((#[trigger] entries[i]).1, (levels - 1) as nat)
        },
        _ => true,
    }
}

/// A tree that is written and read back without loss.
pub open spec fn round_trips(tree: JsonView) -> bool {
    exact(tree, max_nesting())
}

/// The outermost layer of a value of `serde_json`, with the layers below it still closed.
pub enum Layer {
    Null,
    Bool(bool),
    Unsigned(u64),
    Negative(i64),
    Float(serde_json::Value),
    Text(String),
    Array(Vec<serde_json::Value>),
    Object(Vec<(String, serde_json::Value)>),
}

impl Layer {
    /// The tree under the layer.
    pub open spec fn tree(self) -> JsonView {
        match self {
            Layer::Null => JsonView::Null,
            Layer::Bool(b) => JsonView::Bool(b),
            Layer::Unsigned(n) => JsonView::Unsigned(n),
            Layer::Negative(n) => JsonView::Negative(n),
            Layer::Float(value) => value_tree(value),
            Layer::Text(text) => JsonView::Text(text@),
            Layer::Array(items) => JsonView::Array(
                Seq::new(items@.len(), |i: int| value_tree(items@[i])),
            ),
            Layer::Object(entries) => JsonView::Object(
                Seq::new(entries@.len(), |i: int| (entries@[i].0@, value_tree(entries@[i].1))),
            ),
        }
    }

    /// A negative number is below zero, a fractional number is one, and no key occurs twice.
    pub open spec fn valid(self) -> bool {
        match self {
            Layer::Negative(n) => n < 0,
            Layer::Float(value) => value_tree(value) is Float,
            Layer::Object(entries) => forall|i: int, j: int|
                0 <= i < j < entries@.len() ==> (#[trigger] entries@[i]).0@ != (
                #[trigger] entries@[j]).0@,
            _ => true,
        }
    }
}

/// `<serde_json::Value as Clone>::clone`: the copy holds the same tree.
pub assume_specification[ <serde_json::Value as Clone>::clone ](
    value: &serde_json::Value,
) -> (copy: serde_json::Value)
    ensures
        value_tree(copy) == value_tree(*value),
;

/// Matches on `serde_json::Value`, and on a number by `Number::as_u64` and `Number::as_i64`:
/// the layer holds the same tree, and the map of an object hands out its entries in order,
/// each key once.
#[verifier::external_body]
pub(crate) fn open_value(value: serde_json::Value) -> (layer: Layer)
    ensures
        layer.tree() == value_tree(value),
        layer.valid(),
{
    match value {
        serde_json::Value::Null => Layer::Null,
        serde_json::Value::Bool(b) => Layer::Bool(b),
        serde_json::Value::Number(n) => match (n.as_u64(), n.as_i64()) {
            (Some(unsigned), _) => Layer::Unsigned(unsigned),
            (None, Some(negative)) => Layer::Negative(negative),
            (None, None) => Layer::Float(serde_json::Value::Number(n)),
        },
        serde_json::Value::String(text) => Layer::Text(text),
        serde_json::Value::Array(items) => Layer::Array(items),
        serde_json::Value::Object(map) => Layer::Object(map.into_iter().collect()),
    }
}

/// Builds a `serde_json::Value` of the layer's kind: it holds the tree under the layer, and
/// the map of an object keeps the entries in the order in which they are put in.
#[verifier::external_body]
pub(crate) fn close_value(layer: Layer) -> (value: serde_json::Value)
    requires
        layer.valid(),
    ensures
        value_tree(value) == layer.tree(),
{
    match layer {
        Layer::Null => serde_json::Value::Null,
        Layer::Bool(b) => serde_json::Value::Bool(b),
        Layer::Unsigned(n) => serde_json::Value::from(n),
        Layer::Negative(n) => serde_json::Value::from(n),
        Layer::Float(value) => value,
        Layer::Text(text) => serde_json::Value::String(text),
        Layer::Array(items) => serde_json::Value::Array(items),
        Layer::Object(entries) => serde_json::Value::Object(entries.into_iter().collect()),
    }
}

/// `serde_json::from_str`, with the error turned into its message. Of a member that is given
/// twice the last value counts.
#[verifier::external_body]
fn read_value(text: &str) -> (result: Result<serde_json::Value, String>)
    ensures
        match result {
            Ok(value) => parsed(text@) == Ok::<JsonView, Seq<char>>(value_tree(value)),
            Err(message) => parsed(text@) == Err::<JsonView, Seq<char>>(message@),
        },
{
    serde_json::from_str::<serde_json::Value>(text).map_err(|error| error.to_string())
}

/// Whether a text begins and ends as the text of an array or an object does.
pub open spec fn bracketed(tree: JsonView, text: Seq<char>) -> bool {
    &&& tree is Array ==> text.len() >= 2 && text[0] == '[' && text.last() == ']'
    &&& tree is Object ==> text.len() >= 2 && text[0] == '{' && text.last() == '}'
}

/// Whether some value of `serde_json` holds a tree.
pub open spec fn is_held(tree: JsonView) -> bool {
    exists|value: serde_json::Value| value_tree(value) == tree
}

/// Whether no value of `serde_json` that holds another tree is written as the text.
pub open spec fn only_text_of(tree: JsonView, text: Seq<char>) -> bool {
    forall|other: serde_json::Value| #[trigger]
        compact(value_tree(other)) == text ==> value_tree(other) == tree
}

/// `serde_json::to_string`. Writing a value into memory does not fail: its keys are texts and
/// its numbers are finite. The text has no line break, that of an array or an object stands
/// in brackets, and reading it gives the tree back where no fractional number and no deeper
/// nesting than the reader accepts stands in it. Values that hold different trees are written
/// as different texts: the text shows kind, order and contents of every part, and a fractional
/// number is written, by `zmij`, as the shortest decimal that rounds to it and to no other.
#[verifier::external_body]
fn write_compact(value: &serde_json::Value) -> (result: Result<String, String>)
    ensures
        match result {
            Ok(text) => {
                &&& text@ == compact(value_tree(*value))
                &&& bracketed(value_tree(*value), text@)
                &&& forall|i: int| 0 <= i < text@.len() ==> text@[i] != '\n' && text@[i] != '\r'
                &&& only_text_of(value_tree(*value), text@)
                &&& round_trips(value_tree(*value)) ==> parsed(text@) == Ok::<
                    JsonView,
                    Seq<char>,
                >(value_tree(*value))
            },
            Err(_) => false,
        },
{
    serde_json::to_string(value).map_err(|error| error.to_string())
}

/// `serde_json::to_string_pretty`. As for `serde_json::to_string` writing does not fail, an
/// array or an object stands in brackets, and the text reads back under the same conditions.
#[verifier::external_body]
fn write_pretty(value: &serde_json::Value) -> (result: Result<String, String>)
    ensures
        match result {
            Ok(text) => {
                &&& text@ == pretty(value_tree(*value))
                &&& bracketed(value_tree(*value), text@)
                &&& round_trips(value_tree(*value)) ==> parsed(text@) == Ok::<
                    JsonView,
                    Seq<char>,
                >(value_tree(*value))
            },
            Err(_) => false,
        },
{
    serde_json::to_string_pretty(value).map_err(|error| error.to_string())
}

impl Json {
    /// Reads JSON text. The error is the message of the reader.
    pub fn parse(text: &str) -> (result: Result<Json, String>)
        ensures
            match result {
                Ok(json) => parsed(text@) == Ok::<JsonView, Seq<char>>(json@),
                Err(message) => parsed(text@) == Err::<JsonView, Seq<char>>(message@),
            },
    {
        match read_value(text) {
            Ok(value) => Ok(Json::from_value(value)),
            Err(message) => Err(message),
        }
    }

    /// The value on one line.
    pub fn to_compact(&self) -> (text: String)
        ensures
            text@ == compact(self@),
            bracketed(self@, text@),
            forall|i: int| 0 <= i < text@.len() ==> text@[i] != '\n' && text@[i] != '\r',
            is_held(self@) && only_text_of(self@, text@),
            round_trips(self@) ==> parsed(text@) == Ok::<JsonView, Seq<char>>(self@),
    {
        let value = self.to_value();
        assert(value_tree(value) == self@);
        match write_compact(&value) {
            Ok(text) => text,
            Err(message) => message,
        }
    }

    /// The value laid out over several lines.
    pub fn to_pretty(&self) -> (text: String)
        ensures
            text@ == pretty(self@),
            bracketed(self@, text@),
            round_trips(self@) ==> parsed(text@) == Ok::<JsonView, Seq<char>>(self@),
    {
        match write_pretty(&self.to_value()) {
            Ok(text) => text,
            Err(message) => message,
        }
    }
}

} // verus!
