//! Bounded parsing of JSON and of JSON lines.

use steel::SteelVal;
use vstd::prelude::*;

use crate::file_snapshot::{blank, is_blank};
use crate::text::{byte_length, decimal, decimal_text, lines, lines_of, string_views, text_bytes};

verus! {

pub const DEFAULT_MAX_BYTES: usize = 8_388_608;

pub const DEFAULT_MAX_ITEMS: usize = 100_000;

#[verifier::external_type_specification]
#[verifier::external_body]
pub struct ExJsonValue(serde_json::Value);

#[verifier::external_type_specification]
#[verifier::external_body]
pub struct ExSteelVal(SteelVal);

/// What `serde_json::from_str` makes of a text: a value, or the message of
/// its error.
pub uninterp spec fn json_parsed(text: Seq<char>) -> Result<serde_json::Value, Seq<char>>;

/// `serde_json::from_str` parses a text as one JSON value. What it makes of a
/// text is named, not described.
#[verifier::external_body]
fn parse_value(text: &str) -> (out: Result<serde_json::Value, String>)
    ensures
        match out {
            Ok(value) => json_parsed(text@) == Ok::<serde_json::Value, Seq<char>>(value),
            Err(message) => json_parsed(text@) == Err::<serde_json::Value, Seq<char>>(message@),
        },
{
    serde_json::from_str(text).map_err(|error: serde_json::Error| error.to_string())
}

/// The array of the given values.
pub uninterp spec fn json_array(values: Seq<serde_json::Value>) -> serde_json::Value;

/// `serde_json::Value::Array` is the array of the values.
#[verifier::external_body]
fn array_of(values: Vec<serde_json::Value>) -> (out: serde_json::Value)
    ensures
        out == json_array(values@),
{
    serde_json::Value::Array(values)
}

/// Whether a value comes out of a text, or is an array of such values. The depth
/// of such a value is bounded.
pub open spec fn from_text(value: serde_json::Value) -> bool {
    ||| is_parsed(value)
    ||| exists|values: Seq<serde_json::Value>| #[trigger] all_from_text(values) && value == json_array(values)
}

/// Whether every value comes out of a text.
pub open spec fn all_from_text(values: Seq<serde_json::Value>) -> bool {
    forall|i: int| 0 <= i < values.len() ==> is_parsed(#[trigger] values[i])
}

/// Whether a value comes out of a text.
pub open spec fn is_parsed(value: serde_json::Value) -> bool {
    exists|text: Seq<char>| #[trigger] json_parsed(text) == Ok::<serde_json::Value, Seq<char>>(value)
}

/// Whether a JSON value can become this script value. An object becomes a hash
/// map, which a script can walk in any order, so the value does not fix it.
pub uninterp spec fn can_become(value: serde_json::Value, script: SteelVal) -> bool;

/// `SteelVal::try_from` turns a JSON value into a script value. It does not
/// fail. It calls itself for the parts of a value, so the depth of the value has
/// to be bounded.
#[verifier::external_body]
fn into_steel(value: serde_json::Value) -> (out: Result<SteelVal, String>)
    requires
        from_text(value),
    ensures
        out is Ok,
        can_become(value, out->Ok_0),
{
    SteelVal::try_from(value).map_err(|error| error.to_string())
}

/// Why a text is refused.
#[derive(Debug)]
pub enum JsonError {
    TooManyBytes { bytes: usize, limit: usize },
    TooManyItems { limit: usize },
    /// The whole text is no JSON value, or no script value.
    Invalid(String),
    /// A line, counted from one, is no JSON value.
    InvalidLine { line: usize, message: String },
}

pub enum JsonErrorView {
    TooManyBytes { bytes: nat, limit: nat },
    TooManyItems { limit: nat },
    Invalid(Seq<char>),
    InvalidLine { line: nat, message: Seq<char> },
}

impl View for JsonError {
    type V = JsonErrorView;

    open spec fn view(&self) -> JsonErrorView {
        match self {
            JsonError::TooManyBytes { bytes, limit } => JsonErrorView::TooManyBytes {
                bytes: *bytes as nat,
                limit: *limit as nat,
            },
            JsonError::TooManyItems { limit } => JsonErrorView::TooManyItems { limit: *limit as nat },
            JsonError::Invalid(message) => JsonErrorView::Invalid(message@),
            JsonError::InvalidLine { line, message } => JsonErrorView::InvalidLine {
                line: *line as nat,
                message: message@,
            },
        }
    }
}

impl JsonErrorView {
    pub open spec fn text(self) -> Seq<char> {
        match self {
            JsonErrorView::TooManyBytes { bytes, limit } => "JSON input is "@ + decimal_text(bytes)
                + " bytes, exceeding the "@ + decimal_text(limit) + " byte limit"@,
            JsonErrorView::TooManyItems { limit } => "JSON-lines input exceeds the "@ + decimal_text(limit)
                + " item limit"@,
            JsonErrorView::Invalid(message) => message,
            JsonErrorView::InvalidLine { line, message } => "invalid JSON on line "@ + decimal_text(line) + ": "@ + message,
        }
    }
}

impl JsonError {
    pub fn message(&self) -> (out: String)
        ensures
            out@ == self@.text(),
    {
        match self {
            JsonError::TooManyBytes { bytes, limit } => "JSON input is ".to_owned().concat(
                decimal(*bytes as u64).as_str(),
            ).concat(" bytes, exceeding the ").concat(decimal(*limit as u64).as_str()).concat(" byte limit"),
            JsonError::TooManyItems { limit } => "JSON-lines input exceeds the ".to_owned().concat(
                decimal(*limit as u64).as_str(),
            ).concat(" item limit"),
            JsonError::Invalid(message) => message.clone(),
            JsonError::InvalidLine { line, message } => "invalid JSON on line ".to_owned().concat(
                decimal(*line as u64).as_str(),
            ).concat(": ").concat(message.as_str()),
        }
    }
}

/// Refuses a text of more than the given number of bytes.
pub fn ensure_size(input: &str, max_bytes: usize) -> (out: Result<(), JsonError>)
    ensures
        match out {
            Ok(()) => byte_length(input@) <= max_bytes,
            Err(e) => byte_length(input@) > max_bytes && e@ == (JsonErrorView::TooManyBytes {
                bytes: byte_length(input@),
                limit: max_bytes as nat,
            }),
        },
{
    let bytes: usize = text_bytes(input);
    if bytes > max_bytes {
        return Err(JsonError::TooManyBytes { bytes, limit: max_bytes });
    }
    Ok(())
}

/// Whether a script gets what a text stands for: the error, or a value that the
/// JSON value can become.
pub open spec fn gives(outcome: Result<serde_json::Value, JsonErrorView>, out: Result<SteelVal, JsonError>) -> bool {
    match outcome {
        Ok(value) => out is Ok && can_become(value, out->Ok_0),
        Err(error) => out is Err && out->Err_0@ == error,
    }
}

/// What a whole text stands for.
pub open spec fn document_outcome(text: Seq<char>, max_bytes: nat) -> Result<serde_json::Value, JsonErrorView> {
    if byte_length(text) > max_bytes {
        Err(JsonErrorView::TooManyBytes { bytes: byte_length(text), limit: max_bytes })
    } else {
        match json_parsed(text) {
            Err(message) => Err(JsonErrorView::Invalid(message)),
            Ok(value) => Ok(value),
        }
    }
}

/// Parses a text of at most the given number of bytes.
pub fn json_parse_bounded(input: &str, max_bytes: usize) -> (out: Result<SteelVal, JsonError>)
    ensures
        gives(document_outcome(input@, max_bytes as nat), out),
{
    if let Err(error) = ensure_size(input, max_bytes) {
        return Err(error);
    }
    match parse_value(input) {
        Err(message) => Err(JsonError::Invalid(message)),
        Ok(value) => {
            proof {
                assert(is_parsed(value));
            }
            match into_steel(value) {
                Ok(script) => Ok(script),
                Err(message) => Err(JsonError::Invalid(message)),
            }
        },
    }
}

/// Parses a text within the default limit.
pub fn json_parse(input: &str) -> (out: Result<SteelVal, JsonError>)
    ensures
        gives(document_outcome(input@, DEFAULT_MAX_BYTES as nat), out),
{
    json_parse_bounded(input, DEFAULT_MAX_BYTES)
}

/// The value of the line at the index `line`, given what parsing it gave.
pub fn line_value(line: usize, parsed: Result<serde_json::Value, String>) -> (out: Result<serde_json::Value, JsonError>)
    requires
        line < usize::MAX,
    ensures
        match parsed {
            Ok(value) => out == Ok::<serde_json::Value, JsonError>(value),
            Err(message) => out is Err && out->Err_0@ == (JsonErrorView::InvalidLine {
                line: (line + 1) as nat,
                message: message@,
            }),
        },
{
    match parsed {
        Ok(value) => Ok(value),
        Err(message) => Err(JsonError::InvalidLine { line: line + 1, message }),
    }
}

/// The values of the lines from the one at `at` on, after `done`.
pub open spec fn line_values(
    all: Seq<Seq<char>>,
    at: int,
    done: Seq<serde_json::Value>,
    max_items: nat,
) -> Result<Seq<serde_json::Value>, JsonErrorView>
    decreases all.len() - at,
{
    if at >= all.len() {
        Ok(done)
    } else if blank(all[at]) {
        line_values(all, at + 1, done, max_items)
    } else if done.len() >= max_items {
        Err(JsonErrorView::TooManyItems { limit: max_items })
    } else {
        match json_parsed(all[at]) {
            Ok(value) => line_values(all, at + 1, done.push(value), max_items),
            Err(message) => Err(JsonErrorView::InvalidLine { line: (at + 1) as nat, message }),
        }
    }
}

/// What a text of JSON lines stands for: the list of its values.
pub open spec fn lines_outcome(text: Seq<char>, max_bytes: nat, max_items: nat) -> Result<serde_json::Value, JsonErrorView> {
    if byte_length(text) > max_bytes {
        Err(JsonErrorView::TooManyBytes { bytes: byte_length(text), limit: max_bytes })
    } else {
        match line_values(lines_of(text), 0, Seq::empty(), max_items) {
            Err(e) => Err(e),
            Ok(values) => Ok(json_array(values)),
        }
    }
}

/// Parses the lines of a text that are not blank, within the given limits.
pub fn json_parse_lines_bounded(input: &str, max_bytes: usize, max_items: usize) -> (out: Result<SteelVal, JsonError>)
    ensures
        gives(lines_outcome(input@, max_bytes as nat, max_items as nat), out),
{
    if let Err(error) = ensure_size(input, max_bytes) {
        return Err(error);
    }
    let rows = lines(input);
    let ghost all = lines_of(input@);
    let mut values: Vec<serde_json::Value> = Vec::new();
    let mut at: usize = 0;
    while at < rows.len()
        invariant
            at <= rows@.len(),
            all == string_views(rows@),
            all == lines_of(input@),
            byte_length(input@) <= max_bytes,
            all_from_text(values@),
            line_values(all, 0, Seq::empty(), max_items as nat) == line_values(all, at as int, values@, max_items as nat),
        decreases rows.len() - at,
    {
        proof {
            assert(all[at as int] == rows@[at as int]@);
        }
        if !is_blank(rows[at].as_str()) {
            if values.len() >= max_items {
                return Err(JsonError::TooManyItems { limit: max_items });
            }
            match line_value(at, parse_value(rows[at].as_str())) {
                Ok(value) => {
                    proof {
                        assert(is_parsed(value));
                    }
                    values.push(value);
                },
                Err(e) => {
                    return Err(e);
                },
            }
        }
        at += 1;
    }
    let array = array_of(values);
    proof {
        assert(from_text(array));
    }
    match into_steel(array) {
        Ok(script) => Ok(script),
        Err(message) => Err(JsonError::Invalid(message)),
    }
}

/// Parses the lines of a text within the default limits.
pub fn json_parse_lines(input: &str) -> (out: Result<SteelVal, JsonError>)
    ensures
        gives(lines_outcome(input@, DEFAULT_MAX_BYTES as nat, DEFAULT_MAX_ITEMS as nat), out),
{
    json_parse_lines_bounded(input, DEFAULT_MAX_BYTES, DEFAULT_MAX_ITEMS)
}

} // verus!
