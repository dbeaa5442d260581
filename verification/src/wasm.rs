//! What the browser build hands back to JavaScript: a JSON text, either the
//! value asked for or an object naming the error.

use crate::text::push_str;
use vstd::prelude::*;

verus! {

/// The JSON object that reports an error message.
pub open spec fn error_json(message: Seq<char>) -> Seq<char> {
    "{\"error\": \""@ + message + "\"}"@
}

/// The message for a value that could not be written as JSON.
pub open spec fn json_serialization_error_message() -> Seq<char> {
    "Could not convert Stork data to JSON. If you see this, please file a bug: https://jil.im/storkbug"@
}

/// The JSON object that reports an error message.
pub fn wasm_format_error(message: &str) -> (r: String)
    ensures
        r@ == error_json(message@),
{
    let mut r = "{\"error\": \"".to_owned();
    push_str(&mut r, message);
    push_str(&mut r, "\"}");
    r
}

/// The message for a value that could not be written as JSON.
pub fn json_serialization_error() -> (r: String)
    ensures
        r@ == json_serialization_error_message(),
{
    "Could not convert Stork data to JSON. If you see this, please file a bug: https://jil.im/storkbug".to_owned()
}

/// What is handed back for the outcome of a call: the value written as
/// JSON (`Ok(Some(..))`), the serialization error where it could not be
/// written (`Ok(None)`), or the message of the call's own error.
pub fn wasm_output(outcome: Result<Option<String>, String>) -> (r: String)
    ensures
        r@ == match outcome {
            Ok(Some(json)) => json@,
            Ok(None) => error_json(json_serialization_error_message()),
            Err(message) => error_json(message@),
        },
{
    match outcome {
        Ok(Some(json)) => json,
        Ok(None) => {
            let m = json_serialization_error();
            wasm_format_error(m.as_str())
        },
        Err(message) => wasm_format_error(message.as_str()),
    }
}

} // verus!
