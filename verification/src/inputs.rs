//! The optional public-input set: a JSON object parsed once and handed
//! to the compiler untouched.

use vstd::prelude::*;
use vstd::string::StringExecFns;
use crate::errs::BridgeError;
use std::collections::HashMap;

verus! {

#[verifier::external_type_specification]
#[verifier::external_body]
pub struct ExJsonValue(serde_json::Value);

/// What `serde_json::from_str` yields for `s` read as a JSON object of
/// arbitrary values: the parsed name-to-value map, or the parse error's
/// text. The outcome depends on the characters alone.
pub uninterp spec fn json_object_parse(s: Seq<char>) -> Result<
    Map<String, serde_json::Value>,
    Seq<char>,
>;

/// Relies on serde_json::from_str::<HashMap<String, Value>>: parses a
/// JSON object from a string, deterministically in the string.
#[verifier::external_body]
fn parse_json_object(s: &str) -> (r: Result<HashMap<String, serde_json::Value>, String>)
    ensures
        r is Ok <==> json_object_parse(s@) is Ok,
        r matches Ok(v) ==> json_object_parse(s@) matches Ok(m) && v@ == m,
        r matches Err(m) ==> json_object_parse(s@) matches Err(t) && m@ == t,
{
    serde_json::from_str::<HashMap<String, serde_json::Value>>(s).map_err(|e| e.to_string())
}

/// Parse the host-supplied public-inputs JSON into the name-to-value set
/// the compiler receives, exactly as written. A string that is not a
/// JSON object is an input-class error carrying the parser's explanation.
pub fn parse_public_inputs(s: &str) -> (r: Result<
    HashMap<String, serde_json::Value>,
    BridgeError,
>)
    ensures
        r is Ok <==> json_object_parse(s@) is Ok,
        r matches Ok(v) ==> json_object_parse(s@) matches Ok(m) && v@ == m,
        r matches Err(e) ==> {
            &&& e is Input
            &&& json_object_parse(s@) matches Err(t)
                && e.message_spec() == "Failed to parse public inputs: "@ + t
        },
{
    match parse_json_object(s) {
        Ok(v) => Ok(v),
        Err(m) => {
            let mut msg = "Failed to parse public inputs: ".to_owned();
            msg.append(m.as_str());
            Err(BridgeError::Input(msg))
        },
    }
}

} // verus!
