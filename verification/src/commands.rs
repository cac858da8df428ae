//! The texts that the application's commands answer with.

use vstd::prelude::*;

use crate::http::is_success;
use crate::text::int_decimal;
use crate::utils::{cuttable, summarize_body, summarized};

verus! {

/// `"Hello, {name}! You've been greeted from Rust!"`
pub fn greet(name: &str) -> (res: String)
    ensures
        res@ == "Hello, "@ + name@ + "! You've been greeted from Rust!"@,
{
    let mut m = String::from_str("Hello, ");
    m.append(name);
    m.append("! You've been greeted from Rust!");
    m
}

/// The answer to a save request, given how writing the file went (the
/// error as its text).
pub fn save_text_file_result(path: &str, written: Result<(), String>) -> (res: Result<String, String>)
    ensures
        match written {
            Ok(()) => res matches Ok(m) && m@ == "Saved file to "@ + path@,
            Err(e) => res matches Err(m) && m@ == "Failed to save file to "@ + path@ + ": "@ + e@,
        },
{
    match written {
        Ok(()) => {
            let mut m = String::from_str("Saved file to ");
            m.append(path);
            Ok(m)
        },
        Err(e) => {
            let mut m = String::from_str("Failed to save file to ");
            m.append(path);
            m.append(": ");
            m.append(e.as_str());
            Err(m)
        },
    }
}

/// What the tournament lookup answers for a response that is not 2xx;
/// `None` for a 2xx response, whose body is then parsed.
pub fn tournament_json_status_message(status: u16, tournament_name: &str, content_type: &str, body: &str) -> (res: Option<String>)
    requires
        !is_success(status) ==> cuttable(body@, 300),
    ensures
        if is_success(status) {
            res is None
        } else {
            res matches Some(m) && m@ == "start.gg returned HTTP "@ + int_decimal(status as int)
                + " for "@ + tournament_name@ + " (content-type: "@ + content_type@ + "). Body: "@
                + summarized(body@, 300)
        },
{
    if 200 <= status && status <= 299 {
        return None;
    }
    let mut m = String::from_str("start.gg returned HTTP ");
    m.append(crate::text::u64_to_string(status as u64).as_str());
    m.append(" for ");
    m.append(tournament_name);
    m.append(" (content-type: ");
    m.append(content_type);
    m.append("). Body: ");
    m.append(summarize_body(body, 300).as_str());
    Some(m)
}

/// What the tournament lookup answers for a body that is not a GraphQL
/// reply.
pub fn tournament_json_parse_message(tournament_name: &str, error: &str, content_type: &str, body: &str) -> (res: String)
    requires
        cuttable(body@, 300),
    ensures
        res@ == "JSON parse error for "@ + tournament_name@ + ": "@ + error@ + " (content-type: "@
            + content_type@ + "). Body: "@ + summarized(body@, 300),
{
    let mut m = String::from_str("JSON parse error for ");
    m.append(tournament_name);
    m.append(": ");
    m.append(error);
    m.append(" (content-type: ");
    m.append(content_type);
    m.append("). Body: ");
    m.append(summarize_body(body, 300).as_str());
    m
}

/// What the tournament lookup answers for a reply with GraphQL errors.
pub fn tournament_json_errors_message(errors: &str) -> (res: String)
    ensures
        res@ == "GraphQL errors: "@ + errors@,
{
    let mut m = String::from_str("GraphQL errors: ");
    m.append(errors);
    m
}

} // verus!
