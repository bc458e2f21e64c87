//! Request frames and replies of the settings daemon protocol (WiFi domain).
use vstd::prelude::*;
use crate::text::{chars_of, string_of};
use crate::types::{NetworkError, NetworkErrorView};

verus! {

broadcast use vstd::string::group_string_axioms;

/// The default path of the settings daemon socket.
pub const DEFAULT_SOCKET_PATH: &'static str = "/run/tontoo-settings.sock";

/// A lower-case hex digit.
pub open spec fn hex_lower(d: int) -> char {
    if d < 10 {
        ((d + 48) as u32) as char
    } else {
        ((d + 87) as u32) as char
    }
}

/// How JSON writes one character inside a string.
pub open spec fn json_escape(c: char) -> Seq<char> {
    if c == '"' {
        seq!['\\', '"']
    } else if c == '\\' {
        seq!['\\', '\\']
    } else if c == '\u{8}' {
        seq!['\\', 'b']
    } else if c == '\u{c}' {
        seq!['\\', 'f']
    } else if c == '\n' {
        seq!['\\', 'n']
    } else if c == '\r' {
        seq!['\\', 'r']
    } else if c == '\t' {
        seq!['\\', 't']
    } else if (c as u32) < 0x20 {
        seq!['\\', 'u', '0', '0', hex_lower((c as u32 / 16) as int), hex_lower((c as u32 % 16) as int)]
    } else {
        seq![c]
    }
}

/// The escaped characters of a text.
pub open spec fn json_escaped(s: Seq<char>) -> Seq<char>
    decreases s.len(),
{
    if s.len() == 0 {
        Seq::empty()
    } else {
        json_escaped(s.drop_last()) + json_escape(s.last())
    }
}

/// A text as a JSON string literal.
pub open spec fn json_quoted(s: Seq<char>) -> Seq<char> {
    seq!['"'] + json_escaped(s) + seq!['"']
}

#[verifier::external_type_specification]
#[verifier::external_body]
pub struct ExJsonError(serde_json::Error);

/// `serde_json::to_string` of a string: the JSON string literal, with `"`,
/// `\` and the control characters below U+0020 escaped. Serializing a
/// string into memory does not fail.
#[verifier::external_body]
fn json_string(s: &str) -> (r: Result<String, serde_json::Error>)
    ensures
        r is Ok,
        r matches Ok(q) ==> q@ == json_quoted(s@),
{
    serde_json::to_string(s)
}

/// The message of a JSON error (its `to_string`).
#[verifier::external_body]
fn json_error_text(e: &serde_json::Error) -> String {
    e.to_string()
}

/// The request frame of one call: `{"id":1,"op":<op>,"params":<params>}`
/// and a newline.
pub open spec fn spec_request_frame(op: Seq<char>, params_json: Seq<char>) -> Seq<char> {
    "{\"id\":1,\"op\":"@ + json_quoted(op) + ",\"params\":"@ + params_json + "}\n"@
}

/// Builds the request frame for operation `op` with parameters already in
/// JSON form.
pub fn request_frame(op: &str, params_json: &str) -> (r: Result<String, NetworkError>)
    ensures
        r matches Ok(f) && f@ == spec_request_frame(op@, params_json@),
{
    match json_string(op) {
        Ok(quoted) => {
            let mut v = chars_of("{\"id\":1,\"op\":");
            v.append(&mut chars_of(quoted.as_str()));
            v.append(&mut chars_of(",\"params\":"));
            v.append(&mut chars_of(params_json));
            v.append(&mut chars_of("}\n"));
            Ok(string_of(&v))
        },
        Err(e) => Err(NetworkError::ParseError(json_error_text(&e))),
    }
}

/// The outcome of a reply frame: success when its `ok` field is true,
/// otherwise a `CommandFailed` error with the frame's `error` text, or
/// `daemon error` without one.
pub open spec fn spec_reply_outcome(ok: bool, error: Option<Seq<char>>) -> Result<(), NetworkErrorView> {
    if ok {
        Ok(())
    } else {
        Err(
            NetworkErrorView::CommandFailed(
                match error {
                    Some(e) => e,
                    None => "daemon error"@,
                },
            ),
        )
    }
}

/// Decides a reply frame by its `ok` and `error` fields.
pub fn reply_outcome(ok: bool, error: Option<String>) -> (r: Result<(), NetworkError>)
    ensures
        match r {
            Ok(_) => spec_reply_outcome(ok, match error { Some(e) => Some(e@), None => None }) is Ok,
            Err(e) => spec_reply_outcome(ok, match error { Some(e) => Some(e@), None => None })
                == Err::<(), NetworkErrorView>(e@),
        },
{
    if ok {
        Ok(())
    } else {
        Err(
            NetworkError::CommandFailed(
                match error {
                    Some(e) => e,
                    None => string_of(&chars_of("daemon error")),
                },
            ),
        )
    }
}


/// What `serde_json::from_str` makes of a reply line, by the fields the
/// client reads: `None` when the text is not JSON; else the `ok` field when
/// it is a boolean, the `error` field when it is a string, and the `result`
/// field written back as JSON text.
pub uninterp spec fn json_reply(text: Seq<char>) -> Option<(Option<bool>, Option<Seq<char>>, Option<Seq<char>>)>;

pub open spec fn fields_view(f: (Option<bool>, Option<String>, Option<String>)) -> (
    Option<bool>,
    Option<Seq<char>>,
    Option<Seq<char>>,
) {
    (
        f.0,
        match f.1 {
            Some(e) => Some(e@),
            None => None,
        },
        match f.2 {
            Some(j) => Some(j@),
            None => None,
        },
    )
}

/// Parses a reply line with `serde_json::from_str` into a JSON value and
/// reads its `ok` (`Value::as_bool`), `error` (`Value::as_str`) and
/// `result` (written back with `to_string`) fields; the parse error when
/// the line is not JSON.
#[verifier::external_body]
fn reply_fields(text: &str) -> (r: Result<(Option<bool>, Option<String>, Option<String>), serde_json::Error>)
    ensures
        match r {
            Ok(f) => json_reply(text@) == Some(fields_view(f)),
            Err(_) => json_reply(text@).is_none(),
        },
{
    let frame: serde_json::Value = serde_json::from_str(text)?;
    Ok((
        frame.get("ok").and_then(|v| v.as_bool()),
        frame.get("error").and_then(|v| v.as_str()).map(|e| e.to_string()),
        frame.get("result").map(|v| v.to_string()),
    ))
}

/// What a reply gives: the `result` of a success frame as JSON text
/// (`null` without one), a `CommandFailed` error with the frame's `error`
/// text (`daemon error` without one) when `ok` is not true, and a
/// `ParseError` when the line is not JSON.
pub open spec fn spec_reply_result(reply: Option<(Option<bool>, Option<Seq<char>>, Option<Seq<char>>)>) -> Option<
    Result<Seq<char>, NetworkErrorView>,
> {
    match reply {
        None => None,
        Some((ok, err, res)) => Some(
            if ok == Some(true) {
                Ok(
                    match res {
                        Some(j) => j,
                        None => "null"@,
                    },
                )
            } else {
                Err(
                    NetworkErrorView::CommandFailed(
                        match err {
                            Some(m) => m,
                            None => "daemon error"@,
                        },
                    ),
                )
            },
        ),
    }
}

/// Reads one reply line of the daemon.
pub fn reply_result(text: &str) -> (r: Result<String, NetworkError>)
    ensures
        match spec_reply_result(json_reply(text@)) {
            None => r matches Err(e) && e@ is ParseError,
            Some(Ok(j)) => r matches Ok(s) && s@ == j,
            Some(Err(ev)) => r matches Err(e) && e@ == ev,
        },
{
    match reply_fields(text) {
        Err(e) => Err(NetworkError::ParseError(json_error_text(&e))),
        Ok((ok, error, result)) => {
            let is_ok = match ok {
                Some(b) => b,
                None => false,
            };
            match reply_outcome(is_ok, error) {
                Err(e) => Err(e),
                Ok(()) => match result {
                    Some(j) => Ok(j),
                    None => Ok(string_of(&chars_of("null"))),
                },
            }
        },
    }
}

} // verus!
