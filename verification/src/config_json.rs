//! Reading the fields a profile keeps out of a decoded client configuration
//! (JSON text), and the messages for a failed decode.
use vstd::prelude::*;

use crate::profile::ConfigFields;
use crate::text::{decimal, decimal_string, opt_text, trim, trim_str};

verus! {

/// What `serde_json` reports when it reads `text` as a JSON document: `None`
/// when it reads, else the `Display` text of its error.
pub uninterp spec fn json_parse_error(text: Seq<char>) -> Option<Seq<char>>;

/// The string that `serde_json` finds at the JSON pointer `pointer` in the
/// document `text`: `None` when `text` is not JSON, when nothing is at the
/// pointer, or when what is there is not a string.
pub uninterp spec fn json_str_at(text: Seq<char>, pointer: Seq<char>) -> Option<Seq<char>>;

/// `serde_json::from_str::<serde_json::Value>`, keeping whether it read the
/// text and the `Display` text of its error. Trusted: the outcome is the one
/// `json_parse_error` names for the text.
#[verifier::external_body]
fn json_check(text: &str) -> (r: Result<(), String>)
    ensures
        match r {
            Ok(()) => json_parse_error(text@) is None,
            Err(e) => json_parse_error(text@) == Some(e@),
        },
{
    serde_json::from_str::<serde_json::Value>(text).map(|_| ()).map_err(|error| format!("{error}"))
}

/// `serde_json::from_str::<serde_json::Value>` followed by
/// `Value::pointer(pointer)` and `Value::as_str`, copied into a `String`.
/// Trusted: the result is the one `json_str_at` names for the text and the
/// pointer.
#[verifier::external_body]
fn json_string_at(text: &str, pointer: &str) -> (r: Option<String>)
    ensures
        opt_text(r) == json_str_at(text@, pointer@),
{
    let value = serde_json::from_str::<serde_json::Value>(text).ok()?;
    value.pointer(pointer).and_then(serde_json::Value::as_str).map(String::from)
}

/// The prefix of the message for configuration text that is not JSON: the
/// output of a one-line decode, or pasted JSON.
pub open spec fn invalid_json_prefix(decoded: bool) -> Seq<char> {
    if decoded {
        "decoded config is invalid JSON: "@
    } else {
        "invalid JSON: "@
    }
}

/// Reads `route.mode`, `route.google_ip`, `drive.space` and
/// `drive.folder_id` out of configuration JSON: each is the string at its
/// pointer, if there is one. Succeeds exactly when the text is JSON; the
/// message for text that is not is the prefix for where the text came from,
/// then `serde_json`'s error.
pub fn config_fields_from_json(text: &str, decoded: bool) -> (r: Result<ConfigFields, String>)
    ensures
        r is Ok <==> json_parse_error(text@) is None,
        r matches Ok(f) ==> {
            &&& opt_text(f.route_mode) == json_str_at(text@, "/route/mode"@)
            &&& opt_text(f.google_ip) == json_str_at(text@, "/route/google_ip"@)
            &&& opt_text(f.drive_space) == json_str_at(text@, "/drive/space"@)
            &&& opt_text(f.drive_folder_id) == json_str_at(text@, "/drive/folder_id"@)
        },
        r matches Err(e) ==> json_parse_error(text@) matches Some(m) && e@ == invalid_json_prefix(
            decoded,
        ) + m,
{
    match json_check(text) {
        Ok(()) => Ok(
            ConfigFields {
                route_mode: json_string_at(text, "/route/mode"),
                google_ip: json_string_at(text, "/route/google_ip"),
                drive_space: json_string_at(text, "/drive/space"),
                drive_folder_id: json_string_at(text, "/drive/folder_id"),
            },
        ),
        Err(error) => {
            let mut message = if decoded {
                String::from_str("decoded config is invalid JSON: ")
            } else {
                String::from_str("invalid JSON: ")
            };
            message.append(error.as_str());
            Err(message)
        },
    }
}

/// The message for a one-line configuration that the sidecar failed to
/// decode: the exit status, then the trimmed error output, or the trimmed
/// standard output when the error output is blank.
pub open spec fn spec_decode_failure_message(
    status: Seq<char>,
    stderr: Seq<char>,
    stdout: Seq<char>,
) -> Seq<char> {
    let detail = if trim(stderr).len() == 0 {
        trim(stdout)
    } else {
        trim(stderr)
    };
    "one-line config decode failed: "@ + status + if detail.len() == 0 {
        ""@
    } else {
        ": "@ + detail
    }
}

pub fn decode_failure_message(status: &str, stderr: &str, stdout: &str) -> (s: String)
    ensures
        s@ == spec_decode_failure_message(status@, stderr@, stdout@),
{
    let err = trim_str(stderr);
    let out = trim_str(stdout);
    let detail = if err.as_str().unicode_len() == 0 {
        out
    } else {
        err
    };
    let mut s = String::from_str("one-line config decode failed: ");
    s.append(status);
    if detail.as_str().unicode_len() != 0 {
        s.append(": ");
        s.append(detail.as_str());
    } else {
        assert(s@ =~= s@ + ""@) by {
            reveal_strlit("");
        }
    }
    s
}

/// Name of the scratch file a one-line configuration is decoded into.
pub fn decoded_config_file_name(millis: u128) -> (s: String)
    ensures
        s@ == "decode-"@ + decimal(millis as nat) + ".json"@,
{
    let mut s = String::from_str("decode-");
    s.append(decimal_string(millis).as_str());
    s.append(".json");
    s
}

} // verus!
