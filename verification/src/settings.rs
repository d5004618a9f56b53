//! Bloom's settings file: which text is accepted as settings, and how a
//! stored value reads as text.
use vstd::prelude::*;
use crate::text::owned;

verus! {

/// What `serde_json::from_str` reports for text that is not a JSON object
/// of settings: `None` when the text parses as an object, otherwise the
/// error's message.
pub uninterp spec fn settings_parse_error(text: Seq<char>) -> Option<Seq<char>>;

/// `serde_json::from_str` into a map of settings, keeping only its verdict.
#[verifier::external_body]
fn settings_error(text: &str) -> (r: Option<String>)
    ensures
        match r {
            Some(e) => settings_parse_error(text@) == Some(e@),
            None => settings_parse_error(text@) is None,
        },
{
    match serde_json::from_str::<std::collections::HashMap<String, serde_json::Value>>(text) {
        Ok(_) => None,
        Err(e) => Some(e.to_string()),
    }
}

/// Settings to import are accepted only when they are a JSON object; the
/// parser's message says what is wrong otherwise.
pub fn import_settings(settings: &str) -> (r: Result<(), String>)
    ensures
        match settings_parse_error(settings@) {
            None => r is Ok,
            Some(e) => r matches Err(m) && m@ == e,
        },
{
    match settings_error(settings) {
        None => Ok(()),
        Some(e) => Err(e),
    }
}

/// A stored setting, by the kind of JSON value it is.
pub enum SettingValue {
    Text(String),
    Flag(bool),
    /// A number, as JSON writes it.
    Number(String),
    /// An array, an object or null.
    Other,
}

/// A setting read as text: strings as they are, booleans and numbers as
/// they are written, and nothing for other values.
pub fn setting_text(value: SettingValue) -> (r: Option<String>)
    ensures
        match value {
            SettingValue::Text(s) => r == Some(s),
            SettingValue::Flag(b) => r matches Some(t) && t@ == (if b {
                "true"@
            } else {
                "false"@
            }),
            SettingValue::Number(n) => r == Some(n),
            SettingValue::Other => r is None,
        },
{
    match value {
        SettingValue::Text(s) => Some(s),
        SettingValue::Flag(b) => if b {
            Some(owned("true"))
        } else {
            Some(owned("false"))
        },
        SettingValue::Number(n) => Some(n),
        SettingValue::Other => None,
    }
}

} // verus!
