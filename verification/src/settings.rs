//! The settings store: a single record with one recognized setting,
//! `silent`, whose legal values are `on` and `off`.

use vstd::prelude::*;
use crate::item::TodoError;
use crate::json::{encode_settings, encode_settings_spec, parse_settings_spec, parse_settings_value};
use crate::text::str_eq;

verus! {

/// The stored settings: the value of the `silent` setting, which
/// suppresses the automatic list redisplay after a mutating command
/// when it is `on`. The default is `off`.
pub struct Settings {
    pub silent: String,
}

impl Settings {
    /// The settings a fresh configuration starts with.
    pub fn new_default() -> (s: Settings)
        ensures
            s.silent@ == "off"@,
    {
        Settings { silent: String::from_str("off") }
    }

    /// The file text this settings record is stored as.
    pub fn to_file_text(&self) -> (s: String)
        ensures
            s@ == encode_settings_spec(self.silent@),
    {
        encode_settings(&self.silent)
    }
}

/// Parse the settings file text into a settings record; any text that is
/// not a settings record fails.
pub fn parse_settings_text(s: &str) -> (r: Result<Settings, TodoError>)
    ensures
        r matches Ok(st) ==> parse_settings_spec(s@) == Some(st.silent@),
        r is Err <==> parse_settings_spec(s@) is None,
        r matches Err(e) ==> e is MalformedSettings,
{
    match parse_settings_value(s) {
        Some(v) => Ok(Settings { silent: v }),
        None => Err(TodoError::MalformedSettings),
    }
}

/// Whether `key` and `value` name a recognized setting and one of its
/// legal values: only `silent`, with `on` or `off`.
pub open spec fn is_legal_setting(key: Seq<char>, value: Seq<char>) -> bool {
    key == "silent"@ && (value == "on"@ || value == "off"@)
}

/// Change one setting. On a recognized key and legal value the stored
/// record is updated; on anything else it is left exactly as it was and
/// the call fails.
pub fn set_setting(settings: &mut Settings, key: &String, value: &String) -> (r: Result<
    (),
    TodoError,
>)
    ensures
        r is Ok <==> is_legal_setting(key@, value@),
        r is Ok ==> final(settings).silent@ == value@,
        r is Err ==> *final(settings) == *old(settings) && (r matches Err(e) && e is UnknownSetting),
{
    if str_eq(key.as_str(), "silent") && (str_eq(value.as_str(), "on") || str_eq(
        value.as_str(),
        "off",
    )) {
        settings.silent = value.clone();
        Ok(())
    } else {
        Err(TodoError::UnknownSetting)
    }
}

} // verus!
