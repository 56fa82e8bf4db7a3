//! The application's settings and the rules that clean them up before they
//! are used or saved.
use vstd::prelude::*;
use crate::floatbits::{f64_le, ONE_BITS};
use crate::error::AppError;
use crate::text::{contains_char, contains_text, owned, str_equal};

verus! {

/// Bits of `0.25`, the smallest zoom scale kept.
pub const MIN_ZOOM_BITS: u64 = 0x3fd0_0000_0000_0000;
/// Bits of `5.0`, the largest zoom scale kept.
pub const MAX_ZOOM_BITS: u64 = 0x4014_0000_0000_0000;

/// The settings. The zoom scale is an `f64` held by its bits.
#[derive(Debug, Clone)]
pub struct AppConfig {
    pub theme: String,
    pub output_folder: String,
    pub zoom_scale: u64,
}

/// The theme used when none is set.
pub fn default_theme() -> (t: String)
    ensures
        t@ == "dark"@,
{
    owned("dark")
}

impl Default for AppConfig {
    fn default() -> (c: AppConfig)
        ensures
            c.theme@ == "dark"@,
            c.output_folder@ == ""@,
            c.zoom_scale == ONE_BITS,
    {
        proof {
            reveal_strlit("");
        }
        AppConfig { theme: default_theme(), output_folder: String::new(), zoom_scale: ONE_BITS }
    }
}

/// The zoom scale read from a settings file: kept when within 0.25..=5.0,
/// else (absent, NaN or out of range) 1.0.
pub open spec fn zoom_scale_of(v: Option<u64>) -> u64 {
    match v {
        Some(b) => if f64_le(MIN_ZOOM_BITS, b) && f64_le(b, MAX_ZOOM_BITS) { b } else { ONE_BITS },
        None => ONE_BITS,
    }
}

/// The zoom scale read from a settings file (see `zoom_scale_of`).
pub fn zoom_scale_or_default(v: Option<u64>) -> (z: u64)
    ensures
        z == zoom_scale_of(v),
{
    match v {
        Some(b) => if crate::floatbits::bits_le(MIN_ZOOM_BITS, b) && crate::floatbits::bits_le(b, MAX_ZOOM_BITS) {
            b
        } else {
            ONE_BITS
        },
        None => ONE_BITS,
    }
}

/// The theme the system uses, from what the registry query printed:
/// `dark` when it shows `0x0`, `light` when it shows `0x1`, else `dark`.
pub open spec fn system_theme_of(query_output: Seq<char>) -> Seq<char> {
    if crate::text::has_infix(query_output, "0x0"@) {
        "dark"@
    } else if crate::text::has_infix(query_output, "0x1"@) {
        "light"@
    } else {
        "dark"@
    }
}

/// The theme the system uses, from the registry query's output.
pub fn system_theme_from(query_output: &str) -> (t: String)
    ensures
        t@ == system_theme_of(query_output@),
{
    if contains_text(query_output, "0x0") {
        owned("dark")
    } else if contains_text(query_output, "0x1") {
        owned("light")
    } else {
        owned("dark")
    }
}

/// A theme setting: `dark` and `light` are kept; anything else is replaced
/// by the system's theme.
pub open spec fn theme_of(theme: Seq<char>, system_theme: Seq<char>) -> Seq<char> {
    if theme == "dark"@ || theme == "light"@ { theme } else { system_theme }
}

/// A theme setting (see `theme_of`).
pub fn validate_theme(theme: &str, system_theme: &str) -> (t: String)
    ensures
        t@ == theme_of(theme@, system_theme@),
{
    if str_equal(theme, "dark") || str_equal(theme, "light") {
        owned(theme)
    } else {
        owned(system_theme)
    }
}

/// A character that Windows refuses in a path component.
pub open spec fn forbidden_in_path(c: char) -> bool {
    c == '<' || c == '>' || c == '"' || c == '|' || c == '?' || c == '*'
}

/// An output folder setting: kept when it is an absolute path without a
/// forbidden character; else cleared.
pub open spec fn output_folder_of(path: Seq<char>, is_absolute: bool) -> Seq<char> {
    if path.len() == 0 || !is_absolute || exists|i: int| 0 <= i < path.len() && forbidden_in_path(#[trigger] path[i]) {
        ""@
    } else {
        path
    }
}

/// An output folder setting, given whether the path is absolute (see
/// `output_folder_of`).
pub fn output_folder_checked(path: &str, is_absolute: bool) -> (r: String)
    ensures
        r@ == output_folder_of(path@, is_absolute),
{
    proof {
        reveal_strlit("");
    }
    if path.unicode_len() == 0 {
        return String::new();
    }
    if !is_absolute {
        return String::new();
    }
    let c: Vec<char> = crate::text::chars_of(path);
    let n: usize = c.len();
    let mut i: usize = 0;
    while i < n
        invariant
            i <= n,
            n == c@.len(),
            c@ == path@,
            forall|j: int| 0 <= j < i ==> !forbidden_in_path(#[trigger] path@[j]),
        decreases n - i,
    {
        let ch: char = c[i];
        if ch == '<' || ch == '>' || ch == '"' || ch == '|' || ch == '?' || ch == '*' {
            assert(forbidden_in_path(path@[i as int]));
            proof {
                reveal_strlit("");
            }
            return String::new();
        }
        i = i + 1;
    }
    owned(path)
}

/// Whether `std::path::Path::new(p).is_absolute()` holds for the path
/// whose characters are `p`, on the platform the library is built for.
pub uninterp spec fn absolute_path(p: Seq<char>) -> bool;

/// `Path::is_absolute` on the path written as `path`. The result is named
/// `absolute_path` of the path's characters: the rule (a drive and a root on
/// Windows, a leading `/` elsewhere) is fixed for the target the library is
/// built for and depends on the text alone, but it is not spelled out here.
#[verifier::external_body]
fn path_is_absolute(path: &str) -> (b: bool)
    ensures
        b == absolute_path(path@),
{
    std::path::Path::new(path).is_absolute()
}

/// An output folder setting: cleared when empty, not absolute, or holding
/// one of `<>"|?*`; else kept.
pub fn validate_output_folder(path: &str) -> (r: String)
    ensures
        r@ == output_folder_of(path@, absolute_path(path@)),
{
    proof {
        reveal_strlit("");
    }
    if path.unicode_len() == 0 {
        return String::new();
    }
    let absolute: bool = path_is_absolute(path);
    output_folder_checked(path, absolute)
}

/// Settings as they are saved: the theme and the output folder validated,
/// the zoom scale kept.
pub fn validated_config(config: &AppConfig, system_theme: &str) -> (c: AppConfig)
    ensures
        c.theme@ == theme_of(config.theme@, system_theme@),
        c.output_folder@ == output_folder_of(config.output_folder@, absolute_path(config.output_folder@)),
        c.zoom_scale == config.zoom_scale,
{
    AppConfig {
        theme: validate_theme(config.theme.as_str(), system_theme),
        output_folder: validate_output_folder(config.output_folder.as_str()),
        zoom_scale: config.zoom_scale,
    }
}

/// Whether loaded settings are written back: when there was no settings
/// file, or validation changed the theme or the output folder.
pub fn config_needs_save(file_existed: bool, before: &AppConfig, after: &AppConfig) -> (b: bool)
    ensures
        b == (!file_existed || before.theme@ != after.theme@ || before.output_folder@ != after.output_folder@),
{
    !file_existed || !str_equal(before.theme.as_str(), after.theme.as_str())
        || !str_equal(before.output_folder.as_str(), after.output_folder.as_str())
}

/// A valid theme is kept whatever the system's theme.
pub proof fn lemma_valid_theme_kept(theme: Seq<char>, system_theme: Seq<char>)
    requires
        theme == "dark"@ || theme == "light"@,
    ensures
        theme_of(theme, system_theme) == theme,
{
}

/// Validating a validated theme changes nothing.
pub proof fn lemma_theme_idempotent(theme: Seq<char>, system_theme: Seq<char>)
    ensures
        theme_of(theme_of(theme, system_theme), system_theme) == theme_of(theme, system_theme),
{
}

/// Validating an output folder a second time gives what the first
/// validation gave: a kept folder is kept again and a cleared one stays
/// cleared.
pub proof fn lemma_validate_output_folder_idempotent(path: Seq<char>)
    ensures
        ({
            let r = output_folder_of(path, absolute_path(path));
            output_folder_of(r, absolute_path(r)) == r
        }),
{
}

// ------------------------------------------------- one setting in the file

/// Whether `text` parses as JSON with `serde_json::from_str::<Value>`
/// (`None` when it does not), and if so whether the value is an object.
pub uninterp spec fn json_kind(text: Seq<char>) -> Option<bool>;

/// `serde_json::from_str::<serde_json::Value>` on `text`, then
/// `Value::is_object`. The result is named `json_kind` of the text; the
/// JSON grammar is not spelled out here.
#[verifier::external_body]
fn json_object_kind(text: &str) -> (r: Option<bool>)
    ensures
        r == json_kind(text@),
{
    serde_json::from_str::<serde_json::Value>(text).ok().map(|v| v.is_object())
}

/// What `serde_json::to_string_pretty` prints for the JSON object parsed
/// from `object_text` (an empty object for `None`) after
/// `Map::insert(key, v)`, where `v` is the value parsed from `value_text`.
pub uninterp spec fn json_with_key(object_text: Option<Seq<char>>, key: Seq<char>, value_text: Seq<char>) -> Seq<char>;

/// The character sequence of an optional string slice.
pub open spec fn opt_text(t: Option<&str>) -> Option<Seq<char>> {
    match t {
        Some(s) => Some(s@),
        None => None,
    }
}

/// Parses the object (`serde_json::from_str` into a `Map`; a new `Map`
/// for `None`) and the value, `Map::insert`s the key and prints the object
/// with `serde_json::to_string_pretty`. The result is named
/// `json_with_key`. Both texts are required to parse, as the named kinds
/// say, so no parse or print can fail here.
#[verifier::external_body]
fn set_json_key(object_text: Option<&str>, key: &str, value_text: &str) -> (r: String)
    requires
        object_text matches Some(t) ==> json_kind(t@) == Some(true),
        json_kind(value_text@) is Some,
    ensures
        r@ == json_with_key(opt_text(object_text), key@, value_text@),
{
    let mut object: serde_json::Map<String, serde_json::Value> = match object_text {
        Some(t) => serde_json::from_str(t).unwrap_or_default(),
        None => serde_json::Map::new(),
    };
    object.insert(key.to_string(), serde_json::from_str(value_text).unwrap_or_default());
    serde_json::to_string_pretty(&object).unwrap_or_default()
}

/// The settings file does not parse as JSON.
pub open spec fn existing_unreadable(existing: Option<Seq<char>>) -> bool {
    existing matches Some(t) && json_kind(t) is None
}

/// The object a setting is written into: the file's object, or an empty
/// one when there is no file or it holds JSON that is not an object.
pub open spec fn base_object(existing: Option<Seq<char>>) -> Option<Seq<char>> {
    match existing {
        Some(t) => if json_kind(t) == Some(true) { Some(t) } else { None },
        None => None,
    }
}

/// The settings file's text after one setting is written: `existing` is
/// the file's text (`None` when there is no file), `value_json` the
/// setting's value as JSON. A file that does not parse is an error; a file
/// holding JSON that is not an object is replaced by an object; the key is
/// added or overwritten.
pub fn config_with_key(existing: Option<&str>, key: &str, value_json: &str) -> (r: Result<String, AppError>)
    ensures
        existing_unreadable(opt_text(existing)) <==> (r matches Err(AppError::ConfigError(m))
            && m@ == "Failed to parse config file"@),
        !existing_unreadable(opt_text(existing)) && json_kind(value_json@) is None <==> (r matches Err(
            AppError::JsonError(m)) && m@ == "Invalid JSON value"@),
        r is Ok <==> !existing_unreadable(opt_text(existing)) && json_kind(value_json@) is Some,
        r matches Ok(t) ==> t@ == json_with_key(base_object(opt_text(existing)), key@, value_json@),
{
    let base: Option<&str> = match existing {
        Some(t) => match json_object_kind(t) {
            None => return Err(AppError::ConfigError(owned("Failed to parse config file"))),
            Some(true) => Some(t),
            Some(false) => None,
        },
        None => None,
    };
    if json_object_kind(value_json).is_none() {
        return Err(AppError::JsonError(owned("Invalid JSON value")));
    }
    Ok(set_json_key(base, key, value_json))
}

} // verus!
