//! The persisted settings record: its default values, the validation done at
//! the mutation boundary, and the record updates behind the host's setters.

use vstd::prelude::*;
use crate::colors::{invalid_color_msg, is_valid_color, validate_color};
use crate::urlcheck::{is_accepted_endpoint, url_parse_err, url_scheme, validate_endpoint_url};

verus! {

/// The full set of persisted user preferences.
#[derive(Debug)]
pub struct Settings {
    pub endpoint_url: String,
    pub icon_color: String,
}

/// The mathematical model of a settings record: its two fields as character
/// sequences.
pub struct SettingsView {
    pub endpoint_url: Seq<char>,
    pub icon_color: Seq<char>,
}

impl View for Settings {
    type V = SettingsView;

    open spec fn view(&self) -> SettingsView {
        SettingsView { endpoint_url: self.endpoint_url@, icon_color: self.icon_color@ }
    }
}

impl PartialEq for Settings {
    fn eq(&self, other: &Settings) -> (r: bool) {
        self.endpoint_url == other.endpoint_url && self.icon_color == other.icon_color
    }
}

impl vstd::std_specs::cmp::PartialEqSpecImpl for Settings {
    open spec fn obeys_eq_spec() -> bool {
        true
    }

    open spec fn eq_spec(&self, other: &Settings) -> bool {
        self@ == other@
    }
}

/// The record every field falls back to: the built-in endpoint and the
/// built-in accent color.
pub open spec fn default_settings() -> SettingsView {
    SettingsView { endpoint_url: "http://wizard.local:9000/"@, icon_color: "green"@ }
}

/// The built-in default accent color name.
pub fn default_icon_color() -> (r: String)
    ensures
        r@ == "green"@,
        r@ == default_settings().icon_color,
{
    String::from_str("green")
}

/// The built-in default endpoint URL.
pub fn default_endpoint_url() -> (r: String)
    ensures
        r@ == "http://wizard.local:9000/"@,
        r@ == default_settings().endpoint_url,
{
    String::from_str("http://wizard.local:9000/")
}

impl Default for Settings {
    fn default() -> (s: Settings)
        ensures
            s@ == default_settings(),
    {
        Settings { endpoint_url: default_endpoint_url(), icon_color: default_icon_color() }
    }
}

/// The current endpoint URL of a record.
pub fn get_endpoint_url(s: &Settings) -> (r: String)
    ensures
        r@ == s@.endpoint_url,
{
    s.endpoint_url.clone()
}

/// The current accent color of a record.
pub fn get_icon_color(s: &Settings) -> (r: String)
    ensures
        r@ == s@.icon_color,
{
    s.icon_color.clone()
}

/// What a load yields for given file contents: the default record when the
/// file is absent or does not parse, and otherwise the parsed record with an
/// out-of-range `icon_color` replaced by the default color. The endpoint URL
/// is not validated at load time; validation happens at the mutation
/// boundary.
pub open spec fn loaded_view(contents: Option<Seq<char>>) -> SettingsView {
    match contents {
        None => default_settings(),
        Some(text) => match crate::codec::parsed_settings(text) {
            None => default_settings(),
            Some(v) => SettingsView {
                endpoint_url: v.endpoint_url,
                icon_color: if is_valid_color(v.icon_color) {
                    v.icon_color
                } else {
                    default_settings().icon_color
                },
            },
        },
    }
}

/// Build the settings record from the persisted file's contents (`None` when
/// the file is absent or unreadable). Failure never surfaces: it degrades to
/// the default record.
pub fn load_settings(contents: Option<&str>) -> (s: Settings)
    ensures
        contents matches Some(text) ==> s@ == loaded_view(Some(text@)),
        contents is None ==> s@ == default_settings(),
{
    match contents {
        None => Settings::default(),
        Some(text) => match crate::codec::settings_from_json(text) {
            None => Settings::default(),
            Some(st) => {
                match validate_color(st.icon_color.as_str()) {
                    Ok(()) => st,
                    Err(_) => Settings {
                        endpoint_url: st.endpoint_url,
                        icon_color: default_icon_color(),
                    },
                }
            },
        },
    }
}

/// Whatever the file held, the loaded record's accent color is one of the
/// seven valid names: an out-of-range persisted value never survives a load.
pub proof fn lemma_loaded_color_valid(contents: Option<Seq<char>>)
    ensures
        is_valid_color(loaded_view(contents).icon_color),
{
}

/// The serialized text a save writes: exactly the codec's serialization of
/// the record.
pub fn save_settings_text(s: &Settings) -> (r: String)
    ensures
        r@ == crate::codec::settings_json_spec(s@),
{
    crate::codec::settings_json(s)
}

/// The record update behind the host's "set endpoint URL" operation: the URL
/// is accepted exactly when it is an absolute `http`/`https` URL, and then
/// the returned record carries it with the accent color unchanged.
pub fn set_endpoint_url(current: &Settings, url: String) -> (r: Result<Settings, String>)
    ensures
        r is Ok <==> is_accepted_endpoint(url@),
        r matches Ok(s2) ==> s2@ == (SettingsView {
            endpoint_url: url@,
            icon_color: current@.icon_color,
        }),
        url_scheme(url@) is None ==> (r matches Err(m) && m@ == "Invalid URL: "@
            + url_parse_err(url@)),
        url_scheme(url@) is Some && !is_accepted_endpoint(url@) ==> (r matches Err(m) && m@
            == "URL must use http or https"@),
{
    match validate_endpoint_url(url.as_str()) {
        Err(m) => Err(m),
        Ok(()) => Ok(Settings { endpoint_url: url, icon_color: current.icon_color.clone() }),
    }
}

/// The record update behind the host's "set icon color" operation: the color
/// is accepted exactly when it is one of the seven valid names, and then the
/// returned record carries it with the endpoint URL unchanged.
pub fn set_icon_color(current: &Settings, color: String) -> (r: Result<Settings, String>)
    ensures
        r is Ok <==> is_valid_color(color@),
        r matches Ok(s2) ==> s2@ == (SettingsView {
            endpoint_url: current@.endpoint_url,
            icon_color: color@,
        }),
        r matches Err(m) ==> m@ == invalid_color_msg(color@),
{
    match validate_color(color.as_str()) {
        Err(m) => Err(m),
        Ok(()) => Ok(Settings { endpoint_url: current.endpoint_url.clone(), icon_color: color }),
    }
}

} // verus!
