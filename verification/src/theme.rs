//! Theme mode, application settings, their settings file, and the choice of
//! a dark or light counterpart of a GTK theme name.
use vstd::prelude::*;
use crate::text::{
    is_white_space, lemma_split_on_piece_then_rest, push_str, lemma_trim_unchanged,
    chars_eq_ignore_ascii_case, chars_equal, chars_of, contains, contains_chars,
    ends_with, ends_with_chars, eq_ignore_ascii_case, replace, replace_chars, rows_view,
    split_chars, split_on, starts_with, starts_with_chars, string_of, sub_chars, to_lowercase,
    lowercase, trim, trim_chars, trim_end_matches, trim_end_matches_chars,
};

verus! {

#[derive(Clone, Copy, PartialEq, Eq, Debug, Structural)]
pub enum ThemeMode {
    System,
    Light,
    Dark,
}

impl ThemeMode {
    /// The mode that a settings value names: `light` or `dark` once trimmed,
    /// anything else meaning `System`.
    pub open spec fn from_text(s: Seq<char>) -> ThemeMode {
        let t = trim(s);
        if t == "light"@ {
            ThemeMode::Light
        } else if t == "dark"@ {
            ThemeMode::Dark
        } else {
            ThemeMode::System
        }
    }

    /// The name under which a mode is stored.
    pub open spec fn name(self) -> Seq<char> {
        match self {
            ThemeMode::System => "system"@,
            ThemeMode::Light => "light"@,
            ThemeMode::Dark => "dark"@,
        }
    }

    /// The label shown for a mode.
    pub open spec fn label_text(self) -> Seq<char> {
        match self {
            ThemeMode::System => "System"@,
            ThemeMode::Light => "Light"@,
            ThemeMode::Dark => "Dark"@,
        }
    }

    /// The icon name shown for a mode.
    pub open spec fn icon_name(self) -> Seq<char> {
        match self {
            ThemeMode::System => "preferences-desktop-display-symbolic"@,
            ThemeMode::Light => "weather-clear-symbolic"@,
            ThemeMode::Dark => "weather-clear-night-symbolic"@,
        }
    }

    pub fn from_str(s: &str) -> (m: Self)
        ensures
            m == Self::from_text(s@),
    {
        mode_from_chars(&chars_of(s))
    }

    pub fn as_str(&self) -> (r: &'static str)
        ensures
            r@ == self.name(),
    {
        match self {
            ThemeMode::System => "system",
            ThemeMode::Light => "light",
            ThemeMode::Dark => "dark",
        }
    }

    pub fn label(&self) -> (r: &'static str)
        ensures
            r@ == self.label_text(),
    {
        match self {
            ThemeMode::System => "System",
            ThemeMode::Light => "Light",
            ThemeMode::Dark => "Dark",
        }
    }

    pub fn icon(&self) -> (r: &'static str)
        ensures
            r@ == self.icon_name(),
    {
        match self {
            ThemeMode::System => "preferences-desktop-display-symbolic",
            ThemeMode::Light => "weather-clear-symbolic",
            ThemeMode::Dark => "weather-clear-night-symbolic",
        }
    }
}

fn mode_from_chars(v: &Vec<char>) -> (m: ThemeMode)
    ensures
        m == ThemeMode::from_text(v@),
{
    let t = trim_chars(v);
    if chars_equal(&t, &chars_of("light")) {
        ThemeMode::Light
    } else if chars_equal(&t, &chars_of("dark")) {
        ThemeMode::Dark
    } else {
        ThemeMode::System
    }
}

#[derive(Clone, Copy, Debug)]
pub struct AppSettings {
    pub theme_mode: ThemeMode,
    pub confirm_remove: bool,
    pub auto_expand_output: bool,
}

/// The settings in force when nothing has been saved.
pub open spec fn default_settings() -> AppSettings {
    AppSettings { theme_mode: ThemeMode::System, confirm_remove: true, auto_expand_output: true }
}

impl Default for AppSettings {
    fn default() -> (s: Self)
        ensures
            s == default_settings(),
    {
        AppSettings { theme_mode: ThemeMode::System, confirm_remove: true, auto_expand_output: true }
    }
}

// ---------------------------------------------------------------------------
// The settings file
// ---------------------------------------------------------------------------

/// How a flag is written in the settings file.
pub open spec fn flag_text(b: bool) -> Seq<char> {
    if b {
        "true"@
    } else {
        "false"@
    }
}

/// The settings file that stores `s`.
pub open spec fn settings_text(s: AppSettings) -> Seq<char> {
    "theme="@ + s.theme_mode.name() + "\n"@ + "confirm_remove="@ + flag_text(s.confirm_remove)
        + "\n"@ + "auto_expand_output="@ + flag_text(s.auto_expand_output) + "\n"@
}

/// The effect of one line of the settings file on `s`: the trimmed line is
/// `theme=`, `confirm_remove=` or `auto_expand_output=` followed by its value;
/// other lines change nothing.
pub open spec fn apply_setting_line(s: AppSettings, line: Seq<char>) -> AppSettings {
    let l = trim(line);
    if starts_with(l, "theme="@) {
        AppSettings {
            theme_mode: ThemeMode::from_text(l.skip("theme="@.len() as int)),
            confirm_remove: s.confirm_remove,
            auto_expand_output: s.auto_expand_output,
        }
    } else if starts_with(l, "confirm_remove="@) {
        AppSettings {
            theme_mode: s.theme_mode,
            confirm_remove: trim(l.skip("confirm_remove="@.len() as int)) == "true"@,
            auto_expand_output: s.auto_expand_output,
        }
    } else if starts_with(l, "auto_expand_output="@) {
        AppSettings {
            theme_mode: s.theme_mode,
            confirm_remove: s.confirm_remove,
            auto_expand_output: trim(l.skip("auto_expand_output="@.len() as int)) == "true"@,
        }
    } else {
        s
    }
}

/// The settings after reading `lines` in order, starting from the defaults.
pub open spec fn settings_after(lines: Seq<Seq<char>>) -> AppSettings
    decreases lines.len(),
{
    if lines.len() == 0 {
        default_settings()
    } else {
        apply_setting_line(settings_after(lines.drop_last()), lines.last())
    }
}

/// The settings that a settings file holds. Lines are taken between `\n`;
/// a `\r` before it, or a final empty line, changes nothing, since each
/// line is trimmed and an empty line sets nothing.
pub open spec fn parsed_settings(content: Seq<char>) -> AppSettings {
    settings_after(split_on(content, '\n'))
}

/// The settings loaded from the settings file (when it could be read) and
/// the older single-value theme file (when it could be read): the theme file
/// decides the mode only when the settings file left it at `System`.
pub open spec fn loaded_settings(
    content: Option<Seq<char>>,
    legacy_theme: Option<Seq<char>>,
) -> AppSettings {
    let s = match content {
        Some(c) => parsed_settings(c),
        None => default_settings(),
    };
    match legacy_theme {
        Some(old) => if s.theme_mode == ThemeMode::System {
            AppSettings {
                theme_mode: ThemeMode::from_text(old),
                confirm_remove: s.confirm_remove,
                auto_expand_output: s.auto_expand_output,
            }
        } else {
            s
        },
        None => s,
    }
}

/// The text of a settings value, after its key.
fn value_after(l: &Vec<char>, key_len: usize) -> (r: Vec<char>)
    requires
        key_len <= l@.len(),
    ensures
        r@ == l@.skip(key_len as int),
{
    let r = sub_chars(l, key_len, l.len());
    assert(r@ =~= l@.skip(key_len as int));
    r
}

fn apply_line(s: AppSettings, line: &Vec<char>) -> (r: AppSettings)
    ensures
        r == apply_setting_line(s, line@),
{
    let l = trim_chars(line);
    let theme_key = chars_of("theme=");
    let confirm_key = chars_of("confirm_remove=");
    let expand_key = chars_of("auto_expand_output=");
    let truth = chars_of("true");
    if starts_with_chars(&l, &theme_key) {
        let v = value_after(&l, theme_key.len());
        AppSettings {
            theme_mode: mode_from_chars(&v),
            confirm_remove: s.confirm_remove,
            auto_expand_output: s.auto_expand_output,
        }
    } else if starts_with_chars(&l, &confirm_key) {
        let v = value_after(&l, confirm_key.len());
        AppSettings {
            theme_mode: s.theme_mode,
            confirm_remove: chars_equal(&trim_chars(&v), &truth),
            auto_expand_output: s.auto_expand_output,
        }
    } else if starts_with_chars(&l, &expand_key) {
        let v = value_after(&l, expand_key.len());
        AppSettings {
            theme_mode: s.theme_mode,
            confirm_remove: s.confirm_remove,
            auto_expand_output: chars_equal(&trim_chars(&v), &truth),
        }
    } else {
        s
    }
}

/// The settings that a settings file holds.
pub fn parse_settings(content: &str) -> (s: AppSettings)
    ensures
        s == parsed_settings(content@),
{
    let lines = split_chars(&chars_of(content), '\n');
    let mut s = AppSettings::default();
    let mut i: usize = 0;
    while i < lines.len()
        invariant
            i <= lines@.len(),
            rows_view(lines@) == split_on(content@, '\n'),
            s == settings_after(split_on(content@, '\n').take(i as int)),
        decreases lines@.len() - i,
    {
        let ghost pre = split_on(content@, '\n').take(i + 1);
        assert(pre.drop_last() =~= split_on(content@, '\n').take(i as int));
        assert(rows_view(lines@)[i as int] == lines@[i as int]@);
        s = apply_line(s, &lines[i]);
        i = i + 1;
    }
    assert(split_on(content@, '\n').take(lines@.len() as int) =~= split_on(content@, '\n'));
    s
}

/// The settings loaded from the settings file and the older theme file,
/// each given when it could be read.
pub fn load_settings(content: Option<&str>, legacy_theme: Option<&str>) -> (s: AppSettings)
    ensures
        s == loaded_settings(
            match content {
                Some(c) => Some(c@),
                None => None,
            },
            match legacy_theme {
                Some(t) => Some(t@),
                None => None,
            },
        ),
{
    let s = match content {
        Some(c) => parse_settings(c),
        None => AppSettings::default(),
    };
    match legacy_theme {
        Some(old) => if s.theme_mode == ThemeMode::System {
            AppSettings {
                theme_mode: ThemeMode::from_str(old),
                confirm_remove: s.confirm_remove,
                auto_expand_output: s.auto_expand_output,
            }
        } else {
            s
        },
        None => s,
    }
}

/// The text of the settings file that stores `s`.
pub fn settings_file_content(s: &AppSettings) -> (r: String)
    ensures
        r@ == settings_text(*s),
{
    let mut v: Vec<char> = Vec::new();
    push_str(&mut v, "theme=");
    push_str(&mut v, s.theme_mode.as_str());
    push_str(&mut v, "\n");
    push_str(&mut v, "confirm_remove=");
    push_str(&mut v, if s.confirm_remove { "true" } else { "false" });
    push_str(&mut v, "\n");
    push_str(&mut v, "auto_expand_output=");
    push_str(&mut v, if s.auto_expand_output { "true" } else { "false" });
    push_str(&mut v, "\n");
    string_of(&v)
}

// ---------------------------------------------------------------------------
// Dark and light theme names
// ---------------------------------------------------------------------------

/// What a lowercase theme name says of its darkness: dark when it names
/// dark, night or noir; light when it names light or Breeze; nothing otherwise.
pub open spec fn name_darkness_of(lower: Seq<char>) -> Option<bool> {
    if contains(lower, "dark"@) || contains(lower, "night"@) || contains(lower, "noir"@) {
        Some(true)
    } else if contains(lower, "light"@) || contains(lower, "breeze"@) {
        Some(false)
    } else {
        None
    }
}

/// Whether the system theme is dark: by its name where the name tells,
/// else by GTK's dark-theme preference.
pub open spec fn theme_is_dark(theme_name: Option<Seq<char>>, gtk_prefers_dark: bool) -> bool {
    match theme_name {
        Some(n) => match name_darkness_of(lowercase(n)) {
            Some(b) => b,
            None => gtk_prefers_dark,
        },
        None => gtk_prefers_dark,
    }
}

/// Heuristic on a lowercase theme name: `Some(true)` for a dark theme,
/// `Some(false)` for a light one, `None` when the name does not tell.
pub fn name_darkness(lower: &str) -> (r: Option<bool>)
    ensures
        r == name_darkness_of(lower@),
{
    let l = chars_of(lower);
    if contains_chars(&l, &chars_of("dark")) || contains_chars(&l, &chars_of("night"))
        || contains_chars(&l, &chars_of("noir")) {
        Some(true)
    } else if contains_chars(&l, &chars_of("light")) || contains_chars(&l, &chars_of("breeze")) {
        Some(false)
    } else {
        None
    }
}

/// Heuristic: detect whether a theme name is dark, falling back to GTK's
/// dark-theme preference when the name does not tell.
pub fn detect_theme_is_dark(theme_name: &Option<String>, gtk_prefers_dark: bool) -> (b: bool)
    ensures
        b == theme_is_dark(
            match theme_name {
                Some(n) => Some(n@),
                None => None,
            },
            gtk_prefers_dark,
        ),
{
    match theme_name {
        Some(name) => {
            let lower = to_lowercase(name.as_str());
            match name_darkness(lower.as_str()) {
                Some(b) => b,
                None => gtk_prefers_dark,
            }
        },
        None => gtk_prefers_dark,
    }
}

/// A lowercase theme name that reads as dark.
pub open spec fn looks_dark(lower: Seq<char>) -> bool {
    ||| contains(lower, "dark"@)
    ||| contains(lower, "night"@)
    ||| contains(lower, "noir"@)
    ||| contains(lower, "mocha"@)
    ||| contains(lower, "macchiato"@)
    ||| contains(lower, "frappe"@)
    ||| contains(lower, "nord"@)
}

/// A lowercase theme name that reads as light.
pub open spec fn looks_light(lower: Seq<char>) -> bool {
    contains(lower, "light"@) || contains(lower, "latte"@)
}

/// The dark counterpart of `original`, whose lowercase form is `lower`:
/// Breeze (in any ASCII case) becomes Breeze-Dark; `light` and `latte` names
/// switch to `Dark` and `Mocha`; any other name gets a dark suffix in its own
/// case, `-dark` when the name is all lowercase and `-Dark` otherwise.
pub open spec fn dark_variant(original: Seq<char>, lower: Seq<char>) -> Seq<char> {
    if eq_ignore_ascii_case(original, "Breeze"@) {
        "Breeze-Dark"@
    } else if contains(lower, "light"@) {
        replace(replace(original, "light"@, "Dark"@), "Light"@, "Dark"@)
    } else if contains(lower, "latte"@) {
        replace(replace(original, "latte"@, "Mocha"@), "Latte"@, "Mocha"@)
    } else if original == lower {
        original + "-dark"@
    } else {
        original + "-Dark"@
    }
}

/// `original` with the Catppuccin dark flavours renamed to Latte.
pub open spec fn latte_of(original: Seq<char>) -> Seq<char> {
    replace(
        replace(
            replace(
                replace(
                    replace(replace(original, "mocha"@, "latte"@), "Mocha"@, "Latte"@),
                    "macchiato"@,
                    "latte"@,
                ),
                "Macchiato"@,
                "Latte"@,
            ),
            "frappe"@,
            "latte"@,
        ),
        "Frappe"@,
        "Latte"@,
    )
}

/// The light counterpart of `original`, whose lowercase form is `lower`.
pub open spec fn light_variant(original: Seq<char>, lower: Seq<char>) -> Seq<char> {
    if eq_ignore_ascii_case(original, "Breeze-Dark"@) {
        "Breeze"@
    } else if contains(lower, "dark"@) {
        replace(replace(replace(original, "dark"@, "light"@), "Dark"@, "Light"@), "DARK"@, "LIGHT"@)
    } else if contains(lower, "mocha"@) || contains(lower, "macchiato"@) || contains(
        lower,
        "frappe"@,
    ) {
        latte_of(original)
    } else if contains(lower, "night"@) {
        replace(replace(original, "night"@, "day"@), "Night"@, "Day"@)
    } else if ends_with(lower, "-dark"@) {
        trim_end_matches(trim_end_matches(original, "-Dark"@), "-dark"@)
    } else {
        original + "-Light"@
    }
}

/// The theme name to use for the wanted darkness, given the original name and
/// its lowercase form: the original where it already matches, else its
/// counterpart; nothing when the name reads both dark and light and dark is wanted.
pub open spec fn derived_theme_name(original: Seq<char>, lower: Seq<char>, want_dark: bool) -> Option<
    Seq<char>,
> {
    let already_dark = looks_dark(lower);
    let already_light = looks_light(lower);
    if want_dark && already_dark && !already_light {
        Some(original)
    } else if !want_dark && already_light {
        Some(original)
    } else if !want_dark && !already_dark {
        Some(original)
    } else if want_dark && !already_dark {
        Some(dark_variant(original, lower))
    } else if !want_dark && already_dark {
        Some(light_variant(original, lower))
    } else {
        None
    }
}

fn contains_str(l: &Vec<char>, pat: &str) -> (b: bool)
    ensures
        b == contains(l@, pat@),
{
    contains_chars(l, &chars_of(pat))
}

fn replace_str(v: &Vec<char>, from: &str, to: &str) -> (r: Vec<char>)
    ensures
        r@ == replace(v@, from@, to@),
{
    replace_chars(v, &chars_of(from), &chars_of(to))
}

fn append_chars(v: &Vec<char>, s: &str) -> (r: Vec<char>)
    ensures
        r@ == v@ + s@,
{
    let mut r = sub_chars(v, 0, v.len());
    assert(r@ =~= v@);
    push_str(&mut r, s);
    r
}

/// The dark counterpart of `original`, given its lowercase form `lower`.
pub fn dark_variant_of(original: &str, lower: &str) -> (r: String)
    ensures
        r@ == dark_variant(original@, lower@),
{
    let o = chars_of(original);
    let l = chars_of(lower);
    if chars_eq_ignore_ascii_case(&o, &chars_of("Breeze")) {
        return string_of(&chars_of("Breeze-Dark"));
    }
    if contains_str(&l, "light") {
        return string_of(&replace_str(&replace_str(&o, "light", "Dark"), "Light", "Dark"));
    }
    if contains_str(&l, "latte") {
        return string_of(&replace_str(&replace_str(&o, "latte", "Mocha"), "Latte", "Mocha"));
    }
    if chars_equal(&o, &l) {
        return string_of(&append_chars(&o, "-dark"));
    }
    string_of(&append_chars(&o, "-Dark"))
}

/// The light counterpart of `original`, given its lowercase form `lower`.
pub fn light_variant_of(original: &str, lower: &str) -> (r: String)
    ensures
        r@ == light_variant(original@, lower@),
{
    let o = chars_of(original);
    let l = chars_of(lower);
    if chars_eq_ignore_ascii_case(&o, &chars_of("Breeze-Dark")) {
        return string_of(&chars_of("Breeze"));
    }
    if contains_str(&l, "dark") {
        let a = replace_str(&o, "dark", "light");
        let b = replace_str(&a, "Dark", "Light");
        return string_of(&replace_str(&b, "DARK", "LIGHT"));
    }
    if contains_str(&l, "mocha") || contains_str(&l, "macchiato") || contains_str(&l, "frappe") {
        let a = replace_str(&o, "mocha", "latte");
        let b = replace_str(&a, "Mocha", "Latte");
        let c = replace_str(&b, "macchiato", "latte");
        let d = replace_str(&c, "Macchiato", "Latte");
        let e = replace_str(&d, "frappe", "latte");
        return string_of(&replace_str(&e, "Frappe", "Latte"));
    }
    if contains_str(&l, "night") {
        return string_of(&replace_str(&replace_str(&o, "night", "day"), "Night", "Day"));
    }
    if ends_with_chars(&l, &chars_of("-dark")) {
        let a = trim_end_matches_chars(&o, &chars_of("-Dark"));
        return string_of(&trim_end_matches_chars(&a, &chars_of("-dark")));
    }
    string_of(&append_chars(&o, "-Light"))
}

/// The theme name for the wanted darkness, given the original name and its
/// lowercase form `lower`.
pub fn theme_name_for(original: &str, lower: &str, want_dark: bool) -> (r: Option<String>)
    ensures
        match r {
            Some(s) => derived_theme_name(original@, lower@, want_dark) == Some(s@),
            None => derived_theme_name(original@, lower@, want_dark) is None,
        },
{
    let l = chars_of(lower);
    let already_dark = contains_str(&l, "dark") || contains_str(&l, "night") || contains_str(
        &l,
        "noir",
    ) || contains_str(&l, "mocha") || contains_str(&l, "macchiato") || contains_str(&l, "frappe")
        || contains_str(&l, "nord");
    let already_light = contains_str(&l, "light") || contains_str(&l, "latte");
    if want_dark && already_dark && !already_light {
        return Some(string_of(&chars_of(original)));
    }
    if !want_dark && already_light {
        return Some(string_of(&chars_of(original)));
    }
    if !want_dark && !already_dark {
        return Some(string_of(&chars_of(original)));
    }
    if want_dark && !already_dark {
        return Some(dark_variant_of(original, lower));
    }
    if !want_dark && already_dark {
        return Some(light_variant_of(original, lower));
    }
    None
}

/// Given an original theme name and a desired dark/light state, try to
/// produce the counterpart theme name.
///
/// Works for common KDE/GNOME themes:
///   "Breeze"            <-> "Breeze-Dark"
///   "adwaira"           <-> "adwaira-dark"
///   "Catppuccin-Mocha"  -> for light: "Catppuccin-Latte"
///   etc.
///
/// A generic dark suffix follows the name's case: `-dark` for a name that is
/// all lowercase, `-Dark` otherwise. The light counterpart of a name that
/// holds `dark` replaces it by `light` ("adwaira-dark" -> "adwaira-light").
pub fn derive_theme_name(original: &str, want_dark: bool) -> (r: Option<String>)
    ensures
        match r {
            Some(s) => derived_theme_name(original@, lowercase(original@), want_dark) == Some(s@),
            None => derived_theme_name(original@, lowercase(original@), want_dark) is None,
        },
{
    let lower = to_lowercase(original);
    theme_name_for(original, lower.as_str(), want_dark)
}

/// The dark counterpart of a theme name, e.g. "Breeze" -> "Breeze-Dark".
pub fn derive_dark_variant(original: &str) -> (r: String)
    ensures
        r@ == dark_variant(original@, lowercase(original@)),
{
    let lower = to_lowercase(original);
    dark_variant_of(original, lower.as_str())
}

/// The light counterpart of a theme name, e.g. "Breeze-Dark" -> "Breeze".
pub fn derive_light_variant(original: &str) -> (r: String)
    ensures
        r@ == light_variant(original@, lowercase(original@)),
{
    let lower = to_lowercase(original);
    light_variant_of(original, lower.as_str())
}

} // verus!

verus! {

/// What the settings manager knows: the settings in force, the GTK theme
/// name found at startup, and whether that system theme is dark.
pub struct SettingsModel {
    pub settings: AppSettings,
    pub system_theme_name: Option<Seq<char>>,
    pub system_is_dark: bool,
}

pub struct SettingsManager {
    settings: AppSettings,
    /// The original gtk-theme-name captured at startup, before we override it.
    system_theme_name: Option<String>,
    /// Whether the original system theme is dark.
    system_is_dark: bool,
}

/// The text of an optional string.
pub open spec fn opt_view(o: Option<String>) -> Option<Seq<char>> {
    match o {
        Some(s) => Some(s@),
        None => None,
    }
}

impl View for SettingsManager {
    type V = SettingsModel;

    closed spec fn view(&self) -> SettingsModel {
        SettingsModel {
            settings: self.settings,
            system_theme_name: opt_view(self.system_theme_name),
            system_is_dark: self.system_is_dark,
        }
    }
}

/// Whether the effective theme is dark: the chosen mode, or for `System`
/// the darkness of the system theme.
pub open spec fn model_is_dark(m: SettingsModel) -> bool {
    match m.settings.theme_mode {
        ThemeMode::Dark => true,
        ThemeMode::Light => false,
        ThemeMode::System => m.system_is_dark,
    }
}

/// The GTK theme name to set for the current mode: for `System` the original
/// system theme, else its counterpart for the effective darkness; nothing
/// when there is no system theme name or no counterpart.
pub open spec fn planned_theme_name(m: SettingsModel) -> Option<Seq<char>> {
    if m.settings.theme_mode == ThemeMode::System {
        m.system_theme_name
    } else {
        match m.system_theme_name {
            Some(orig) => derived_theme_name(orig, lowercase(orig), model_is_dark(m)),
            None => None,
        }
    }
}

/// The changes to make to GTK's settings: the dark-theme preference, and
/// the theme name to set when there is one.
pub struct GtkThemePlan {
    pub prefer_dark: bool,
    pub theme_name: Option<String>,
}

impl SettingsManager {
    /// A manager with default settings, for the system theme `system_theme_name`;
    /// `gtk_prefers_dark` is GTK's dark-theme preference, used when the name
    /// does not tell whether the theme is dark.
    pub fn new(system_theme_name: Option<String>, gtk_prefers_dark: bool) -> (r: Self)
        ensures
            r@.settings == default_settings(),
            r@.system_theme_name == opt_view(system_theme_name),
            r@.system_is_dark == theme_is_dark(opt_view(system_theme_name), gtk_prefers_dark),
    {
        let system_is_dark = detect_theme_is_dark(&system_theme_name, gtk_prefers_dark);
        SettingsManager { settings: AppSettings::default(), system_theme_name, system_is_dark }
    }

    pub fn get(&self) -> (r: &AppSettings)
        ensures
            *r == self@.settings,
    {
        &self.settings
    }

    pub fn theme_mode(&self) -> (m: ThemeMode)
        ensures
            m == self@.settings.theme_mode,
    {
        self.settings.theme_mode
    }

    pub fn is_dark(&self) -> (b: bool)
        ensures
            b == model_is_dark(self@),
    {
        match self.settings.theme_mode {
            ThemeMode::Dark => true,
            ThemeMode::Light => false,
            ThemeMode::System => self.system_is_dark,
        }
    }

    /// Switches to `mode`; the caller then applies `gtk_theme_plan` and
    /// stores `settings_file_content` of the new settings.
    pub fn apply_theme(&mut self, mode: ThemeMode)
        ensures
            final(self)@ == (SettingsModel {
                settings: AppSettings {
                    theme_mode: mode,
                    confirm_remove: old(self)@.settings.confirm_remove,
                    auto_expand_output: old(self)@.settings.auto_expand_output,
                },
                system_theme_name: old(self)@.system_theme_name,
                system_is_dark: old(self)@.system_is_dark,
            }),
    {
        self.settings.theme_mode = mode;
    }

    pub fn set_confirm_remove(&mut self, val: bool)
        ensures
            final(self)@ == (SettingsModel {
                settings: AppSettings {
                    theme_mode: old(self)@.settings.theme_mode,
                    confirm_remove: val,
                    auto_expand_output: old(self)@.settings.auto_expand_output,
                },
                system_theme_name: old(self)@.system_theme_name,
                system_is_dark: old(self)@.system_is_dark,
            }),
    {
        self.settings.confirm_remove = val;
    }

    pub fn set_auto_expand_output(&mut self, val: bool)
        ensures
            final(self)@ == (SettingsModel {
                settings: AppSettings {
                    theme_mode: old(self)@.settings.theme_mode,
                    confirm_remove: old(self)@.settings.confirm_remove,
                    auto_expand_output: val,
                },
                system_theme_name: old(self)@.system_theme_name,
                system_is_dark: old(self)@.system_is_dark,
            }),
    {
        self.settings.auto_expand_output = val;
    }

    /// Puts the settings read from disk (see `load_settings`) in force.
    pub fn restore(&mut self, loaded: AppSettings)
        ensures
            final(self)@ == (SettingsModel {
                settings: loaded,
                system_theme_name: old(self)@.system_theme_name,
                system_is_dark: old(self)@.system_is_dark,
            }),
    {
        self.settings = loaded;
    }

    /// The changes to GTK's settings that make the current mode take effect.
    pub fn gtk_theme_plan(&self) -> (p: GtkThemePlan)
        ensures
            p.prefer_dark == model_is_dark(self@),
            opt_view(p.theme_name) == planned_theme_name(self@),
    {
        let dark = self.is_dark();
        if self.settings.theme_mode == ThemeMode::System {
            let theme_name = match &self.system_theme_name {
                Some(orig) => Some(string_of(&chars_of(orig.as_str()))),
                None => None,
            };
            return GtkThemePlan { prefer_dark: dark, theme_name };
        }
        let theme_name = match &self.system_theme_name {
            Some(orig) => derive_theme_name(orig.as_str(), dark),
            None => None,
        };
        GtkThemePlan { prefer_dark: dark, theme_name }
    }

    /// The text of the settings file for the settings in force.
    pub fn settings_file_content(&self) -> (r: String)
        ensures
            r@ == settings_text(self@.settings),
    {
        settings_file_content(&self.settings)
    }
}

} // verus!

verus! {

// ---------------------------------------------------------------------------
// Laws
// ---------------------------------------------------------------------------

/// Reading back the name under which a mode is stored gives that mode:
/// `ThemeMode::from_str(m.as_str()) == m`.
pub proof fn lemma_mode_name_roundtrip(m: ThemeMode)
    ensures
        ThemeMode::from_text(m.name()) == m,
{
    reveal_strlit("system");
    reveal_strlit("light");
    reveal_strlit("dark");
    lemma_trim_unchanged(m.name());
}

proof fn lemma_flag_text(b: bool)
    ensures
        trim(flag_text(b)) == flag_text(b),
        (flag_text(b) == "true"@) == b,
        forall|i: int| 0 <= i < flag_text(b).len() ==> flag_text(b)[i] != '\n',
        flag_text(b).len() > 0,
        !is_white_space(flag_text(b).last()),
{
    reveal_strlit("true");
    reveal_strlit("false");
    lemma_trim_unchanged(flag_text(b));
}

proof fn lemma_mode_name_shape(m: ThemeMode)
    ensures
        forall|i: int| 0 <= i < m.name().len() ==> m.name()[i] != '\n',
        m.name().len() > 0,
        !is_white_space(m.name().last()),
{
    reveal_strlit("system");
    reveal_strlit("light");
    reveal_strlit("dark");
}

/// The line `key` + `value`, with `key` a literal that begins with `first`.
proof fn lemma_keyed_line(key: Seq<char>, value: Seq<char>)
    requires
        key.len() > 0,
        !is_white_space(key[0]),
        value.len() > 0,
        !is_white_space(value.last()),
    ensures
        trim(key + value) == key + value,
        starts_with(key + value, key),
        (key + value).skip(key.len() as int) == value,
{
    let l = key + value;
    assert(l[0] == key[0]);
    assert(l.last() == value.last());
    lemma_trim_unchanged(l);
    assert(l.subrange(0, key.len() as int) =~= key);
    assert(l.skip(key.len() as int) =~= value);
}

/// What is written to the settings file reads back as the same settings:
/// `parse_settings(&settings_file_content(&s)) == s`.
pub proof fn lemma_settings_roundtrip(s: AppSettings)
    ensures
        parsed_settings(settings_text(s)) == s,
{
    reveal_strlit("theme=");
    reveal_strlit("confirm_remove=");
    reveal_strlit("auto_expand_output=");
    reveal_strlit("\n");
    let k1 = "theme="@;
    let k2 = "confirm_remove="@;
    let k3 = "auto_expand_output="@;
    let v1 = s.theme_mode.name();
    let v2 = flag_text(s.confirm_remove);
    let v3 = flag_text(s.auto_expand_output);
    let l1 = k1 + v1;
    let l2 = k2 + v2;
    let l3 = k3 + v3;
    let e = Seq::<char>::empty();
    lemma_mode_name_shape(s.theme_mode);
    lemma_flag_text(s.confirm_remove);
    lemma_flag_text(s.auto_expand_output);
    lemma_mode_name_roundtrip(s.theme_mode);
    assert(settings_text(s) =~= l1.push('\n') + (l2.push('\n') + (l3.push('\n') + e)));
    assert forall|i: int| 0 <= i < l1.len() implies l1[i] != '\n' by {
        if i >= k1.len() {
            assert(l1[i] == v1[i - k1.len()]);
        }
    }
    assert forall|i: int| 0 <= i < l2.len() implies l2[i] != '\n' by {
        if i >= k2.len() {
            assert(l2[i] == v2[i - k2.len()]);
        }
    }
    assert forall|i: int| 0 <= i < l3.len() implies l3[i] != '\n' by {
        if i >= k3.len() {
            assert(l3[i] == v3[i - k3.len()]);
        }
    }
    lemma_split_on_piece_then_rest(l3, '\n', e);
    lemma_split_on_piece_then_rest(l2, '\n', l3.push('\n') + e);
    lemma_split_on_piece_then_rest(l1, '\n', l2.push('\n') + (l3.push('\n') + e));
    let lines = seq![l1, l2, l3, e];
    assert(split_on(settings_text(s), '\n') =~= lines);
    lemma_keyed_line(k1, v1);
    lemma_keyed_line(k2, v2);
    lemma_keyed_line(k3, v3);
    // Each line is recognised by its own key only.
    assert(l2[0] != k1[0]);
    assert(l3[0] != k1[0]);
    assert(l3[0] != k2[0]);
    assert(!starts_with(l2, k1)) by {
        assert(l2.subrange(0, k1.len() as int)[0] != k1[0]);
    }
    assert(!starts_with(l3, k1)) by {
        assert(l3.subrange(0, k1.len() as int)[0] != k1[0]);
    }
    assert(!starts_with(l3, k2)) by {
        assert(l3.subrange(0, k2.len() as int)[0] != k2[0]);
    }
    assert(trim(e) == e);
    let s1 = apply_setting_line(default_settings(), l1);
    let s2 = apply_setting_line(s1, l2);
    let s3 = apply_setting_line(s2, l3);
    assert(lines.drop_last() =~= seq![l1, l2, l3]);
    assert(seq![l1, l2, l3].drop_last() =~= seq![l1, l2]);
    assert(seq![l1, l2].drop_last() =~= seq![l1]);
    assert(seq![l1].drop_last() =~= Seq::<Seq<char>>::empty());
    assert(settings_after(Seq::<Seq<char>>::empty()) == default_settings());
    assert(seq![l1].last() == l1);
    assert(settings_after(seq![l1]) == s1);
    assert(settings_after(seq![l1, l2]) == s2);
    assert(settings_after(seq![l1, l2, l3]) == s3);
    assert(settings_after(lines) == apply_setting_line(s3, e));
}

/// The settings file alone, without an older theme file, restores what
/// was saved.
pub proof fn lemma_save_then_load(s: AppSettings)
    ensures
        loaded_settings(Some(settings_text(s)), None) == s,
{
    lemma_settings_roundtrip(s);
}

/// A theme name that already has the wanted darkness is kept as it is.
pub proof fn lemma_theme_name_kept_when_matching(original: Seq<char>, lower: Seq<char>, want_dark: bool)
    requires
        want_dark ==> looks_dark(lower) && !looks_light(lower),
        !want_dark ==> looks_light(lower) || !looks_dark(lower),
    ensures
        derived_theme_name(original, lower, want_dark) == Some(original),
{
}

/// A counterpart name is found in every case but one: dark is wanted of a
/// name that reads both dark and light.
pub proof fn lemma_theme_name_found(original: Seq<char>, lower: Seq<char>, want_dark: bool)
    ensures
        derived_theme_name(original, lower, want_dark) is None <==> (want_dark && looks_dark(lower)
            && looks_light(lower)),
{
}

} // verus!

verus! {

// ---------------------------------------------------------------------------
// Laws of theme-name derivation, darkness detection and loading
// ---------------------------------------------------------------------------

/// Dark is wanted of a name whose lowercase form holds none of the dark words
/// (dark, night, noir, mocha, macchiato, frappe, nord): the result is its dark
/// counterpart, never the name as it is.
pub proof fn lemma_dark_wanted_of_non_dark_name(original: Seq<char>, lower: Seq<char>)
    requires
        !contains(lower, "dark"@),
        !contains(lower, "night"@),
        !contains(lower, "noir"@),
        !contains(lower, "mocha"@),
        !contains(lower, "macchiato"@),
        !contains(lower, "frappe"@),
        !contains(lower, "nord"@),
    ensures
        derived_theme_name(original, lower, true) == Some(dark_variant(original, lower)),
{
}

/// Dark is wanted of a name that holds a dark word and neither `light` nor
/// `latte`: the name is kept.
pub proof fn lemma_dark_wanted_of_dark_name(original: Seq<char>, lower: Seq<char>)
    requires
        contains(lower, "dark"@) || contains(lower, "night"@) || contains(lower, "noir"@)
            || contains(lower, "mocha"@) || contains(lower, "macchiato"@) || contains(
            lower,
            "frappe"@,
        ) || contains(lower, "nord"@),
        !contains(lower, "light"@),
        !contains(lower, "latte"@),
    ensures
        derived_theme_name(original, lower, true) == Some(original),
{
}

/// Light is wanted of a name that holds a dark word and neither `light` nor
/// `latte`: the result is its light counterpart.
pub proof fn lemma_light_wanted_of_dark_name(original: Seq<char>, lower: Seq<char>)
    requires
        contains(lower, "dark"@) || contains(lower, "night"@) || contains(lower, "noir"@)
            || contains(lower, "mocha"@) || contains(lower, "macchiato"@) || contains(
            lower,
            "frappe"@,
        ) || contains(lower, "nord"@),
        !contains(lower, "light"@),
        !contains(lower, "latte"@),
    ensures
        derived_theme_name(original, lower, false) == Some(light_variant(original, lower)),
{
}

/// Light is wanted of a name that holds `light` or `latte`, or holds no dark
/// word: the name is kept.
pub proof fn lemma_light_wanted_of_light_name(original: Seq<char>, lower: Seq<char>)
    requires
        contains(lower, "light"@) || contains(lower, "latte"@) || (!contains(lower, "dark"@)
            && !contains(lower, "night"@) && !contains(lower, "noir"@) && !contains(
            lower,
            "mocha"@,
        ) && !contains(lower, "macchiato"@) && !contains(lower, "frappe"@) && !contains(
            lower,
            "nord"@,
        )),
    ensures
        derived_theme_name(original, lower, false) == Some(original),
{
}

/// Breeze, in any ASCII case, has Breeze-Dark as dark counterpart, and
/// Breeze-Dark, in any ASCII case, has Breeze as light counterpart.
pub proof fn lemma_breeze_counterparts(original: Seq<char>, lower: Seq<char>)
    ensures
        eq_ignore_ascii_case(original, "Breeze"@) ==> dark_variant(original, lower)
            == "Breeze-Dark"@,
        eq_ignore_ascii_case(original, "Breeze-Dark"@) ==> light_variant(original, lower)
            == "Breeze"@,
{
}

/// A name whose lowercase form holds none of dark, night, noir, light and
/// breeze tells nothing: the system theme is dark exactly when GTK prefers a
/// dark theme.
pub proof fn lemma_no_hint_follows_gtk(name: Seq<char>, gtk_prefers_dark: bool)
    requires
        !contains(lowercase(name), "dark"@),
        !contains(lowercase(name), "night"@),
        !contains(lowercase(name), "noir"@),
        !contains(lowercase(name), "light"@),
        !contains(lowercase(name), "breeze"@),
    ensures
        theme_is_dark(Some(name), gtk_prefers_dark) == gtk_prefers_dark,
{
}

/// A name whose lowercase form holds dark, night or noir is dark, whatever GTK prefers.
pub proof fn lemma_dark_hint(name: Seq<char>, gtk_prefers_dark: bool)
    requires
        contains(lowercase(name), "dark"@) || contains(lowercase(name), "night"@) || contains(
            lowercase(name),
            "noir"@,
        ),
    ensures
        theme_is_dark(Some(name), gtk_prefers_dark),
{
}

/// A name whose lowercase form holds light or breeze, and none of dark, night
/// and noir, is light, whatever GTK prefers.
pub proof fn lemma_light_hint(name: Seq<char>, gtk_prefers_dark: bool)
    requires
        contains(lowercase(name), "light"@) || contains(lowercase(name), "breeze"@),
        !contains(lowercase(name), "dark"@),
        !contains(lowercase(name), "night"@),
        !contains(lowercase(name), "noir"@),
    ensures
        !theme_is_dark(Some(name), gtk_prefers_dark),
{
}

/// Without a system theme name, the system theme is dark exactly when GTK
/// prefers a dark theme.
pub proof fn lemma_no_name_follows_gtk(gtk_prefers_dark: bool)
    ensures
        theme_is_dark(None, gtk_prefers_dark) == gtk_prefers_dark,
{
}

/// The older theme file changes only the theme mode, and only when the
/// settings file left it at `System`; the two flags are those read without it.
pub proof fn lemma_legacy_theme_only_sets_mode(content: Option<Seq<char>>, old: Seq<char>)
    ensures
        loaded_settings(content, Some(old)).confirm_remove == loaded_settings(
            content,
            None,
        ).confirm_remove,
        loaded_settings(content, Some(old)).auto_expand_output == loaded_settings(
            content,
            None,
        ).auto_expand_output,
        loaded_settings(content, None).theme_mode == ThemeMode::System ==> loaded_settings(
            content,
            Some(old),
        ).theme_mode == ThemeMode::from_text(old),
        loaded_settings(content, None).theme_mode != ThemeMode::System ==> loaded_settings(
            content,
            Some(old),
        ).theme_mode == loaded_settings(content, None).theme_mode,
{
}

/// With neither file readable, the settings are the defaults: System mode,
/// confirmation of removals on, output expanded.
pub proof fn lemma_nothing_read_gives_defaults()
    ensures
        loaded_settings(None, None) == (AppSettings {
            theme_mode: ThemeMode::System,
            confirm_remove: true,
            auto_expand_output: true,
        }),
{
}

/// One line of the settings file changes at most the field its key names:
/// `theme=` the mode, `confirm_remove=` and `auto_expand_output=` their flag,
/// which becomes true exactly when the trimmed value is `true`; a line with
/// none of these keys changes nothing.
pub proof fn lemma_setting_line_fields(s: AppSettings, line: Seq<char>)
    ensures
        starts_with(trim(line), "theme="@) ==> apply_setting_line(s, line).confirm_remove
            == s.confirm_remove && apply_setting_line(s, line).auto_expand_output
            == s.auto_expand_output && apply_setting_line(s, line).theme_mode
            == ThemeMode::from_text(trim(line).skip(6)),
        starts_with(trim(line), "confirm_remove="@) ==> apply_setting_line(s, line).theme_mode
            == s.theme_mode && apply_setting_line(s, line).auto_expand_output
            == s.auto_expand_output && apply_setting_line(s, line).confirm_remove == (trim(
            trim(line).skip(15),
        ) == "true"@),
        starts_with(trim(line), "auto_expand_output="@) ==> apply_setting_line(s, line).theme_mode
            == s.theme_mode && apply_setting_line(s, line).confirm_remove == s.confirm_remove
            && apply_setting_line(s, line).auto_expand_output == (trim(trim(line).skip(19))
            == "true"@),
        !starts_with(trim(line), "theme="@) && !starts_with(trim(line), "confirm_remove="@)
            && !starts_with(trim(line), "auto_expand_output="@) ==> apply_setting_line(s, line)
            == s,
{
    reveal_strlit("theme=");
    reveal_strlit("confirm_remove=");
    reveal_strlit("auto_expand_output=");
    let l = trim(line);
    if starts_with(l, "confirm_remove="@) {
        assert("confirm_remove="@[0] == 'c');
        assert(l.subrange(0, 15)[0] == l[0]);
        assert(l[0] == 'c');
        assert(!starts_with(l, "theme="@)) by {
            assert(l.subrange(0, 6)[0] == 'c');
        }
    }
    if starts_with(l, "auto_expand_output="@) {
        assert("auto_expand_output="@[0] == 'a');
        assert(l.subrange(0, 19)[0] == l[0]);
        assert(l[0] == 'a');
        assert(!starts_with(l, "theme="@)) by {
            assert(l.subrange(0, 6)[0] == 'a');
        }
        assert(!starts_with(l, "confirm_remove="@)) by {
            assert(l.subrange(0, 15)[0] == 'a');
        }
    }
}

} // verus!

verus! {

/// The dark counterpart of a name that is not Breeze and holds neither
/// `light` nor `latte` is the name followed by a dark suffix in the name's
/// own case: `-dark` for an all-lowercase name, `-Dark` otherwise.
pub proof fn lemma_dark_variant_suffix(original: Seq<char>, lower: Seq<char>)
    requires
        !eq_ignore_ascii_case(original, "Breeze"@),
        !contains(lower, "light"@),
        !contains(lower, "latte"@),
    ensures
        dark_variant(original, lower).take(original.len() as int) == original,
        original == lower ==> dark_variant(original, lower).skip(original.len() as int)
            == "-dark"@,
        original != lower ==> dark_variant(original, lower).skip(original.len() as int)
            == "-Dark"@,
{
    let d = dark_variant(original, lower);
    if original == lower {
        assert(d.take(original.len() as int) =~= original);
        assert(d.skip(original.len() as int) =~= "-dark"@);
    } else {
        assert(d.take(original.len() as int) =~= original);
        assert(d.skip(original.len() as int) =~= "-Dark"@);
    }
}

/// The light counterpart of a name that is not Breeze-Dark and holds none
/// of dark, mocha, macchiato, frappe and night is the name followed by `-Light`.
pub proof fn lemma_light_variant_suffix(original: Seq<char>, lower: Seq<char>)
    requires
        !eq_ignore_ascii_case(original, "Breeze-Dark"@),
        !contains(lower, "dark"@),
        !contains(lower, "mocha"@),
        !contains(lower, "macchiato"@),
        !contains(lower, "frappe"@),
        !contains(lower, "night"@),
        !ends_with(lower, "-dark"@),
    ensures
        light_variant(original, lower).take(original.len() as int) == original,
        light_variant(original, lower).skip(original.len() as int) == "-Light"@,
{
    let d = light_variant(original, lower);
    assert(d.take(original.len() as int) =~= original);
    assert(d.skip(original.len() as int) =~= "-Light"@);
}

/// A settings value names `Light` exactly when it reads `light` once trimmed,
/// `Dark` exactly when it reads `dark`, and `System` otherwise; case counts.
pub proof fn lemma_mode_from_text(s: Seq<char>)
    ensures
        (ThemeMode::from_text(s) == ThemeMode::Light) == (trim(s) == "light"@),
        (ThemeMode::from_text(s) == ThemeMode::Dark) == (trim(s) == "dark"@),
        (ThemeMode::from_text(s) == ThemeMode::System) == (trim(s) != "light"@ && trim(s)
            != "dark"@),
{
    reveal_strlit("light");
    reveal_strlit("dark");
    assert("light"@ != "dark"@) by {
        assert("light"@.len() != "dark"@.len());
    }
}

/// The effective theme is dark in `Dark` mode, light in `Light` mode, and
/// in `System` mode as dark as the system theme.
pub proof fn lemma_effective_darkness(m: SettingsModel)
    ensures
        m.settings.theme_mode == ThemeMode::Dark ==> model_is_dark(m),
        m.settings.theme_mode == ThemeMode::Light ==> !model_is_dark(m),
        m.settings.theme_mode == ThemeMode::System ==> model_is_dark(m) == m.system_is_dark,
{
}

/// In `System` mode the GTK theme name set is the system theme found at
/// startup; in the other modes there is none to set without a system theme
/// name, and otherwise it is the system theme's counterpart for the mode.
pub proof fn lemma_theme_plan(m: SettingsModel)
    ensures
        m.settings.theme_mode == ThemeMode::System ==> planned_theme_name(m)
            == m.system_theme_name,
        m.settings.theme_mode != ThemeMode::System && m.system_theme_name is None
            ==> planned_theme_name(m) is None,
        m.settings.theme_mode == ThemeMode::Dark && m.system_theme_name is Some ==> planned_theme_name(m)
            == derived_theme_name(
            m.system_theme_name->0,
            lowercase(m.system_theme_name->0),
            true,
        ),
        m.settings.theme_mode == ThemeMode::Light && m.system_theme_name is Some ==> planned_theme_name(m)
            == derived_theme_name(
            m.system_theme_name->0,
            lowercase(m.system_theme_name->0),
            false,
        ),
{
}

} // verus!
