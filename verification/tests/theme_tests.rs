use oreon_system_manager::theme::{
    derive_dark_variant, derive_light_variant, derive_theme_name, detect_theme_is_dark,
    load_settings, name_darkness, parse_settings, settings_file_content, AppSettings,
    SettingsManager, ThemeMode,
};

#[test]
fn test_theme_mode_from_str() {
    assert_eq!(ThemeMode::from_str("light"), ThemeMode::Light);
    assert_eq!(ThemeMode::from_str("dark"), ThemeMode::Dark);
    assert_eq!(ThemeMode::from_str("system"), ThemeMode::System);
    assert_eq!(ThemeMode::from_str("  dark  "), ThemeMode::Dark);
    assert_eq!(ThemeMode::from_str("unknown"), ThemeMode::System);
}

#[test]
fn test_theme_mode_as_str() {
    assert_eq!(ThemeMode::System.as_str(), "system");
    assert_eq!(ThemeMode::Light.as_str(), "light");
    assert_eq!(ThemeMode::Dark.as_str(), "dark");
}

#[test]
fn test_derive_dark_variant() {
    assert_eq!(derive_dark_variant("Breeze"), "Breeze-Dark");
    assert_eq!(derive_dark_variant("Breeze-Light"), "Breeze-Dark");
    assert_eq!(derive_dark_variant("Catppuccin-Latte"), "Catppuccin-Mocha");
    assert_eq!(derive_dark_variant("Adwaita"), "Adwaita-Dark");
}

#[test]
fn test_derive_light_variant() {
    assert_eq!(derive_light_variant("Breeze-Dark"), "Breeze");
    assert_eq!(derive_light_variant("Adwaita-dark"), "Adwaita-light");
    assert_eq!(derive_light_variant("Catppuccin-Mocha"), "Catppuccin-Latte");
    assert_eq!(
        derive_light_variant("Catppuccin-Macchiato"),
        "Catppuccin-Latte"
    );
    assert_eq!(
        derive_light_variant("Catppuccin-Frappe"),
        "Catppuccin-Latte"
    );
    assert_eq!(derive_light_variant("Nordic-night"), "Nordic-day");
}

#[test]
fn test_derive_theme_name_keep_same() {
    // Already dark, want dark → keep
    assert_eq!(
        derive_theme_name("Breeze-Dark", true),
        Some("Breeze-Dark".to_string())
    );
    // Already light, want light → keep
    assert_eq!(
        derive_theme_name("Breeze-Light", false),
        Some("Breeze-Light".to_string())
    );
    // Not dark, want light → keep
    assert_eq!(
        derive_theme_name("Breeze", false),
        Some("Breeze".to_string())
    );
}

#[test]
fn test_derive_theme_name_switch() {
    // Light → dark
    assert_eq!(
        derive_theme_name("Breeze", true),
        Some("Breeze-Dark".to_string())
    );
    // Dark → light
    assert_eq!(
        derive_theme_name("Breeze-Dark", false),
        Some("Breeze".to_string())
    );
}

#[test]
fn derive_theme_name_reads_the_name_without_case() {
    // Only the lowercase form says "dark": kept as it is.
    assert_eq!(derive_theme_name("BREEZE-DARK", true), Some("BREEZE-DARK".to_string()));
    assert_eq!(derive_light_variant("ADWAITA-DARK"), "ADWAITA-LIGHT");
    assert_eq!(derive_dark_variant("bReEzE"), "Breeze-Dark");
}

#[test]
fn derive_theme_name_none_for_dark_and_light_name() {
    assert_eq!(derive_theme_name("Light-Dark", true), None);
    assert_eq!(derive_theme_name("Latte-Nord", true), None);
    // Wanting light of such a name keeps it.
    assert_eq!(derive_theme_name("Light-Dark", false), Some("Light-Dark".to_string()));
}

#[test]
fn derive_variants_generic_forms() {
    assert_eq!(derive_light_variant("Adwaita"), "Adwaita-Light");
    assert_eq!(derive_light_variant("Matcha-noir"), "Matcha-noir-Light");
    assert_eq!(derive_dark_variant("Yaru-light"), "Yaru-Dark");
    assert_eq!(derive_theme_name("Catppuccin-Mocha", false), Some("Catppuccin-Latte".to_string()));
    assert_eq!(derive_theme_name("Arc", true), Some("Arc-Dark".to_string()));
}

#[test]
fn from_str_trims_unicode_whitespace() {
    assert_eq!(ThemeMode::from_str("\u{3000}dark\t"), ThemeMode::Dark);
    assert_eq!(ThemeMode::from_str("Dark"), ThemeMode::System);
}

#[test]
fn mode_name_roundtrip() {
    for m in [ThemeMode::System, ThemeMode::Light, ThemeMode::Dark] {
        assert_eq!(ThemeMode::from_str(m.as_str()), m);
    }
}

#[test]
fn labels_and_icons() {
    assert_eq!(ThemeMode::System.label(), "System");
    assert_eq!(ThemeMode::Light.label(), "Light");
    assert_eq!(ThemeMode::Dark.label(), "Dark");
    assert_eq!(ThemeMode::System.icon(), "preferences-desktop-display-symbolic");
    assert_eq!(ThemeMode::Light.icon(), "weather-clear-symbolic");
    assert_eq!(ThemeMode::Dark.icon(), "weather-clear-night-symbolic");
}

#[test]
fn default_settings() {
    let s = AppSettings::default();
    assert_eq!(s.theme_mode, ThemeMode::System);
    assert!(s.confirm_remove);
    assert!(s.auto_expand_output);
}

#[test]
fn settings_file_roundtrip() {
    for m in [ThemeMode::System, ThemeMode::Light, ThemeMode::Dark] {
        for a in [false, true] {
            for b in [false, true] {
                let s = AppSettings { theme_mode: m, confirm_remove: a, auto_expand_output: b };
                let text = settings_file_content(&s);
                let back = parse_settings(&text);
                assert_eq!(back.theme_mode, m);
                assert_eq!(back.confirm_remove, a);
                assert_eq!(back.auto_expand_output, b);
            }
        }
    }
}

#[test]
fn settings_file_text() {
    let s = AppSettings { theme_mode: ThemeMode::Dark, confirm_remove: false, auto_expand_output: true };
    assert_eq!(
        settings_file_content(&s),
        "theme=dark\nconfirm_remove=false\nauto_expand_output=true\n"
    );
}

#[test]
fn parse_settings_tolerates_spacing_and_unknown_lines() {
    let s = parse_settings("  theme= light \r\nsomething=else\nconfirm_remove= false\nauto_expand_output=yes");
    assert_eq!(s.theme_mode, ThemeMode::Light);
    assert!(!s.confirm_remove);
    assert!(!s.auto_expand_output);
    let d = parse_settings("");
    assert_eq!(d.theme_mode, ThemeMode::System);
    assert!(d.confirm_remove && d.auto_expand_output);
}

#[test]
fn legacy_theme_file_only_when_mode_is_system() {
    let s = load_settings(Some("confirm_remove=false\n"), Some("dark\n"));
    assert_eq!(s.theme_mode, ThemeMode::Dark);
    assert!(!s.confirm_remove);
    let s = load_settings(Some("theme=light\n"), Some("dark"));
    assert_eq!(s.theme_mode, ThemeMode::Light);
    let s = load_settings(None, Some(" light "));
    assert_eq!(s.theme_mode, ThemeMode::Light);
    let s = load_settings(None, None);
    assert_eq!(s.theme_mode, ThemeMode::System);
}

#[test]
fn theme_darkness_from_name() {
    assert_eq!(name_darkness("breeze-dark"), Some(true));
    assert_eq!(name_darkness("nordic-night"), Some(true));
    assert_eq!(name_darkness("breeze"), Some(false));
    assert_eq!(name_darkness("yaru-light"), Some(false));
    assert_eq!(name_darkness("adwaita"), None);
    assert!(detect_theme_is_dark(&Some("Breeze-Dark".to_string()), false));
    assert!(!detect_theme_is_dark(&Some("BREEZE".to_string()), true));
    assert!(detect_theme_is_dark(&Some("Adwaita".to_string()), true));
    assert!(!detect_theme_is_dark(&None, false));
}

#[test]
fn settings_manager_reads_what_it_writes() {
    let mut m = SettingsManager::new(Some("Breeze".to_string()), true);
    assert_eq!(m.theme_mode(), ThemeMode::System);
    assert!(!m.is_dark());
    m.apply_theme(ThemeMode::Dark);
    assert_eq!(m.theme_mode(), ThemeMode::Dark);
    assert!(m.is_dark());
    m.set_confirm_remove(false);
    assert!(!m.get().confirm_remove);
    m.set_auto_expand_output(false);
    assert!(!m.get().auto_expand_output);
    assert_eq!(m.get().theme_mode, ThemeMode::Dark);
    let saved = m.settings_file_content();
    let mut other = SettingsManager::new(None, false);
    other.restore(load_settings(Some(&saved), None));
    assert_eq!(other.theme_mode(), ThemeMode::Dark);
    assert!(!other.get().confirm_remove);
    assert!(!other.get().auto_expand_output);
}

#[test]
fn gtk_theme_plan_follows_mode() {
    let mut m = SettingsManager::new(Some("Breeze".to_string()), false);
    let p = m.gtk_theme_plan();
    assert!(!p.prefer_dark);
    assert_eq!(p.theme_name, Some("Breeze".to_string()));
    m.apply_theme(ThemeMode::Dark);
    let p = m.gtk_theme_plan();
    assert!(p.prefer_dark);
    assert_eq!(p.theme_name, Some("Breeze-Dark".to_string()));
    m.apply_theme(ThemeMode::Light);
    let p = m.gtk_theme_plan();
    assert!(!p.prefer_dark);
    assert_eq!(p.theme_name, Some("Breeze".to_string()));
    let mut n = SettingsManager::new(None, true);
    assert!(n.is_dark());
    n.apply_theme(ThemeMode::Light);
    let p = n.gtk_theme_plan();
    assert!(!p.prefer_dark);
    assert_eq!(p.theme_name, None);
}

#[test]
fn dark_suffix_follows_the_name_case() {
    assert_eq!(derive_theme_name("adwaira", true), Some("adwaira-dark".to_string()));
    assert_eq!(derive_dark_variant("adwaira"), "adwaira-dark");
    assert_eq!(derive_dark_variant("Adwaita"), "Adwaita-Dark");
    assert_eq!(derive_dark_variant("ARC"), "ARC-Dark");
    assert_eq!(derive_light_variant("adwaira-dark"), "adwaira-light");
}
