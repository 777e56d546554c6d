use core_probe::gui_theme::{theme_from_sources, ThemeMode};

/// BDD: Given ThemeMode variants, when matched, then all three are distinct
#[test]
fn given_theme_mode_variants_when_matched_then_all_three_are_distinct() {
    let modes = [ThemeMode::Dark, ThemeMode::Light, ThemeMode::System];
    assert!(!matches!(modes[0], ThemeMode::Light | ThemeMode::System));
    assert!(!matches!(modes[1], ThemeMode::Dark | ThemeMode::System));
    assert!(!matches!(modes[2], ThemeMode::Dark | ThemeMode::Light));
}

#[test]
fn gsettings_prefer_dark_gives_dark_even_with_light_gtk_theme() {
    assert_eq!(
        theme_from_sources(Some("'prefer-dark'\n"), Some("Adwaita")),
        ThemeMode::Dark
    );
}

#[test]
fn gsettings_default_or_prefer_light_gives_light() {
    assert_eq!(theme_from_sources(Some("'default'\n"), None), ThemeMode::Light);
    assert_eq!(theme_from_sources(Some("'prefer-light'\n"), None), ThemeMode::Light);
}

#[test]
fn unknown_gsettings_output_falls_back_to_gtk_theme() {
    assert_eq!(theme_from_sources(Some(""), Some("Adwaita:DARK")), ThemeMode::Dark);
    assert_eq!(theme_from_sources(None, Some("Adwaita")), ThemeMode::Light);
}

#[test]
fn no_source_gives_dark() {
    assert_eq!(theme_from_sources(None, None), ThemeMode::Dark);
}
