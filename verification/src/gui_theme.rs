//! The colour scheme of the graphical front end, and how the desktop's
//! preference is read from what `gsettings` printed and from `GTK_THEME`.
use crate::text;
use vstd::prelude::*;

verus! {

/// Light, dark, or whatever the desktop prefers.
#[derive(Debug, Clone, Copy, PartialEq, Eq, Structural)]
pub enum ThemeMode {
    Light,
    Dark,
    System,
}

/// The desktop's preference: `gsettings get org.gnome.desktop.interface
/// color-scheme` first (`prefer-dark` is dark; `prefer-light` or `default`
/// is light), then the `GTK_THEME` variable (dark when its lower-cased
/// value mentions `dark`), and dark when neither tells.
pub open spec fn system_theme_spec(gsettings: Option<Seq<char>>, gtk_theme: Option<Seq<char>>) -> ThemeMode {
    let from_gsettings = match gsettings {
        Some(out) => if text::contains(out, "prefer-dark"@) {
            Some(ThemeMode::Dark)
        } else if text::contains(out, "prefer-light"@) || text::contains(out, "default"@) {
            Some(ThemeMode::Light)
        } else {
            None
        },
        None => None,
    };
    match from_gsettings {
        Some(m) => m,
        None => match gtk_theme {
            Some(g) => if text::contains(text::ascii_lower_seq(g), "dark"@) {
                ThemeMode::Dark
            } else {
                ThemeMode::Light
            },
            None => ThemeMode::Dark,
        },
    }
}

/// The desktop's colour preference from the standard output of
/// `gsettings` (`None` when it could not be run) and the value of
/// `GTK_THEME` (`None` when unset).
pub fn theme_from_sources(gsettings_stdout: Option<&str>, gtk_theme: Option<&str>) -> (m: ThemeMode)
    ensures
        m == system_theme_spec(
            match gsettings_stdout {
                Some(s) => Some(s@),
                None => None,
            },
            match gtk_theme {
                Some(g) => Some(g@),
                None => None,
            },
        ),
        m != ThemeMode::System,
{
    if let Some(out) = gsettings_stdout {
        let chars = text::chars_of(out);
        if text::contains_str(&chars, "prefer-dark") {
            return ThemeMode::Dark;
        }
        if text::contains_str(&chars, "prefer-light") || text::contains_str(&chars, "default") {
            return ThemeMode::Light;
        }
    }
    if let Some(g) = gtk_theme {
        let chars = text::chars_of(g);
        let lower = text::to_ascii_lowercase(&chars);
        if text::contains_str(&lower, "dark") {
            return ThemeMode::Dark;
        }
        return ThemeMode::Light;
    }
    ThemeMode::Dark
}

} // verus!
