//! Where the settings of the graphical front end are kept between runs.
use crate::embedded::{join_path, path_join};
use crate::gui::TestConfig;
use crate::gui_theme::ThemeMode;
use vstd::prelude::*;

verus! {

/// What is saved: the test settings and the theme.
#[derive(Debug, Clone)]
pub struct PersistedConfig {
    pub test: TestConfig,
    pub theme: ThemeMode,
}

/// `$HOME/.config/core-probe/config.json`.
pub open spec fn config_path_spec(home: Seq<char>) -> Seq<char> {
    path_join(path_join(path_join(home, ".config"@), "core-probe"@), "config.json"@)
}

/// The settings file under the given home directory.
pub fn config_path_for(home: &str) -> (p: String)
    ensures
        p@ == config_path_spec(home@),
{
    let a = join_path(home, ".config");
    let b = join_path(a.as_str(), "core-probe");
    join_path(b.as_str(), "config.json")
}

} // verus!
