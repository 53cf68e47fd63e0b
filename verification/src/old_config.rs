//! The older configuration file format: three optional sections for general
//! settings, key bindings and colors. Reading the file and parsing its text
//! belong to the host; these are the parsed values.

use vstd::prelude::*;

verus! {

/// A parsed old-format configuration file.
#[derive(Debug, Default)]
pub struct OldConfig {
    pub general: Option<General>,
    pub keymap: Option<Keymap>,
    pub color: Option<Color>,
}

/// The old format's general section.
#[derive(Debug, Default)]
pub struct General {
    pub no_shell: Option<bool>,
    pub shell: Option<String>,
    pub shell_options: Option<String>,
    pub skip_empty_diffs: Option<bool>,
    pub disable_mouse: Option<bool>,
}

/// The old format's key bindings, each the textual name of a key.
#[derive(Debug, Default)]
pub struct Keymap {
    pub toggle_timemachine: Option<String>,
    pub timemachine_go_to_past: Option<String>,
    pub timemachine_go_to_future: Option<String>,
    pub timemachine_go_to_more_past: Option<String>,
    pub timemachine_go_to_more_future: Option<String>,
    pub timemachine_go_to_now: Option<String>,
    pub timemachine_go_to_oldest: Option<String>,
    pub scroll_left: Option<String>,
    pub scroll_right: Option<String>,
    pub scroll_up: Option<String>,
    pub scroll_down: Option<String>,
    pub scroll_half_page_up: Option<String>,
    pub scroll_half_page_down: Option<String>,
    pub scroll_page_up: Option<String>,
    pub scroll_page_down: Option<String>,
    pub scroll_bottom_of_page: Option<String>,
    pub scroll_top_of_page: Option<String>,
    pub increase_interval: Option<String>,
    pub decrease_interval: Option<String>,
}

/// The old format's color section.
#[derive(Debug, Default)]
pub struct Color {
    pub background: Option<String>,
}

} // verus!
