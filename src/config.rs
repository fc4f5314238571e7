//! Settings read once at startup.

use vstd::prelude::*;
use crate::text::same_text;

verus! {

/// The ranking algorithm.
#[derive(Debug, Clone, Copy, PartialEq, Eq, Structural)]
pub enum Engine {
    /// Subsequence scoring: higher score first, then higher coverage.
    Skim,
    /// Token alignment: lower score first, then lower coverage.
    Fuse,
}

impl Engine {
    /// The algorithm of a configured name, `skim` or `fuse`.
    pub fn from_name(name: &str) -> (r: Option<Engine>)
        ensures
            r == (if name@ == "skim"@ {
                Some(Engine::Skim)
            } else if name@ == "fuse"@ {
                Some(Engine::Fuse)
            } else {
                None::<Engine>
            }),
    {
        if same_text(name, "skim") {
            Some(Engine::Skim)
        } else if same_text(name, "fuse") {
            Some(Engine::Fuse)
        } else {
            None
        }
    }
}

#[derive(Debug)]
pub struct Config {
    /// Directories scanned for applications.
    pub app_locations: Vec<String>,
    /// Editor that opens text files.
    pub editor: String,
    /// How many ranked entries a search keeps.
    pub results_len: usize,
    pub fuzzy_engine: Engine,
}

impl Config {
    pub fn default() -> (r: Config)
        ensures
            r.app_locations@.len() == 4,
            r.app_locations@[0]@ == "/Applications"@,
            r.app_locations@[1]@ == "/System/Applications"@,
            r.app_locations@[2]@ == "/System/Applications/Utilities"@,
            r.app_locations@[3]@ == "/System/Library/CoreServices/Applications"@,
            r.editor@ == "hx"@,
            r.results_len == 20,
            r.fuzzy_engine == Engine::Skim,
    {
        let mut app_locations = Vec::new();
        app_locations.push(String::from_str("/Applications"));
        app_locations.push(String::from_str("/System/Applications"));
        app_locations.push(String::from_str("/System/Applications/Utilities"));
        app_locations.push(String::from_str("/System/Library/CoreServices/Applications"));
        Config {
            app_locations,
            editor: String::from_str("hx"),
            results_len: 20,
            fuzzy_engine: Engine::Skim,
        }
    }
}

} // verus!
