//! Command-line options, as plain data: which sprites to show and which
//! form, gender and shininess flags are set.

use vstd::prelude::*;

verus! {

/// The program's options.
pub struct Args {
    /// The sprites to show: names, catalogue numbers, regions or "random".
    pub pokemon: Vec<String>,
    /// Do not print the sprites' names.
    pub hide_name: bool,
    /// A free-form form name.
    pub form: String,
    pub mega: bool,
    pub mega_x: bool,
    pub mega_y: bool,
    pub alolan: bool,
    pub gmax: bool,
    pub hisui: bool,
    pub galar: bool,
    pub noble: bool,
    /// Show the female variant.
    pub female: bool,
    /// Show the shiny variant.
    pub shiny: bool,
}

} // verus!
