//! The command line settings that the application starts from.

use vstd::prelude::*;

use crate::qmk::opt_text;

verus! {

/// Settings given on the command line: an optional QMK firmware checkout,
/// keyboard and keymap.
#[derive(Debug)]
pub struct Cli {
    pub qmk_home: Option<String>,
    pub keyboard: Option<String>,
    pub keymap: Option<String>,
}

pub struct CliView {
    pub qmk_home: Option<Seq<char>>,
    pub keyboard: Option<Seq<char>>,
    pub keymap: Option<Seq<char>>,
}

impl View for Cli {
    type V = CliView;

    open spec fn view(&self) -> CliView {
        CliView {
            qmk_home: opt_text(self.qmk_home),
            keyboard: opt_text(self.keyboard),
            keymap: opt_text(self.keymap),
        }
    }
}

} // verus!
