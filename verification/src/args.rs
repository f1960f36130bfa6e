//! The command line: the configuration file and whether to open the desktop
//! window.
use vstd::prelude::*;

verus! {

/// Command-line arguments.
#[derive(Clone, Debug)]
pub struct Args {
    /// Path of the configuration file.
    pub config: Option<String>,
    /// Run without the desktop window (server mode).
    pub no_gui: bool,
}

impl Args {
    /// The configuration file to use: the one given on the command line, else
    /// `default_path` (the platform's default location).
    pub fn resolved_config(&self, default_path: String) -> (r: String)
        ensures
            match self.config {
                Some(p) => r@ == p@,
                None => r@ == default_path@,
            },
    {
        match &self.config {
            Some(p) => p.clone(),
            None => default_path,
        }
    }
}

} // verus!
