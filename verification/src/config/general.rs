//! Settings of the application as a whole.
use vstd::prelude::*;

verus! {

/// Settings of the application as a whole.
#[derive(Debug, Clone)]
pub struct GeneralConfig {
    /// Set to `true` once the first-run setup wizard has finished.
    /// Existing pre-wizard configs default to `true` via migration so
    /// upgraded users don't see the wizard.
    pub first_run_completed: bool,
}

impl Default for GeneralConfig {
    /// The wizard has not run yet.
    fn default() -> (c: GeneralConfig)
        ensures
            !c.first_run_completed,
    {
        GeneralConfig { first_run_completed: false }
    }
}

impl GeneralConfig {
    /// The settings that an existing config file amounts to. One that does not
    /// say whether the wizard has run predates it, and counts as set up.
    pub fn from_file(first_run_completed: Option<bool>) -> (c: GeneralConfig)
        ensures
            c.first_run_completed == (first_run_completed != Some(false)),
    {
        GeneralConfig {
            first_run_completed: match first_run_completed {
                Some(b) => b,
                None => true,
            },
        }
    }
}

} // verus!
