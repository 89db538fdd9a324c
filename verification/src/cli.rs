//! Configuration of the external command-line tools.
//!
//! The terminal dashboard and the report-comparison command are thin shells
//! around the library; these types carry their settings as plain values, and
//! the one piece of logic in them — how an explicit threshold of zero turns
//! the change markers off — is here.

use vstd::prelude::*;

verus! {

/// Settings of the terminal dashboard: where the metrics endpoint listens
/// and how often the view refreshes.
pub struct ConsoleArgs {
    /// Port of the metrics endpoint.
    pub metrics_port: u16,
    /// Refresh interval in milliseconds.
    pub refresh_interval: u64,
}

/// Settings of the report-comparison command.
pub struct ProfilePrArgs {
    /// The exported report of the run under review, as JSON text.
    pub head_metrics: String,
    /// The exported report of the baseline run, as JSON text.
    pub base_metrics: String,
    /// Credential for posting the comparison.
    pub github_token: String,
    /// The change request the comparison belongs to.
    pub pr_number: String,
    /// Threshold percentage for the change markers; zero turns them off and
    /// absence falls back to the default.
    pub emoji_threshold: Option<u32>,
}

/// The commands the command-line tool offers.
pub enum HPSubcommand {
    /// Compare two exported reports and post the comparison.
    ProfilePr(ProfilePrArgs),
}

/// The command-line tool's top-level arguments.
pub struct HPArgs {
    pub cmd: HPSubcommand,
}

/// The marker threshold a comparison actually uses: an explicit zero turns
/// the markers off, absence falls back to twenty per cent, and any other
/// value stands as given.
pub fn effective_emoji_threshold(configured: Option<u32>) -> (r: Option<u32>)
    ensures
        r == match configured {
            Some(0u32) => None::<u32>,
            Some(x) => Some(x),
            None => Some(20u32),
        },
{
    match configured {
        Some(0) => None,
        Some(x) => Some(x),
        None => Some(20),
    }
}

} // verus!
