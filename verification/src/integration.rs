//! Host-tool integration data.
//!
//! Detecting the host tool's configuration file, backing it up, editing
//! its hook entries and probing the installed command are all simple I/O
//! against the host system, performed by the surrounding application.
//! The library only holds the data those steps exchange.

use vstd::prelude::*;

verus! {

/// Marker for the integration workflow.
pub struct IntegrationManager;

impl IntegrationManager {
    pub fn new() -> (r: Self)
        ensures
            true,
    {
        IntegrationManager
    }
}

/// The outcome of verifying an installed integration.
#[derive(Debug)]
pub struct VerificationResult {
    /// The command was found on the search path.
    pub ccn_in_path: bool,
    /// A test notification was sent successfully.
    pub test_notification_sent: bool,
    /// The failure, if any.
    pub error: Option<String>,
}

} // verus!
