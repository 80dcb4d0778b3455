//! Platform identification.
//!
//! The operating system is detected once by the surrounding application and
//! handed in as a plain value, so everything here is a total function of its
//! arguments.

use vstd::prelude::*;

verus! {

/// The operating systems the notifier distinguishes.
#[derive(Debug, Clone, Copy, PartialEq, Eq, Structural)]
pub enum Platform {
    Windows,
    MacOS,
    Linux,
    Unknown,
}

/// The display name of a platform.
pub open spec fn spec_platform_name(p: Platform) -> Seq<char> {
    match p {
        Platform::Windows => "Windows"@,
        Platform::MacOS => "macOS"@,
        Platform::Linux => "Linux"@,
        Platform::Unknown => "Unknown"@,
    }
}

/// Returns the human-readable name of the platform.
pub fn platform_name(p: Platform) -> (r: &'static str)
    ensures
        r@ == spec_platform_name(p),
{
    match p {
        Platform::Windows => "Windows",
        Platform::MacOS => "macOS",
        Platform::Linux => "Linux",
        Platform::Unknown => "Unknown",
    }
}

/// Returns true when the platform has a native toast/notification facility.
pub fn supports_native_notifications(p: Platform) -> (r: bool)
    ensures
        r == (p == Platform::Windows || p == Platform::MacOS),
{
    match p {
        Platform::Windows => true,
        Platform::MacOS => true,
        _ => false,
    }
}

} // verus!
