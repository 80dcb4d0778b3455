//! Notification status.
//!
//! The actual delivery of a notification is platform work that the
//! surrounding application performs; the library only decides and
//! formats.

use vstd::prelude::*;

verus! {

/// One task outcome.
#[derive(Debug, Clone, Copy, PartialEq, Eq, Structural)]
pub enum NotificationStatus {
    Success,
    Error,
    Pending,
}

} // verus!
