//! Identifiers of alarms: timed callbacks attached to entities.

use vstd::prelude::*;

verus! {

/// Identifies an alarm.
#[derive(Debug, Clone, Copy, PartialEq, Eq, Structural)]
pub struct AlarmId(pub usize);

} // verus!
