//! The errors a command can return. Each is a recoverable, caller-surfaced
//! outcome; no command panics. Queries never return one of these: a missing
//! course id is a successful query with an absent payload.

use vstd::prelude::*;

verus! {

#[derive(Clone, Copy, Debug, PartialEq, Eq, Structural)]
pub enum ContractError {
    /// A supplied account identifier fails the host's validation rule.
    InvalidAddress {},
    /// The invoker is not the admin but attempted an admin-only action.
    Unauthorized {},
    /// The referenced course id has no record, for a command that needs one.
    CourseNotFound {},
    /// The invoker already has a participant entry in the target course.
    AlreadyEnrolled {},
    /// The invoker has no participant entry to remove.
    NotEnrolled {},
}

} // verus!
