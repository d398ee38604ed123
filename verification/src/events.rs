//! Notifications: one structured, human-readable message per successful
//! state transition, handed back to the caller as an explicit return value.

use vstd::prelude::*;

verus! {

/// A fire-and-forget notification describing a completed transition.
#[derive(Debug)]
pub struct CustomEvent {
    pub message: String,
}

/// The literal message announcing a freshly created record.
pub open spec fn initialized_message() -> Seq<char> {
    "counter initialized"@
}

/// The literal message announcing an overwritten counter value.
pub open spec fn updated_message() -> Seq<char> {
    "counter updated"@
}

impl CustomEvent {
    /// The notification emitted by a successful Initialize.
    pub fn initialized() -> (r: CustomEvent)
        ensures
            r.message@ == initialized_message(),
    {
        CustomEvent { message: String::from_str("counter initialized") }
    }

    /// The notification emitted by a successful Update.
    pub fn updated() -> (r: CustomEvent)
        ensures
            r.message@ == updated_message(),
    {
        CustomEvent { message: String::from_str("counter updated") }
    }
}

} // verus!
