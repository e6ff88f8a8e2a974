//! The focused window as the engine sees it, and the decisions of the
//! start-up loop that waits for the desktop session.
use vstd::prelude::*;

verus! {

/// The focused window, as the desktop session reports it.
#[derive(Debug, Clone)]
pub struct ActiveWindow {
    pub resource_class: String,
}

/// The class that rule matching sees: the window's class, or the empty
/// string when no window has been reported yet.
pub fn window_class(w: Option<&ActiveWindow>) -> (r: &str)
    ensures
        match w {
            Some(a) => r@ == a.resource_class@,
            None => r@ == Seq::<char>::empty(),
        },
{
    match w {
        Some(a) => a.resource_class.as_str(),
        None => {
            let e = "";
            proof {
                reveal_strlit("");
            }
            e
        },
    }
}

/// How many times loading the window-tracking script is tried.
pub const MAX_LOAD_ATTEMPTS: u32 = 30;

/// What the start-up loop does after an attempt to load the script.
#[derive(Debug, Clone, Copy, PartialEq, Eq, Structural)]
pub enum LoadStep {
    /// The script is loaded: stop.
    Done,
    /// Wait, then make attempt number `n`.
    Retry(u32),
    /// All attempts failed.
    GiveUp,
}

/// The decision after attempt `attempt` (counted from 1) succeeded or failed.
pub fn after_load_attempt(attempt: u32, succeeded: bool) -> (r: LoadStep)
    requires
        1 <= attempt <= MAX_LOAD_ATTEMPTS,
    ensures
        succeeded ==> r == LoadStep::Done,
        !succeeded && attempt < MAX_LOAD_ATTEMPTS ==> r == LoadStep::Retry((attempt + 1) as u32),
        !succeeded && attempt == MAX_LOAD_ATTEMPTS ==> r == LoadStep::GiveUp,
{
    if succeeded {
        LoadStep::Done
    } else if attempt < MAX_LOAD_ATTEMPTS {
        LoadStep::Retry(attempt + 1)
    } else {
        LoadStep::GiveUp
    }
}

} // verus!
