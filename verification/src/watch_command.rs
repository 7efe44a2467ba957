//! The `watch` console command: repeat another command on an interval.

use vstd::prelude::*;

verus! {

/// Arguments of the `watch` command. The command-line front end fills this
/// in; the logic here only interprets it.
#[derive(Debug, Clone)]
pub struct Args {
    /// Interval in seconds between repetitions, when given.
    pub interval: Option<u64>,
    /// The command to perform; `status` when empty.
    pub command: Option<String>,
}

impl Args {
    /// The command line to repeat: the given command, or `status` when none
    /// was given.
    pub fn line(&self) -> (r: &str)
        ensures
            match self.command {
                Some(c) => r@ == c@,
                None => r@ == "status"@,
            },
    {
        match &self.command {
            Some(c) => c.as_str(),
            None => "status",
        }
    }
}

} // verus!
