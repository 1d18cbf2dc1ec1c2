use vstd::prelude::*;
use crate::flag::Flag;

verus! {

/// The module that answers when no other was named: help and version.
#[derive(Debug, Clone, PartialEq, Eq, Hash)]
pub struct PlaceHold;

/// What a placeholder invocation is asked to do.
#[derive(Debug, Clone, PartialEq, Eq, Hash)]
pub enum HoldAction {
    Help,
    Version,
    Nothing,
}

impl PlaceHold {
    /// Decide between help, version and nothing; help wins.
    pub fn plan(flags: &Flag) -> (r: HoldAction)
        ensures
            ({
                let m = flags.map_view();
                let help = m.contains_key("h"@) || m.contains_key("help"@);
                let version = m.contains_key("v"@) || m.contains_key("version"@);
                r == if help {
                    HoldAction::Help
                } else if version {
                    HoldAction::Version
                } else {
                    HoldAction::Nothing
                }
            }),
    {
        let help = flags.parse_bool(vec!["h", "help"]);
        let version = flags.parse_bool(vec!["v", "version"]);
        if help {
            HoldAction::Help
        } else if version {
            HoldAction::Version
        } else {
            HoldAction::Nothing
        }
    }
}

} // verus!
