//! Process configuration.
use vstd::prelude::*;

verus! {

/// Command-line options: the address (`ip:port`) of an upstream resolver to
/// forward questions to; without one, answers are made up.
pub struct CliArgs {
    pub resolver: Option<String>,
}

} // verus!
