use vstd::prelude::*;

verus! {

/// The command-line settings: the upstream resolver to forward questions to,
/// as `host:port`, if any.
#[derive(Debug, Clone)]
pub struct Args {
    pub resolver: Option<String>,
}

} // verus!
