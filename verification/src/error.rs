use vstd::prelude::*;

verus! {

/// The single failure kind of this library: whatever a hash primitive's
/// `update` or `finalize` reported, carried through to the caller unchanged.
#[derive(Debug)]
pub enum Error {
    Custom(String),
}

impl Error {
    /// Wraps a hash primitive's failure message.
    pub fn custom(msg: String) -> (r: Self)
        ensures
            r == Error::Custom(msg),
    {
        Error::Custom(msg)
    }
}

} // verus!
