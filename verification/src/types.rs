use vstd::prelude::*;

verus! {

/// Identifier of one stored execution record. Within a session ids are
/// minted in strictly increasing order, so the id also orders the records.
#[derive(Debug, Copy, PartialEq, Clone, Eq, Hash, Structural)]
pub struct ExecutionId(pub u32);

impl ExecutionId {
    /// The id minted right after this one.
    pub fn next(self) -> (r: ExecutionId)
        requires
            self.0 < u32::MAX,
        ensures
            r.0 == self.0 + 1,
    {
        ExecutionId(self.0 + 1)
    }
}

} // verus!
