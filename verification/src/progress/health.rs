//! Whether the progress store is being saved: the first failed write puts a notice up and
//! is remembered, later failures stay quiet, and a write that lands takes the notice down.
use vstd::prelude::*;

verus! {

/// Since when, and why, the store has not been saved.
#[derive(Debug, PartialEq, Eq)]
pub struct WriteFailure {
    pub since_ms: u64,
    pub reason: String,
}

impl Clone for WriteFailure {
    fn clone(&self) -> (c: Self)
        ensures
            c == *self,
    {
        WriteFailure { since_ms: self.since_ms, reason: self.reason.clone() }
    }
}

/// Takes in one write's outcome at `now_ms` and answers whether the page should hear of it:
/// a landed write clears the notice and is always announced; the first failure is kept with
/// its moment and reason and announced; a failure while one is kept changes nothing and is
/// not announced.
pub fn advance(failure: &mut Option<WriteFailure>, outcome: &Result<(), String>, now_ms: u64) -> (announce: bool)
    ensures
        outcome is Ok ==> *final(failure) == None::<WriteFailure> && announce,
        outcome is Err && *old(failure) is Some ==> *final(failure) == *old(failure) && !announce,
        outcome is Err && *old(failure) is None ==> announce,
        outcome is Err && *old(failure) is None ==> (*final(failure) matches Some(f) && f.since_ms
            == now_ms && f.reason@ == outcome->Err_0@),
{
    match outcome {
        Ok(()) => {
            *failure = None;
            true
        },
        Err(reason) => {
            if failure.is_some() {
                false
            } else {
                *failure = Some(WriteFailure { since_ms: now_ms, reason: reason.clone() });
                true
            }
        },
    }
}

} // verus!
