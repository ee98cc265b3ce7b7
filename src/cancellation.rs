use vstd::prelude::*;

verus! {

/// Outcome of a computation that was aborted because the revision it was
/// computing against has been superseded by pending changes.
#[derive(Clone, Copy, Debug, PartialEq, Eq)]
pub struct Canceled {
    _private: (),
}

impl Canceled {
    pub fn new() -> (r: Canceled) {
        Canceled { _private: () }
    }
}

/// Cooperative cancellation of computations that read the input facts.
///
/// Applying a change while a long query still runs would let the query see
/// an inconsistent state. So pending changes first cancel every query in
/// flight: queries poll `check_canceled` and hand a `Canceled` outcome up to
/// the boundary where the request entered, which then retries it against
/// the new revision.
pub trait CheckCanceled {
    /// Whether a change is pending, which supersedes the current revision.
    spec fn cancel_pending(&self) -> bool;

    /// Asks the revision tracker whether the current revision is superseded.
    fn is_current_revision_canceled(&self) -> (r: bool)
        ensures
            r == self.cancel_pending(),
    ;

    /// Aborts the current query (as `Err(Canceled)`) if changes are pending.
    fn check_canceled(&self) -> (r: Result<(), Canceled>)
        ensures
            r is Err <==> self.cancel_pending(),
    {
        if self.is_current_revision_canceled() {
            Err(Canceled::new())
        } else {
            Ok(())
        }
    }

    /// Runs `f` as one request and converts a cancellation inside it into
    /// the request's outcome.
    fn catch_canceled<F, T>(&self, f: F) -> (r: Result<T, Canceled>) where
        Self: Sized,
        F: FnOnce(&Self) -> Result<T, Canceled>,

        requires
            f.requires((self,)),
        ensures
            f.ensures((self,), r),
    {
        f(self)
    }
}

} // verus!
