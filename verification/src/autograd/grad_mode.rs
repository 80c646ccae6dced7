//! Whether operations are recorded on a tape.
//!
//! Tracking is on by default and scoped off with [`no_grad`]. An inference pass
//! then allocates no graph even if its inputs happen to be tracked, and a parameter
//! used in training starts a fresh tape when the value it is anchored to has none.

use vstd::prelude::*;

use super::graph::{Session, Tape};

verus! {

/// Whether new operations are being recorded.
pub fn is_enabled(s: &Session) -> (r: bool)
    ensures
        r == s@.enabled,
{
    s.enabled()
}

/// Remembers the tracking mode to go back to.
pub struct NoGradGuard {
    previous: bool,
}

impl NoGradGuard {
    /// The mode the guard goes back to.
    pub closed spec fn previous(self) -> bool {
        self.previous
    }

    /// Restore the previous tracking mode.
    pub fn restore(self, s: &mut Session)
        ensures
            final(s)@ == (Tape { enabled: self.previous(), ..old(s)@ }),
    {
        s.set_enabled(self.previous);
    }
}

/// Disable gradient tracking until the returned guard is restored.
pub fn no_grad(s: &mut Session) -> (r: NoGradGuard)
    ensures
        r.previous() == old(s)@.enabled,
        final(s)@ == (Tape { enabled: false, ..old(s)@ }),
{
    let previous: bool = s.enabled();
    s.set_enabled(false);
    NoGradGuard { previous }
}

/// Re-enable gradient tracking until the returned guard is restored.
pub fn enable_grad(s: &mut Session) -> (r: NoGradGuard)
    ensures
        r.previous() == old(s)@.enabled,
        final(s)@ == (Tape { enabled: true, ..old(s)@ }),
{
    let previous: bool = s.enabled();
    s.set_enabled(true);
    NoGradGuard { previous }
}

/// Run a closure with gradient tracking disabled. Whatever the closure leaves the
/// mode at, the mode of the caller comes back.
pub fn with_no_grad<T, F: FnOnce(&mut Session) -> T>(s: &mut Session, f: F) -> (r: T)
    requires
        forall|p: &mut Session| #[trigger]
            f.requires((p,)) || (*p)@ != (Tape { enabled: false, ..old(s)@ }),
    ensures
        final(s)@.enabled == old(s)@.enabled,
        exists|p: &mut Session| #[trigger]
            f.ensures((p,), r) && (*p)@ == (Tape { enabled: false, ..old(s)@ }) && final(s)@ == (
            Tape { enabled: old(s)@.enabled, ..(*final(p))@ }),
{
    let guard = no_grad(s);
    let r = f(s);
    guard.restore(s);
    r
}

} // verus!
