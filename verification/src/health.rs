//! The liveness capability: a binary health state with an optional reason,
//! and bounded wait-for-transition operations that invoke an action exactly
//! once.

use vstd::prelude::*;

verus! {

/// The liveness state of something that can be checked.
#[derive(PartialEq, Eq, Clone, Debug)]
pub enum Health {
    /// Not healthy, with an optional reason.
    Unhealthy { reason: Option<String> },
    /// Healthy.
    Healthy,
}

impl Health {
    /// Whether this state is the healthy one.
    pub fn is_healthy(&self) -> (r: bool)
        ensures
            r == (*self is Healthy),
    {
        match self {
            Health::Healthy => true,
            Health::Unhealthy { .. } => false,
        }
    }
}

/// Something whose liveness can be observed.  The wait operations poll the
/// state up to a caller-given number of times; each invokes the supplied
/// action exactly once — at once when the state is already the target one,
/// otherwise on the first poll that observes the transition — and reports
/// whether it fired within the budget.
pub trait Healthcheck {
    /// The current liveness state.
    fn health(&self) -> Health;

    /// Invokes `func` exactly once when unhealthiness is observed within
    /// `polls` observations; with no budget nothing can be observed.
    fn on_unhealthy<F: Fn() -> ()>(&self, func: F, polls: u64) -> (fired: bool)
        requires
            func.requires(()),
        ensures
            polls == 0 ==> !fired,
    {
        let mut i: u64 = 0;
        while i < polls
            invariant
                func.requires(()),
            decreases polls - i,
        {
            let h = self.health();
            if !h.is_healthy() {
                func();
                return true;
            }
            i = i + 1;
        }
        false
    }

    /// Invokes `func` exactly once when health is observed within `polls`
    /// observations; with no budget nothing can be observed.
    fn on_healthy<F: Fn() -> ()>(&self, func: F, polls: u64) -> (fired: bool)
        requires
            func.requires(()),
        ensures
            polls == 0 ==> !fired,
    {
        let mut i: u64 = 0;
        while i < polls
            invariant
                func.requires(()),
            decreases polls - i,
        {
            let h = self.health();
            if h.is_healthy() {
                func();
                return true;
            }
            i = i + 1;
        }
        false
    }
}

} // verus!
