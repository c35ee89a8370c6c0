//! Settings of the simulators that apply operations to a quantum state.
use vstd::prelude::*;

verus! {

/// An error raised by a simulator.
#[derive(Clone, Debug)]
pub enum BackendError {
    Custom(String),
}

impl BackendError {
    /// The error carrying the message `s`.
    pub fn from(s: String) -> (e: BackendError)
        ensures
            e == BackendError::Custom(s),
    {
        BackendError::Custom(s)
    }
}

impl core::str::FromStr for BackendError {
    type Err = core::convert::Infallible;

    /// The error carrying the message `s`; reading one never fails.
    fn from_str(s: &str) -> (r: Result<BackendError, core::convert::Infallible>)
        ensures
            r matches Ok(BackendError::Custom(t)) && t@ == s@,
    {
        let mut t = String::new();
        crate::text::push_str(&mut t, s);
        Ok(BackendError::Custom(t))
    }
}

/// Builds the simulator that runs on the calling thread.
#[derive(Clone, Copy, Default, Debug)]
pub struct SingleThreadBuilder;

/// Builds the simulator that spreads its work over a pool of threads.
#[derive(Clone, Copy, Default, Debug)]
pub struct MultiThreadBuilder {
    /// The number of threads of the pool: never zero; `None` leaves the choice to the pool.
    pub num_threads: Option<usize>,
}

impl MultiThreadBuilder {
    /// Whether the builder holds no thread count of zero.
    pub open spec fn wf(self) -> bool {
        self.num_threads matches Some(n) ==> n > 0
    }

    /// A builder for a pool of `num_threads` threads; zero leaves the choice to the pool.
    pub fn with(num_threads: usize) -> (b: MultiThreadBuilder)
        ensures
            b.wf(),
            b.num_threads == if num_threads == 0 { None } else { Some(num_threads) },
    {
        MultiThreadBuilder { num_threads: if num_threads == 0 { None } else { Some(num_threads) } }
    }
}

} // verus!
