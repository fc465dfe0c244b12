use vstd::prelude::*;

verus! {

/// How the statistics are shown while a run goes on.
#[derive(Debug, Clone, Copy, PartialEq, Eq, Structural)]
pub enum OutputMode {
    /// Redraw the same lines of the terminal.
    Terminal { refresh_rate_ms: u64 },
    /// Print fresh lines each time.
    Normal { refresh_rate_ms: u64 },
}

impl Default for OutputMode {
    fn default() -> (r: Self)
        ensures
            r == (OutputMode::Terminal { refresh_rate_ms: 200 }),
    {
        OutputMode::Terminal { refresh_rate_ms: 200 }
    }
}

impl OutputMode {
    /// The mode for plain output: a new report every two seconds.
    pub fn normal() -> (r: OutputMode)
        ensures
            r == (OutputMode::Normal { refresh_rate_ms: 2000 }),
    {
        OutputMode::Normal { refresh_rate_ms: 2000 }
    }

    /// Milliseconds between two reports.
    pub fn refresh_rate_ms(&self) -> (r: u64)
        ensures
            *self matches OutputMode::Terminal { refresh_rate_ms } ==> r == refresh_rate_ms,
            *self matches OutputMode::Normal { refresh_rate_ms } ==> r == refresh_rate_ms,
    {
        match self {
            OutputMode::Terminal { refresh_rate_ms } => *refresh_rate_ms,
            OutputMode::Normal { refresh_rate_ms } => *refresh_rate_ms,
        }
    }

    /// Whether the mode redraws the terminal in place.
    pub fn redraws(&self) -> (r: bool)
        ensures
            r == (*self is Terminal),
    {
        match self {
            OutputMode::Terminal { .. } => true,
            OutputMode::Normal { .. } => false,
        }
    }
}

} // verus!
