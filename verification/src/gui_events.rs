//! What a running test reports to the front ends.
use crate::coordinator::{CoreTestResult, CycleResults};
use vstd::prelude::*;

verus! {

/// How a log line is highlighted.
#[derive(Debug, Clone, Copy, PartialEq, Eq, Structural)]
pub enum LogLevel {
    Stable,
    Error,
    Mce,
    Default,
}

/// One report of a running test.
pub enum TestEvent {
    TestStarted { total_cores: usize },
    CoreTestStarting { physical_core_id: u32, bios_index: u32, iteration: u32 },
    CoreTestProgress { physical_core_id: u32, bios_index: u32, elapsed_secs: u64, duration_secs: u64 },
    CoreTestCompleted { result: CoreTestResult },
    IterationCompleted { iteration: u32, total: u32 },
    TestCompleted { results: CycleResults },
    LogMessage { level: LogLevel, message: String },
    TestError { message: String },
}

} // verus!
