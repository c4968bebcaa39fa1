use vstd::prelude::*;

verus! {

/// Pause between two polls, in microseconds, when the configuration names none.
pub fn default_interval() -> (r: u64)
    ensures
        r == 0,
{
    0
}

/// One rule of the table: a regular expression matched against the
/// executable path, and one or more newline-separated command lines.
pub struct Task {
    pub pattern: String,
    pub command: String,
}

/// The watcher's configuration, fixed once loaded.
pub struct Config {
    /// Microseconds between two polls.
    pub interval: u64,
    /// The rules, in the order they are evaluated.
    pub tasks: Vec<Task>,
}

impl Config {
    /// A configuration with the default interval.
    pub fn with_tasks(tasks: Vec<Task>) -> (r: Config)
        ensures
            r.interval == 0,
            r.tasks@ == tasks@,
    {
        Config { interval: default_interval(), tasks }
    }
}

} // verus!
