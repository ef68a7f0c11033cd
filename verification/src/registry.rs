//! The registered test cases.

use crate::duration::Duration;
use vstd::prelude::*;

verus! {

/// A registered test case: what the runner knows of a test before it runs.
#[derive(Debug, PartialEq)]
pub struct TestCase {
    /// Name by which the test is filtered, run and reported.
    pub name: &'static str,
    /// Path of the module that defines the test.
    pub module: &'static str,
    /// Source file that defines the test.
    pub file: &'static str,
    /// Whether the test runs alone against every other test.
    pub serial: bool,
    /// Group whose members never overlap.
    pub serial_group: Option<&'static str>,
    /// Timeout declared on the test.
    pub timeout: Option<Duration>,
    /// Whether the test runs without any timeout, the suite's included.
    pub no_timeout: bool,
    /// Number of further attempts after a failed one.
    pub retries: u32,
    /// Whether only errors that a declared pattern accepts are retried.
    pub retry_on_error_set: bool,
    /// Tags by which the test is selected.
    pub tags: &'static [&'static str],
}

impl TestCase {
    /// A test case with the given properties.
    pub fn new(
        name: &'static str,
        module: &'static str,
        file: &'static str,
        serial: bool,
        serial_group: Option<&'static str>,
        timeout: Option<Duration>,
        no_timeout: bool,
        retries: u32,
        retry_on_error_set: bool,
        tags: &'static [&'static str],
    ) -> (case: TestCase)
        ensures
            case == (TestCase {
                name,
                module,
                file,
                serial,
                serial_group,
                timeout,
                no_timeout,
                retries,
                retry_on_error_set,
                tags,
            }),
    {
        TestCase {
            name,
            module,
            file,
            serial,
            serial_group,
            timeout,
            no_timeout,
            retries,
            retry_on_error_set,
            tags,
        }
    }
}

} // verus!
