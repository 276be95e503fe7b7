//! The build stage's decisions: the fixed cross-compilation target, the
//! names of the build-configuration files kept beside the manifest, and
//! the fail-fast reading of the external compiler's exit status.

use vstd::prelude::*;

verus! {

/// The fixed cross-compilation target triple the build step uses.
pub fn target_triple() -> (r: &'static str)
    ensures
        r@ == "x86_64-unknown-linux-gnu"@,
{
    "x86_64-unknown-linux-gnu"
}

/// The container build file expected beside the manifest; written from a
/// bundled template when absent, never overwritten once present.
pub fn dockerfile_name() -> (r: &'static str)
    ensures
        r@ == "Dockerfile.devcade"@,
{
    "Dockerfile.devcade"
}

/// The cross-compilation configuration file expected beside the manifest;
/// written from a bundled template when absent, never overwritten.
pub fn cross_config_name() -> (r: &'static str)
    ensures
        r@ == "Cross.devcade.toml"@,
{
    "Cross.devcade.toml"
}

/// The external build tool failed; the pipeline aborts rather than
/// package a stale or absent binary.
#[derive(Clone, Copy, Debug, PartialEq, Eq, Structural)]
pub enum BuildError {
    ToolFailed { exit_code: Option<i32> },
}

/// Packaging may proceed only after a clean zero exit of the external
/// compiler: a missing status or any other code is fatal.
pub fn build_outcome(exit_code: Option<i32>) -> (r: Result<(), BuildError>)
    ensures
        r is Ok <==> exit_code == Some(0i32),
        r matches Err(BuildError::ToolFailed { exit_code: c }) ==> c == exit_code,
{
    match exit_code {
        Some(code) => if code == 0 {
            Ok(())
        } else {
            Err(BuildError::ToolFailed { exit_code: Some(code) })
        },
        None => Err(BuildError::ToolFailed { exit_code: None }),
    }
}

} // verus!

