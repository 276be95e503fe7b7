//! The command surface: which pipeline stages a parsed command line asks
//! for.

use vstd::prelude::*;

verus! {

/// The three things a user can ask for. Packaging implies a build first;
/// publishing implies both.
#[derive(Clone, Copy, Debug, PartialEq, Eq, Structural)]
pub enum Action {
    Package,
    Publish,
    Build,
}

/// The parsed command line: an optional explicit binary name to package,
/// and the requested action.
pub struct Args {
    pub bin: Option<String>,
    pub action: Action,
}

impl Args {
    pub fn new(bin: Option<String>, action: Action) -> (r: Args)
        ensures
            r.bin == bin,
            r.action == action,
    {
        Args { bin, action }
    }
}

/// Where a finished package is uploaded; the publish stage points the
/// user's browser here.
pub fn upload_url() -> (r: &'static str)
    ensures
        r@ == "https://devcade.csh.rit.edu/upload"@,
{
    "https://devcade.csh.rit.edu/upload"
}

/// Which stages run after the build, which always runs first.
pub struct StagePlan {
    pub run_package: bool,
    pub run_publish: bool,
}

pub fn plan_stages(args: &Args) -> (r: StagePlan)
    ensures
        r.run_package == (args.action != Action::Build),
        r.run_publish == (args.action == Action::Publish),
{
    StagePlan {
        run_package: args.action != Action::Build,
        run_publish: args.action == Action::Publish,
    }
}

} // verus!
