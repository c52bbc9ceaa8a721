//! The tool's commands and their options, as the command line gives them.

use vstd::prelude::*;
use crate::text::same_text;

verus! {

/// The command line: one command to carry out.
#[derive(Debug, Clone, Copy, PartialEq, Eq, Structural)]
pub struct Opts {
    pub target: Target,
}

#[derive(Debug, Clone, Copy, PartialEq, Eq, Structural)]
pub enum Target {
    Init,
    Deploy(DeployOpts),
    Benchmark(BenchmarkOpts),
    Nginx(NginxOpts),
    Mysql(MysqlOpts),
}

#[derive(Debug, Clone, Copy, PartialEq, Eq, Structural)]
pub struct DeployOpts {
    /// Deploy without pulling from the remote first.
    pub wo_pull: bool,
    /// Show the command instead of running it.
    pub dry: bool,
}

#[derive(Debug, Clone, Copy, PartialEq, Eq, Structural)]
pub struct BenchmarkOpts {
    /// Reset the proxy's access log before the run and archive it after.
    pub access_log: bool,
    /// Reset the database's slow-query log before the run and archive it after.
    pub slow_log: bool,
    /// Commit the run's artifacts to version control.
    pub commit: bool,
    /// Sample system resources while the benchmark runs.
    pub vmstat: bool,
}

#[derive(Debug, Clone, Copy, PartialEq, Eq, Structural)]
pub struct NginxOpts {
    pub action: NginxAction,
    /// Show the steps instead of carrying them out.
    pub dry: bool,
}

#[derive(Debug, Clone, Copy, PartialEq, Eq, Structural)]
pub enum NginxAction {
    /// Copy the proxy's configuration into the project, and keep a backup.
    Init,
    /// Reload the proxy.
    Reload,
    /// Copy the project's configuration over the proxy's.
    Apply,
}

#[derive(Debug, Clone, Copy, PartialEq, Eq, Structural)]
pub struct MysqlOpts {
    pub action: MysqlAction,
    /// Show the steps instead of carrying them out.
    pub dry: bool,
}

#[derive(Debug, Clone, Copy, PartialEq, Eq, Structural)]
pub enum MysqlAction {
    /// Copy the database's configuration into the project, and keep a backup.
    Init,
    /// Restart the database.
    Restart,
    /// Copy the project's configuration over the database's.
    Apply,
}

impl NginxAction {
    /// The action that a word names: `init`, `reload` or `apply`.
    pub fn from_name(s: &str) -> (r: Result<NginxAction, &'static str>)
        ensures
            r == if s@ == "init"@ {
                Ok(NginxAction::Init)
            } else if s@ == "reload"@ {
                Ok(NginxAction::Reload)
            } else if s@ == "apply"@ {
                Ok(NginxAction::Apply)
            } else {
                Err::<NginxAction, &'static str>("no match")
            },
    {
        if same_text(s, "init") {
            Ok(NginxAction::Init)
        } else if same_text(s, "reload") {
            Ok(NginxAction::Reload)
        } else if same_text(s, "apply") {
            Ok(NginxAction::Apply)
        } else {
            Err("no match")
        }
    }
}

impl MysqlAction {
    /// The action that a word names: `backup`, `restart` or `apply`.
    pub fn from_name(s: &str) -> (r: Result<MysqlAction, &'static str>)
        ensures
            r == if s@ == "restart"@ {
                Ok(MysqlAction::Restart)
            } else if s@ == "backup"@ {
                Ok(MysqlAction::Init)
            } else if s@ == "apply"@ {
                Ok(MysqlAction::Apply)
            } else {
                Err::<MysqlAction, &'static str>("no match")
            },
    {
        if same_text(s, "restart") {
            Ok(MysqlAction::Restart)
        } else if same_text(s, "backup") {
            Ok(MysqlAction::Init)
        } else if same_text(s, "apply") {
            Ok(MysqlAction::Apply)
        } else {
            Err("no match")
        }
    }
}

impl std::str::FromStr for NginxAction {
    type Err = &'static str;

    fn from_str(s: &str) -> Result<Self, Self::Err> {
        NginxAction::from_name(s)
    }
}

impl std::str::FromStr for MysqlAction {
    type Err = &'static str;

    fn from_str(s: &str) -> Result<Self, Self::Err> {
        MysqlAction::from_name(s)
    }
}

} // verus!
