//! Deployment and the proxy and database configuration commands: what
//! each asks to be run or copied, decided from the settings.

use vstd::prelude::*;
use crate::config::Config;
use crate::opts::{DeployOpts, MysqlAction, NginxAction};
use crate::text::{join_path, joined};

verus! {

/// One step of a configuration command.
#[derive(Debug)]
pub enum ConfigStep {
    /// Copy the file at `from` to `to`.
    Copy { from: String, to: String },
    /// Run a shell command.
    Run { command: String },
}

pub enum ConfigStepView {
    Copy { from: Seq<char>, to: Seq<char> },
    Run { command: Seq<char> },
}

impl View for ConfigStep {
    type V = ConfigStepView;

    open spec fn view(&self) -> ConfigStepView {
        match self {
            ConfigStep::Copy { from, to } => ConfigStepView::Copy { from: from@, to: to@ },
            ConfigStep::Run { command } => ConfigStepView::Run { command: command@ },
        }
    }
}

pub open spec fn steps_view(steps: Seq<ConfigStep>) -> Seq<ConfigStepView> {
    steps.map_values(|s: ConfigStep| s@)
}

/// The command that deploys: the configured one, after a pull of the
/// configured branch unless the pull is left out.
pub open spec fn deploy_text(config: &Config, opts: DeployOpts) -> Seq<char> {
    if opts.wo_pull {
        config.deploy_command@
    } else {
        "git pull origin "@ + config.git_branch@ + "; "@ + config.deploy_command@
    }
}

/// Copy the service's file into the project, then keep a backup of it
/// beside it.
pub open spec fn fetch_steps(root: Seq<char>, dir: Seq<char>, file: Seq<char>) -> Seq<
    ConfigStepView,
> {
    seq![
        ConfigStepView::Copy { from: joined(dir, file), to: joined(root, file) },
        ConfigStepView::Copy { from: joined(root, file), to: joined(root, file + ".backup"@) },
    ]
}

/// Copy the project's file over the service's.
pub open spec fn apply_steps(root: Seq<char>, dir: Seq<char>, file: Seq<char>) -> Seq<
    ConfigStepView,
> {
    seq![ConfigStepView::Copy { from: joined(root, file), to: joined(dir, file) }]
}

pub open spec fn nginx_steps(config: &Config, action: NginxAction) -> Seq<ConfigStepView> {
    match action {
        NginxAction::Init => fetch_steps(
            config.project_root@,
            config.nginx_conf_dir@,
            config.nginx_conf_file@,
        ),
        NginxAction::Reload => seq![ConfigStepView::Run { command: config.nginx_reload_command@ }],
        NginxAction::Apply => apply_steps(
            config.project_root@,
            config.nginx_conf_dir@,
            config.nginx_conf_file@,
        ),
    }
}

pub open spec fn mysql_steps(config: &Config, action: MysqlAction) -> Seq<ConfigStepView> {
    match action {
        MysqlAction::Init => fetch_steps(
            config.project_root@,
            config.mysql_conf_dir@,
            config.mysql_conf_file@,
        ),
        MysqlAction::Restart => seq![
            ConfigStepView::Run { command: config.mysql_restart_command@ },
        ],
        MysqlAction::Apply => apply_steps(
            config.project_root@,
            config.mysql_conf_dir@,
            config.mysql_conf_file@,
        ),
    }
}

/// The command that deploys the application.
pub fn deploy_command(config: &Config, opts: DeployOpts) -> (r: String)
    ensures
        r@ == deploy_text(config, opts),
{
    if opts.wo_pull {
        config.deploy_command.clone()
    } else {
        let mut command = String::from_str("git pull origin ");
        command.append(config.git_branch.as_str());
        command.append("; ");
        command.append(config.deploy_command.as_str());
        command
    }
}

fn fetch_plan(root: &str, dir: &str, file: &str) -> (r: Vec<ConfigStep>)
    ensures
        steps_view(r@) == fetch_steps(root@, dir@, file@),
{
    let mut backup = file.to_string();
    backup.append(".backup");
    let mut r: Vec<ConfigStep> = Vec::new();
    r.push(ConfigStep::Copy { from: join_path(dir, file), to: join_path(root, file) });
    r.push(ConfigStep::Copy { from: join_path(root, file), to: join_path(root, backup.as_str()) });
    assert(steps_view(r@) =~= fetch_steps(root@, dir@, file@));
    r
}

fn apply_plan(root: &str, dir: &str, file: &str) -> (r: Vec<ConfigStep>)
    ensures
        steps_view(r@) == apply_steps(root@, dir@, file@),
{
    let mut r: Vec<ConfigStep> = Vec::new();
    r.push(ConfigStep::Copy { from: join_path(root, file), to: join_path(dir, file) });
    assert(steps_view(r@) =~= apply_steps(root@, dir@, file@));
    r
}

fn run_plan(command: &String) -> (r: Vec<ConfigStep>)
    ensures
        steps_view(r@) == seq![ConfigStepView::Run { command: command@ }],
{
    let mut r: Vec<ConfigStep> = Vec::new();
    r.push(ConfigStep::Run { command: command.clone() });
    assert(steps_view(r@) =~= seq![ConfigStepView::Run { command: command@ }]);
    r
}

/// The steps of a proxy configuration command.
pub fn nginx_plan(config: &Config, action: NginxAction) -> (r: Vec<ConfigStep>)
    ensures
        steps_view(r@) == nginx_steps(config, action),
{
    let root = config.project_root.as_str();
    let dir = config.nginx_conf_dir.as_str();
    let file = config.nginx_conf_file.as_str();
    match action {
        NginxAction::Init => fetch_plan(root, dir, file),
        NginxAction::Reload => run_plan(&config.nginx_reload_command),
        NginxAction::Apply => apply_plan(root, dir, file),
    }
}

/// The steps of a database configuration command.
pub fn mysql_plan(config: &Config, action: MysqlAction) -> (r: Vec<ConfigStep>)
    ensures
        steps_view(r@) == mysql_steps(config, action),
{
    let root = config.project_root.as_str();
    let dir = config.mysql_conf_dir.as_str();
    let file = config.mysql_conf_file.as_str();
    match action {
        MysqlAction::Init => fetch_plan(root, dir, file),
        MysqlAction::Restart => run_plan(&config.mysql_restart_command),
        MysqlAction::Apply => apply_plan(root, dir, file),
    }
}

} // verus!
