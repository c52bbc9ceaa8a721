//! The tool's settings: a flat set of named text values, each with a
//! default where the settings file leaves it out.

use vstd::prelude::*;

verus! {

/// The settings read from the tool's settings file.
#[derive(Debug, PartialEq, Eq)]
pub struct Config {
    pub project_root: String,
    pub git_branch: String,
    pub nginx_conf_file: String,
    pub mysql_conf_file: String,
    pub nginx_conf_dir: String,
    pub mysql_conf_dir: String,
    pub nginx_reload_command: String,
    pub mysql_restart_command: String,
    pub benchmark_command: String,
    pub benchmark_score_regex: String,
    pub nginx_access_log: String,
    pub mysql_slow_log: String,
    pub deploy_command: String,
}

pub fn default_git_branch() -> (r: String)
    ensures
        r@ == "master"@,
{
    String::from_str("master")
}

pub fn default_nginx_conf_file() -> (r: String)
    ensures
        r@ == "nginx.conf"@,
{
    String::from_str("nginx.conf")
}

pub fn default_mysql_conf_file() -> (r: String)
    ensures
        r@ == "mysql.cnf"@,
{
    String::from_str("mysql.cnf")
}

pub fn default_nginx_conf_dir() -> (r: String)
    ensures
        r@ == "/etc/nginx/"@,
{
    String::from_str("/etc/nginx/")
}

pub fn default_mysql_conf_dir() -> (r: String)
    ensures
        r@ == "/etc/mysql/conf.d/"@,
{
    String::from_str("/etc/mysql/conf.d/")
}

pub fn default_nginx_reload_command() -> (r: String)
    ensures
        r@ == "nginx -s reload"@,
{
    String::from_str("nginx -s reload")
}

pub fn default_mysql_restart_command() -> (r: String)
    ensures
        r@ == "echo please edit iskandar.toml to restart mysql"@,
{
    String::from_str("echo please edit iskandar.toml to restart mysql")
}

pub fn default_benchmark_command() -> (r: String)
    ensures
        r@ == "echo benchmark start; echo benchmark score: 88.4 point; echo benchmark end"@,
{
    String::from_str("echo benchmark start; echo benchmark score: 88.4 point; echo benchmark end")
}

pub fn default_benchmark_score_regex() -> (r: String)
    ensures
        r@ == r"score: ([\d.]+) point"@,
{
    String::from_str(r"score: ([\d.]+) point")
}

pub fn default_nginx_access_log() -> (r: String)
    ensures
        r@ == "/var/log/nginx/access.log"@,
{
    String::from_str("/var/log/nginx/access.log")
}

pub fn default_mysql_slow_log() -> (r: String)
    ensures
        r@ == "/var/log/slow.log"@,
{
    String::from_str("/var/log/slow.log")
}

pub fn default_deploy_command() -> (r: String)
    ensures
        r@ == "echo please edit iskandar.toml; echo deploy!"@,
{
    String::from_str("echo please edit iskandar.toml; echo deploy!")
}

} // verus!
