use std::collections::HashMap;

use iskandar::config::{
    default_benchmark_score_regex, default_deploy_command, default_git_branch,
    default_mysql_conf_dir, default_mysql_conf_file, default_mysql_restart_command,
    default_nginx_conf_dir, default_nginx_conf_file, default_nginx_reload_command, Config,
};
use iskandar::opts::BenchmarkOpts;
use iskandar::run::{Action, BenchmarkRun, Event, Stage};
use iskandar::score::ScoreError;
use iskandar::store::lines_to_append;

const ACCESS: &str = "/var/log/nginx/access.log";
const SLOW: &str = "/var/log/slow.log";
const ID: &str = "20240102030405";

fn config(root: &str, pattern: &str) -> Config {
    Config {
        project_root: root.to_string(),
        git_branch: default_git_branch(),
        nginx_conf_file: default_nginx_conf_file(),
        mysql_conf_file: default_mysql_conf_file(),
        nginx_conf_dir: default_nginx_conf_dir(),
        mysql_conf_dir: default_mysql_conf_dir(),
        nginx_reload_command: default_nginx_reload_command(),
        mysql_restart_command: default_mysql_restart_command(),
        benchmark_command: "./bench".to_string(),
        benchmark_score_regex: pattern.to_string(),
        nginx_access_log: ACCESS.to_string(),
        mysql_slow_log: SLOW.to_string(),
        deploy_command: default_deploy_command(),
    }
}

fn all_options() -> BenchmarkOpts {
    BenchmarkOpts { access_log: true, slow_log: true, commit: true, vmstat: true }
}

fn no_options() -> BenchmarkOpts {
    BenchmarkOpts { access_log: false, slow_log: false, commit: false, vmstat: false }
}

/// A machine held in memory: files by path, and what the benchmark prints.
struct World {
    files: HashMap<String, String>,
    output: Vec<String>,
    benchmark_fails: bool,
    monitor_fails: bool,
    store_fails: bool,
    failing_resets: Vec<String>,
    stop_requests: usize,
}

impl World {
    fn new(output: &[&str]) -> World {
        let mut files = HashMap::new();
        files.insert(ACCESS.to_string(), String::new());
        files.insert(SLOW.to_string(), String::new());
        World {
            files,
            output: output.iter().map(|l| l.to_string()).collect(),
            benchmark_fails: false,
            monitor_fails: false,
            store_fails: false,
            failing_resets: Vec::new(),
            stop_requests: 0,
        }
    }

    fn carry_out(&mut self, action: &Action) -> Event {
        match action {
            Action::TruncateLog { path } => {
                if self.failing_resets.contains(path) {
                    Event::Failed
                } else {
                    self.files.insert(path.clone(), String::new());
                    Event::Done
                }
            }
            Action::StartMonitor { output, .. } => {
                if self.monitor_fails {
                    Event::Failed
                } else {
                    self.files.insert(output.clone(), "procs".to_string());
                    Event::Done
                }
            }
            Action::RunBenchmark { .. } => {
                for log in [ACCESS, SLOW] {
                    self.files.entry(log.to_string()).or_default().push_str("during run\n");
                }
                if self.benchmark_fails {
                    Event::Failed
                } else {
                    Event::Output(self.output.clone())
                }
            }
            Action::StopMonitor => {
                self.stop_requests += 1;
                Event::Done
            }
            Action::AppendScore { store, record } => {
                if self.store_fails {
                    return Event::Failed;
                }
                let content = self.files.entry(store.clone()).or_default();
                for line in lines_to_append(content.is_empty(), record) {
                    content.push_str(&line);
                    content.push('\n');
                }
                Event::Done
            }
            Action::ReportScoreError { .. } => Event::Done,
            Action::CopyLog { from, to } => match self.files.get(from).cloned() {
                Some(content) => {
                    self.files.insert(to.clone(), content);
                    Event::Done
                }
                None => Event::Failed,
            },
            Action::Commit { .. } => Event::Done,
            Action::Finish | Action::Abort => Event::Done,
        }
    }
}

/// Plays a whole run and returns every action it handed out, the last
/// one being `Finish` or `Abort`.
fn play(run: &mut BenchmarkRun, world: &mut World) -> Vec<Action> {
    let mut actions = Vec::new();
    for _ in 0..20 {
        let action = run.action();
        let done = matches!(action, Action::Finish | Action::Abort);
        let event = world.carry_out(&action);
        actions.push(action);
        if done {
            return actions;
        }
        run.handle(event);
    }
    panic!("the run did not end");
}

fn kinds(actions: &[Action]) -> Vec<&'static str> {
    actions
        .iter()
        .map(|a| match a {
            Action::TruncateLog { .. } => "truncate",
            Action::StartMonitor { .. } => "start",
            Action::RunBenchmark { .. } => "run",
            Action::StopMonitor => "stop",
            Action::AppendScore { .. } => "append",
            Action::ReportScoreError { .. } => "report",
            Action::CopyLog { .. } => "copy",
            Action::Commit { .. } => "commit",
            Action::Finish => "finish",
            Action::Abort => "abort",
        })
        .collect()
}

fn new_run(root: &str, opts: BenchmarkOpts) -> BenchmarkRun {
    BenchmarkRun::new(&config(root, &default_benchmark_score_regex()), opts, ID.to_string())
}

#[test]
fn full_run_follows_the_protocol() {
    let mut run = new_run("/srv/app", all_options());
    assert_eq!(run.stage(), Stage::ResetAccessLog);
    let mut world = World::new(&["warming up", "score: 3 point", "score: 88.4 point", "bye"]);
    let actions = play(&mut run, &mut world);
    assert_eq!(
        kinds(&actions),
        vec!["truncate", "truncate", "start", "run", "stop", "append", "copy", "copy", "commit", "finish"]
    );
    match &actions[0] {
        Action::TruncateLog { path } => assert_eq!(path, ACCESS),
        other => panic!("unexpected {:?}", other),
    }
    match &actions[1] {
        Action::TruncateLog { path } => assert_eq!(path, SLOW),
        other => panic!("unexpected {:?}", other),
    }
    match &actions[2] {
        Action::StartMonitor { program, args, output } => {
            assert_eq!(program, "vmstat");
            assert_eq!(args, &vec!["-t".to_string(), "1".to_string()]);
            assert_eq!(output, "/srv/app/out/vmstat_20240102030405.txt");
        }
        other => panic!("unexpected {:?}", other),
    }
    match &actions[3] {
        Action::RunBenchmark { command } => assert_eq!(command, "./bench"),
        other => panic!("unexpected {:?}", other),
    }
    match &actions[5] {
        Action::AppendScore { store, record } => {
            assert_eq!(store, "/srv/app/out/score.csv");
            assert_eq!(record.datetime, ID);
            assert_eq!(record.score.as_text(), "88.4");
        }
        other => panic!("unexpected {:?}", other),
    }
    match &actions[6] {
        Action::CopyLog { from, to } => {
            assert_eq!(from, ACCESS);
            assert_eq!(to, "/srv/app/out/access_20240102030405.log");
        }
        other => panic!("unexpected {:?}", other),
    }
    match &actions[7] {
        Action::CopyLog { from, to } => {
            assert_eq!(from, SLOW);
            assert_eq!(to, "/srv/app/out/slow_20240102030405.log");
        }
        other => panic!("unexpected {:?}", other),
    }
    match &actions[8] {
        Action::Commit { command } => {
            assert_eq!(command, "git add out; git commit -m 'benchmark 20240102030405';")
        }
        other => panic!("unexpected {:?}", other),
    }
    assert_eq!(run.stage(), Stage::Finished);
    assert_eq!(world.files["/srv/app/out/score.csv"], "datetime, score\n20240102030405, 88.4\n");
}

#[test]
fn without_options_only_the_command_runs() {
    let mut run = new_run("", no_options());
    let mut world = World::new(&["score: 5 point"]);
    let actions = play(&mut run, &mut world);
    assert_eq!(kinds(&actions), vec!["run", "append", "finish"]);
    match &actions[1] {
        Action::AppendScore { store, .. } => assert_eq!(store, "out/score.csv"),
        other => panic!("unexpected {:?}", other),
    }
}

#[test]
fn root_with_trailing_separator_gets_no_second_one() {
    let mut run = new_run("/srv/app/", BenchmarkOpts { vmstat: true, ..no_options() });
    let mut world = World::new(&[]);
    let actions = play(&mut run, &mut world);
    match &actions[0] {
        Action::StartMonitor { output, .. } => {
            assert_eq!(output, "/srv/app/out/vmstat_20240102030405.txt")
        }
        other => panic!("unexpected {:?}", other),
    }
}

#[test]
fn monitor_is_stopped_once_after_success() {
    let mut run = new_run("/srv/app", BenchmarkOpts { vmstat: true, ..no_options() });
    let mut world = World::new(&["score: 1 point"]);
    let actions = play(&mut run, &mut world);
    assert_eq!(kinds(&actions), vec!["start", "run", "stop", "append", "finish"]);
    assert_eq!(world.stop_requests, 1);
}

#[test]
fn monitor_is_stopped_when_the_command_fails() {
    let mut run = new_run("/srv/app", all_options());
    let mut world = World::new(&[]);
    world.benchmark_fails = true;
    let actions = play(&mut run, &mut world);
    assert_eq!(kinds(&actions), vec!["truncate", "truncate", "start", "run", "stop", "abort"]);
    assert_eq!(world.stop_requests, 1);
    assert_eq!(run.stage(), Stage::Aborted);
}

#[test]
fn failed_stop_is_no_reason_to_abort() {
    let mut run = new_run("/srv/app", BenchmarkOpts { vmstat: true, ..no_options() });
    run.handle(Event::Done);
    run.handle(Event::Output(vec!["score: 2 point".to_string()]));
    assert_eq!(run.stage(), Stage::StopMonitor);
    run.handle(Event::Failed);
    assert_eq!(run.stage(), Stage::RecordScore);
}

#[test]
fn monitor_that_cannot_start_aborts_the_run() {
    let mut run = new_run("/srv/app", all_options());
    let mut world = World::new(&["score: 1 point"]);
    world.monitor_fails = true;
    let actions = play(&mut run, &mut world);
    assert_eq!(kinds(&actions), vec!["truncate", "truncate", "start", "abort"]);
    assert_eq!(world.stop_requests, 0);
}

#[test]
fn output_without_match_leaves_the_store_unchanged() {
    let mut run = new_run("/srv/app", all_options());
    let mut world = World::new(&["benchmark start", "benchmark end"]);
    let before = "datetime, score\n20230101000000, 1\n".to_string();
    world.files.insert("/srv/app/out/score.csv".to_string(), before.clone());
    let actions = play(&mut run, &mut world);
    assert!(!kinds(&actions).contains(&"append"));
    assert_eq!(kinds(&actions), vec!["truncate", "truncate", "start", "run", "stop", "copy", "copy", "commit", "finish"]);
    assert_eq!(world.files["/srv/app/out/score.csv"], before);
}

#[test]
fn header_is_written_once_over_runs() {
    let mut world = World::new(&["score: 7 point"]);
    for i in 0..3 {
        let id = format!("2024010203040{}", i);
        let mut run = BenchmarkRun::new(&config("/srv/app", &default_benchmark_score_regex()), no_options(), id);
        play(&mut run, &mut world);
    }
    let store = &world.files["/srv/app/out/score.csv"];
    let lines: Vec<&str> = store.lines().collect();
    assert_eq!(lines.len(), 4);
    assert_eq!(lines.iter().filter(|l| **l == "datetime, score").count(), 1);
    assert_eq!(lines[0], "datetime, score");
    assert_eq!(lines[3], "20240102030402, 7");
}

#[test]
fn archive_holds_nothing_from_before_the_reset() {
    let mut run = new_run("/srv/app", BenchmarkOpts { access_log: true, ..no_options() });
    let mut world = World::new(&["score: 1 point"]);
    world.files.insert(ACCESS.to_string(), "SENTINEL\n".to_string());
    play(&mut run, &mut world);
    let archived = &world.files["/srv/app/out/access_20240102030405.log"];
    assert!(!archived.contains("SENTINEL"));
    assert_eq!(archived, "during run\n");
}

#[test]
fn failed_reset_skips_that_archive() {
    let mut run = new_run("/srv/app", all_options());
    let mut world = World::new(&["score: 1 point"]);
    world.files.insert(ACCESS.to_string(), "SENTINEL\n".to_string());
    world.failing_resets.push(ACCESS.to_string());
    let actions = play(&mut run, &mut world);
    assert_eq!(kinds(&actions), vec!["truncate", "truncate", "start", "run", "stop", "append", "copy", "commit", "finish"]);
    match &actions[6] {
        Action::CopyLog { from, .. } => assert_eq!(from, SLOW),
        other => panic!("unexpected {:?}", other),
    }
    assert!(!world.files.contains_key("/srv/app/out/access_20240102030405.log"));
}

#[test]
fn every_artifact_carries_the_run_identity() {
    let mut run = new_run("/srv/app", all_options());
    assert_eq!(run.run_id(), ID);
    let mut world = World::new(&["score: 9 point"]);
    let actions = play(&mut run, &mut world);
    let mut named = 0;
    for action in &actions {
        match action {
            Action::StartMonitor { output, .. } => {
                assert!(output.contains(ID));
                named += 1;
            }
            Action::CopyLog { to, .. } => {
                assert!(to.contains(ID));
                named += 1;
            }
            Action::Commit { command } => {
                assert!(command.contains(ID));
                named += 1;
            }
            Action::AppendScore { record, .. } => {
                assert_eq!(record.datetime, ID);
                named += 1;
            }
            _ => {}
        }
    }
    assert_eq!(named, 5);
}

#[test]
fn score_error_is_reported_and_the_run_completes() {
    let cfg = config("/srv/app", "score: ([");
    let mut run = BenchmarkRun::new(&cfg, BenchmarkOpts { commit: true, ..no_options() }, ID.to_string());
    let mut world = World::new(&["score: 1 point"]);
    let actions = play(&mut run, &mut world);
    assert_eq!(kinds(&actions), vec!["run", "report", "commit", "finish"]);
    assert!(matches!(actions[1], Action::ReportScoreError { error: ScoreError::InvalidPattern }));
}

#[test]
fn store_that_cannot_be_written_aborts_the_run() {
    let mut run = new_run("/srv/app", all_options());
    let mut world = World::new(&["score: 1 point"]);
    world.store_fails = true;
    let actions = play(&mut run, &mut world);
    assert_eq!(kinds(&actions), vec!["truncate", "truncate", "start", "run", "stop", "append", "abort"]);
}

#[test]
fn command_reported_done_without_output_gives_no_score() {
    let mut run = new_run("/srv/app", no_options());
    run.handle(Event::Done);
    assert_eq!(run.stage(), Stage::Finished);
}

#[test]
fn ended_run_stays_ended() {
    let mut run = new_run("/srv/app", no_options());
    run.handle(Event::Failed);
    assert_eq!(run.stage(), Stage::Aborted);
    run.handle(Event::Done);
    assert_eq!(run.stage(), Stage::Aborted);
    assert!(matches!(run.action(), Action::Abort));
}
