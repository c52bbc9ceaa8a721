//! One benchmark run, as a state machine that decides and an outside
//! driver that acts. The run hands out one action at a time; the driver
//! carries it out and hands back what happened. The stages come in a fixed
//! order and none is visited twice:
//! log resets, monitor start, the benchmark command, monitor stop, the
//! score, log archives, the commit, and the end.

use vstd::prelude::*;
use crate::config::Config;
use crate::opts::BenchmarkOpts;
use crate::score::{Score, ScoreError, extract_score, extraction, lines_view, outcome_view};
use crate::store::ScoreRecord;
use crate::text::{embeds, join_path, joined, lemma_embeds_middle};

verus! {

/// Where a run stands: the stage whose action was handed out last.
#[derive(Debug, Clone, Copy, PartialEq, Eq, Structural)]
pub enum Stage {
    ResetAccessLog,
    ResetSlowLog,
    StartMonitor,
    RunBenchmark,
    StopMonitor,
    RecordScore,
    ArchiveAccessLog,
    ArchiveSlowLog,
    Commit,
    Finished,
    Aborted,
}

pub open spec fn rank(s: Stage) -> nat {
    match s {
        Stage::ResetAccessLog => 0,
        Stage::ResetSlowLog => 1,
        Stage::StartMonitor => 2,
        Stage::RunBenchmark => 3,
        Stage::StopMonitor => 4,
        Stage::RecordScore => 5,
        Stage::ArchiveAccessLog => 6,
        Stage::ArchiveSlowLog => 7,
        Stage::Commit => 8,
        Stage::Finished => 9,
        Stage::Aborted => 10,
    }
}

pub open spec fn is_terminal(s: Stage) -> bool {
    s == Stage::Finished || s == Stage::Aborted
}

/// What the driver reports after carrying out an action.
#[derive(Debug)]
pub enum Event {
    /// The action was carried out.
    Done,
    /// The action could not be carried out.
    Failed,
    /// The benchmark command ran; these are the lines of its output.
    Output(Vec<String>),
}

pub enum EventView {
    Done,
    Failed,
    Output(Seq<Seq<char>>),
}

impl View for Event {
    type V = EventView;

    open spec fn view(&self) -> EventView {
        match self {
            Event::Done => EventView::Done,
            Event::Failed => EventView::Failed,
            Event::Output(lines) => EventView::Output(lines_view(lines@)),
        }
    }
}

/// What the run asks the driver to do next.
#[derive(Debug)]
pub enum Action {
    /// Empty the log file at `path`.
    TruncateLog { path: String },
    /// Start `program` with `args` in the background, its output going to
    /// a new file at `output`.
    StartMonitor { program: String, args: Vec<String>, output: String },
    /// Run the benchmark command and collect its output lines.
    RunBenchmark { command: String },
    /// Ask the monitor started before to terminate.
    StopMonitor,
    /// Append the record to the results store at `store`.
    AppendScore { store: String, record: ScoreRecord },
    /// Tell the operator that no score could be read.
    ReportScoreError { error: ScoreError },
    /// Copy the file at `from` to `to`.
    CopyLog { from: String, to: String },
    /// Commit the run's artifacts with this command.
    Commit { command: String },
    /// The run is over.
    Finish,
    /// The run stops on an error of its environment.
    Abort,
}

pub enum ActionView {
    TruncateLog { path: Seq<char> },
    StartMonitor { program: Seq<char>, args: Seq<Seq<char>>, output: Seq<char> },
    RunBenchmark { command: Seq<char> },
    StopMonitor,
    AppendScore { store: Seq<char>, datetime: Seq<char>, score: Seq<char> },
    ReportScoreError { error: ScoreError },
    CopyLog { from: Seq<char>, to: Seq<char> },
    Commit { command: Seq<char> },
    Finish,
    Abort,
}

impl View for Action {
    type V = ActionView;

    open spec fn view(&self) -> ActionView {
        match self {
            Action::TruncateLog { path } => ActionView::TruncateLog { path: path@ },
            Action::StartMonitor { program, args, output } => ActionView::StartMonitor {
                program: program@,
                args: lines_view(args@),
                output: output@,
            },
            Action::RunBenchmark { command } => ActionView::RunBenchmark { command: command@ },
            Action::StopMonitor => ActionView::StopMonitor,
            Action::AppendScore { store, record } => ActionView::AppendScore {
                store: store@,
                datetime: record.datetime@,
                score: record.score@,
            },
            Action::ReportScoreError { error } => ActionView::ReportScoreError { error: *error },
            Action::CopyLog { from, to } => ActionView::CopyLog { from: from@, to: to@ },
            Action::Commit { command } => ActionView::Commit { command: command@ },
            Action::Finish => ActionView::Finish,
            Action::Abort => ActionView::Abort,
        }
    }
}

/// The state of a run, as its contracts see it.
pub struct RunView {
    pub access_log: bool,
    pub slow_log: bool,
    pub monitor: bool,
    pub commit: bool,
    pub project_root: Seq<char>,
    pub command: Seq<char>,
    pub pattern: Seq<char>,
    pub access_path: Seq<char>,
    pub slow_path: Seq<char>,
    pub run_id: Seq<char>,
    pub stage: Stage,
    pub monitor_started: bool,
    pub access_reset: bool,
    pub slow_reset: bool,
    pub aborting: bool,
    pub outcome: Option<Result<Option<Seq<char>>, ScoreError>>,
}

/// An outcome that the score stage acts on: a score, or an error to report.
pub open spec fn is_reportable(outcome: Option<Result<Option<Seq<char>>, ScoreError>>) -> bool {
    outcome is Some && outcome != Some(Ok::<Option<Seq<char>>, ScoreError>(None))
}

/// The first stage from rank `from` on that the run takes part in.
pub open spec fn stage_from(v: RunView, from: nat) -> Stage {
    if from <= 0 && v.access_log {
        Stage::ResetAccessLog
    } else if from <= 1 && v.slow_log {
        Stage::ResetSlowLog
    } else if from <= 2 && v.monitor {
        Stage::StartMonitor
    } else if from <= 3 {
        Stage::RunBenchmark
    } else if from <= 4 && v.monitor_started {
        Stage::StopMonitor
    } else if v.aborting {
        Stage::Aborted
    } else if from <= 5 && is_reportable(v.outcome) {
        Stage::RecordScore
    } else if from <= 6 && v.access_log && v.access_reset {
        Stage::ArchiveAccessLog
    } else if from <= 7 && v.slow_log && v.slow_reset {
        Stage::ArchiveSlowLog
    } else if from <= 8 && v.commit {
        Stage::Commit
    } else {
        Stage::Finished
    }
}

/// What the event tells of the stage it answers.
pub open spec fn absorb(v: RunView, e: EventView) -> RunView {
    let ok = !(e is Failed);
    match v.stage {
        Stage::ResetAccessLog => RunView { access_reset: ok, ..v },
        Stage::ResetSlowLog => RunView { slow_reset: ok, ..v },
        Stage::StartMonitor => RunView { monitor_started: ok, ..v },
        Stage::RunBenchmark => match e {
            EventView::Failed => RunView { aborting: true, ..v },
            EventView::Output(lines) => RunView {
                outcome: Some(extraction(v.pattern, lines)),
                ..v
            },
            EventView::Done => RunView {
                outcome: Some(extraction(v.pattern, Seq::empty())),
                ..v
            },
        },
        _ => v,
    }
}

/// Whether the event ends the run at once: the monitor could not be
/// started, or the results store could not be written.
pub open spec fn is_fatal(v: RunView, e: EventView) -> bool {
    &&& e is Failed
    &&& {
        ||| v.stage == Stage::StartMonitor
        ||| (v.stage == Stage::RecordScore && v.outcome matches Some(Ok(Some(_))))
    }
}

/// The state after the driver reports `e` on the current stage.
#[verifier::opaque]
pub open spec fn run_step(v: RunView, e: EventView) -> RunView {
    if is_terminal(v.stage) {
        v
    } else if is_fatal(v, e) {
        RunView { stage: Stage::Aborted, ..absorb(v, e) }
    } else {
        let u = absorb(v, e);
        RunView { stage: stage_from(u, rank(v.stage) + 1), ..u }
    }
}

/// The state of a run before any action.
pub open spec fn run_start(
    opts: BenchmarkOpts,
    project_root: Seq<char>,
    command: Seq<char>,
    pattern: Seq<char>,
    access_path: Seq<char>,
    slow_path: Seq<char>,
    run_id: Seq<char>,
) -> RunView {
    let v = RunView {
        access_log: opts.access_log,
        slow_log: opts.slow_log,
        monitor: opts.vmstat,
        commit: opts.commit,
        project_root,
        command,
        pattern,
        access_path,
        slow_path,
        run_id,
        stage: Stage::Finished,
        monitor_started: false,
        access_reset: false,
        slow_reset: false,
        aborting: false,
        outcome: None,
    };
    RunView { stage: stage_from(v, 0), ..v }
}

pub open spec fn monitor_program() -> Seq<char> {
    "vmstat"@
}

/// The monitor's arguments: timestamps on each line, and the sampling
/// interval in seconds.
pub open spec fn monitor_args() -> Seq<Seq<char>> {
    seq!["-t"@, "1"@]
}

pub open spec fn monitor_output(v: RunView) -> Seq<char> {
    joined(v.project_root, "out/vmstat_"@ + v.run_id + ".txt"@)
}

pub open spec fn store_path(v: RunView) -> Seq<char> {
    joined(v.project_root, "out/score.csv"@)
}

pub open spec fn access_archive(v: RunView) -> Seq<char> {
    joined(v.project_root, "out/access_"@ + v.run_id + ".log"@)
}

pub open spec fn slow_archive(v: RunView) -> Seq<char> {
    joined(v.project_root, "out/slow_"@ + v.run_id + ".log"@)
}

pub open spec fn commit_command(run_id: Seq<char>) -> Seq<char> {
    "git add out; git commit -m 'benchmark "@ + run_id + "';"@
}

/// The action that the run hands out in state `v`.
#[verifier::opaque]
pub open spec fn action_of(v: RunView) -> ActionView {
    match v.stage {
        Stage::ResetAccessLog => ActionView::TruncateLog { path: v.access_path },
        Stage::ResetSlowLog => ActionView::TruncateLog { path: v.slow_path },
        Stage::StartMonitor => ActionView::StartMonitor {
            program: monitor_program(),
            args: monitor_args(),
            output: monitor_output(v),
        },
        Stage::RunBenchmark => ActionView::RunBenchmark { command: v.command },
        Stage::StopMonitor => ActionView::StopMonitor,
        Stage::RecordScore => match v.outcome {
            Some(Ok(Some(s))) => ActionView::AppendScore {
                store: store_path(v),
                datetime: v.run_id,
                score: s,
            },
            Some(Err(e)) => ActionView::ReportScoreError { error: e },
            _ => ActionView::Finish,
        },
        Stage::ArchiveAccessLog => ActionView::CopyLog {
            from: v.access_path,
            to: access_archive(v),
        },
        Stage::ArchiveSlowLog => ActionView::CopyLog { from: v.slow_path, to: slow_archive(v) },
        Stage::Commit => ActionView::Commit { command: commit_command(v.run_id) },
        Stage::Finished => ActionView::Finish,
        Stage::Aborted => ActionView::Abort,
    }
}

pub open spec fn outcome_of(o: Option<Result<Option<Score>, ScoreError>>) -> Option<
    Result<Option<Seq<char>>, ScoreError>,
> {
    match o {
        None => None,
        Some(r) => Some(outcome_view(r)),
    }
}

fn stage_rank(s: Stage) -> (r: u8)
    ensures
        r == rank(s),
{
    match s {
        Stage::ResetAccessLog => 0,
        Stage::ResetSlowLog => 1,
        Stage::StartMonitor => 2,
        Stage::RunBenchmark => 3,
        Stage::StopMonitor => 4,
        Stage::RecordScore => 5,
        Stage::ArchiveAccessLog => 6,
        Stage::ArchiveSlowLog => 7,
        Stage::Commit => 8,
        Stage::Finished => 9,
        Stage::Aborted => 10,
    }
}

/// A benchmark run in progress.
pub struct BenchmarkRun {
    options: BenchmarkOpts,
    project_root: String,
    command: String,
    pattern: String,
    access_path: String,
    slow_path: String,
    run_id: String,
    stage: Stage,
    monitor_started: bool,
    access_reset: bool,
    slow_reset: bool,
    aborting: bool,
    outcome: Option<Result<Option<Score>, ScoreError>>,
}

impl View for BenchmarkRun {
    type V = RunView;

    closed spec fn view(&self) -> RunView {
        RunView {
            access_log: self.options.access_log,
            slow_log: self.options.slow_log,
            monitor: self.options.vmstat,
            commit: self.options.commit,
            project_root: self.project_root@,
            command: self.command@,
            pattern: self.pattern@,
            access_path: self.access_path@,
            slow_path: self.slow_path@,
            run_id: self.run_id@,
            stage: self.stage,
            monitor_started: self.monitor_started,
            access_reset: self.access_reset,
            slow_reset: self.slow_reset,
            aborting: self.aborting,
            outcome: outcome_of(self.outcome),
        }
    }
}

fn joined_with_id(root: &str, head: &str, run_id: &str, tail: &str) -> (r: String)
    ensures
        r@ == joined(root@, head@ + run_id@ + tail@),
{
    let mut name = head.to_string();
    name.append(run_id);
    name.append(tail);
    join_path(root, name.as_str())
}

impl BenchmarkRun {
    /// A run of the configured benchmark with these options, all of whose
    /// artifacts are named after `run_id`.
    pub fn new(config: &Config, opts: BenchmarkOpts, run_id: String) -> (r: BenchmarkRun)
        ensures
            r@ == run_start(
                opts,
                config.project_root@,
                config.benchmark_command@,
                config.benchmark_score_regex@,
                config.nginx_access_log@,
                config.mysql_slow_log@,
                run_id@,
            ),
            is_fresh(r@),
    {
        let mut run = BenchmarkRun {
            options: opts,
            project_root: config.project_root.clone(),
            command: config.benchmark_command.clone(),
            pattern: config.benchmark_score_regex.clone(),
            access_path: config.nginx_access_log.clone(),
            slow_path: config.mysql_slow_log.clone(),
            run_id,
            stage: Stage::Finished,
            monitor_started: false,
            access_reset: false,
            slow_reset: false,
            aborting: false,
            outcome: None,
        };
        run.stage = run.stage_from(0);
        run
    }

    fn stage_from(&self, from: u8) -> (s: Stage)
        ensures
            s == stage_from(self@, from as nat),
    {
        let reportable = match &self.outcome {
            Some(Ok(None)) => false,
            Some(_) => true,
            None => false,
        };
        if from <= 0 && self.options.access_log {
            Stage::ResetAccessLog
        } else if from <= 1 && self.options.slow_log {
            Stage::ResetSlowLog
        } else if from <= 2 && self.options.vmstat {
            Stage::StartMonitor
        } else if from <= 3 {
            Stage::RunBenchmark
        } else if from <= 4 && self.monitor_started {
            Stage::StopMonitor
        } else if self.aborting {
            Stage::Aborted
        } else if from <= 5 && reportable {
            Stage::RecordScore
        } else if from <= 6 && self.options.access_log && self.access_reset {
            Stage::ArchiveAccessLog
        } else if from <= 7 && self.options.slow_log && self.slow_reset {
            Stage::ArchiveSlowLog
        } else if from <= 8 && self.options.commit {
            Stage::Commit
        } else {
            Stage::Finished
        }
    }

    /// The stage whose action is handed out now.
    pub fn stage(&self) -> (s: Stage)
        ensures
            s == self@.stage,
    {
        self.stage
    }

    /// The run's identity, which names all of its artifacts.
    pub fn run_id(&self) -> (r: &str)
        ensures
            r@ == self@.run_id,
    {
        self.run_id.as_str()
    }

    /// The action to carry out now.
    pub fn action(&self) -> (a: Action)
        ensures
            a@ == action_of(self@),
    {
        reveal(action_of);
        match self.stage {
            Stage::ResetAccessLog => Action::TruncateLog { path: self.access_path.clone() },
            Stage::ResetSlowLog => Action::TruncateLog { path: self.slow_path.clone() },
            Stage::StartMonitor => {
                let mut args: Vec<String> = Vec::new();
                args.push(String::from_str("-t"));
                args.push(String::from_str("1"));
                assert(lines_view(args@) =~= monitor_args());
                Action::StartMonitor {
                    program: String::from_str("vmstat"),
                    args,
                    output: joined_with_id(
                        self.project_root.as_str(),
                        "out/vmstat_",
                        self.run_id.as_str(),
                        ".txt",
                    ),
                }
            },
            Stage::RunBenchmark => Action::RunBenchmark { command: self.command.clone() },
            Stage::StopMonitor => Action::StopMonitor,
            Stage::RecordScore => match &self.outcome {
                Some(Ok(Some(score))) => Action::AppendScore {
                    store: join_path(self.project_root.as_str(), "out/score.csv"),
                    record: ScoreRecord { datetime: self.run_id.clone(), score: score.clone() },
                },
                Some(Err(e)) => Action::ReportScoreError { error: *e },
                _ => Action::Finish,
            },
            Stage::ArchiveAccessLog => Action::CopyLog {
                from: self.access_path.clone(),
                to: joined_with_id(
                    self.project_root.as_str(),
                    "out/access_",
                    self.run_id.as_str(),
                    ".log",
                ),
            },
            Stage::ArchiveSlowLog => Action::CopyLog {
                from: self.slow_path.clone(),
                to: joined_with_id(
                    self.project_root.as_str(),
                    "out/slow_",
                    self.run_id.as_str(),
                    ".log",
                ),
            },
            Stage::Commit => {
                let mut command = String::from_str("git add out; git commit -m 'benchmark ");
                command.append(self.run_id.as_str());
                command.append("';");
                Action::Commit { command }
            },
            Stage::Finished => Action::Finish,
            Stage::Aborted => Action::Abort,
        }
    }

    /// Takes in what the driver reports on the current action, and moves
    /// to the next stage.
    pub fn handle(&mut self, event: Event)
        ensures
            final(self)@ == run_step(old(self)@, event@),
    {
        reveal(run_step);
        let stage = self.stage;
        if stage == Stage::Finished || stage == Stage::Aborted {
            return;
        }
        let failed = match &event {
            Event::Failed => true,
            _ => false,
        };
        let writes_score = match &self.outcome {
            Some(Ok(Some(_))) => true,
            _ => false,
        };
        match stage {
            Stage::ResetAccessLog => {
                self.access_reset = !failed;
            },
            Stage::ResetSlowLog => {
                self.slow_reset = !failed;
            },
            Stage::StartMonitor => {
                self.monitor_started = !failed;
            },
            Stage::RunBenchmark => match event {
                Event::Failed => {
                    self.aborting = true;
                },
                Event::Output(lines) => {
                    self.outcome = Some(extract_score(self.pattern.as_str(), &lines));
                },
                Event::Done => {
                    let lines: Vec<String> = Vec::new();
                    assert(lines_view(lines@) =~= Seq::<Seq<char>>::empty());
                    self.outcome = Some(extract_score(self.pattern.as_str(), &lines));
                },
            },
            _ => {},
        }
        if failed && (stage == Stage::StartMonitor || (stage == Stage::RecordScore
            && writes_score)) {
            self.stage = Stage::Aborted;
        } else {
            self.stage = self.stage_from(stage_rank(stage) + 1);
        }
    }
}

/// The states a run passes through as the events come in: the first is
/// `v`, and each next one answers one event.
#[verifier::opaque]
pub open spec fn states_after(v: RunView, events: Seq<EventView>) -> Seq<RunView>
    decreases events.len(),
{
    if events.len() == 0 {
        seq![v]
    } else {
        let before = states_after(v, events.drop_last());
        before.push(run_step(before.last(), events.last()))
    }
}

/// A run that has handed out no action yet and learnt nothing.
pub open spec fn is_fresh(v: RunView) -> bool {
    &&& v.stage == stage_from(v, 0)
    &&& !v.monitor_started
    &&& !v.access_reset
    &&& !v.slow_reset
    &&& !v.aborting
    &&& v.outcome is None
}

/// Same options, settings and identity.
pub open spec fn same_setup(a: RunView, b: RunView) -> bool {
    &&& a.access_log == b.access_log
    &&& a.slow_log == b.slow_log
    &&& a.monitor == b.monitor
    &&& a.commit == b.commit
    &&& a.project_root == b.project_root
    &&& a.command == b.command
    &&& a.pattern == b.pattern
    &&& a.access_path == b.access_path
    &&& a.slow_path == b.slow_path
    &&& a.run_id == b.run_id
}

proof fn lemma_states(v: RunView, events: Seq<EventView>)
    ensures
        states_after(v, events).len() == events.len() + 1,
        states_after(v, events)[0] == v,
        forall|k: int|
            0 <= k < events.len() ==> #[trigger] states_after(v, events)[k + 1] == run_step(
                states_after(v, events)[k],
                events[k],
            ),
        forall|k: int|
            0 <= k <= events.len() ==> same_setup(#[trigger] states_after(v, events)[k], v),
    decreases events.len(),
{
    reveal(states_after);    if events.len() > 0 {
        let rest = events.drop_last();
        lemma_states(v, rest);
        let before = states_after(v, rest);
        let s = states_after(v, events);
        assert forall|k: int| 0 <= k < events.len() implies #[trigger] s[k + 1] == run_step(
            s[k],
            events[k],
        ) by {
            if k < rest.len() {
                assert(before[k + 1] == run_step(before[k], rest[k]));
            }
        }
        lemma_step_rank(before.last(), events.last());
        assert forall|k: int| 0 <= k <= events.len() implies same_setup(#[trigger] s[k], v) by {
            if k < events.len() {
                assert(s[k] == before[k]);
            }
        }
    }
}

proof fn lemma_next(v: RunView, events: Seq<EventView>, k: int)
    requires
        0 <= k < events.len(),
    ensures
        states_after(v, events)[k + 1] == run_step(states_after(v, events)[k], events[k]),
{
    lemma_states(v, events);
}

proof fn lemma_states_len(v: RunView, events: Seq<EventView>)
    ensures
        states_after(v, events).len() == events.len() + 1,
{
    lemma_states(v, events);
}

/// From a stage that is not the last, each step goes to a later stage; a
/// run that has ended stays as it is.
proof fn lemma_step_rank(v: RunView, e: EventView)
    ensures
        is_terminal(v.stage) ==> run_step(v, e) == v,
        !is_terminal(v.stage) ==> rank(v.stage) < rank(run_step(v, e).stage),
        same_setup(run_step(v, e), v),
{
    reveal(run_step);}

proof fn lemma_step_facts(v: RunView, e: EventView)
    ensures
        v.stage != Stage::RunBenchmark ==> run_step(v, e).outcome == v.outcome,
        v.stage == Stage::RunBenchmark ==> (e matches EventView::Output(lines) ==> run_step(
            v,
            e,
        ).outcome == Some(extraction(v.pattern, lines))),
        run_step(v, e).access_reset ==> v.access_reset || (v.stage == Stage::ResetAccessLog
            && !(e is Failed)),
        run_step(v, e).slow_reset ==> v.slow_reset || (v.stage == Stage::ResetSlowLog && !(
        e is Failed)),
        run_step(v, e).stage == Stage::ArchiveAccessLog ==> run_step(v, e).access_reset,
        run_step(v, e).stage == Stage::ArchiveSlowLog ==> run_step(v, e).slow_reset,
{
    reveal(run_step);
}

/// The action follows from the stage, for the stages that the laws name.
proof fn lemma_action_stage(v: RunView)
    ensures
        action_of(v) == ActionView::StopMonitor ==> v.stage == Stage::StopMonitor,
        v.stage == Stage::StopMonitor ==> action_of(v) == ActionView::StopMonitor,
        action_of(v) is AppendScore ==> v.stage == Stage::RecordScore && v.outcome matches Some(
            Ok(Some(_)),
        ),
        action_of(v) is CopyLog ==> {
            ||| v.stage == Stage::ArchiveAccessLog && action_of(v)->CopyLog_from == v.access_path
            ||| v.stage == Stage::ArchiveSlowLog && action_of(v)->CopyLog_from == v.slow_path
        },
        v.stage == Stage::ResetAccessLog ==> action_of(v) == (ActionView::TruncateLog {
            path: v.access_path,
        }),
        v.stage == Stage::ResetSlowLog ==> action_of(v) == (ActionView::TruncateLog {
            path: v.slow_path,
        }),
{
    reveal(action_of);
}

proof fn lemma_rank_grows(v: RunView, events: Seq<EventView>, i: int, j: int)
    requires
        0 <= i < j <= events.len(),
    ensures
        is_terminal(states_after(v, events)[i].stage) ==> states_after(v, events)[j]
            == states_after(v, events)[i],
        !is_terminal(states_after(v, events)[i].stage) ==> rank(states_after(v, events)[i].stage)
            < rank(states_after(v, events)[j].stage),
    decreases j - i,
{
    lemma_states(v, events);
    let s = states_after(v, events);
    lemma_step_rank(s[j - 1], events[j - 1]);
    assert(s[(j - 1) + 1] == run_step(s[j - 1], events[j - 1]));
    if i < j - 1 {
        lemma_rank_grows(v, events, i, j - 1);
    }
}

/// A stage other than the last two is visited at most once.
proof fn lemma_visited_once(v: RunView, events: Seq<EventView>, i: int, j: int)
    requires
        0 <= i <= events.len(),
        0 <= j <= events.len(),
        states_after(v, events)[i].stage == states_after(v, events)[j].stage,
        !is_terminal(states_after(v, events)[i].stage),
    ensures
        i == j,
{
    if i < j {
        lemma_rank_grows(v, events, i, j);
    } else if j < i {
        lemma_rank_grows(v, events, j, i);
    }
}

proof fn lemma_start_then_run(v: RunView, e: EventView)
    requires
        v.stage == Stage::StartMonitor,
        !(e is Failed),
    ensures
        run_step(v, e).stage == Stage::RunBenchmark,
        run_step(v, e).monitor_started,
{
    reveal(run_step);}

proof fn lemma_run_then_stop(v: RunView, e: EventView)
    requires
        v.stage == Stage::RunBenchmark,
        v.monitor_started,
    ensures
        run_step(v, e).stage == Stage::StopMonitor,
{
    reveal(run_step);}

proof fn lemma_stop_after_run(v: RunView, e: EventView)
    requires
        run_step(v, e).stage == Stage::StopMonitor,
    ensures
        v.stage == Stage::RunBenchmark,
{
    reveal(run_step);}

proof fn lemma_stop_requested(v: RunView, events: Seq<EventView>, k: int)
    requires
        is_fresh(v),
        0 <= k < events.len(),
        states_after(v, events)[k].stage == Stage::StartMonitor,
        !(events[k] is Failed),
        is_terminal(states_after(v, events).last().stage),
    ensures
        exists|j: int|
            k < j <= events.len() && #[trigger] action_of(states_after(v, events)[j])
                == ActionView::StopMonitor,
{
    let s = states_after(v, events);
    let n = events.len() as int;
    lemma_next(v, events, k);
    lemma_start_then_run(s[k], events[k]);
    lemma_states_len(v, events);
    assert(k + 1 < n) by {
        if k + 1 == n {
            assert(s.last() == s[k + 1]);
        }
    }
    lemma_next(v, events, k + 1);
    lemma_run_then_stop(s[k + 1], events[k + 1]);
    lemma_action_stage(s[k + 2]);
}

/// Once the monitor has been started, a run that reaches its end asks
/// exactly once for the monitor to stop, and asks it right after the
/// benchmark command, whatever that command reported, failure included.
pub proof fn lemma_monitor_stopped_once(v: RunView, events: Seq<EventView>, k: int)
    requires
        is_fresh(v),
        0 <= k < events.len(),
        states_after(v, events)[k].stage == Stage::StartMonitor,
        !(events[k] is Failed),
        is_terminal(states_after(v, events).last().stage),
    ensures
        exists|j: int|
            k < j <= events.len() && #[trigger] action_of(states_after(v, events)[j])
                == ActionView::StopMonitor,
        forall|i: int, j: int|
            0 <= i <= events.len() && 0 <= j <= events.len()
                && #[trigger] action_of(states_after(v, events)[i]) == ActionView::StopMonitor
                && #[trigger] action_of(states_after(v, events)[j])
                == ActionView::StopMonitor ==> i == j,
        forall|j: int|
            0 <= j <= events.len() && #[trigger] action_of(states_after(v, events)[j])
                == ActionView::StopMonitor ==> j > 0 && states_after(v, events)[j - 1].stage
                == Stage::RunBenchmark,
{
    lemma_stop_requested(v, events, k);
    lemma_stops(v, events);
}

proof fn lemma_stop_unique(v: RunView, events: Seq<EventView>, i: int, j: int)
    requires
        0 <= i <= events.len(),
        0 <= j <= events.len(),
        action_of(states_after(v, events)[i]) == ActionView::StopMonitor,
        action_of(states_after(v, events)[j]) == ActionView::StopMonitor,
    ensures
        i == j,
{
    let s = states_after(v, events);
    lemma_action_stage(s[i]);
    lemma_action_stage(s[j]);
    lemma_visited_once(v, events, i, j);
}

proof fn lemma_stop_follows_run(v: RunView, events: Seq<EventView>, j: int)
    requires
        is_fresh(v),
        0 <= j <= events.len(),
        action_of(states_after(v, events)[j]) == ActionView::StopMonitor,
    ensures
        j > 0,
        states_after(v, events)[j - 1].stage == Stage::RunBenchmark,
{
    lemma_states(v, events);
    let s = states_after(v, events);
    lemma_action_stage(s[j]);
    if j > 0 {
        assert(s[(j - 1) + 1] == run_step(s[j - 1], events[j - 1]));
        lemma_stop_after_run(s[j - 1], events[j - 1]);
    }
}

proof fn lemma_stops(v: RunView, events: Seq<EventView>)
    requires
        is_fresh(v),
    ensures
        forall|i: int, j: int|
            0 <= i <= events.len() && 0 <= j <= events.len()
                && #[trigger] action_of(states_after(v, events)[i]) == ActionView::StopMonitor
                && #[trigger] action_of(states_after(v, events)[j])
                == ActionView::StopMonitor ==> i == j,
        forall|j: int|
            0 <= j <= events.len() && #[trigger] action_of(states_after(v, events)[j])
                == ActionView::StopMonitor ==> j > 0 && states_after(v, events)[j - 1].stage
                == Stage::RunBenchmark,
{
    assert forall|i: int, j: int|
        0 <= i <= events.len() && 0 <= j <= events.len()
                && #[trigger] action_of(states_after(v, events)[i]) == ActionView::StopMonitor
                && #[trigger] action_of(states_after(v, events)[j])
            == ActionView::StopMonitor implies i == j by {
        lemma_stop_unique(v, events, i, j);
    }
    assert forall|j: int|
        0 <= j <= events.len() && #[trigger] action_of(states_after(v, events)[j])
            == ActionView::StopMonitor implies j > 0 && states_after(v, events)[j - 1].stage
            == Stage::RunBenchmark by {
        lemma_stop_follows_run(v, events, j);
    }
}

/// Where the benchmark output has no line that the pattern matches, the
/// run hands out no action that appends to the results store: the store
/// is left as it was.
pub proof fn lemma_no_match_no_record(v: RunView, events: Seq<EventView>, k: int)
    requires
        is_fresh(v),
        0 <= k < events.len(),
        states_after(v, events)[k].stage == Stage::RunBenchmark,
        events[k] matches EventView::Output(lines) && forall|i: int|
            0 <= i < lines.len() ==> !crate::score::matches_line(v.pattern, #[trigger] lines[i]),
    ensures
        forall|j: int|
            0 <= j <= events.len() ==> !(#[trigger] action_of(states_after(v, events)[j])
                is AppendScore),
{
    lemma_states(v, events);
    let s = states_after(v, events);
    let lines = events[k]->Output_0;
    crate::score::lemma_last_match(v.pattern, lines);
    assert(s[k + 1] == run_step(s[k], events[k]));
    lemma_step_facts(s[k], events[k]);
    let outcome = s[k + 1].outcome;
    assert(!(outcome matches Some(Ok(Some(_)))));
    assert forall|j: int| 0 <= j <= events.len() implies !(action_of(
        #[trigger] s[j],
    ) is AppendScore) by {
        lemma_action_stage(s[j]);
        if j < k {
            lemma_rank_grows(v, events, j, k);
        } else if j > k {
            lemma_outcome_kept(v, events, k, j);
        }
    }
}

proof fn lemma_outcome_kept(v: RunView, events: Seq<EventView>, k: int, j: int)
    requires
        0 <= k < j <= events.len(),
        states_after(v, events)[k].stage == Stage::RunBenchmark,
    ensures
        states_after(v, events)[j].outcome == states_after(v, events)[k + 1].outcome,
    decreases j - k,
{
    lemma_states(v, events);
    let s = states_after(v, events);
    if j > k + 1 {
        lemma_outcome_kept(v, events, k, j - 1);
        lemma_rank_grows(v, events, k, j - 1);
        assert(s[(j - 1) + 1] == run_step(s[j - 1], events[j - 1]));
        lemma_step_facts(s[j - 1], events[j - 1]);
    }
}

proof fn lemma_reset_seen(v: RunView, events: Seq<EventView>, j: int)
    requires
        is_fresh(v),
        0 <= j <= events.len(),
    ensures
        states_after(v, events)[j].access_reset ==> exists|i: int|
            0 <= i < j && (#[trigger] states_after(v, events)[i]).stage == Stage::ResetAccessLog
                && !(events[i] is Failed),
        states_after(v, events)[j].slow_reset ==> exists|i: int|
            0 <= i < j && (#[trigger] states_after(v, events)[i]).stage == Stage::ResetSlowLog
                && !(events[i] is Failed),
        states_after(v, events)[j].stage == Stage::ArchiveAccessLog ==> states_after(
            v,
            events,
        )[j].access_reset,
        states_after(v, events)[j].stage == Stage::ArchiveSlowLog ==> states_after(
            v,
            events,
        )[j].slow_reset,
    decreases j,
{
    lemma_states(v, events);
    let s = states_after(v, events);
    if j > 0 {
        lemma_reset_seen(v, events, j - 1);
        assert(s[(j - 1) + 1] == run_step(s[j - 1], events[j - 1]));
        lemma_step_facts(s[j - 1], events[j - 1]);
    }
}

/// A log is archived only after a reset of that same file succeeded, so
/// no archived copy holds what the log held before the reset.
pub proof fn lemma_archive_after_reset(v: RunView, events: Seq<EventView>, j: int)
    requires
        is_fresh(v),
        0 <= j <= events.len(),
        (action_of(states_after(v, events)[j]) is CopyLog),
    ensures
        exists|i: int|
            0 <= i < j && #[trigger] action_of(states_after(v, events)[i])
                == (ActionView::TruncateLog {
                path: action_of(states_after(v, events)[j])->CopyLog_from,
            }) && !(events[i] is Failed),
{
    lemma_states(v, events);
    let s = states_after(v, events);
    lemma_reset_seen(v, events, j);
    lemma_action_stage(s[j]);
    if s[j].stage == Stage::ArchiveAccessLog {
        let i = choose|i: int|
            0 <= i < j && (#[trigger] s[i]).stage == Stage::ResetAccessLog && !(
            events[i] is Failed);
        assert(same_setup(s[i], v) && same_setup(s[j], v));
        lemma_action_stage(s[i]);
    } else {
        let i = choose|i: int|
            0 <= i < j && (#[trigger] s[i]).stage == Stage::ResetSlowLog && !(
            events[i] is Failed);
        assert(same_setup(s[i], v) && same_setup(s[j], v));
        lemma_action_stage(s[i]);
    }
}

/// Every artifact of a run carries the run's identity: the monitor's output
/// file, the archived logs and the commit message embed it, and the score
/// record is dated with it.
pub proof fn lemma_artifacts_named_by_run(v: RunView, events: Seq<EventView>, j: int)
    requires
        0 <= j <= events.len(),
    ensures
        match action_of(states_after(v, events)[j]) {
            ActionView::StartMonitor { output, .. } => embeds(output, v.run_id),
            ActionView::CopyLog { to, .. } => embeds(to, v.run_id),
            ActionView::Commit { command } => embeds(command, v.run_id),
            ActionView::AppendScore { datetime, .. } => datetime == v.run_id,
            _ => true,
        },
{
    reveal(action_of);
    lemma_states(v, events);
    let s = states_after(v, events)[j];
    assert(same_setup(s, v));
    let root = v.project_root;
    let sep: Seq<char> = if root.len() == 0 || root.last() == '/' {
        Seq::empty()
    } else {
        seq!['/']
    };
    match s.stage {
        Stage::StartMonitor => {
            lemma_embeds_middle(root + sep + "out/vmstat_"@, v.run_id, ".txt"@);
            assert(monitor_output(s) =~= root + sep + "out/vmstat_"@ + v.run_id + ".txt"@);
        },
        Stage::ArchiveAccessLog => {
            lemma_embeds_middle(root + sep + "out/access_"@, v.run_id, ".log"@);
            assert(access_archive(s) =~= root + sep + "out/access_"@ + v.run_id + ".log"@);
        },
        Stage::ArchiveSlowLog => {
            lemma_embeds_middle(root + sep + "out/slow_"@, v.run_id, ".log"@);
            assert(slow_archive(s) =~= root + sep + "out/slow_"@ + v.run_id + ".log"@);
        },
        Stage::Commit => {
            lemma_embeds_middle("git add out; git commit -m 'benchmark "@, v.run_id, "';"@);
        },
        _ => {},
    }
}

} // verus!
