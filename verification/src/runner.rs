//! The runner: what a run does next, from what has happened so far. The host
//! does what the runner asks for (lists directories, starts and stops
//! adapters, runs cases) and comes back with what came of it.

use crate::config::Config;
use crate::discovery::{bad_filter, cases, check_filter, select_cases};
use crate::error::{ErrorView, SqlnessError};
use crate::pattern::{is_match, is_pattern, regex_error, regex_matches};
use crate::text::{push_str, string_of, views};
use vstd::prelude::*;

verus! {

/// How `prettydiff` shows the change from `expected` to `actual`, line by
/// line.
pub uninterp spec fn diff_rendered(expected: Seq<char>, actual: Seq<char>) -> Seq<char>;

/// `prettydiff::diff_lines`, rendered as `prettydiff::basic::SliceChangeset`
/// displays its changes.
#[verifier::external_body]
pub(crate) fn render_diff(expected: &str, actual: &str) -> (r: String)
    ensures
        r@ == diff_rendered(expected@, actual@),
{
    let changes = prettydiff::diff_lines(expected, actual);
    let diff = changes.diff();
    format!("{}", prettydiff::basic::SliceChangeset { diff })
}

/// The output of a case beside what its result file held before the case
/// ran. It lives while the case is judged; what stays of it is the judgement
/// and the result file, which holds the output from then on.
#[derive(Debug)]
pub struct ReconciliationRecord {
    /// What the result file held.
    pub expected: String,
    /// What the case has written.
    pub actual: String,
}

impl ReconciliationRecord {
    /// The record of a case that has written `actual` where `expected` was
    /// expected.
    pub fn new(expected: String, actual: String) -> (r: ReconciliationRecord)
        ensures
            r.expected == expected,
            r.actual == actual,
    {
        ReconciliationRecord { expected, actual }
    }

    /// Whether the case passes: its output is, character by character, what
    /// was expected.
    pub open spec fn passes(self) -> bool {
        self.expected@ == self.actual@
    }

    /// Whether the case passes.
    pub fn passed(&self) -> (r: bool)
        ensures
            r == self.passes(),
    {
        crate::bindings::same_text(self.expected.as_str(), self.actual.as_str())
    }

    /// How the output differs from what was expected, for a case that does
    /// not pass.
    pub fn diff(&self) -> (r: Option<String>)
        ensures
            match r {
                Some(diff) => !self.passes() && diff@ == diff_rendered(
                    self.expected@,
                    self.actual@,
                ),
                None => self.passes(),
            },
    {
        if self.passed() {
            None
        } else {
            Some(render_diff(self.expected.as_str(), self.actual.as_str()))
        }
    }

    /// What the result file is to hold from now on: the output, whether the
    /// case passes or not.
    pub fn persisted(&self) -> (r: &String)
        ensures
            r@ == self.actual@,
    {
        &self.actual
    }

    /// What the runner is told of the case.
    pub fn outcome(&self) -> (event: Event)
        ensures
            event@ == if self.passes() {
                EventView::Passed
            } else {
                EventView::Differed
            },
    {
        if self.passed() {
            Event::Passed
        } else {
            Event::Differed
        }
    }
}

/// Where a run stands.
#[derive(Clone, Copy, Debug, PartialEq, Eq, Structural)]
pub enum Phase {
    /// Nothing has been asked for yet.
    Idle,
    /// The environments are being listed.
    Discovering,
    /// The adapter of the current environment is being started.
    Starting,
    /// The files of the current environment are being listed.
    Collecting,
    /// A case of the current environment is being run.
    Running,
    /// The adapter of the current environment is being stopped.
    Stopping,
    /// The run is over.
    Finished,
}

/// What has come of what the runner asked for.
#[derive(Debug)]
pub enum Event {
    /// Nothing yet: the run begins.
    Begin,
    /// The subdirectories of the case directory, by name, in the order in
    /// which they were found.
    Environments(Vec<String>),
    /// The adapter is ready.
    Started,
    /// The files below the environment's directory, by path, in the order in
    /// which they were found.
    Files(Vec<String>),
    /// The case ran, and its output is what was expected.
    Passed,
    /// The case ran, and its output is not what was expected.
    Differed,
    /// The adapter is released.
    Stopped,
    /// What was asked for could not be done.
    Failed(SqlnessError),
}

/// What has come of what the runner asked for, as a value of mathematics.
pub enum EventView {
    Begin,
    Environments(Seq<Seq<char>>),
    Started,
    Files(Seq<Seq<char>>),
    Passed,
    Differed,
    Stopped,
    Failed(ErrorView),
}

impl View for Event {
    type V = EventView;

    open spec fn view(&self) -> EventView {
        match *self {
            Event::Begin => EventView::Begin,
            Event::Environments(names) => EventView::Environments(views(names@)),
            Event::Started => EventView::Started,
            Event::Files(files) => EventView::Files(views(files@)),
            Event::Passed => EventView::Passed,
            Event::Differed => EventView::Differed,
            Event::Stopped => EventView::Stopped,
            Event::Failed(e) => EventView::Failed(e@),
        }
    }
}

/// What the runner makes of an event before it decides: the environments
/// and the cases are those that the filters let through, in the order in
/// which they run.
#[derive(Debug)]
pub enum Input {
    /// The environments that the run covers.
    Environments(Vec<String>),
    /// The adapter is ready.
    Started,
    /// The cases of the current environment.
    Cases(Vec<String>),
    /// The case ran, and its output is what was expected.
    Passed,
    /// The case ran, and its output is not what was expected.
    Differed,
    /// The adapter is released.
    Stopped,
    /// What was asked for could not be done.
    Failed(SqlnessError),
    /// Something that was not asked for.
    Unexpected,
}

/// What the runner makes of an event, as a value of mathematics.
pub enum InputView {
    Environments(Seq<Seq<char>>),
    Started,
    Cases(Seq<Seq<char>>),
    Passed,
    Differed,
    Stopped,
    Failed(ErrorView),
    Unexpected,
}

impl View for Input {
    type V = InputView;

    open spec fn view(&self) -> InputView {
        match *self {
            Input::Environments(names) => InputView::Environments(views(names@)),
            Input::Started => InputView::Started,
            Input::Cases(found) => InputView::Cases(views(found@)),
            Input::Passed => InputView::Passed,
            Input::Differed => InputView::Differed,
            Input::Stopped => InputView::Stopped,
            Input::Failed(e) => InputView::Failed(e@),
            Input::Unexpected => InputView::Unexpected,
        }
    }
}

/// What the host is to do next.
#[derive(Debug)]
pub enum Command {
    /// List the subdirectories of `case_dir`; come back with
    /// `Environments`.
    Discover { case_dir: String },
    /// Start the adapter of the environment `env`, with the configuration
    /// file `config` if it exists; come back with `Started`.
    Start { env: String, config: String },
    /// List the files below `root`; come back with `Files`.
    Collect { root: String, follow_links: bool },
    /// Run the case `case`: read `case_file`, run its statements, put the
    /// output in `result_file` in place of what it held, and come back with
    /// `Passed` or `Differed`.
    RunCase { case: String, case_file: String, result_file: String },
    /// Release the adapter of the environment `env`; come back with
    /// `Stopped`.
    Stop { env: String },
    /// Nothing: the run is over, and this is how it ended.
    Done(Result<(), SqlnessError>),
}

/// What the host is to do next, as a value of mathematics.
pub enum CommandView {
    Discover { case_dir: Seq<char> },
    Start { env: Seq<char>, config: Seq<char> },
    Collect { root: Seq<char>, follow_links: bool },
    RunCase { case: Seq<char>, case_file: Seq<char>, result_file: Seq<char> },
    Stop { env: Seq<char> },
    Done(Result<(), ErrorView>),
}

impl View for Command {
    type V = CommandView;

    open spec fn view(&self) -> CommandView {
        match *self {
            Command::Discover { case_dir } => CommandView::Discover { case_dir: case_dir@ },
            Command::Start { env, config } => CommandView::Start { env: env@, config: config@ },
            Command::Collect { root, follow_links } => CommandView::Collect {
                root: root@,
                follow_links,
            },
            Command::RunCase { case, case_file, result_file } => CommandView::RunCase {
                case: case@,
                case_file: case_file@,
                result_file: result_file@,
            },
            Command::Stop { env } => CommandView::Stop { env: env@ },
            Command::Done(Ok(())) => CommandView::Done(Ok(())),
            Command::Done(Err(e)) => CommandView::Done(Err(e@)),
        }
    }
}

/// How far a run has come.
#[derive(Debug)]
pub struct Run {
    pub phase: Phase,
    /// The environments that the run covers, in their order.
    pub environments: Vec<String>,
    /// The place of the current environment among them.
    pub current: usize,
    /// The cases of the current environment, in the order in which they
    /// run.
    pub cases: Vec<String>,
    /// The place of the current case among them.
    pub next_case: usize,
    /// The cases that failed or could not be run, and the environments
    /// whose adapter or files failed, in the order in which it happened.
    pub offenders: Vec<String>,
    /// Why the run is given up, if it is.
    pub cause: Option<SqlnessError>,
}

/// How far a run has come, as a value of mathematics.
pub struct RunView {
    pub phase: Phase,
    pub environments: Seq<Seq<char>>,
    pub current: nat,
    pub cases: Seq<Seq<char>>,
    pub next_case: nat,
    pub offenders: Seq<Seq<char>>,
    pub cause: Option<ErrorView>,
}

impl View for Run {
    type V = RunView;

    open spec fn view(&self) -> RunView {
        RunView {
            phase: self.phase,
            environments: views(self.environments@),
            current: self.current as nat,
            cases: views(self.cases@),
            next_case: self.next_case as nat,
            offenders: views(self.offenders@),
            cause: match self.cause {
                Some(e) => Some(e@),
                None => None,
            },
        }
    }
}

impl RunView {
    /// The run of which nothing has happened yet.
    pub open spec fn idle() -> RunView {
        RunView {
            phase: Phase::Idle,
            environments: Seq::empty(),
            current: 0,
            cases: Seq::empty(),
            next_case: 0,
            offenders: Seq::empty(),
            cause: None,
        }
    }

    /// The name of the current environment.
    pub open spec fn env(self) -> Seq<char> {
        self.environments[self.current as int]
    }

    /// How the run ends: with the cause for which it was given up; else
    /// well if nothing failed, and with the number of what failed if
    /// something did.
    pub open spec fn outcome(self) -> Result<(), ErrorView> {
        match self.cause {
            Some(e) => Err(e),
            None => if self.offenders.len() == 0 {
                Ok(())
            } else {
                Err(ErrorView::RunFailed { count: self.offenders.len() })
            },
        }
    }

    /// The run is over.
    pub open spec fn finish(self) -> (RunView, CommandView) {
        (RunView { phase: Phase::Finished, ..self }, CommandView::Done(self.outcome()))
    }

    /// The run is given up for `cause`, unless it is given up already.
    pub open spec fn given_up(self, cause: ErrorView) -> RunView {
        RunView {
            cause: match self.cause {
                Some(e) => Some(e),
                None => Some(cause),
            },
            ..self
        }
    }
}

/// The names that are kept, in their order: those for which `keep` says
/// so.
pub open spec fn kept(names: Seq<Seq<char>>, keep: Seq<bool>) -> Seq<Seq<char>>
    decreases names.len(),
{
    if names.len() == 0 {
        Seq::empty()
    } else if names.len() <= keep.len() && keep[names.len() - 1] {
        kept(names.drop_last(), keep).push(names.last())
    } else {
        kept(names.drop_last(), keep)
    }
}

/// Whether the filter, a regular expression, matches each name.
pub open spec fn matched(names: Seq<Seq<char>>, filter: Seq<char>) -> Seq<bool> {
    Seq::new(names.len(), |i: int| regex_matches(filter, names[i]))
}

/// The environments that the filter lets through, in their order, or why
/// the filter is refused.
pub open spec fn admitted(names: Seq<Seq<char>>, filter: Seq<char>) -> Result<
    Seq<Seq<char>>,
    ErrorView,
> {
    match regex_error(filter) {
        Some(reason) => Err(bad_filter(filter, reason)),
        None => Ok(kept(names, matched(names, filter))),
    }
}

/// The path of `name` below `dir`.
pub open spec fn below(dir: Seq<char>, name: Seq<char>) -> Seq<char> {
    dir + seq!['/'] + name
}

/// The path with the extension `ext` behind it.
pub open spec fn with_extension(path: Seq<char>, ext: Seq<char>) -> Seq<char> {
    path + seq!['.'] + ext
}

/// The entrypoint of this crate: holds the configuration of a run and
/// decides its course.
#[derive(Debug)]
pub struct Runner {
    pub config: Config,
}

impl Runner {
    /// The runner of a run under `config`.
    pub fn new(config: Config) -> (r: Runner)
        ensures
            r.config == config,
    {
        Runner { config }
    }

    /// The run of which nothing has happened yet.
    pub fn start(&self) -> (run: Run)
        ensures
            run@ == RunView::idle(),
    {
        let run = Run {
            phase: Phase::Idle,
            environments: Vec::new(),
            current: 0,
            cases: Vec::new(),
            next_case: 0,
            offenders: Vec::new(),
            cause: None,
        };
        proof {
            assert(views(run.environments@) =~= Seq::empty());
            assert(views(run.cases@) =~= Seq::empty());
            assert(views(run.offenders@) =~= Seq::empty());
        }
        run
    }

    /// The path of the configuration file of the environment `env`.
    pub open spec fn env_config(self, env: Seq<char>) -> Seq<char> {
        below(below(self.config.case_dir@, env), self.config.env_config_file@)
    }

    /// The path of the configuration file of the environment `env`.
    pub fn read_env_config(&self, env: &str) -> (r: String)
        ensures
            r@ == self.env_config(env@),
    {
        let mut path: Vec<char> = Vec::new();
        push_str(&mut path, self.config.case_dir.as_str());
        path.push('/');
        push_str(&mut path, env);
        path.push('/');
        push_str(&mut path, self.config.env_config_file.as_str());
        proof {
            assert(path@ =~= self.env_config(env@));
        }
        string_of(&path)
    }

    /// Compare result, return None if them are the same, else return diff
    /// changes
    pub fn compare(&self, expected: &str, actual: &str) -> (r: Option<String>)
        ensures
            match r {
                Some(diff) => expected@ != actual@ && diff@ == diff_rendered(expected@, actual@),
                None => expected@ == actual@,
            },
    {
        ReconciliationRecord::new(expected.to_owned(), actual.to_owned()).diff()
    }

    /// The environment at `current` is entered, or the run is over where
    /// there is none.
    pub open spec fn enter(self, state: RunView) -> (RunView, CommandView) {
        if state.current < state.environments.len() {
            (
                RunView { phase: Phase::Starting, cases: Seq::empty(), next_case: 0, ..state },
                CommandView::Start { env: state.env(), config: self.env_config(state.env()) },
            )
        } else {
            state.finish()
        }
    }

    /// The case at `next_case` is run, or the adapter is stopped where there
    /// is none.
    pub open spec fn proceed(self, state: RunView) -> (RunView, CommandView) {
        if state.next_case < state.cases.len() {
            let case = state.cases[state.next_case as int];
            (
                RunView { phase: Phase::Running, ..state },
                CommandView::RunCase {
                    case,
                    case_file: with_extension(case, self.config.test_case_extension@),
                    result_file: with_extension(case, self.config.result_extension@),
                },
            )
        } else {
            self.leave(state)
        }
    }

    /// The adapter of the current environment is stopped.
    pub open spec fn leave(self, state: RunView) -> (RunView, CommandView) {
        (RunView { phase: Phase::Stopping, ..state }, CommandView::Stop { env: state.env() })
    }

    /// What follows when `offender` has failed for `cause` while the
    /// adapter is held: in a run that fails fast the adapter is stopped and
    /// the run given up; else the run goes on with the next case.
    pub open spec fn case_failed(self, state: RunView, cause: ErrorView) -> (
        RunView,
        CommandView,
    ) {
        let noted = RunView {
            offenders: state.offenders.push(state.cases[state.next_case as int]),
            ..state
        };
        if self.config.fail_fast {
            self.leave(noted.given_up(cause))
        } else {
            self.proceed(RunView { next_case: state.next_case + 1, ..noted })
        }
    }

    /// What follows when the current environment has failed for `cause`
    /// while no adapter is held: a run that fails fast is over; else the
    /// run goes on with the next environment.
    pub open spec fn env_failed(self, state: RunView, cause: ErrorView) -> (
        RunView,
        CommandView,
    ) {
        let noted = RunView { offenders: state.offenders.push(state.env()), ..state };
        if self.config.fail_fast {
            noted.given_up(cause).finish()
        } else {
            self.enter(RunView { current: state.current + 1, ..noted })
        }
    }

    /// What the runner makes of an event in a state: the names that come
    /// with it go through the filters, and what was not asked for in this
    /// state is marked as such.
    pub open spec fn resolved(self, state: RunView, event: EventView) -> InputView {
        match (state.phase, event) {
            (Phase::Discovering, EventView::Environments(names)) => match admitted(
                names,
                self.config.env_filter@,
            ) {
                Ok(found) => InputView::Environments(found),
                Err(e) => InputView::Failed(e),
            },
            (Phase::Discovering, EventView::Failed(e)) => InputView::Failed(e),
            (Phase::Starting, EventView::Started) => InputView::Started,
            (Phase::Starting, EventView::Failed(e)) => InputView::Failed(e),
            (Phase::Collecting, EventView::Files(files)) => if state.current
                < state.environments.len() {
                match cases(
                    state.env(),
                    files,
                    self.config.test_case_extension@,
                    self.config.test_filter@,
                ) {
                    Ok(found) => InputView::Cases(found),
                    Err(e) => InputView::Failed(e),
                }
            } else {
                InputView::Unexpected
            },
            (Phase::Collecting, EventView::Failed(e)) => InputView::Failed(e),
            (Phase::Running, EventView::Passed) => InputView::Passed,
            (Phase::Running, EventView::Differed) => InputView::Differed,
            (Phase::Running, EventView::Failed(e)) => InputView::Failed(e),
            (Phase::Stopping, EventView::Stopped) => InputView::Stopped,
            (Phase::Stopping, EventView::Failed(e)) => InputView::Failed(e),
            _ => InputView::Unexpected,
        }
    }

    /// What follows when the files of the current environment could not be
    /// listed: the environment has failed, and its adapter is stopped.
    pub open spec fn collect_failed(self, state: RunView, cause: ErrorView) -> (
        RunView,
        CommandView,
    ) {
        let noted = RunView { offenders: state.offenders.push(state.env()), ..state };
        if self.config.fail_fast {
            self.leave(noted.given_up(cause))
        } else {
            self.leave(noted)
        }
    }

    /// What the host is asked for while the run is in `state` and nothing
    /// has come of it yet.
    pub open spec fn pending(self, state: RunView) -> (RunView, CommandView) {
        match state.phase {
            Phase::Idle | Phase::Discovering => (
                RunView { phase: Phase::Discovering, ..state },
                CommandView::Discover { case_dir: self.config.case_dir@ },
            ),
            Phase::Starting => (
                state,
                CommandView::Start { env: state.env(), config: self.env_config(state.env()) },
            ),
            Phase::Collecting => (
                state,
                CommandView::Collect {
                    root: below(self.config.case_dir@, state.env()),
                    follow_links: self.config.follow_links,
                },
            ),
            Phase::Running => self.proceed(state),
            Phase::Stopping => self.leave(state),
            Phase::Finished => state.finish(),
        }
    }

    /// The decision: the state that follows `state` on `input`, and what
    /// the host is to do next. A host that comes back with something that was
    /// not asked for is asked again.
    pub open spec fn decided(self, state: RunView, input: InputView) -> (RunView, CommandView) {
        if state.phase == Phase::Idle || state.phase == Phase::Finished {
            self.pending(state)
        } else if state.phase != Phase::Discovering && state.current
            >= state.environments.len() {
            state.finish()
        } else if state.phase == Phase::Running && state.next_case >= state.cases.len() {
            self.leave(state)
        } else {
            match (state.phase, input) {
                (Phase::Discovering, InputView::Environments(names)) => self.enter(
                    RunView { environments: names, current: 0, ..state },
                ),
                (Phase::Discovering, InputView::Failed(e)) => state.given_up(e).finish(),
                (Phase::Starting, InputView::Started) => (
                    RunView { phase: Phase::Collecting, ..state },
                    CommandView::Collect {
                        root: below(self.config.case_dir@, state.env()),
                        follow_links: self.config.follow_links,
                    },
                ),
                (Phase::Starting, InputView::Failed(e)) => self.env_failed(state, e),
                (Phase::Collecting, InputView::Cases(found)) => self.proceed(
                    RunView { cases: found, next_case: 0, ..state },
                ),
                (Phase::Collecting, InputView::Failed(e)) => self.collect_failed(state, e),
                (Phase::Running, InputView::Passed) => self.proceed(
                    RunView { next_case: state.next_case + 1, ..state },
                ),
                (Phase::Running, InputView::Differed) => self.case_failed(
                    state,
                    ErrorView::RunFailed { count: 1 },
                ),
                (Phase::Running, InputView::Failed(e)) => self.case_failed(state, e),
                (Phase::Stopping, InputView::Stopped) => if state.cause is Some {
                    state.finish()
                } else {
                    self.enter(RunView { current: state.current + 1, ..state })
                },
                (Phase::Stopping, InputView::Failed(e)) => self.env_failed(state, e),
                _ => self.pending(state),
            }
        }
    }

    /// One move of the run: the state that follows `state` when the host
    /// comes back with `event`, and what the host is to do next.
    pub open spec fn next(self, state: RunView, event: EventView) -> (RunView, CommandView) {
        self.decided(state, self.resolved(state, event))
    }
}

/// The names that are kept, in their order: those for which `keep` says
/// so.
pub fn keep_names(names: &Vec<String>, keep: &Vec<bool>) -> (r: Vec<String>)
    ensures
        views(r@) == kept(views(names@), keep@),
{
    let mut r: Vec<String> = Vec::new();
    let mut i: usize = 0;
    proof {
        assert(views(names@).take(0) =~= Seq::empty());
        assert(views(r@) =~= Seq::empty());
    }
    while i < names.len()
        invariant
            i <= names.len(),
            views(r@) == kept(views(names@).take(i as int), keep@),
        decreases names.len() - i,
    {
        proof {
            assert(views(names@).take(i + 1).drop_last() =~= views(names@).take(i as int));
            assert(views(names@).take(i + 1).last() == names@[i as int]@);
        }
        if i < keep.len() && keep[i] {
            let ghost before = views(r@);
            let name = names[i].clone();
            r.push(name);
            proof {
                assert(views(r@) =~= before.push(name@));
            }
        }
        i = i + 1;
    }
    proof {
        assert(views(names@).take(i as int) =~= views(names@));
    }
    r
}

/// The environments that the filter lets through, in their order.
pub fn filter_names(names: &Vec<String>, filter: &str) -> (r: Result<Vec<String>, SqlnessError>)
    ensures
        match r {
            Ok(found) => admitted(views(names@), filter@) == Ok::<Seq<Seq<char>>, ErrorView>(
                views(found@),
            ),
            Err(e) => admitted(views(names@), filter@) == Err::<Seq<Seq<char>>, ErrorView>(e@),
        },
{
    match check_filter(filter) {
        Some(e) => {
            return Err(e);
        },
        None => {},
    }
    let mut keep: Vec<bool> = Vec::new();
    let mut i: usize = 0;
    while i < names.len()
        invariant
            i <= names.len(),
            is_pattern(filter@),
            keep@ == matched(views(names@), filter@).take(i as int),
        decreases names.len() - i,
    {
        let hit = match is_match(filter, names[i].as_str()) {
            Some(b) => b,
            None => false,
        };
        keep.push(hit);
        proof {
            assert(keep@ =~= matched(views(names@), filter@).take(i + 1));
        }
        i = i + 1;
    }
    proof {
        assert(matched(views(names@), filter@).take(i as int) =~= matched(
            views(names@),
            filter@,
        ));
    }
    Ok(keep_names(names, &keep))
}

/// The path of `name` below `dir`.
fn join_path(dir: &str, name: &str) -> (r: String)
    ensures
        r@ == below(dir@, name@),
{
    let mut path: Vec<char> = Vec::new();
    push_str(&mut path, dir);
    path.push('/');
    push_str(&mut path, name);
    proof {
        assert(path@ =~= below(dir@, name@));
    }
    string_of(&path)
}

/// The path with the extension `ext` behind it.
fn add_extension(path: &str, ext: &str) -> (r: String)
    ensures
        r@ == with_extension(path@, ext@),
{
    let mut out: Vec<char> = Vec::new();
    push_str(&mut out, path);
    out.push('.');
    push_str(&mut out, ext);
    proof {
        assert(out@ =~= with_extension(path@, ext@));
    }
    string_of(&out)
}

impl Run {
    /// Ends the run.
    fn finish(&mut self) -> (command: Command)
        ensures
            (final(self)@, command@) == old(self)@.finish(),
    {
        self.phase = Phase::Finished;
        let outcome = match &self.cause {
            Some(e) => Err(e.duplicate()),
            None => if self.offenders.len() == 0 {
                Ok(())
            } else {
                Err(SqlnessError::RunFailed { count: self.offenders.len() })
            },
        };
        Command::Done(outcome)
    }

    /// Gives the run up for `cause`, unless it is given up already.
    fn give_up(&mut self, cause: SqlnessError)
        ensures
            final(self)@ == old(self)@.given_up(cause@),
    {
        if self.cause.is_none() {
            self.cause = Some(cause);
        }
    }

    /// Counts `offender` among what failed.
    fn note(&mut self, offender: String)
        ensures
            final(self)@ == (RunView {
                offenders: old(self)@.offenders.push(offender@),
                ..old(self)@
            }),
    {
        let ghost before = views(self.offenders@);
        self.offenders.push(offender);
        proof {
            assert(views(self.offenders@) =~= before.push(offender@));
        }
    }
}

impl Runner {
    /// Enters the environment at `current`, or ends the run where there is
    /// none.
    fn enter_env(&self, run: &mut Run) -> (command: Command)
        ensures
            (final(run)@, command@) == self.enter(old(run)@),
    {
        if run.current < run.environments.len() {
            run.phase = Phase::Starting;
            run.cases = Vec::new();
            run.next_case = 0;
            proof {
                assert(views(run.cases@) =~= Seq::empty());
            }
            let env = run.environments[run.current].clone();
            let config = self.read_env_config(env.as_str());
            Command::Start { env, config }
        } else {
            run.finish()
        }
    }

    /// Asks for the adapter of the current environment to be stopped.
    fn leave_env(&self, run: &mut Run) -> (command: Command)
        requires
            old(run)@.current < old(run)@.environments.len(),
        ensures
            (final(run)@, command@) == self.leave(old(run)@),
    {
        assert(views(run.environments@).len() == run.environments.len());
        run.phase = Phase::Stopping;
        Command::Stop { env: run.environments[run.current].clone() }
    }

    /// Asks for the case at `next_case` to be run, or for the adapter to be
    /// stopped where there is none.
    fn run_next(&self, run: &mut Run) -> (command: Command)
        requires
            old(run)@.current < old(run)@.environments.len(),
        ensures
            (final(run)@, command@) == self.proceed(old(run)@),
    {
        assert(views(run.cases@).len() == run.cases.len());
        if run.next_case < run.cases.len() {
            run.phase = Phase::Running;
            let case = run.cases[run.next_case].clone();
            let case_file = add_extension(case.as_str(), self.config.test_case_extension.as_str());
            let result_file = add_extension(case.as_str(), self.config.result_extension.as_str());
            Command::RunCase { case, case_file, result_file }
        } else {
            self.leave_env(run)
        }
    }

    /// Counts the current case as failed and goes on as the run is
    /// configured.
    fn fail_case(&self, run: &mut Run, cause: SqlnessError) -> (command: Command)
        requires
            old(run)@.current < old(run)@.environments.len(),
            old(run)@.next_case < old(run)@.cases.len(),
        ensures
            (final(run)@, command@) == self.case_failed(old(run)@, cause@),
    {
        assert(views(run.cases@).len() == run.cases.len());
        let case = run.cases[run.next_case].clone();
        run.note(case);
        if self.config.fail_fast {
            run.give_up(cause);
            self.leave_env(run)
        } else {
            run.next_case = run.next_case + 1;
            self.run_next(run)
        }
    }

    /// Counts the current environment as failed while no adapter is held.
    fn fail_env(&self, run: &mut Run, cause: SqlnessError) -> (command: Command)
        requires
            old(run)@.current < old(run)@.environments.len(),
        ensures
            (final(run)@, command@) == self.env_failed(old(run)@, cause@),
    {
        assert(views(run.environments@).len() == run.environments.len());
        let env = run.environments[run.current].clone();
        run.note(env);
        if self.config.fail_fast {
            run.give_up(cause);
            run.finish()
        } else {
            run.current = run.current + 1;
            self.enter_env(run)
        }
    }

    /// Counts the current environment as failed while its adapter is held.
    fn fail_collect(&self, run: &mut Run, cause: SqlnessError) -> (command: Command)
        requires
            old(run)@.current < old(run)@.environments.len(),
        ensures
            (final(run)@, command@) == self.collect_failed(old(run)@, cause@),
    {
        assert(views(run.environments@).len() == run.environments.len());
        let env = run.environments[run.current].clone();
        run.note(env);
        if self.config.fail_fast {
            run.give_up(cause);
        }
        self.leave_env(run)
    }

    /// Asks for what is pending in the current state.
    fn ask_again(&self, run: &mut Run) -> (command: Command)
        requires
            old(run).phase == Phase::Idle || old(run).phase == Phase::Discovering || old(
                run,
            ).phase == Phase::Finished || old(run)@.current < old(run)@.environments.len(),
        ensures
            (final(run)@, command@) == self.pending(old(run)@),
    {
        assert(views(run.environments@).len() == run.environments.len());
        match run.phase {
            Phase::Idle | Phase::Discovering => {
                run.phase = Phase::Discovering;
                Command::Discover { case_dir: self.config.case_dir.clone() }
            },
            Phase::Starting => {
                let env = run.environments[run.current].clone();
                let config = self.read_env_config(env.as_str());
                Command::Start { env, config }
            },
            Phase::Collecting => Command::Collect {
                root: join_path(
                    self.config.case_dir.as_str(),
                    run.environments[run.current].as_str(),
                ),
                follow_links: self.config.follow_links,
            },
            Phase::Running => self.run_next(run),
            Phase::Stopping => self.leave_env(run),
            Phase::Finished => run.finish(),
        }
    }

    /// What the runner makes of an event: the names that come with it go
    /// through the filters.
    pub fn resolve(&self, run: &Run, event: Event) -> (input: Input)
        ensures
            input@ == self.resolved(run@, event@),
    {
        match (run.phase, event) {
            (Phase::Discovering, Event::Environments(names)) => {
                match filter_names(&names, self.config.env_filter.as_str()) {
                    Ok(found) => Input::Environments(found),
                    Err(e) => Input::Failed(e),
                }
            },
            (Phase::Discovering, Event::Failed(e)) => Input::Failed(e),
            (Phase::Starting, Event::Started) => Input::Started,
            (Phase::Starting, Event::Failed(e)) => Input::Failed(e),
            (Phase::Collecting, Event::Files(files)) => {
                assert(views(run.environments@).len() == run.environments.len());
                if run.current < run.environments.len() {
                    match select_cases(
                        run.environments[run.current].as_str(),
                        &files,
                        self.config.test_case_extension.as_str(),
                        self.config.test_filter.as_str(),
                    ) {
                        Ok(found) => Input::Cases(found),
                        Err(e) => Input::Failed(e),
                    }
                } else {
                    Input::Unexpected
                }
            },
            (Phase::Collecting, Event::Failed(e)) => Input::Failed(e),
            (Phase::Running, Event::Passed) => Input::Passed,
            (Phase::Running, Event::Differed) => Input::Differed,
            (Phase::Running, Event::Failed(e)) => Input::Failed(e),
            (Phase::Stopping, Event::Stopped) => Input::Stopped,
            (Phase::Stopping, Event::Failed(e)) => Input::Failed(e),
            _ => Input::Unexpected,
        }
    }

    /// The decision: takes what has come of what was asked for and says
    /// what the host is to do next.
    pub fn decide(&self, run: &mut Run, input: Input) -> (command: Command)
        ensures
            (final(run)@, command@) == self.decided(old(run)@, input@),
    {
        assert(views(run.environments@).len() == run.environments.len());
        assert(views(run.cases@).len() == run.cases.len());
        if run.phase == Phase::Idle || run.phase == Phase::Finished {
            return self.ask_again(run);
        }
        if run.phase != Phase::Discovering && run.current >= run.environments.len() {
            return run.finish();
        }
        if run.phase == Phase::Running && run.next_case >= run.cases.len() {
            return self.leave_env(run);
        }
        match (run.phase, input) {
            (Phase::Discovering, Input::Environments(names)) => {
                run.environments = names;
                run.current = 0;
                self.enter_env(run)
            },
            (Phase::Discovering, Input::Failed(e)) => {
                run.give_up(e);
                run.finish()
            },
            (Phase::Starting, Input::Started) => {
                run.phase = Phase::Collecting;
                Command::Collect {
                    root: join_path(
                        self.config.case_dir.as_str(),
                        run.environments[run.current].as_str(),
                    ),
                    follow_links: self.config.follow_links,
                }
            },
            (Phase::Starting, Input::Failed(e)) => self.fail_env(run, e),
            (Phase::Collecting, Input::Cases(found)) => {
                run.cases = found;
                run.next_case = 0;
                self.run_next(run)
            },
            (Phase::Collecting, Input::Failed(e)) => self.fail_collect(run, e),
            (Phase::Running, Input::Passed) => {
                run.next_case = run.next_case + 1;
                self.run_next(run)
            },
            (Phase::Running, Input::Differed) => self.fail_case(
                run,
                SqlnessError::RunFailed { count: 1 },
            ),
            (Phase::Running, Input::Failed(e)) => self.fail_case(run, e),
            (Phase::Stopping, Input::Stopped) => {
                if run.cause.is_some() {
                    run.finish()
                } else {
                    run.current = run.current + 1;
                    self.enter_env(run)
                }
            },
            (Phase::Stopping, Input::Failed(e)) => self.fail_env(run, e),
            _ => self.ask_again(run),
        }
    }

    /// One move of the run: takes what the host comes back with and says
    /// what it is to do next.
    pub fn advance(&self, run: &mut Run, event: Event) -> (command: Command)
        ensures
            (final(run)@, command@) == self.next(old(run)@, event@),
    {
        let input = self.resolve(run, event);
        self.decide(run, input)
    }
}

/// In a run that fails fast, the first case that fails or cannot be run
/// ends the run: the adapter of its environment is stopped, no other case is
/// run and no other environment started, and the run fails with the cause
/// of that case's failure, or with a count of one where its output differed.
pub proof fn lemma_fail_fast_gives_up(runner: Runner, state: RunView, event: EventView)
    requires
        runner.config.fail_fast,
        state.phase == Phase::Running,
        state.current < state.environments.len(),
        state.next_case < state.cases.len(),
        state.cause is None,
        event is Differed || event is Failed,
    ensures
        ({
            let cause = match event {
                EventView::Failed(e) => e,
                _ => ErrorView::RunFailed { count: 1 },
            };
            let (stopping, first) = runner.next(state, event);
            let (over, second) = runner.next(stopping, EventView::Stopped);
            &&& first == CommandView::Stop { env: state.env() }
            &&& second == CommandView::Done(Err(cause))
            &&& over.phase == Phase::Finished
            &&& forall|later: EventView| #[trigger]
                runner.next(over, later) == (over, CommandView::Done(Err(cause)))
        }),
{
}

/// In a run that does not fail fast, a case that fails or cannot be run is
/// counted, and the run goes on: with the next case of the environment, or,
/// behind the last one, with stopping its adapter.
pub proof fn lemma_collect_all_goes_on(runner: Runner, state: RunView, event: EventView)
    requires
        !runner.config.fail_fast,
        state.phase == Phase::Running,
        state.current < state.environments.len(),
        state.next_case < state.cases.len(),
        event is Passed || event is Differed || event is Failed,
    ensures
        ({
            let (after, command) = runner.next(state, event);
            &&& after.cause == state.cause
            &&& after.next_case == state.next_case + 1
            &&& after.offenders == if event is Passed {
                state.offenders
            } else {
                state.offenders.push(state.cases[state.next_case as int])
            }
            &&& if after.next_case < after.cases.len() {
                command matches CommandView::RunCase { case, .. } && case
                    == state.cases[state.next_case as int + 1]
            } else {
                command == CommandView::Stop { env: state.env() }
            }
        }),
{
}

/// While an adapter is held the run stays with its environment: whatever
/// the host comes back with, the run neither ends nor turns to another
/// environment before the adapter has been asked to stop.
pub proof fn lemma_adapter_is_stopped(runner: Runner, state: RunView, event: EventView)
    requires
        state.phase == Phase::Collecting || state.phase == Phase::Running,
        state.current < state.environments.len(),
    ensures
        ({
            let (after, command) = runner.next(state, event);
            &&& after.environments == state.environments
            &&& after.current == state.current
            &&& after.phase == Phase::Collecting || after.phase == Phase::Running || (after.phase
                == Phase::Stopping && command == CommandView::Stop { env: state.env() })
        }),
{
}

/// A run ends well exactly if nothing failed: no case, no environment, and
/// nothing for which the run was given up. Else it ends with the cause for
/// which it was given up, or with the number of what failed.
pub proof fn lemma_outcome(state: RunView)
    ensures
        state.outcome() is Ok <==> state.cause is None && state.offenders.len() == 0,
        state.cause matches Some(e) ==> state.outcome() == Err::<(), ErrorView>(e),
        state.cause is None && state.offenders.len() > 0 ==> state.outcome() == Err::<
            (),
            ErrorView,
        >(ErrorView::RunFailed { count: state.offenders.len() }),
{
}

} // verus!
