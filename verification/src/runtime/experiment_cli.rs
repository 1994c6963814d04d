//! What experiment commands ask for and what people are told about experiments.
use crate::error::{invalid, Error};
use crate::planning::validation;
use crate::planning::validation::unless;
use crate::protocol::CommandSpec;
use crate::runtime::experiment;
use crate::runtime::experiment::{
    ExperimentAttempt, ExperimentObservation, ExperimentRun, ExperimentState, Liveness,
    DEFAULT_TIMEOUT_MS,
};
use crate::runtime::experiment_events::{
    ExperimentEventData, ExperimentEventQuery, ExperimentHealthKind, ExperimentRuntimeEvent,
};
use crate::text;
use vstd::prelude::*;

verus! {

// ---------------------------------------------------------------------------
// Arguments
// ---------------------------------------------------------------------------

/// What is said of a flag without a value.
pub open spec fn needs_value(flag: Seq<char>) -> Seq<char> {
    flag + " needs a value"@
}

fn value<'a>(args: &[&'a str], i: usize) -> (r: Result<&'a str, Error>)
    requires
        i < args@.len(),
    ensures
        crate::error::settles(
            r,
            if i + 1 >= args@.len() {
                Some(needs_value(args@[i as int]@))
            } else {
                None
            },
        ),
        r matches Ok(v) ==> v@ == args@[i + 1]@,
{
    if args.len() - i < 2 {
        let said: String = text::join2(args[i], " needs a value");
        return invalid(said.as_str());
    }
    Ok(args[i + 1])
}

pub const QUERY_ID: &'static str = "experiment event query requires an ID";

pub const QUERY_ATTEMPT: &'static str = "invalid --attempt";

pub const QUERY_LIMIT: &'static str = "invalid --limit";

pub const QUERY_FLOOR: &'static str = "--attempt must be at least 1";

/// What a query asks for, mathematically.
pub struct QueryView {
    pub attempt: Option<nat>,
    pub name: Option<Seq<char>>,
    pub limit: nat,
}

/// What the words from the `i`-th on make of a query, or what is wrong with them.
pub open spec fn query_from(args: Seq<Seq<char>>, i: int, allow_name: bool, q: QueryView) -> Result<
    QueryView,
    Seq<char>,
>
    decreases args.len() - i,
{
    if i < 0 || i >= args.len() {
        if q.attempt == Some(0nat) {
            Err(QUERY_FLOOR@)
        } else {
            Ok(q)
        }
    } else if args[i] == "--attempt"@ {
        if i + 1 >= args.len() {
            Err(needs_value(args[i]))
        } else {
            match text::number(args[i + 1], u32::MAX as nat) {
                Some(n) => query_from(
                    args,
                    i + 2,
                    allow_name,
                    QueryView { attempt: Some(n), ..q },
                ),
                None => Err(QUERY_ATTEMPT@),
            }
        }
    } else if args[i] == "--name"@ && allow_name {
        if i + 1 >= args.len() {
            Err(needs_value(args[i]))
        } else {
            query_from(args, i + 2, allow_name, QueryView { name: Some(args[i + 1]), ..q })
        }
    } else if args[i] == "--limit"@ {
        if i + 1 >= args.len() {
            Err(needs_value(args[i]))
        } else {
            match text::number(args[i + 1], usize::MAX as nat) {
                Some(n) => query_from(args, i + 2, allow_name, QueryView { limit: n, ..q }),
                None => Err(QUERY_LIMIT@),
            }
        }
    } else {
        Err("unknown experiment event query flag "@ + args[i])
    }
}

/// What a query asks for.
pub open spec fn query_view(q: ExperimentEventQuery) -> QueryView {
    QueryView {
        attempt: match q.attempt {
            Some(a) => Some(a as nat),
            None => None,
        },
        name: validation::message(q.metric_name),
        limit: q.limit as nat,
    }
}

/// What a query asks for, or why it is refused. `id_rule` is what the rule of
/// identifiers has against the first word.
pub open spec fn query_of(args: Seq<Seq<char>>, allow_name: bool, id_rule: Option<String>) -> Result<
    QueryView,
    Seq<char>,
> {
    if args.len() == 0 {
        Err(QUERY_ID@)
    } else {
        match id_rule {
            Some(m) => Err(m@),
            None => query_from(
                args,
                1,
                allow_name,
                QueryView { attempt: None, name: None, limit: 0 },
            ),
        }
    }
}

/// Reads a query for events of an experiment.
pub fn event_query(
    args: &[&str],
    event_type: Option<&str>,
    allow_name: bool,
    id_rule: &Option<String>,
) -> (r: Result<ExperimentEventQuery, Error>)
    ensures
        match query_of(text::strs(args@), allow_name, *id_rule) {
            Ok(v) => r matches Ok(q) && query_view(q) == v && match event_type {
                Some(t) => q.event_type matches Some(k) && k@ == t@,
                None => q.event_type is None,
            },
            Err(m) => crate::error::refused(r, m),
        },
{
    let ghost all = text::strs(args@);
    if args.len() == 0 {
        return invalid(QUERY_ID);
    }
    match unless(id_rule) {
        Ok(()) => {},
        Err(e) => return Err(e),
    }
    let mut attempt: Option<u32> = None;
    let mut name: Option<String> = None;
    let mut limit: usize = 0;
    let mut i: usize = 1;
    while i < args.len()
        invariant
            1 <= i <= args@.len(),
            all == text::strs(args@),
            query_of(all, allow_name, *id_rule) == query_from(
                all,
                i as int,
                allow_name,
                QueryView {
                    attempt: match attempt {
                        Some(a) => Some(a as nat),
                        None => None,
                    },
                    name: validation::message(name),
                    limit: limit as nat,
                },
            ),
        decreases args@.len() - i,
    {
        assert(all[i as int] == args@[i as int]@);
        let flag: &str = args[i];
        let known: bool = text::same(flag, "--attempt") || (text::same(flag, "--name")
            && allow_name) || text::same(flag, "--limit");
        if !known {
            let said: String = text::join2("unknown experiment event query flag ", flag);
            return invalid(said.as_str());
        }
        let v: &str = match value(args, i) {
            Ok(v) => v,
            Err(e) => return Err(e),
        };
        assert(all[i + 1] == args@[i + 1]@);
        if text::same(flag, "--attempt") {
            match text::parse(v, u32::MAX as u64) {
                Some(n) => {
                    attempt = Some(n as u32);
                },
                None => return invalid(QUERY_ATTEMPT),
            }
        } else if text::same(flag, "--name") && allow_name {
            name = Some(v.to_owned());
        } else {
            match text::parse(v, usize::MAX as u64) {
                Some(n) => {
                    limit = n as usize;
                },
                None => return invalid(QUERY_LIMIT),
            }
        }
        i += 2;
    }
    match attempt {
        Some(a) => {
            if a == 0 {
                return invalid(QUERY_FLOOR);
            }
        },
        None => {},
    }
    Ok(
        ExperimentEventQuery {
            attempt,
            event_type: match event_type {
                Some(t) => Some(t.to_owned()),
                None => None,
            },
            metric_name: name,
            limit,
        },
    )
}

/// The kind of events that a command shows, if it shows only one.
pub fn shown_type(command: &str) -> (r: Option<&'static str>)
    ensures
        match r {
            Some(t) => (command@ == "metrics"@ && t@ == "METRIC"@) || (command@ != "metrics"@
                && command@ == "checkpoints"@ && t@ == "CHECKPOINT"@),
            None => command@ != "metrics"@ && command@ != "checkpoints"@,
        },
{
    if text::same(command, "metrics") {
        Some("METRIC")
    } else if text::same(command, "checkpoints") {
        Some("CHECKPOINT")
    } else {
        None
    }
}

/// The flags of `run` as they were given.
#[derive(Debug, PartialEq, Eq)]
pub struct RunFlags {
    pub program: Option<String>,
    pub command: Option<String>,
    pub cwd: Option<String>,
    pub args: Vec<String>,
    pub network: bool,
    pub env: Vec<String>,
    pub timeout_ms: u64,
}

/// The flags of `run`, mathematically.
pub struct RunFlagsView {
    pub program: Option<Seq<char>>,
    pub command: Option<Seq<char>>,
    pub cwd: Option<Seq<char>>,
    pub args: Seq<Seq<char>>,
    pub network: bool,
    pub env: Seq<Seq<char>>,
    pub timeout_ms: nat,
}

impl View for RunFlags {
    type V = RunFlagsView;

    open spec fn view(&self) -> RunFlagsView {
        RunFlagsView {
            program: validation::message(self.program),
            command: validation::message(self.command),
            cwd: validation::message(self.cwd),
            args: text::texts(self.args@),
            network: self.network,
            env: text::texts(self.env@),
            timeout_ms: self.timeout_ms as nat,
        }
    }
}

pub const RUN_TIMEOUT: &'static str = "invalid --timeout-ms";

/// Whether a flag of `run` takes a value.
pub open spec fn takes_value(flag: Seq<char>) -> bool {
    flag == "--program"@ || flag == "--command"@ || flag == "--cwd"@ || flag == "--arg"@ || flag
        == "--env"@ || flag == "--timeout-ms"@
}

/// What the words from the `i`-th on make of the flags, or what is wrong with
/// them.
pub open spec fn flags_from(args: Seq<Seq<char>>, i: int, f: RunFlagsView) -> Result<
    RunFlagsView,
    Seq<char>,
>
    decreases args.len() - i,
{
    if i < 0 || i >= args.len() {
        Ok(f)
    } else if args[i] == "--network"@ {
        flags_from(args, i + 1, RunFlagsView { network: true, ..f })
    } else if !takes_value(args[i]) {
        Err("unknown experiment run flag "@ + args[i])
    } else if i + 1 >= args.len() {
        Err(needs_value(args[i]))
    } else if args[i] == "--program"@ {
        flags_from(args, i + 2, RunFlagsView { program: Some(args[i + 1]), ..f })
    } else if args[i] == "--command"@ {
        flags_from(args, i + 2, RunFlagsView { command: Some(args[i + 1]), ..f })
    } else if args[i] == "--cwd"@ {
        flags_from(args, i + 2, RunFlagsView { cwd: Some(args[i + 1]), ..f })
    } else if args[i] == "--arg"@ {
        flags_from(args, i + 2, RunFlagsView { args: f.args.push(args[i + 1]), ..f })
    } else if args[i] == "--env"@ {
        flags_from(args, i + 2, RunFlagsView { env: f.env.push(args[i + 1]), ..f })
    } else {
        match text::number(args[i + 1], u64::MAX as nat) {
            Some(n) => flags_from(args, i + 2, RunFlagsView { timeout_ms: n, ..f }),
            None => Err(RUN_TIMEOUT@),
        }
    }
}

/// The flags of `run` where none is given.
pub open spec fn no_flags() -> RunFlagsView {
    RunFlagsView {
        program: None,
        command: None,
        cwd: None,
        args: Seq::empty(),
        network: false,
        env: Seq::empty(),
        timeout_ms: DEFAULT_TIMEOUT_MS as nat,
    }
}

fn is_valued(flag: &str) -> (r: bool)
    ensures
        r == takes_value(flag@),
{
    text::same(flag, "--program") || text::same(flag, "--command") || text::same(flag, "--cwd")
        || text::same(flag, "--arg") || text::same(flag, "--env") || text::same(
        flag,
        "--timeout-ms",
    )
}

/// Reads the flags of `run`.
pub fn parse_run(args: &[&str]) -> (r: Result<RunFlags, Error>)
    ensures
        match flags_from(text::strs(args@), 0, no_flags()) {
            Ok(f) => r matches Ok(v) && v@ == f,
            Err(m) => crate::error::refused(r, m),
        },
{
    let ghost all = text::strs(args@);
    let mut f: RunFlags = RunFlags {
        program: None,
        command: None,
        cwd: None,
        args: Vec::new(),
        network: false,
        env: Vec::new(),
        timeout_ms: DEFAULT_TIMEOUT_MS,
    };
    proof {
        assert(f@.args =~= Seq::<Seq<char>>::empty());
        assert(f@.env =~= Seq::<Seq<char>>::empty());
        assert(f@ == no_flags());
    }
    let mut i: usize = 0;
    while i < args.len()
        invariant
            i <= args@.len(),
            all == text::strs(args@),
            flags_from(all, 0, no_flags()) == flags_from(all, i as int, f@),
        decreases args@.len() - i,
    {
        assert(all[i as int] == args@[i as int]@);
        let flag: &str = args[i];
        let ghost before = f@;
        if text::same(flag, "--network") {
            f.network = true;
            assert(f@ == (RunFlagsView { network: true, ..before }));
            i += 1;
        } else {
            if !is_valued(flag) {
                let said: String = text::join2("unknown experiment run flag ", flag);
                return invalid(said.as_str());
            }
            let v: &str = match value(args, i) {
                Ok(v) => v,
                Err(e) => return Err(e),
            };
            assert(all[i + 1] == args@[i + 1]@);
            if text::same(flag, "--program") {
                f.program = Some(v.to_owned());
                assert(f@ == (RunFlagsView { program: Some(v@), ..before }));
            } else if text::same(flag, "--command") {
                f.command = Some(v.to_owned());
                assert(f@ == (RunFlagsView { command: Some(v@), ..before }));
            } else if text::same(flag, "--cwd") {
                f.cwd = Some(v.to_owned());
                assert(f@ == (RunFlagsView { cwd: Some(v@), ..before }));
            } else if text::same(flag, "--arg") {
                f.args.push(v.to_owned());
                assert(f@.args =~= before.args.push(v@));
                assert(f@ == (RunFlagsView { args: before.args.push(v@), ..before }));
            } else if text::same(flag, "--env") {
                f.env.push(v.to_owned());
                assert(f@.env =~= before.env.push(v@));
                assert(f@ == (RunFlagsView { env: before.env.push(v@), ..before }));
            } else {
                match text::parse(v, u64::MAX) {
                    Some(n) => {
                        f.timeout_ms = n;
                        assert(f@ == (RunFlagsView { timeout_ms: n as nat, ..before }));
                    },
                    None => return invalid(RUN_TIMEOUT),
                }
            }
            i += 2;
        }
    }
    Ok(f)
}

pub const ONE_COMMAND: &'static str =
    "experiment run requires exactly one of --program or --command";

pub const COMMAND_AS_IS: &'static str =
    "--command uses the project-defined [commands.KEY] as-is; it cannot be combined with --arg/--cwd";

/// Why the flags do not name one command, if they do not.
pub open spec fn source_refusal(f: RunFlags) -> Option<Seq<char>> {
    if (f.program is Some) == (f.command is Some) {
        Some(ONE_COMMAND@)
    } else if f.command is Some && !(f.args@.len() == 0 && f.cwd is None) {
        Some(COMMAND_AS_IS@)
    } else {
        None
    }
}

/// Takes from the flags what is run: a command of the project, or a program in
/// the directory that was given, or in the workspace.
pub fn command_source(f: &RunFlags) -> (r: Result<experiment::ExperimentCommand, Error>)
    ensures
        crate::error::settles(r, source_refusal(*f)),
        r matches Ok(c) ==> match c {
            experiment::ExperimentCommand::Project(key) => f.command == Some(key),
            experiment::ExperimentCommand::Explicit(spec) => f.program == Some(spec.program)
                && spec.args@ == f.args@ && spec.cwd@ == match f.cwd {
                Some(d) => d@,
                None => "."@,
            },
        },
{
    match (&f.program, &f.command) {
        (Some(program), None) => Ok(
            experiment::ExperimentCommand::Explicit(
                CommandSpec {
                    program: program.clone(),
                    args: text::copied(&f.args),
                    cwd: match &f.cwd {
                        Some(d) => d.clone(),
                        None => ".".to_owned(),
                    },
                },
            ),
        ),
        (None, Some(key)) => {
            if !(f.args.len() == 0 && f.cwd.is_none()) {
                return invalid(COMMAND_AS_IS);
            }
            Ok(experiment::ExperimentCommand::Project(key.clone()))
        },
        _ => invalid(ONE_COMMAND),
    }
}

/// Refuses a command on one experiment that does not have exactly one word.
pub fn check_one_id(command: &str, args: &[&str]) -> (r: Result<(), Error>)
    ensures
        crate::error::settles(
            r,
            if args@.len() != 1 {
                Some("experiment "@ + command@ + " requires exactly one ID"@)
            } else {
                None
            },
        ),
{
    if args.len() != 1 {
        let said: String = text::join3("experiment ", command, " requires exactly one ID");
        return invalid(said.as_str());
    }
    Ok(())
}

pub const LIST_USAGE: &'static str = "experiment list takes no arguments";

pub fn check_list(args: &[&str]) -> (r: Result<(), Error>)
    ensures
        crate::error::settles(
            r,
            if args@.len() != 0 {
                Some(LIST_USAGE@)
            } else {
                None
            },
        ),
{
    if args.len() != 0 {
        return invalid(LIST_USAGE);
    }
    Ok(())
}

/// What is to be done with experiments.
#[derive(Debug, Clone, Copy, PartialEq, Eq, Structural)]
pub enum ExperimentAction {
    Run,
    Restart,
    Cancel,
    Status,
    List,
    Events,
}

pub const USAGE: &'static str =
    "expected experiment run|status|list|cancel|restart|metrics|checkpoints|events";

/// What a word asks for, if it asks for anything.
pub open spec fn action_of(word: Seq<char>) -> Option<ExperimentAction> {
    if word == "run"@ {
        Some(ExperimentAction::Run)
    } else if word == "restart"@ {
        Some(ExperimentAction::Restart)
    } else if word == "cancel"@ {
        Some(ExperimentAction::Cancel)
    } else if word == "status"@ {
        Some(ExperimentAction::Status)
    } else if word == "list"@ {
        Some(ExperimentAction::List)
    } else if word == "metrics"@ || word == "checkpoints"@ || word == "events"@ {
        Some(ExperimentAction::Events)
    } else {
        None
    }
}

pub fn parse_action(word: &str) -> (r: Result<ExperimentAction, Error>)
    ensures
        crate::error::settles(
            r,
            if action_of(word@) is None {
                Some(USAGE@)
            } else {
                None
            },
        ),
        r matches Ok(a) ==> action_of(word@) == Some(a),
{
    if text::same(word, "run") {
        Ok(ExperimentAction::Run)
    } else if text::same(word, "restart") {
        Ok(ExperimentAction::Restart)
    } else if text::same(word, "cancel") {
        Ok(ExperimentAction::Cancel)
    } else if text::same(word, "status") {
        Ok(ExperimentAction::Status)
    } else if text::same(word, "list") {
        Ok(ExperimentAction::List)
    } else if text::same(word, "metrics") || text::same(word, "checkpoints") || text::same(
        word,
        "events",
    ) {
        Ok(ExperimentAction::Events)
    } else {
        invalid(USAGE)
    }
}

// ---------------------------------------------------------------------------
// Reports
// ---------------------------------------------------------------------------

pub const CANCELLATION_REQUESTED: &'static str =
    "Cancellation requested; effective only if a live controller is currently polling this experiment. A crashed controller cannot observe this and nothing is falsely reported as killed.";

pub const NO_EXPERIMENTS: &'static str = "No experiments in this workspace";

pub const NO_EVENTS: &'static str = "No matching experiment events";

/// How the debug formatter shows a list of texts.
pub uninterp spec fn debugged_list(list: Seq<Seq<char>>) -> Seq<char>;

/// `format!` of the standard library with `{:?}` on a `Vec<String>`: the text is a
/// function of the list. Which characters it escapes is left open.
#[verifier::external_body]
fn debug_list(list: &Vec<String>) -> (r: String)
    ensures
        r@ == debugged_list(text::texts(list@)),
{
    format!("{:?}", list)
}

/// How a state is told.
pub open spec fn state_name(state: ExperimentState) -> Seq<char> {
    match state {
        ExperimentState::Created => "Created"@,
        ExperimentState::Running => "Running"@,
        ExperimentState::Succeeded => "Succeeded"@,
        ExperimentState::Failed => "Failed"@,
        ExperimentState::Cancelled => "Cancelled"@,
        ExperimentState::Interrupted => "Interrupted"@,
    }
}

fn show_state(state: ExperimentState) -> (r: &'static str)
    ensures
        r@ == state_name(state),
{
    match state {
        ExperimentState::Created => "Created",
        ExperimentState::Running => "Running",
        ExperimentState::Succeeded => "Succeeded",
        ExperimentState::Failed => "Failed",
        ExperimentState::Cancelled => "Cancelled",
        ExperimentState::Interrupted => "Interrupted",
    }
}

/// How an optional number is told.
pub open spec fn optional_number(n: Option<nat>) -> Seq<char> {
    match n {
        Some(v) => "Some("@ + text::digits(v) + ")"@,
        None => "None"@,
    }
}

fn show_optional(n: &Option<u64>) -> (r: String)
    ensures
        r@ == optional_number(wide(*n)),
{
    match n {
        Some(v) => {
            let inner: String = text::decimal(*v);
            text::join3("Some(", inner.as_str(), ")")
        },
        None => "None".to_owned(),
    }
}

/// An optional number without its width.
pub open spec fn wide(n: Option<u64>) -> Option<nat> {
    match n {
        Some(v) => Some(v as nat),
        None => None,
    }
}

/// The process of the last attempt, if there is one.
pub open spec fn last_pid(run: ExperimentRun) -> Option<nat> {
    if run.attempts@.len() > 0 {
        match run.attempts@.last().pid {
            Some(p) => Some(p as nat),
            None => None,
        }
    } else {
        None
    }
}

/// How the last attempt exited, if it did.
pub open spec fn last_exit(run: ExperimentRun) -> Option<i32> {
    if run.attempts@.len() > 0 {
        run.attempts@.last().exit_status
    } else {
        None
    }
}

/// What is told of an experiment, given how its arguments are shown.
pub open spec fn run_text(run: ExperimentRun, args: Seq<char>) -> Seq<char> {
    run.experiment_id@ + "  "@ + state_name(run.state) + "  "@ + run.command.program@ + " "@ + args
        + "  attempts="@ + text::digits(run.attempts@.len()) + "  pid="@ + optional_number(
        last_pid(run),
    ) + "  exit="@ + experiment::exit_text(last_exit(run))
}

/// Tells of an experiment, given how its arguments are shown.
pub fn show_run(run: &ExperimentRun, args: &str) -> (r: String)
    ensures
        r@ == run_text(*run, args@),
{
    let n: usize = run.attempts.len();
    let mut pid: Option<u64> = None;
    let mut exit: Option<i32> = None;
    if n > 0 {
        let last: &ExperimentAttempt = &run.attempts[n - 1];
        match last.pid {
            Some(p) => {
                pid = Some(p as u64);
            },
            None => {},
        }
        exit = last.exit_status;
    }
    let pid: String = show_optional(&pid);
    let exit: String = experiment::show_exit(&exit);
    let attempts: String = text::decimal(n as u64);
    let said: String = text::join3(run.experiment_id.as_str(), "  ", show_state(run.state));
    let said: String = text::join3(said.as_str(), "  ", run.command.program.as_str());
    let said: String = text::join3(said.as_str(), " ", args);
    let said: String = text::join3(said.as_str(), "  attempts=", attempts.as_str());
    let said: String = text::join3(said.as_str(), "  pid=", pid.as_str());
    text::join3(said.as_str(), "  exit=", exit.as_str())
}

pub fn human_run(run: &ExperimentRun) -> (r: String)
    ensures
        r@ == run_text(*run, debugged_list(text::texts(run.command.args@))),
{
    let args: String = debug_list(&run.command.args);
    show_run(run, args.as_str())
}

/// What is told of an observation, given how its arguments are shown.
pub open spec fn observation_text(o: ExperimentObservation, args: Seq<char>) -> Seq<char> {
    run_text(*o.run, args) + "  liveness="@ + (match o.liveness {
        Liveness::Live => "Live"@,
        Liveness::Unknown => "Unknown"@,
    }) + "  events="@ + text::digits(o.events.event_count as nat) + "  ingestion_errors="@
        + text::digits(o.events.ingestion_errors as nat)
}

pub fn human_observation(o: &ExperimentObservation) -> (r: String)
    ensures
        r@ == observation_text(*o, debugged_list(text::texts(o.run.command.args@))),
{
    let run: String = human_run(o.run);
    let events: String = text::decimal(o.events.event_count);
    let errors: String = text::decimal(o.events.ingestion_errors);
    let said: String = text::join3(
        run.as_str(),
        "  liveness=",
        match o.liveness {
            Liveness::Live => "Live",
            Liveness::Unknown => "Unknown",
        },
    );
    let said: String = text::join3(said.as_str(), "  events=", events.as_str());
    text::join3(said.as_str(), "  ingestion_errors=", errors.as_str())
}

/// How a kind of health is told.
pub open spec fn health_name(kind: ExperimentHealthKind) -> Seq<char> {
    match kind {
        ExperimentHealthKind::Heartbeat => "Heartbeat"@,
        ExperimentHealthKind::Warning => "Warning"@,
        ExperimentHealthKind::Error => "Error"@,
        ExperimentHealthKind::IngestionError => "IngestionError"@,
        ExperimentHealthKind::NonfiniteMetric => "NonfiniteMetric"@,
    }
}

fn show_health(kind: ExperimentHealthKind) -> (r: &'static str)
    ensures
        r@ == health_name(kind),
{
    match kind {
        ExperimentHealthKind::Heartbeat => "Heartbeat",
        ExperimentHealthKind::Warning => "Warning",
        ExperimentHealthKind::Error => "Error",
        ExperimentHealthKind::IngestionError => "IngestionError",
        ExperimentHealthKind::NonfiniteMetric => "NonfiniteMetric",
    }
}

/// A message, or nothing.
pub open spec fn or_nothing(message: Option<String>) -> Seq<char> {
    match message {
        Some(m) => m@,
        None => ""@,
    }
}

fn some_or_nothing(message: &Option<String>) -> (r: &str)
    ensures
        r@ == or_nothing(*message),
{
    match message {
        Some(m) => m.as_str(),
        None => "",
    }
}

/// What is told of a fact, given how the value of a metric is shown.
pub open spec fn fact_text(e: ExperimentEventData, value: Seq<char>) -> Seq<char> {
    match e {
        ExperimentEventData::Metric { name, step, epoch, .. } => "metric "@ + name@ + "="@ + value
            + " step="@ + optional_number(wide(step)) + " epoch="@ + optional_number(wide(epoch)),
        ExperimentEventData::Checkpoint { name, path, byte_size, .. } => "checkpoint "@ + name@
            + " path="@ + path@ + " bytes="@ + text::digits(byte_size as nat),
        ExperimentEventData::Health { kind, message } => "health "@ + health_name(kind) + " "@
            + or_nothing(message),
        ExperimentEventData::ProcessStatus { status, message } => "status "@ + status@ + " "@
            + or_nothing(message),
    }
}

fn show_fact(e: &ExperimentEventData, value: &str) -> (r: String)
    ensures
        r@ == fact_text(*e, value@),
{
    match e {
        ExperimentEventData::Metric { name, step, epoch, .. } => {
            let step: String = show_optional(step);
            let epoch: String = show_optional(epoch);
            let said: String = text::join3("metric ", name.as_str(), "=");
            let said: String = text::join3(said.as_str(), value, " step=");
            let said: String = text::join3(said.as_str(), step.as_str(), " epoch=");
            text::join2(said.as_str(), epoch.as_str())
        },
        ExperimentEventData::Checkpoint { name, path, byte_size, .. } => {
            let bytes: String = text::decimal(*byte_size);
            let said: String = text::join3("checkpoint ", name.as_str(), " path=");
            let said: String = text::join3(said.as_str(), path.as_str(), " bytes=");
            text::join2(said.as_str(), bytes.as_str())
        },
        ExperimentEventData::Health { kind, message } => {
            let said: String = text::join3("health ", show_health(*kind), " ");
            text::join2(said.as_str(), some_or_nothing(message))
        },
        ExperimentEventData::ProcessStatus { status, message } => {
            let said: String = text::join3("status ", status.as_str(), " ");
            text::join2(said.as_str(), some_or_nothing(message))
        },
    }
}

/// What is told of an event, given how the value of a metric is shown.
pub open spec fn event_text(e: ExperimentRuntimeEvent, value: Seq<char>) -> Seq<char> {
    experiment::signed(e.arrival_sequence as int) + "  attempt="@ + text::digits(e.attempt as nat)
        + " source_seq="@ + text::digits(e.source_sequence as nat) + " timestamp_ms="@
        + text::digits(e.timestamp_ms as nat) + " source="@ + e.source@ + "  "@ + fact_text(
        e.event,
        value,
    )
}

/// Tells of an event. `value` is how the value of a metric is shown.
pub fn human_event(e: &ExperimentRuntimeEvent, value: &str) -> (r: String)
    ensures
        r@ == event_text(*e, value@),
{
    let arrival: String = experiment::signed_decimal(e.arrival_sequence);
    let attempt: String = text::decimal(e.attempt as u64);
    let sequence: String = text::decimal(e.source_sequence);
    let time: String = text::decimal(e.timestamp_ms);
    let fact: String = show_fact(&e.event, value);
    let said: String = text::join3(arrival.as_str(), "  attempt=", attempt.as_str());
    let said: String = text::join3(said.as_str(), " source_seq=", sequence.as_str());
    let said: String = text::join3(said.as_str(), " timestamp_ms=", time.as_str());
    let said: String = text::join3(said.as_str(), " source=", e.source.as_str());
    text::join3(said.as_str(), "  ", fact.as_str())
}

/// What is told of some lines: all of them, or that there are none.
pub fn joined_or(lines: &Vec<String>, none: &str) -> (r: String)
    ensures
        r@ == if lines@.len() == 0 {
            none@
        } else {
            text::listed(text::texts(lines@), "\n"@)
        },
{
    if lines.len() == 0 {
        none.to_owned()
    } else {
        text::list(lines, "\n")
    }
}

} // verus!
