//! What run commands ask for and what people are told about runs, roles and
//! providers.
use crate::error::{invalid, Error};
use crate::planning::validation;
use crate::report;
use crate::report::{LineView, Report};
use crate::runtime::context::LedgerState;
use crate::runtime::credentials;
use crate::runtime::credentials::redact_text;
use crate::runtime::record::{LedgerEntry, PendingTask, RunRecord, RunState};
use crate::text;
use vstd::prelude::*;

verus! {

// ---------------------------------------------------------------------------
// Overrides
// ---------------------------------------------------------------------------

/// A provider, and perhaps a model, chosen for a role by hand.
#[derive(Debug, PartialEq, Eq)]
pub struct Override {
    pub role: String,
    pub provider: String,
    pub model: Option<String>,
}

/// An override, mathematically.
pub struct OverrideView {
    pub role: Seq<char>,
    pub provider: Seq<char>,
    pub model: Option<Seq<char>>,
}

impl View for Override {
    type V = OverrideView;

    open spec fn view(&self) -> OverrideView {
        OverrideView {
            role: self.role@,
            provider: self.provider@,
            model: validation::message(self.model),
        }
    }
}

pub open spec fn override_views(v: Seq<Override>) -> Seq<OverrideView> {
    v.map_values(|o: Override| o@)
}

pub const OVERRIDE_VALUE: &'static str = "--override needs role:provider[:model]";

pub const OVERRIDE_SEGMENTS: &'static str =
    "--override requires exactly 2 or 3 nonempty segments: role:provider[:model]";

pub const OVERRIDE_REPEATED: &'static str = "duplicate role override";

/// Whether every piece holds something and no white space around it.
pub open spec fn all_solid(parts: Seq<Seq<char>>) -> bool {
    forall|i: int|
        0 <= i < parts.len() ==> !text::blank(#[trigger] parts[i]) && parts[i] == text::trimmed(
            parts[i],
        )
}

/// Whether a role is overridden.
pub open spec fn overridden(all: Seq<OverrideView>, role: Seq<char>) -> bool {
    exists|i: int| 0 <= i < all.len() && (#[trigger] all[i]).role == role
}

/// The overrides among some words and the other words, from the `i`-th word on,
/// after what was found before; or what is wrong with an override.
pub open spec fn split_from(
    args: Seq<Seq<char>>,
    i: int,
    overrides: Seq<OverrideView>,
    words: Seq<Seq<char>>,
) -> Result<(Seq<OverrideView>, Seq<Seq<char>>), Seq<char>>
    decreases args.len() - i,
{
    if i < 0 || i >= args.len() {
        Ok((overrides, words))
    } else if args[i] != "--override"@ {
        split_from(args, i + 1, overrides, words.push(args[i]))
    } else if i + 1 >= args.len() {
        Err(OVERRIDE_VALUE@)
    } else {
        let f = text::pieces(args[i + 1], ':');
        if !(2 <= f.len() <= 3 && all_solid(f)) {
            Err(OVERRIDE_SEGMENTS@)
        } else if overridden(overrides, f[0]) {
            Err(OVERRIDE_REPEATED@)
        } else {
            let one = OverrideView {
                role: f[0],
                provider: f[1],
                model: if f.len() == 3 {
                    Some(f[2])
                } else {
                    None
                },
            };
            split_from(args, i + 2, overrides.push(one), words)
        }
    }
}

#[derive(Debug, PartialEq, Eq)]
pub struct Split {
    pub overrides: Vec<Override>,
    pub words: Vec<String>,
}

fn are_solid(parts: &Vec<&str>) -> (r: bool)
    ensures
        r == all_solid(text::strs(parts@)),
{
    let ghost all = text::strs(parts@);
    let mut i: usize = 0;
    while i < parts.len()
        invariant
            i <= parts@.len(),
            all == text::strs(parts@),
            forall|k: int|
                0 <= k < i ==> !text::blank(#[trigger] all[k]) && all[k] == text::trimmed(all[k]),
        decreases parts@.len() - i,
    {
        assert(all[i as int] == parts@[i as int]@);
        let bare: &str = text::trim(parts[i]);
        if text::is_blank(parts[i]) || !text::same(parts[i], bare) {
            assert(text::blank(all[i as int]) || all[i as int] != text::trimmed(all[i as int]));
            return false;
        }
        i += 1;
    }
    true
}

fn is_overridden(all: &Vec<Override>, role: &str) -> (r: bool)
    ensures
        r == overridden(override_views(all@), role@),
{
    let ghost views = override_views(all@);
    let mut i: usize = 0;
    while i < all.len()
        invariant
            i <= all@.len(),
            views == override_views(all@),
            forall|k: int| 0 <= k < i ==> (#[trigger] views[k]).role != role@,
        decreases all@.len() - i,
    {
        assert(views[i as int] == all@[i as int]@);
        if text::same(all[i].role.as_str(), role) {
            return true;
        }
        i += 1;
    }
    false
}

/// Takes overrides out of the words of a command.
pub fn split_overrides(args: &[&str]) -> (r: Result<Split, Error>)
    ensures
        match split_from(text::strs(args@), 0, Seq::empty(), Seq::empty()) {
            Ok(v) => r matches Ok(s) && override_views(s.overrides@) == v.0 && text::texts(
                s.words@,
            ) == v.1,
            Err(m) => crate::error::refused(r, m),
        },
{
    let ghost all = text::strs(args@);
    let mut overrides: Vec<Override> = Vec::new();
    let mut words: Vec<String> = Vec::new();
    let mut i: usize = 0;
    assert(override_views(overrides@) =~= Seq::<OverrideView>::empty());
    assert(text::texts(words@) =~= Seq::<Seq<char>>::empty());
    while i < args.len()
        invariant
            i <= args@.len(),
            all == text::strs(args@),
            split_from(all, 0, Seq::empty(), Seq::empty()) == split_from(
                all,
                i as int,
                override_views(overrides@),
                text::texts(words@),
            ),
        decreases args@.len() - i,
    {
        assert(all[i as int] == args@[i as int]@);
        if text::same(args[i], "--override") {
            if args.len() - i < 2 {
                return invalid(OVERRIDE_VALUE);
            }
            assert(all[i + 1] == args@[i + 1]@);
            let fields: Vec<&str> = text::split_ascii(args[i + 1], 58u8);
            assert(58u8 as char == ':');
            let ghost f = text::strs(fields@);
            if !(2 <= fields.len() && fields.len() <= 3 && are_solid(&fields)) {
                return invalid(OVERRIDE_SEGMENTS);
            }
            assert(f[0] == fields@[0]@ && f[1] == fields@[1]@);
            if is_overridden(&overrides, fields[0]) {
                return invalid(OVERRIDE_REPEATED);
            }
            let ghost before = override_views(overrides@);
            let model: Option<String> = if fields.len() == 3 {
                assert(f[2] == fields@[2]@);
                Some(fields[2].to_owned())
            } else {
                None
            };
            let one: Override = Override {
                role: fields[0].to_owned(),
                provider: fields[1].to_owned(),
                model,
            };
            overrides.push(one);
            assert(override_views(overrides@) =~= before.push(one@));
            i += 2;
        } else {
            let ghost before = text::texts(words@);
            words.push(args[i].to_owned());
            assert(text::texts(words@) =~= before.push(all[i as int]));
            i += 1;
        }
    }
    Ok(Split { overrides, words })
}

// ---------------------------------------------------------------------------
// Inspecting roles
// ---------------------------------------------------------------------------

/// What is asked about roles.
#[derive(Debug, PartialEq, Eq)]
pub enum Inspection {
    Roles,
    RoleShow(String),
    RouteCheck,
    Route(String),
}

/// Whether some words ask about roles.
pub open spec fn inspects(words: Seq<Seq<char>>) -> bool {
    words.len() > 0 && (words[0] == "roles"@ || words[0] == "role"@ || words[0] == "route"@)
}

pub fn is_inspection(words: &Vec<String>) -> (r: bool)
    ensures
        r == inspects(text::texts(words@)),
{
    if words.len() == 0 {
        return false;
    }
    assert(text::texts(words@)[0] == words@[0]@);
    text::same(words[0].as_str(), "roles") || text::same(words[0].as_str(), "role") || text::same(
        words[0].as_str(),
        "route",
    )
}

pub const UNKNOWN_OVERRIDE: &'static str = "explicit override names an unknown role";

pub const OTHER_OVERRIDE: &'static str = "override must target the requested role";

pub const NO_OVERRIDES: &'static str = "overrides require a route inspection or execution command";

pub const INSPECTION_USAGE: &'static str =
    "expected roles, role show <role>, route <role>, or route check";

pub const ROUTING_FAILED: &'static str =
    "routing validation failed; configure the reported roles in runtime.roles or runtime.profiles";

/// The role that some words ask about, if they ask about one.
pub open spec fn asked_role(words: Seq<Seq<char>>) -> Option<Seq<char>> {
    if words.len() == 3 && words[0] == "role"@ && words[1] == "show"@ {
        Some(words[2])
    } else if words.len() == 2 && words[0] == "route"@ {
        Some(words[1])
    } else {
        None
    }
}

/// Whether some words ask to check every route.
pub open spec fn asks_check(words: Seq<Seq<char>>) -> bool {
    words.len() == 2 && words[0] == "route"@ && words[1] == "check"@
}

/// Whether every override is of one of some roles.
pub open spec fn overrides_among(all: Seq<OverrideView>, names: Seq<Seq<char>>) -> bool {
    forall|i: int| 0 <= i < all.len() ==> names.contains((#[trigger] all[i]).role)
}

/// Why a question about roles is refused, if it is.
pub open spec fn inspection_refusal(
    words: Seq<Seq<char>>,
    overrides: Seq<OverrideView>,
    names: Seq<Seq<char>>,
) -> Option<Seq<char>> {
    if !overrides_among(overrides, names) {
        Some(UNKNOWN_OVERRIDE@)
    } else if asks_check(words) {
        None
    } else {
        match asked_role(words) {
            Some(role) => if !overrides_among(overrides, seq![role]) {
                Some(OTHER_OVERRIDE@)
            } else {
                None
            },
            None => if overrides.len() > 0 {
                Some(NO_OVERRIDES@)
            } else if !(words.len() == 1 && words[0] == "roles"@) {
                Some(INSPECTION_USAGE@)
            } else {
                None
            },
        }
    }
}

/// Whether a question is what some words ask.
pub open spec fn inspection_is(q: Inspection, words: Seq<Seq<char>>) -> bool {
    match q {
        Inspection::RouteCheck => asks_check(words),
        Inspection::RoleShow(role) => words.len() == 3 && asked_role(words) == Some(role@),
        Inspection::Route(role) => words.len() == 2 && !asks_check(words) && asked_role(words)
            == Some(role@),
        Inspection::Roles => words == seq!["roles"@],
    }
}

fn are_overrides_among(all: &Vec<Override>, names: &Vec<String>) -> (r: bool)
    ensures
        r == overrides_among(override_views(all@), text::texts(names@)),
{
    let ghost views = override_views(all@);
    let mut i: usize = 0;
    while i < all.len()
        invariant
            i <= all@.len(),
            views == override_views(all@),
            forall|k: int|
                0 <= k < i ==> text::texts(names@).contains((#[trigger] views[k]).role),
        decreases all@.len() - i,
    {
        assert(views[i as int] == all@[i as int]@);
        if !text::among(names, all[i].role.as_str()) {
            assert(!text::texts(names@).contains(views[i as int].role));
            return false;
        }
        i += 1;
    }
    true
}

fn only_overrides(all: &Vec<Override>, role: &str) -> (r: bool)
    ensures
        r == overrides_among(override_views(all@), seq![role@]),
{
    let mut one: Vec<String> = Vec::new();
    one.push(role.to_owned());
    assert(text::texts(one@) =~= seq![role@]);
    are_overrides_among(all, &one)
}

/// Reads a question about roles.
pub fn parse_inspection(words: &Vec<String>, overrides: &Vec<Override>, names: &Vec<String>) -> (r:
    Result<Inspection, Error>)
    ensures
        crate::error::settles(
            r,
            inspection_refusal(
                text::texts(words@),
                override_views(overrides@),
                text::texts(names@),
            ),
        ),
        r matches Ok(q) ==> inspection_is(q, text::texts(words@)),
{
    let ghost all = text::texts(words@);
    if !are_overrides_among(overrides, names) {
        return invalid(UNKNOWN_OVERRIDE);
    }
    let n: usize = words.len();
    proof {
        if n > 0 {
            assert(all[0] == words@[0]@);
        }
        if n > 1 {
            assert(all[1] == words@[1]@);
        }
        if n > 2 {
            assert(all[2] == words@[2]@);
        }
    }
    if n == 2 && text::same(words[0].as_str(), "route") {
        if text::same(words[1].as_str(), "check") {
            return Ok(Inspection::RouteCheck);
        }
        if !only_overrides(overrides, words[1].as_str()) {
            return invalid(OTHER_OVERRIDE);
        }
        return Ok(Inspection::Route(words[1].clone()));
    }
    if n == 3 && text::same(words[0].as_str(), "role") && text::same(words[1].as_str(), "show") {
        if !only_overrides(overrides, words[2].as_str()) {
            return invalid(OTHER_OVERRIDE);
        }
        return Ok(Inspection::RoleShow(words[2].clone()));
    }
    if overrides.len() > 0 {
        assert(override_views(overrides@).len() > 0);
        return invalid(NO_OVERRIDES);
    }
    assert(override_views(overrides@).len() == 0);
    if n == 1 && text::same(words[0].as_str(), "roles") {
        assert(all =~= seq!["roles"@]);
        return Ok(Inspection::Roles);
    }
    invalid(INSPECTION_USAGE)
}

/// Refuses a name that is no role. `builtin` names the roles that are launched.
pub fn check_role(names: &Vec<String>, name: &str, builtin: &Vec<String>) -> (r: Result<(), Error>)
    ensures
        crate::error::settles(
            r,
            if !text::texts(names@).contains(name@) {
                Some(
                    "unknown role "@ + name@ + "; agentctl launches "@ + text::listed(
                        text::texts(builtin@),
                        ", "@,
                    ) + ", and configuration may add inspection profiles"@,
                )
            } else {
                None
            },
        ),
{
    if !text::among(names, name) {
        let list: String = text::list(builtin, ", ");
        let said: String = text::join3("unknown role ", name, "; agentctl launches ");
        let said: String = text::join3(
            said.as_str(),
            list.as_str(),
            ", and configuration may add inspection profiles",
        );
        return invalid(said.as_str());
    }
    Ok(())
}

/// Refuses routing that was found wanting, once it has been reported.
pub fn check_routing(wanting: bool) -> (r: Result<(), Error>)
    ensures
        crate::error::settles(
            r,
            if wanting {
                Some(ROUTING_FAILED@)
            } else {
                None
            },
        ),
{
    if wanting {
        return invalid(ROUTING_FAILED);
    }
    Ok(())
}

// ---------------------------------------------------------------------------
// Commands
// ---------------------------------------------------------------------------

/// What is to be done with a run.
#[derive(Debug, PartialEq, Eq)]
pub enum RunCommand {
    Providers { doctor: bool },
    Replace { old: String, new: String },
    Status { id: String },
    Capabilities { id: String },
    DryRun { id: String },
    Cancel { id: String },
    Restore { id: String },
    Decide { id: String, file: String },
    Context { id: String },
    Plan { id: String },
    Resume { id: String },
    Planner { id: String },
}

pub const MISPLACED_OVERRIDE: &'static str =
    "--override is only supported for route inspection or worker execution";

pub const UNEXECUTABLE_ROLE: &'static str =
    "run overrides must name an executable role: planner, executor, verifier";

pub const PROVIDER_USAGE: &'static str = "expected provider list or provider doctor";

pub const RUN_USAGE: &'static str = "unrecognized run command; run agentctl run --help";

/// Whether some words launch workers.
pub open spec fn executes(words: Seq<Seq<char>>) -> bool {
    words.len() == 3 && words[0] == "run"@ && (words[1] == "plan"@ || words[1] == "resume"@
        || words[1] == "planner"@)
}

/// A command, mathematically.
pub enum RunCommandView {
    Providers(bool),
    Replace(Seq<char>, Seq<char>),
    Status(Seq<char>),
    Capabilities(Seq<char>),
    DryRun(Seq<char>),
    Cancel(Seq<char>),
    Restore(Seq<char>),
    Decide(Seq<char>, Seq<char>),
    Context(Seq<char>),
    Plan(Seq<char>),
    Resume(Seq<char>),
    Planner(Seq<char>),
}

impl View for RunCommand {
    type V = RunCommandView;

    open spec fn view(&self) -> RunCommandView {
        match *self {
            RunCommand::Providers { doctor } => RunCommandView::Providers(doctor),
            RunCommand::Replace { old: a, new: b } => RunCommandView::Replace(a@, b@),
            RunCommand::Status { id } => RunCommandView::Status(id@),
            RunCommand::Capabilities { id } => RunCommandView::Capabilities(id@),
            RunCommand::DryRun { id } => RunCommandView::DryRun(id@),
            RunCommand::Cancel { id } => RunCommandView::Cancel(id@),
            RunCommand::Restore { id } => RunCommandView::Restore(id@),
            RunCommand::Decide { id, file } => RunCommandView::Decide(id@, file@),
            RunCommand::Context { id } => RunCommandView::Context(id@),
            RunCommand::Plan { id } => RunCommandView::Plan(id@),
            RunCommand::Resume { id } => RunCommandView::Resume(id@),
            RunCommand::Planner { id } => RunCommandView::Planner(id@),
        }
    }
}

/// What three words that start with `run` ask for, if anything.
pub open spec fn short_command(word: Seq<char>, id: Seq<char>) -> Option<RunCommandView> {
    if word == "status"@ {
        Some(RunCommandView::Status(id))
    } else if word == "capabilities"@ {
        Some(RunCommandView::Capabilities(id))
    } else if word == "cancel"@ {
        Some(RunCommandView::Cancel(id))
    } else if word == "restore"@ {
        Some(RunCommandView::Restore(id))
    } else if word == "context"@ {
        Some(RunCommandView::Context(id))
    } else if word == "plan"@ {
        Some(RunCommandView::Plan(id))
    } else if word == "resume"@ {
        Some(RunCommandView::Resume(id))
    } else if word == "planner"@ {
        Some(RunCommandView::Planner(id))
    } else {
        None
    }
}

/// What some words ask for, or why they are refused.
pub open spec fn command_of(words: Seq<Seq<char>>, overrides: Seq<OverrideView>) -> Result<
    RunCommandView,
    Seq<char>,
> {
    if overrides.len() > 0 && !executes(words) {
        Err(MISPLACED_OVERRIDE@)
    } else if !overrides_among(overrides, seq!["planner"@, "executor"@, "verifier"@]) {
        Err(UNEXECUTABLE_ROLE@)
    } else if words.len() == 2 && words[0] == "provider"@ {
        if words[1] == "list"@ {
            Ok(RunCommandView::Providers(false))
        } else if words[1] == "doctor"@ {
            Ok(RunCommandView::Providers(true))
        } else {
            Err(PROVIDER_USAGE@)
        }
    } else if words.len() == 4 && words[0] == "run"@ && words[1] == "replace"@ {
        Ok(RunCommandView::Replace(words[2], words[3]))
    } else if words.len() == 4 && words[0] == "run"@ && words[1] == "plan"@ && words[3]
        == "--dry-run"@ {
        Ok(RunCommandView::DryRun(words[2]))
    } else if words.len() == 5 && words[0] == "run"@ && words[1] == "context"@ && words[2]
        == "decide"@ {
        Ok(RunCommandView::Decide(words[3], words[4]))
    } else if words.len() == 3 && words[0] == "run"@ {
        match short_command(words[1], words[2]) {
            Some(c) => Ok(c),
            None => Err(RUN_USAGE@),
        }
    } else {
        Err(RUN_USAGE@)
    }
}

fn read_short(word: &str, id: &String) -> (r: Option<RunCommand>)
    ensures
        match r {
            Some(c) => short_command(word@, id@) == Some(c@),
            None => short_command(word@, id@) is None,
        },
{
    let id: String = id.clone();
    if text::same(word, "status") {
        Some(RunCommand::Status { id })
    } else if text::same(word, "capabilities") {
        Some(RunCommand::Capabilities { id })
    } else if text::same(word, "cancel") {
        Some(RunCommand::Cancel { id })
    } else if text::same(word, "restore") {
        Some(RunCommand::Restore { id })
    } else if text::same(word, "context") {
        Some(RunCommand::Context { id })
    } else if text::same(word, "plan") {
        Some(RunCommand::Plan { id })
    } else if text::same(word, "resume") {
        Some(RunCommand::Resume { id })
    } else if text::same(word, "planner") {
        Some(RunCommand::Planner { id })
    } else {
        None
    }
}

fn check_overrides(words: &Vec<String>, overrides: &Vec<Override>) -> (r: Result<(), Error>)
    ensures
        crate::error::settles(
            r,
            if overrides@.len() > 0 && !executes(text::texts(words@)) {
                Some(MISPLACED_OVERRIDE@)
            } else if !overrides_among(
                override_views(overrides@),
                seq!["planner"@, "executor"@, "verifier"@],
            ) {
                Some(UNEXECUTABLE_ROLE@)
            } else {
                None
            },
        ),
{
    let ghost all = text::texts(words@);
    if overrides.len() > 0 {
        proof {
            if words@.len() == 3 {
                assert(all[0] == words@[0]@ && all[1] == words@[1]@);
            }
        }
        let launched: bool = words.len() == 3 && text::same(words[0].as_str(), "run") && (
        text::same(words[1].as_str(), "plan") || text::same(words[1].as_str(), "resume")
            || text::same(words[1].as_str(), "planner"));
        if !launched {
            return invalid(MISPLACED_OVERRIDE);
        }
    }
    let mut roles: Vec<String> = Vec::new();
    roles.push("planner".to_owned());
    roles.push("executor".to_owned());
    roles.push("verifier".to_owned());
    assert(text::texts(roles@) =~= seq!["planner"@, "executor"@, "verifier"@]);
    if !are_overrides_among(overrides, &roles) {
        return invalid(UNEXECUTABLE_ROLE);
    }
    Ok(())
}

/// Reads a command on runs.
pub fn parse_run(words: &Vec<String>, overrides: &Vec<Override>) -> (r: Result<RunCommand, Error>)
    ensures
        match command_of(text::texts(words@), override_views(overrides@)) {
            Ok(c) => r matches Ok(v) && v@ == c,
            Err(m) => crate::error::refused(r, m),
        },
{
    let ghost all = text::texts(words@);
    assert(override_views(overrides@).len() == overrides@.len());
    match check_overrides(words, overrides) {
        Ok(()) => {},
        Err(e) => return Err(e),
    }
    let n: usize = words.len();
    proof {
        if n > 0 {
            assert(all[0] == words@[0]@);
        }
        if n > 1 {
            assert(all[1] == words@[1]@);
        }
        if n > 2 {
            assert(all[2] == words@[2]@);
        }
        if n > 3 {
            assert(all[3] == words@[3]@);
        }
        if n > 4 {
            assert(all[4] == words@[4]@);
        }
    }
    if n == 2 && text::same(words[0].as_str(), "provider") {
        if text::same(words[1].as_str(), "list") {
            return Ok(RunCommand::Providers { doctor: false });
        }
        if text::same(words[1].as_str(), "doctor") {
            return Ok(RunCommand::Providers { doctor: true });
        }
        return invalid(PROVIDER_USAGE);
    }
    if n < 3 || !text::same(words[0].as_str(), "run") {
        return invalid(RUN_USAGE);
    }
    if n == 4 && text::same(words[1].as_str(), "replace") {
        return Ok(RunCommand::Replace { old: words[2].clone(), new: words[3].clone() });
    }
    if n == 4 && text::same(words[1].as_str(), "plan") && text::same(
        words[3].as_str(),
        "--dry-run",
    ) {
        return Ok(RunCommand::DryRun { id: words[2].clone() });
    }
    if n == 5 && text::same(words[1].as_str(), "context") && text::same(
        words[2].as_str(),
        "decide",
    ) {
        return Ok(RunCommand::Decide { id: words[3].clone(), file: words[4].clone() });
    }
    if n == 3 {
        match read_short(words[1].as_str(), &words[2]) {
            Some(c) => return Ok(c),
            None => {},
        }
    }
    invalid(RUN_USAGE)
}

pub const OTHER_PLAN: &'static str = "decision names another plan";

/// Refuses a decision about another plan.
pub fn check_decided_plan(decided: &str, id: &str) -> (r: Result<(), Error>)
    ensures
        crate::error::settles(
            r,
            if decided@ != id@ {
                Some(OTHER_PLAN@)
            } else {
                None
            },
        ),
{
    if !text::same(decided, id) {
        return invalid(OTHER_PLAN);
    }
    Ok(())
}

// ---------------------------------------------------------------------------
// Reports on roles and providers
// ---------------------------------------------------------------------------

/// Where a role is sent.
#[derive(Debug, PartialEq, Eq)]
pub struct Route {
    pub provider: Option<String>,
    pub model: Option<String>,
    pub effort: Option<String>,
}

/// A text, or a question mark where there is none.
pub open spec fn or_unknown(s: Option<String>) -> Seq<char> {
    match s {
        Some(t) => t@,
        None => "?"@,
    }
}

fn known_or(s: &Option<String>) -> (r: &str)
    ensures
        r@ == or_unknown(*s),
{
    match s {
        Some(t) => t.as_str(),
        None => "?",
    }
}

/// How a route is told: `provider[/model][ (effort E)]`.
pub open spec fn label(route: Route) -> Seq<char> {
    or_unknown(route.provider) + (match route.model {
        Some(m) => "/"@ + m@,
        None => ""@,
    }) + (match route.effort {
        Some(e) => " (effort "@ + e@ + ")"@,
        None => ""@,
    })
}

pub fn route_label(route: &Route) -> (r: String)
    ensures
        r@ == label(*route),
{
    let model: String = match &route.model {
        Some(m) => text::join2("/", m.as_str()),
        None => "".to_owned(),
    };
    let effort: String = match &route.effort {
        Some(e) => text::join3(" (effort ", e.as_str(), ")"),
        None => "".to_owned(),
    };
    text::join3(known_or(&route.provider), model.as_str(), effort.as_str())
}

/// How some routes are told.
pub open spec fn labels(routes: Seq<Route>) -> Seq<Seq<char>> {
    routes.map_values(|route: Route| label(route))
}

fn show_labels(routes: &Vec<Route>) -> (r: Vec<String>)
    ensures
        text::texts(r@) == labels(routes@),
{
    let mut out: Vec<String> = Vec::new();
    let mut i: usize = 0;
    while i < routes.len()
        invariant
            i <= routes@.len(),
            text::texts(out@) == labels(routes@).take(i as int),
        decreases routes@.len() - i,
    {
        let ghost so_far = text::texts(out@);
        out.push(route_label(&routes[i]));
        assert(text::texts(out@) =~= so_far.push(labels(routes@)[i as int]));
        i += 1;
        assert(text::texts(out@) =~= labels(routes@).take(i as int));
    }
    assert(labels(routes@).take(i as int) =~= labels(routes@));
    out
}

/// A provider that a route may use, and whether its program is there.
#[derive(Debug, PartialEq, Eq)]
pub struct Candidate {
    pub provider: Option<String>,
    pub executable_exists: bool,
}

#[derive(Debug, PartialEq, Eq)]
pub struct ResolvedRole {
    pub primary: Route,
    pub fallbacks: Vec<Route>,
    pub policy_skipped: Vec<Route>,
    pub timeout_ms: Option<u64>,
    pub network: bool,
    pub read_only: bool,
    pub candidates: Vec<Candidate>,
}

/// How a role was resolved, or why it was not.
#[derive(Debug, PartialEq, Eq)]
pub struct RoleRow {
    pub role: Option<String>,
    pub outcome: Result<ResolvedRole, String>,
}

/// The providers from the `i`-th candidate on whose program is not there.
pub open spec fn missing_from(candidates: Seq<Candidate>, i: int) -> Seq<Seq<char>>
    decreases candidates.len() - i,
{
    if i < 0 || i >= candidates.len() {
        Seq::empty()
    } else {
        let rest = missing_from(candidates, i + 1);
        match candidates[i].provider {
            Some(p) => if !candidates[i].executable_exists {
                seq![p@] + rest
            } else {
                rest
            },
            None => rest,
        }
    }
}

fn list_missing(candidates: &Vec<Candidate>) -> (r: Vec<String>)
    ensures
        text::texts(r@) == missing_from(candidates@, 0),
{
    let mut out: Vec<String> = Vec::new();
    let ghost all = missing_from(candidates@, 0);
    assert(text::texts(out@) + all =~= all);
    let mut i: usize = 0;
    while i < candidates.len()
        invariant
            i <= candidates@.len(),
            text::texts(out@) + missing_from(candidates@, i as int) == all,
        decreases candidates@.len() - i,
    {
        match &candidates[i].provider {
            Some(p) => {
                if !candidates[i].executable_exists {
                    let ghost so_far = text::texts(out@);
                    let ghost rest = missing_from(candidates@, i + 1);
                    out.push(p.clone());
                    proof {
                        assert(text::texts(out@) =~= so_far.push(p@));
                        assert(so_far.push(p@) + rest =~= so_far + (seq![p@] + rest));
                    }
                }
            },
            None => {},
        }
        i += 1;
    }
    assert(text::texts(out@) + missing_from(candidates@, i as int) =~= text::texts(out@));
    out
}

/// A yes or a no.
pub open spec fn yes_no(b: bool) -> Seq<char> {
    if b {
        "yes"@
    } else {
        "no"@
    }
}

fn show_yes_no(b: bool) -> (r: &'static str)
    ensures
        r@ == yes_no(b),
{
    if b {
        "yes"
    } else {
        "no"
    }
}

/// What is told of a role that was resolved.
pub open spec fn resolved_lines(c: ResolvedRole) -> Seq<LineView> {
    seq![
        report::field("Status"@, "OK"@),
        report::field("Primary"@, label(c.primary)),
        report::field(
            "Fallbacks"@,
            if c.fallbacks@.len() == 0 {
                "none"@
            } else {
                text::listed(labels(c.fallbacks@), ", "@)
            },
        ),
    ] + (if c.policy_skipped@.len() > 0 {
        seq![
            report::field(
                "Skipped"@,
                text::listed(labels(c.policy_skipped@), ", "@) + " (project policy)"@,
            ),
        ]
    } else {
        Seq::empty()
    }) + (match c.timeout_ms {
        Some(ms) => seq![report::field("Timeout"@, text::digits((ms / 1000) as nat) + "s"@)],
        None => Seq::empty(),
    }) + seq![
        report::field("Network"@, yes_no(c.network)),
        report::field("Read-only"@, yes_no(c.read_only)),
    ] + (if missing_from(c.candidates@, 0).len() > 0 {
        seq![
            report::field(
                "Missing"@,
                "executable for "@ + text::listed(missing_from(c.candidates@, 0), ", "@),
            ),
        ]
    } else {
        Seq::empty()
    })
}

/// What is told of a role.
pub open spec fn role_lines(row: RoleRow) -> Seq<LineView> {
    seq![LineView::Section("Role "@ + or_unknown(row.role))] + match row.outcome {
        Ok(c) => resolved_lines(c),
        Err(m) => seq![
            report::field("Status"@, "UNCONFIGURED"@),
            report::field("Reason"@, m@),
        ],
    }
}

fn add_resolved(out: &mut Report, c: &ResolvedRole)
    ensures
        final(out)@ == old(out)@ + resolved_lines(*c),
{
    let ghost before = out@;
    out.field("Status", "OK");
    let primary: String = route_label(&c.primary);
    out.field("Primary", primary.as_str());
    let fallbacks: String = if c.fallbacks.len() == 0 {
        "none".to_owned()
    } else {
        let shown: Vec<String> = show_labels(&c.fallbacks);
        text::list(&shown, ", ")
    };
    out.field("Fallbacks", fallbacks.as_str());
    if c.policy_skipped.len() > 0 {
        let shown: Vec<String> = show_labels(&c.policy_skipped);
        let list: String = text::list(&shown, ", ");
        let skipped: String = text::join2(list.as_str(), " (project policy)");
        out.field("Skipped", skipped.as_str());
    }
    match c.timeout_ms {
        Some(ms) => {
            let n: String = text::decimal(ms / 1000);
            let seconds: String = text::join2(n.as_str(), "s");
            out.field("Timeout", seconds.as_str());
        },
        None => {},
    }
    out.field("Network", show_yes_no(c.network));
    out.field("Read-only", show_yes_no(c.read_only));
    let missing: Vec<String> = list_missing(&c.candidates);
    assert(text::texts(missing@).len() == missing@.len());
    if missing.len() > 0 {
        let list: String = text::list(&missing, ", ");
        let said: String = text::join2("executable for ", list.as_str());
        out.field("Missing", said.as_str());
    }
    assert(out@ =~= before + resolved_lines(*c));
}

/// Adds what is told of a role.
pub fn route_report(out: &mut Report, row: &RoleRow)
    ensures
        final(out)@ == old(out)@ + role_lines(*row),
{
    let ghost before = out@;
    let heading: String = text::join2("Role ", known_or(&row.role));
    out.section(heading.as_str());
    match &row.outcome {
        Ok(c) => add_resolved(out, c),
        Err(m) => {
            out.field("Status", "UNCONFIGURED");
            out.field("Reason", m.as_str());
        },
    }
    assert(out@ =~= before + role_lines(*row));
}

/// Whether a provider is signed in, and how.
#[derive(Debug, PartialEq, Eq)]
pub struct Authentication {
    pub authenticated: bool,
    pub method: Option<String>,
    pub guidance: Option<String>,
}

#[derive(Debug, PartialEq, Eq)]
pub struct ProviderRow {
    pub provider: String,
    pub adapter: String,
    pub executable: String,
    pub exists: bool,
    pub version: Option<String>,
    pub authentication: Option<Authentication>,
    pub sandbox_available: bool,
}

/// What is told of whether a provider is signed in.
pub open spec fn authentication_lines(a: Authentication) -> Seq<LineView> {
    seq![
        report::field(
            "Auth"@,
            (if a.authenticated {
                "AUTHENTICATED"@
            } else {
                "NOT AUTHENTICATED"@
            }) + " ("@ + or_unknown(a.method) + ")"@,
        ),
    ] + if a.authenticated {
        Seq::empty()
    } else {
        report::field_opt("Guidance"@, validation::message(a.guidance))
    }
}

/// What is told of a provider.
pub open spec fn provider_lines(row: ProviderRow) -> Seq<LineView> {
    seq![
        LineView::Section("Provider "@ + row.provider@),
        report::field("Adapter"@, row.adapter@),
        report::field(
            "Executable"@,
            row.executable@ + if row.exists {
                ""@
            } else {
                "  (MISSING)"@
            },
        ),
    ] + report::field_opt("Version"@, validation::message(row.version))
        + (match row.authentication {
        Some(a) => authentication_lines(a),
        None => Seq::empty(),
    }) + seq![report::field("Sandbox"@, yes_no(row.sandbox_available))]
}

fn add_authentication(out: &mut Report, a: &Authentication)
    ensures
        final(out)@ == old(out)@ + authentication_lines(*a),
{
    let ghost before = out@;
    let said: String = text::join3(
        if a.authenticated {
            "AUTHENTICATED"
        } else {
            "NOT AUTHENTICATED"
        },
        " (",
        known_or(&a.method),
    );
    let said: String = text::join2(said.as_str(), ")");
    out.field("Auth", said.as_str());
    if !a.authenticated {
        out.field_opt("Guidance", &a.guidance);
    }
    assert(out@ =~= before + authentication_lines(*a));
}

fn add_provider(out: &mut Report, row: &ProviderRow)
    ensures
        final(out)@ == old(out)@ + provider_lines(*row),
{
    let ghost before = out@;
    let heading: String = text::join2("Provider ", row.provider.as_str());
    out.section(heading.as_str());
    out.field("Adapter", row.adapter.as_str());
    let program: String = text::join2(
        row.executable.as_str(),
        if row.exists {
            ""
        } else {
            "  (MISSING)"
        },
    );
    out.field("Executable", program.as_str());
    out.field_opt("Version", &row.version);
    match &row.authentication {
        Some(a) => add_authentication(out, a),
        None => {},
    }
    out.field("Sandbox", show_yes_no(row.sandbox_available));
    assert(out@ =~= before + provider_lines(*row));
}

/// What is told of the first `n` providers.
pub open spec fn providers_lines(rows: Seq<ProviderRow>, n: int) -> Seq<LineView>
    decreases n,
{
    if rows.len() == 0 {
        seq![
            LineView::Text("No providers configured"@),
            LineView::Next(
                seq![
                    "Add a [runtime.providers.NAME] entry to the machine config (see docs/providers.md)."@,
                ],
            ),
        ]
    } else if n <= 0 {
        Seq::empty()
    } else {
        providers_lines(rows, n - 1) + provider_lines(rows[n - 1])
    }
}

pub fn providers_report(rows: &Vec<ProviderRow>) -> (r: Report)
    ensures
        r@ == providers_lines(rows@, rows@.len() as int),
{
    let mut out: Report = Report::empty();
    if rows.len() == 0 {
        out.text("No providers configured");
        let mut steps: Vec<String> = Vec::new();
        steps.push(
            "Add a [runtime.providers.NAME] entry to the machine config (see docs/providers.md).".to_owned(),
        );
        assert(text::texts(steps@) =~= seq![
            "Add a [runtime.providers.NAME] entry to the machine config (see docs/providers.md)."@,
        ]);
        out.next(steps);
        assert(out@ =~= providers_lines(rows@, 0));
        return out;
    }
    let mut i: usize = 0;
    while i < rows.len()
        invariant
            i <= rows@.len(),
            rows@.len() > 0,
            out@ == providers_lines(rows@, i as int),
        decreases rows@.len() - i,
    {
        add_provider(&mut out, &rows[i]);
        i += 1;
    }
    out
}

pub const VERSION_FAILED: &'static str = "provider version query failed";

pub const VERSION_TIMEOUT: &'static str = "provider version query timed out";

/// The version that a provider told, without anything that looks like a key.
pub fn version(success: bool, output: &str) -> (r: Result<String, Error>)
    ensures
        crate::error::settles(
            r,
            if !success {
                Some(VERSION_FAILED@)
            } else {
                None
            },
        ),
        r matches Ok(v) ==> v@ == credentials::redacted(text::trimmed(output@)),
{
    if !success {
        return invalid(VERSION_FAILED);
    }
    Ok(redact_text(text::trim(output)))
}

// ---------------------------------------------------------------------------
// Reports on runs
// ---------------------------------------------------------------------------

/// A job, as it is told.
#[derive(Debug, PartialEq, Eq)]
pub struct JobLine {
    pub job_id: String,
    pub role: String,
    pub state: String,
    pub task_id: Option<String>,
    pub failure_class: Option<String>,
}

/// How many jobs a report shows.
pub const SHOWN_JOBS: usize = 8;

/// What is told of a job.
pub open spec fn job_text(job: JobLine) -> Seq<char> {
    text::padded(job.role@, 9) + "  "@ + text::padded(job.state@, 11) + (match job.task_id {
        Some(t) => "  "@ + t@,
        None => ""@,
    }) + (match job.failure_class {
        Some(c) => "  "@ + c@,
        None => ""@,
    })
}

fn show_job(job: &JobLine) -> (r: String)
    ensures
        r@ == job_text(*job),
{
    let role: String = text::pad(job.role.as_str(), 9);
    let state: String = text::pad(job.state.as_str(), 11);
    let line: String = text::join3(role.as_str(), "  ", state.as_str());
    let task: String = match &job.task_id {
        Some(t) => text::join2("  ", t.as_str()),
        None => "".to_owned(),
    };
    let class: String = match &job.failure_class {
        Some(c) => text::join2("  ", c.as_str()),
        None => "".to_owned(),
    };
    text::join3(line.as_str(), task.as_str(), class.as_str())
}

/// The fields of the jobs from the `i`-th on.
pub open spec fn job_fields(jobs: Seq<JobLine>, i: int) -> Seq<LineView>
    decreases jobs.len() - i,
{
    if i < 0 || i >= jobs.len() {
        Seq::empty()
    } else {
        seq![report::field(jobs[i].job_id@, job_text(jobs[i]))] + job_fields(jobs, i + 1)
    }
}

/// What is told of the jobs of a run: the newest of them.
pub open spec fn jobs_lines(jobs: Seq<JobLine>, plan: Seq<char>) -> Seq<LineView> {
    if jobs.len() == 0 {
        Seq::empty()
    } else {
        seq![LineView::Section("Jobs"@)] + job_fields(
            jobs,
            if jobs.len() > SHOWN_JOBS {
                jobs.len() - SHOWN_JOBS
            } else {
                0
            },
        ) + if jobs.len() > SHOWN_JOBS {
            seq![
                LineView::Text(
                    "… "@ + text::digits((jobs.len() - SHOWN_JOBS) as nat)
                        + " earlier job(s); agentctl run status "@ + plan + " --json"@,
                ),
            ]
        } else {
            Seq::empty()
        }
    }
}

fn add_jobs(out: &mut Report, jobs: &Vec<JobLine>, plan: &str)
    ensures
        final(out)@ == old(out)@ + jobs_lines(jobs@, plan@),
{
    let ghost before = out@;
    if jobs.len() == 0 {
        assert(out@ =~= before + jobs_lines(jobs@, plan@));
        return;
    }
    out.section("Jobs");
    let from: usize = if jobs.len() > SHOWN_JOBS {
        jobs.len() - SHOWN_JOBS
    } else {
        0
    };
    let ghost head = before + seq![LineView::Section("Jobs"@)];
    let ghost fields = job_fields(jobs@, from as int);
    let mut i: usize = from;
    assert(out@ =~= head);
    assert(out@ + fields =~= head + fields);
    while i < jobs.len()
        invariant
            from <= i <= jobs@.len(),
            out@ + job_fields(jobs@, i as int) == head + fields,
        decreases jobs@.len() - i,
    {
        let ghost so_far = out@;
        let ghost rest = job_fields(jobs@, i + 1);
        let line: String = show_job(&jobs[i]);
        out.field(jobs[i].job_id.as_str(), line.as_str());
        proof {
            let one = report::field(jobs@[i as int].job_id@, job_text(jobs@[i as int]));
            assert(so_far.push(one) + rest =~= so_far + (seq![one] + rest));
        }
        i += 1;
    }
    assert(out@ + job_fields(jobs@, i as int) =~= out@);
    if jobs.len() > SHOWN_JOBS {
        let n: String = text::decimal((jobs.len() - SHOWN_JOBS) as u64);
        let said: String = text::join3(
            "… ",
            n.as_str(),
            " earlier job(s); agentctl run status ",
        );
        let said: String = text::join3(said.as_str(), plan, " --json");
        out.text(said.as_str());
    }
    assert(out@ =~= before + jobs_lines(jobs@, plan@));
}

/// Whether a context request of a run waits for a decision.
pub open spec fn awaits_context(context: Seq<LedgerEntry>) -> bool {
    exists|i: int|
        0 <= i < context.len() && (#[trigger] context[i]).ledger.state
            is NeedsPlannerContextApproval
}

fn does_await_context(context: &Vec<LedgerEntry>) -> (r: bool)
    ensures
        r == awaits_context(context@),
{
    let mut i: usize = 0;
    while i < context.len()
        invariant
            i <= context@.len(),
            forall|k: int|
                0 <= k < i ==> !((#[trigger] context@[k]).ledger.state
                    is NeedsPlannerContextApproval),
        decreases context@.len() - i,
    {
        match context[i].ledger.state {
            LedgerState::NeedsPlannerContextApproval => {
                assert(context@[i as int].ledger.state is NeedsPlannerContextApproval);
                return true;
            },
            _ => {},
        }
        i += 1;
    }
    false
}

/// How to replace a plan.
pub open spec fn replace_step(plan: Seq<char>) -> Seq<char> {
    "Prepare a replacement plan, then: agentctl run replace "@ + plan + " <replacement-plan-id>"@
}

/// What can be done next with a run.
pub open spec fn run_steps(run: RunRecord) -> Seq<Seq<char>> {
    let plan = run.plan_id@;
    match run.state {
        RunState::Complete => seq![
            "Review the changes (git diff) and commit them before the next plan."@,
        ],
        RunState::Running => seq![
            "agentctl run status "@ + plan,
            "agentctl run cancel "@ + plan,
        ],
        RunState::Cancelled => seq![replace_step(plan)],
        RunState::Blocked => if awaits_context(run.context@) {
            seq![
                "Review the escalated context request: agentctl run context "@ + plan,
                "Then decide it: agentctl run context decide "@ + plan + " <decision.json>"@,
            ]
        } else if run.refused is Some {
            seq![
                "Discard the refused result: agentctl run restore "@ + plan,
                "Then replace the plan: agentctl run replace "@ + plan
                    + " <replacement-plan-id>"@,
            ]
        } else {
            seq![replace_step(plan)]
        },
    }
}

fn list_steps(run: &RunRecord) -> (r: Vec<String>)
    ensures
        text::texts(r@) == run_steps(*run),
{
    let plan: &str = run.plan_id.as_str();
    let mut out: Vec<String> = Vec::new();
    match run.state {
        RunState::Complete => {
            out.push(
                "Review the changes (git diff) and commit them before the next plan.".to_owned(),
            );
        },
        RunState::Running => {
            out.push(text::join2("agentctl run status ", plan));
            out.push(text::join2("agentctl run cancel ", plan));
        },
        RunState::Cancelled => {
            out.push(
                text::join3(
                    "Prepare a replacement plan, then: agentctl run replace ",
                    plan,
                    " <replacement-plan-id>",
                ),
            );
        },
        RunState::Blocked => {
            if does_await_context(&run.context) {
                out.push(
                    text::join2(
                        "Review the escalated context request: agentctl run context ",
                        plan,
                    ),
                );
                out.push(
                    text::join3(
                        "Then decide it: agentctl run context decide ",
                        plan,
                        " <decision.json>",
                    ),
                );
            } else if run.refused.is_some() {
                out.push(text::join2("Discard the refused result: agentctl run restore ", plan));
                out.push(
                    text::join3(
                        "Then replace the plan: agentctl run replace ",
                        plan,
                        " <replacement-plan-id>",
                    ),
                );
            } else {
                out.push(
                    text::join3(
                        "Prepare a replacement plan, then: agentctl run replace ",
                        plan,
                        " <replacement-plan-id>",
                    ),
                );
            }
        },
    }
    assert(text::texts(out@) =~= run_steps(*run));
    out
}

/// The tasks of some branches.
pub open spec fn branch_tasks(branches: Seq<PendingTask>) -> Seq<Seq<char>> {
    branches.map_values(|b: PendingTask| b.task_id@)
}

fn list_branch_tasks(branches: &Vec<PendingTask>) -> (r: Vec<String>)
    ensures
        text::texts(r@) == branch_tasks(branches@),
{
    let mut out: Vec<String> = Vec::new();
    let mut i: usize = 0;
    while i < branches.len()
        invariant
            i <= branches@.len(),
            text::texts(out@) == branch_tasks(branches@).take(i as int),
        decreases branches@.len() - i,
    {
        let ghost so_far = text::texts(out@);
        out.push(branches[i].task_id.clone());
        assert(text::texts(out@) =~= so_far.push(branch_tasks(branches@)[i as int]));
        i += 1;
        assert(text::texts(out@) =~= branch_tasks(branches@).take(i as int));
    }
    assert(branch_tasks(branches@).take(i as int) =~= branch_tasks(branches@));
    out
}

/// What stands above why a run stands still.
pub open spec fn reason_title(state: RunState) -> Seq<char> {
    match state {
        RunState::Blocked => "Blocked"@,
        RunState::Cancelled => "Cancelled"@,
        _ => "Note"@,
    }
}

/// What is told of where a run stands.
pub open spec fn progress_lines(run: RunRecord, state: Seq<char>) -> Seq<LineView> {
    seq![
        LineView::Title("Run"@),
        report::field("Plan"@, run.plan_id@),
        report::field("Status"@, state),
        report::field("Verified"@, text::digits(run.accepted@.len()) + " task(s)"@),
    ] + (match run.pending {
        Some(p) => seq![report::field("Pending"@, p.task_id@)],
        None => Seq::empty(),
    }) + (if run.branches@.len() > 0 {
        seq![report::field("Branches"@, text::listed(branch_tasks(run.branches@), ", "@))]
    } else {
        Seq::empty()
    }) + (if run.correction_round > 0 {
        seq![
            report::field("Correction"@, "round "@ + text::digits(run.correction_round as nat)),
        ]
    } else {
        Seq::empty()
    }) + seq![report::field("Source"@, run.expected.hash@)] + (match run.reason {
        Some(m) => seq![LineView::Section(reason_title(run.state)), LineView::Reason(m@)],
        None => Seq::empty(),
    })
}

fn progress(run: &RunRecord, state: &str) -> (r: Report)
    ensures
        r@ == progress_lines(*run, state@),
{
    let mut out: Report = Report::new("Run");
    out.field("Plan", run.plan_id.as_str());
    out.field("Status", state);
    let n: String = text::decimal(run.accepted.len() as u64);
    let verified: String = text::join2(n.as_str(), " task(s)");
    out.field("Verified", verified.as_str());
    match &run.pending {
        Some(p) => out.field("Pending", p.task_id.as_str()),
        None => {},
    }
    if run.branches.len() > 0 {
        let names: Vec<String> = list_branch_tasks(&run.branches);
        let list: String = text::list(&names, ", ");
        out.field("Branches", list.as_str());
    }
    if run.correction_round > 0 {
        let n: String = text::decimal(run.correction_round as u64);
        let round: String = text::join2("round ", n.as_str());
        out.field("Correction", round.as_str());
    }
    out.field("Source", run.expected.hash.as_str());
    match &run.reason {
        Some(m) => {
            out.section(
                match run.state {
                    RunState::Blocked => "Blocked",
                    RunState::Cancelled => "Cancelled",
                    _ => "Note",
                },
            );
            out.reason(m.as_str());
        },
        None => {},
    }
    assert(out@ =~= progress_lines(*run, state@));
    out
}

/// What is told of a run.
pub open spec fn run_lines(run: RunRecord, state: Seq<char>, jobs: Seq<JobLine>) -> Seq<LineView> {
    progress_lines(run, state) + jobs_lines(jobs, run.plan_id@) + seq![
        LineView::Next(run_steps(run)),
    ]
}

/// Tells of a run: its state, its progress, why it stands still, its newest jobs
/// and what can be done next. `state` names its state.
pub fn run_report(run: &RunRecord, state: &str, jobs: &Vec<JobLine>) -> (r: Report)
    ensures
        r@ == run_lines(*run, state@, jobs@),
{
    let mut out: Report = progress(run, state);
    add_jobs(&mut out, jobs, run.plan_id.as_str());
    out.next(list_steps(run));
    assert(out@ =~= run_lines(*run, state@, jobs@));
    out
}

/// What is told of a plan that was never run.
pub open spec fn no_run_lines(id: Seq<char>) -> Seq<LineView> {
    seq![
        LineView::Title("No run recorded"@),
        report::field("Plan"@, id),
        LineView::Next(seq!["agentctl plan show "@ + id, "agentctl run plan "@ + id]),
    ]
}

pub fn no_run_report(id: &str) -> (r: Report)
    ensures
        r@ == no_run_lines(id@),
{
    let mut out: Report = Report::new("No run recorded");
    out.field("Plan", id);
    let mut steps: Vec<String> = Vec::new();
    steps.push(text::join2("agentctl plan show ", id));
    steps.push(text::join2("agentctl run plan ", id));
    assert(text::texts(steps@) =~= seq!["agentctl plan show "@ + id@, "agentctl run plan "@ + id@]);
    out.next(steps);
    assert(out@ =~= no_run_lines(id@));
    out
}

/// What is told of a plan that was replaced.
pub open spec fn replaced_lines(before: Seq<char>, after: Seq<char>) -> Seq<LineView> {
    seq![
        LineView::Title("Plan replaced"@),
        report::field("Plan"@, before),
        report::field("Replacement"@, after + "  (VALIDATED, not active)"@),
        LineView::Next(seq!["agentctl plan activate "@ + after, "agentctl run plan "@ + after]),
    ]
}

pub fn replaced_report(before: &str, after: &str) -> (r: Report)
    ensures
        r@ == replaced_lines(before@, after@),
{
    let mut out: Report = Report::new("Plan replaced");
    out.field("Plan", before);
    let said: String = text::join2(after, "  (VALIDATED, not active)");
    out.field("Replacement", said.as_str());
    let mut steps: Vec<String> = Vec::new();
    steps.push(text::join2("agentctl plan activate ", after));
    steps.push(text::join2("agentctl run plan ", after));
    assert(text::texts(steps@) =~= seq![
        "agentctl plan activate "@ + after@,
        "agentctl run plan "@ + after@,
    ]);
    out.next(steps);
    assert(out@ =~= replaced_lines(before@, after@));
    out
}

/// What is told of a run that was asked to stop, or was stopped.
pub open spec fn cancelled_lines(id: Seq<char>, state: RunState, name: Seq<char>) -> Seq<LineView> {
    match state {
        RunState::Running => seq![
            LineView::Title("Cancellation requested"@),
            report::field("Plan"@, id),
            report::field("Status"@, "RUNNING"@),
            LineView::Text("The running controller stops its owned child processes."@),
            LineView::Next(seq!["agentctl run status "@ + id]),
        ],
        _ => seq![
            LineView::Title("Plan cancelled"@),
            report::field("Plan"@, id),
            report::field("Status"@, name),
            LineView::Text("The workspace is free for a replacement plan."@),
            LineView::Next(
                seq![
                    "agentctl plan prepare --objective TEXT"@,
                    "agentctl run replace "@ + id + " <replacement-plan-id>"@,
                ],
            ),
        ],
    }
}

pub fn cancelled_report(id: &str, state: RunState, name: &str) -> (r: Report)
    ensures
        r@ == cancelled_lines(id@, state, name@),
{
    let mut steps: Vec<String> = Vec::new();
    match state {
        RunState::Running => {
            let mut out: Report = Report::new("Cancellation requested");
            out.field("Plan", id);
            out.field("Status", "RUNNING");
            out.text("The running controller stops its owned child processes.");
            steps.push(text::join2("agentctl run status ", id));
            assert(text::texts(steps@) =~= seq!["agentctl run status "@ + id@]);
            out.next(steps);
            assert(out@ =~= cancelled_lines(id@, state, name@));
            out
        },
        _ => {
            let mut out: Report = Report::new("Plan cancelled");
            out.field("Plan", id);
            out.field("Status", name);
            out.text("The workspace is free for a replacement plan.");
            steps.push("agentctl plan prepare --objective TEXT".to_owned());
            steps.push(text::join3("agentctl run replace ", id, " <replacement-plan-id>"));
            assert(text::texts(steps@) =~= seq![
                "agentctl plan prepare --objective TEXT"@,
                "agentctl run replace "@ + id@ + " <replacement-plan-id>"@,
            ]);
            out.next(steps);
            assert(out@ =~= cancelled_lines(id@, state, name@));
            out
        },
    }
}

/// What is told of a refused result that was discarded.
pub open spec fn restored_lines(id: Seq<char>) -> Seq<LineView> {
    seq![
        LineView::Title("Refused result discarded"@),
        report::field("Plan"@, id),
        report::field("Workspace"@, "restored to the last verified source"@),
        report::field("Unchanged"@, "task states, dependency locks, accepted ontology"@),
        LineView::Next(seq![replace_step(id)]),
    ]
}

pub fn restored_report(id: &str) -> (r: Report)
    ensures
        r@ == restored_lines(id@),
{
    let mut out: Report = Report::new("Refused result discarded");
    out.field("Plan", id);
    out.field("Workspace", "restored to the last verified source");
    out.field("Unchanged", "task states, dependency locks, accepted ontology");
    let mut steps: Vec<String> = Vec::new();
    steps.push(
        text::join3(
            "Prepare a replacement plan, then: agentctl run replace ",
            id,
            " <replacement-plan-id>",
        ),
    );
    assert(text::texts(steps@) =~= seq![replace_step(id@)]);
    out.next(steps);
    assert(out@ =~= restored_lines(id@));
    out
}

/// What is told of a plan that a planner produced.
pub open spec fn produced_lines(
    plan: Seq<char>,
    state: Seq<char>,
    tasks: nat,
    objective: Seq<char>,
) -> Seq<LineView> {
    seq![
        LineView::Title("Plan produced"@),
        report::field("Plan"@, plan),
        report::field("Status"@, state),
        report::field("Tasks"@, text::digits(tasks)),
        report::field("Objective"@, objective),
        LineView::Next(seq!["agentctl plan show "@ + plan, "agentctl plan activate "@ + plan]),
    ]
}

pub fn produced_report(plan: &str, state: &str, tasks: usize, objective: &str) -> (r: Report)
    ensures
        r@ == produced_lines(plan@, state@, tasks as nat, objective@),
{
    let mut out: Report = Report::new("Plan produced");
    out.field("Plan", plan);
    out.field("Status", state);
    let n: String = text::decimal(tasks as u64);
    out.field("Tasks", n.as_str());
    out.field("Objective", objective);
    let mut steps: Vec<String> = Vec::new();
    steps.push(text::join2("agentctl plan show ", plan));
    steps.push(text::join2("agentctl plan activate ", plan));
    assert(text::texts(steps@) =~= seq![
        "agentctl plan show "@ + plan@,
        "agentctl plan activate "@ + plan@,
    ]);
    out.next(steps);
    assert(out@ =~= produced_lines(plan@, state@, tasks as nat, objective@));
    out
}

/// A name and what is said of it.
#[derive(Debug, PartialEq, Eq)]
pub struct Named {
    pub name: String,
    pub value: String,
}

/// The fields of the first `n` names.
pub open spec fn named_fields(all: Seq<Named>, n: int) -> Seq<LineView>
    decreases n,
{
    if n <= 0 {
        Seq::empty()
    } else {
        named_fields(all, n - 1).push(report::field(all[n - 1].name@, all[n - 1].value@))
    }
}

fn add_named(out: &mut Report, all: &Vec<Named>)
    ensures
        final(out)@ == old(out)@ + named_fields(all@, all@.len() as int),
{
    let ghost before = out@;
    let mut i: usize = 0;
    assert(out@ =~= before + named_fields(all@, 0));
    while i < all.len()
        invariant
            i <= all@.len(),
            out@ == before + named_fields(all@, i as int),
        decreases all@.len() - i,
    {
        out.field(all[i].name.as_str(), all[i].value.as_str());
        i += 1;
        assert(out@ =~= before + named_fields(all@, i as int));
    }
}

/// A capability, how it stands, and how much evidence there is.
#[derive(Debug, PartialEq, Eq)]
pub struct Finding {
    pub capability: String,
    pub status: String,
    pub evidence: usize,
}

/// The fields of the first `n` findings.
pub open spec fn finding_fields(all: Seq<Finding>, n: int) -> Seq<LineView>
    decreases n,
{
    if n <= 0 {
        Seq::empty()
    } else {
        let f = all[n - 1];
        finding_fields(all, n - 1).push(
            report::field(
                f.capability@,
                f.status@ + "  ("@ + text::digits(f.evidence as nat) + " evidence)"@,
            ),
        )
    }
}

/// What is told of the capabilities that a run showed.
pub open spec fn capabilities_lines(
    plan: Seq<char>,
    state: Seq<char>,
    generation: Option<String>,
    all: Seq<Finding>,
    id: Seq<char>,
) -> Seq<LineView> {
    seq![
        LineView::Title("Capabilities"@),
        report::field("Plan"@, plan),
        report::field("Plan state"@, state),
        report::field(
            "Generation"@,
            match generation {
                Some(g) => g@,
                None => "none"@,
            },
        ),
        LineView::Section("Findings"@),
    ] + finding_fields(all, all.len() as int) + seq![
        LineView::Text(""@),
        LineView::Text(
            "Evidence and limitations: agentctl run capabilities "@ + id + " --json"@,
        ),
    ]
}

pub fn capabilities_report(
    plan: &str,
    state: &str,
    generation: &Option<String>,
    all: &Vec<Finding>,
    id: &str,
) -> (r: Report)
    ensures
        r@ == capabilities_lines(plan@, state@, *generation, all@, id@),
{
    let mut out: Report = Report::new("Capabilities");
    out.field("Plan", plan);
    out.field("Plan state", state);
    out.field(
        "Generation",
        match generation {
            Some(g) => g.as_str(),
            None => "none",
        },
    );
    out.section("Findings");
    let ghost head = out@;
    let mut i: usize = 0;
    assert(out@ =~= head + finding_fields(all@, 0));
    while i < all.len()
        invariant
            i <= all@.len(),
            out@ == head + finding_fields(all@, i as int),
        decreases all@.len() - i,
    {
        let n: String = text::decimal(all[i].evidence as u64);
        let said: String = text::join3(all[i].status.as_str(), "  (", n.as_str());
        let said: String = text::join2(said.as_str(), " evidence)");
        out.field(all[i].capability.as_str(), said.as_str());
        i += 1;
        assert(out@ =~= head + finding_fields(all@, i as int));
    }
    out.text("");
    let said: String = text::join3(
        "Evidence and limitations: agentctl run capabilities ",
        id,
        " --json",
    );
    out.text(said.as_str());
    assert(out@ =~= capabilities_lines(plan@, state@, *generation, all@, id@));
    out
}

pub const STRATEGY: &'static str =
    "compatible executors use isolated Git worktrees; reconciliation and acceptance stay serialized";

/// A role and where it is sent.
#[derive(Debug, PartialEq, Eq)]
pub struct ConfiguredRole {
    pub role: String,
    pub route: Route,
}

/// The fields of the first `n` roles.
pub open spec fn role_fields(roles: Seq<ConfiguredRole>, n: int) -> Seq<LineView>
    decreases n,
{
    if n <= 0 {
        Seq::empty()
    } else {
        role_fields(roles, n - 1).push(
            report::field(roles[n - 1].role@, label(roles[n - 1].route)),
        )
    }
}

/// What is told of a run before it is started.
pub open spec fn dry_run_lines(
    id: Seq<char>,
    workspace: Seq<char>,
    root: Seq<char>,
    roles: Seq<ConfiguredRole>,
    ready: Seq<Named>,
) -> Seq<LineView> {
    seq![
        LineView::Title("Dry run"@),
        report::field("Plan"@, id),
        report::field("Workspace"@, workspace),
        report::field("Root"@, root),
        report::field("Strategy"@, STRATEGY@),
        LineView::Section("Roles"@),
    ] + (if roles.len() == 0 {
        seq![LineView::Text("none configured (agentctl route check)"@)]
    } else {
        Seq::empty()
    }) + role_fields(roles, roles.len() as int) + seq![
        LineView::Section("Ready tasks ("@ + text::digits(ready.len()) + ")"@),
    ] + (if ready.len() == 0 {
        seq![LineView::Text("none"@)]
    } else {
        Seq::empty()
    }) + named_fields(ready, ready.len() as int) + seq![
        LineView::Text(""@),
        LineView::Text("Compatibility analysis: agentctl run plan "@ + id + " --dry-run --json"@),
    ]
}

fn add_roles(out: &mut Report, roles: &Vec<ConfiguredRole>)
    ensures
        final(out)@ == old(out)@ + role_fields(roles@, roles@.len() as int),
{
    let ghost before = out@;
    let mut i: usize = 0;
    assert(out@ =~= before + role_fields(roles@, 0));
    while i < roles.len()
        invariant
            i <= roles@.len(),
            out@ == before + role_fields(roles@, i as int),
        decreases roles@.len() - i,
    {
        let shown: String = route_label(&roles[i].route);
        out.field(roles[i].role.as_str(), shown.as_str());
        i += 1;
        assert(out@ =~= before + role_fields(roles@, i as int));
    }
}

/// Tells of a run before it is started. `ready` names the tasks that are ready
/// and their objectives.
pub fn dry_run_report(
    id: &str,
    workspace: &str,
    root: &str,
    roles: &Vec<ConfiguredRole>,
    ready: &Vec<Named>,
) -> (r: Report)
    ensures
        r@ == dry_run_lines(id@, workspace@, root@, roles@, ready@),
{
    let mut out: Report = Report::new("Dry run");
    out.field("Plan", id);
    out.field("Workspace", workspace);
    out.field("Root", root);
    out.field("Strategy", STRATEGY);
    out.section("Roles");
    if roles.len() == 0 {
        out.text("none configured (agentctl route check)");
    }
    add_roles(&mut out, roles);
    let n: String = text::decimal(ready.len() as u64);
    let heading: String = text::join3("Ready tasks (", n.as_str(), ")");
    out.section(heading.as_str());
    if ready.len() == 0 {
        out.text("none");
    }
    add_named(&mut out, ready);
    out.text("");
    let said: String = text::join3(
        "Compatibility analysis: agentctl run plan ",
        id,
        " --dry-run --json",
    );
    out.text(said.as_str());
    assert(out@ =~= dry_run_lines(id@, workspace@, root@, roles@, ready@));
    out
}

// ---------------------------------------------------------------------------
// Reports on context
// ---------------------------------------------------------------------------

/// A context request that waits for a decision.
#[derive(Debug, PartialEq, Eq)]
pub struct WaitingDecision {
    pub outside_paths: Vec<String>,
    pub approvable: bool,
    pub detail: String,
}

/// How the context relay stands for one subject.
#[derive(Debug, PartialEq, Eq)]
pub struct Subject {
    pub subject: String,
    pub state: String,
    pub rounds_used: u64,
    pub max_rounds: u64,
    pub granted_bytes: u64,
    pub task_bytes_remaining: u64,
    pub escalations: u64,
    pub decision: Option<WaitingDecision>,
}

/// What is told of one subject.
pub open spec fn subject_lines(s: Subject) -> Seq<LineView> {
    seq![
        LineView::Section("Subject "@ + s.subject@),
        report::field("State"@, s.state@),
        report::field(
            "Rounds"@,
            text::digits(s.rounds_used as nat) + "/"@ + text::digits(s.max_rounds as nat),
        ),
        report::field(
            "Granted"@,
            text::digits(s.granted_bytes as nat) + " bytes ("@ + text::digits(
                s.task_bytes_remaining as nat,
            ) + " remaining)"@,
        ),
        report::field("Escalations"@, text::digits(s.escalations as nat)),
    ] + match s.decision {
        Some(d) => seq![
            report::field("Requested"@, text::listed(text::texts(d.outside_paths@), "\n"@)),
            report::field(
                "Approvable"@,
                if d.approvable {
                    "yes"@
                } else {
                    "no — "@ + d.detail@
                },
            ),
        ],
        None => Seq::empty(),
    }
}

fn add_subject(out: &mut Report, s: &Subject)
    ensures
        final(out)@ == old(out)@ + subject_lines(*s),
{
    let ghost before = out@;
    let heading: String = text::join2("Subject ", s.subject.as_str());
    out.section(heading.as_str());
    out.field("State", s.state.as_str());
    let used: String = text::decimal(s.rounds_used);
    let most: String = text::decimal(s.max_rounds);
    let rounds: String = text::join3(used.as_str(), "/", most.as_str());
    out.field("Rounds", rounds.as_str());
    let granted: String = text::decimal(s.granted_bytes);
    let left: String = text::decimal(s.task_bytes_remaining);
    let bytes: String = text::join3(granted.as_str(), " bytes (", left.as_str());
    let bytes: String = text::join2(bytes.as_str(), " remaining)");
    out.field("Granted", bytes.as_str());
    let escalations: String = text::decimal(s.escalations);
    out.field("Escalations", escalations.as_str());
    match &s.decision {
        Some(d) => {
            let paths: String = text::list(&d.outside_paths, "\n");
            out.field("Requested", paths.as_str());
            let answer: String = if d.approvable {
                "yes".to_owned()
            } else {
                text::join2("no — ", d.detail.as_str())
            };
            out.field("Approvable", answer.as_str());
        },
        None => {},
    }
    assert(out@ =~= before + subject_lines(*s));
}

/// What is told of the first `n` subjects.
pub open spec fn subjects_lines(all: Seq<Subject>, n: int) -> Seq<LineView>
    decreases n,
{
    if n <= 0 {
        Seq::empty()
    } else {
        subjects_lines(all, n - 1) + subject_lines(all[n - 1])
    }
}

/// Whether one of the first `n` subjects waits for a decision.
pub open spec fn any_waits(all: Seq<Subject>, n: int) -> bool {
    exists|i: int| 0 <= i < n && (#[trigger] all[i]).decision is Some
}

/// What is told of the context relay of a run.
pub open spec fn context_lines(
    plan: Seq<char>,
    state: Seq<char>,
    reason: Option<String>,
    all: Seq<Subject>,
) -> Seq<LineView> {
    seq![
        LineView::Title("Context relay"@),
        report::field("Plan"@, plan),
        report::field("Run"@, state),
    ] + (match reason {
        Some(m) => seq![LineView::Reason(m@)],
        None => Seq::empty(),
    }) + (if all.len() == 0 {
        seq![LineView::Text("No context requests recorded."@)]
    } else {
        Seq::empty()
    }) + subjects_lines(all, all.len() as int) + if any_waits(all, all.len() as int) {
        seq![
            LineView::Next(
                seq![
                    "Write a decision from the template in: agentctl run context "@ + plan
                        + " --json"@,
                    "agentctl run context decide "@ + plan + " <decision.json>"@,
                ],
            ),
        ]
    } else {
        Seq::empty()
    }
}

/// Tells of the context relay of a run.
pub fn context_report(plan: &str, state: &str, reason: &Option<String>, all: &Vec<Subject>) -> (r:
    Report)
    ensures
        r@ == context_lines(plan@, state@, *reason, all@),
{
    let mut out: Report = Report::new("Context relay");
    out.field("Plan", plan);
    out.field("Run", state);
    match reason {
        Some(m) => out.reason(m.as_str()),
        None => {},
    }
    if all.len() == 0 {
        out.text("No context requests recorded.");
    }
    let ghost head = out@;
    let mut waiting: bool = false;
    let mut i: usize = 0;
    assert(out@ =~= head + subjects_lines(all@, 0));
    while i < all.len()
        invariant
            i <= all@.len(),
            out@ == head + subjects_lines(all@, i as int),
            waiting == any_waits(all@, i as int),
        decreases all@.len() - i,
    {
        add_subject(&mut out, &all[i]);
        if all[i].decision.is_some() {
            assert(all@[i as int].decision is Some);
            waiting = true;
        }
        i += 1;
        assert(out@ =~= head + subjects_lines(all@, i as int));
    }
    if waiting {
        let mut steps: Vec<String> = Vec::new();
        steps.push(
            text::join3(
                "Write a decision from the template in: agentctl run context ",
                plan,
                " --json",
            ),
        );
        steps.push(text::join3("agentctl run context decide ", plan, " <decision.json>"));
        assert(text::texts(steps@) =~= seq![
            "Write a decision from the template in: agentctl run context "@ + plan@ + " --json"@,
            "agentctl run context decide "@ + plan@ + " <decision.json>"@,
        ]);
        out.next(steps);
    }
    assert(out@ =~= context_lines(plan@, state@, *reason, all@));
    out
}

// ---------------------------------------------------------------------------
// Laws
// ---------------------------------------------------------------------------

/// An override never reaches a command that neither inspects routes nor launches
/// workers.
pub proof fn law_overrides_reach_workers_only(words: Seq<Seq<char>>, overrides: Seq<OverrideView>)
    requires
        overrides.len() > 0,
        command_of(words, overrides) is Ok,
    ensures
        executes(words),
        command_of(words, overrides)->Ok_0 is Plan || command_of(words, overrides)->Ok_0 is Resume
            || command_of(words, overrides)->Ok_0 is Planner,
{
    reveal_strlit("run");
    reveal_strlit("provider");
    reveal_strlit("status");
    reveal_strlit("capabilities");
    reveal_strlit("cancel");
    reveal_strlit("restore");
    reveal_strlit("context");
    reveal_strlit("plan");
    reveal_strlit("resume");
    reveal_strlit("planner");
    assert("plan"@.len() == 4 && "resume"@.len() == 6 && "planner"@.len() == 7);
    assert("status"@[0] == 's' && "resume"@[0] == 'r' && "cancel"@[0] == 'c');
    assert("restore"@[0] == 'r' && "planner"@[0] == 'p' && "context"@[0] == 'c');
}

} // verus!
