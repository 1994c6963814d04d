//! What planning commands ask for and what people are told about plans.
use crate::error::{invalid, Error};
use crate::planning::model::{
    ExecutionPlanView, PlanState, PlanSummary, PlanningLimits, PlanningProvenance, RequestDraft,
    TaskInspection,
};
use crate::planning::validation;
use crate::planning::validation::unless;
use crate::protocol::{TaskState, VerificationRequirements};
use crate::report;
use crate::report::{LineView, Report};
use crate::text;
use vstd::prelude::*;

verus! {

// ---------------------------------------------------------------------------
// Preparing
// ---------------------------------------------------------------------------

/// The flags of `prepare`.
pub open spec fn is_prepare_flag(s: Seq<char>) -> bool {
    ||| s == "--objective"@
    ||| s == "--objective-file"@
    ||| s == "--request-file"@
    ||| s == "--verify"@
    ||| s == "--query"@
    ||| s == "--bytes"@
    ||| s == "--primary"@
    ||| s == "--neighbors"@
    ||| s == "--tests"@
    ||| s == "--files"@
    ||| s == "--canonical"@
    ||| s == "--facts"@
    ||| s == "--notes"@
    ||| s == "--excerpt-bytes"@
    ||| s == "--excerpt-lines"@
}

fn prepare_flag(s: &str) -> (r: bool)
    ensures
        r == is_prepare_flag(s@),
{
    text::same(s, "--objective") || text::same(s, "--objective-file") || text::same(
        s,
        "--request-file",
    ) || text::same(s, "--verify") || text::same(s, "--query") || text::same(s, "--bytes")
        || text::same(s, "--primary") || text::same(s, "--neighbors") || text::same(s, "--tests")
        || text::same(s, "--files") || text::same(s, "--canonical") || text::same(s, "--facts")
        || text::same(s, "--notes") || text::same(s, "--excerpt-bytes") || text::same(
        s,
        "--excerpt-lines",
    )
}

/// The value of a flag, looked up from the `i`-th word on.
pub open spec fn flag_at(args: Seq<Seq<char>>, name: Seq<char>, i: int) -> Option<Seq<char>>
    decreases args.len() - i,
{
    if i < 0 || i + 1 >= args.len() {
        None
    } else if args[i] == name {
        Some(args[i + 1])
    } else {
        flag_at(args, name, i + 2)
    }
}

fn find_flag(args: &[&str], name: &str) -> (r: Option<String>)
    ensures
        validation::message(r) == flag_at(text::strs(args@), name@, 0),
{
    let ghost all = text::strs(args@);
    let mut i: usize = 0;
    while i < args.len() && args.len() - i > 1
        invariant
            i <= args@.len() + 1,
            all == text::strs(args@),
            flag_at(all, name@, 0) == flag_at(all, name@, i as int),
        decreases args@.len() + 1 - i,
    {
        assert(all[i as int] == args@[i as int]@ && all[i + 1] == args@[i + 1]@);
        if text::same(args[i], name) {
            return Some(args[i + 1].to_owned());
        }
        i += 2;
    }
    None
}

pub const FLAG_VALUES: &'static str = "prepare flags require values";

pub const FLAG_REPEATED: &'static str = "repeated prepare flag";

pub const ONE_OBJECTIVE: &'static str = "choose one objective, objective-file or request-file";

/// Whether the flag at a place occurs before it.
pub open spec fn flag_repeated(args: Seq<Seq<char>>, i: int) -> bool {
    exists|j: int| 0 <= j < i && j % 2 == 0 && #[trigger] args[j] == args[i]
}

/// Why the flags from the `i`-th word on are not acceptable, if they are not.
pub open spec fn flags_refusal(args: Seq<Seq<char>>, i: int) -> Option<Seq<char>>
    decreases args.len() - i,
{
    if i < 0 || i + 1 >= args.len() {
        None
    } else if !is_prepare_flag(args[i]) {
        Some("unknown prepare flag "@ + args[i])
    } else if flag_repeated(args, i) {
        Some(FLAG_REPEATED@)
    } else {
        flags_refusal(args, i + 2)
    }
}

/// How many of the ways to say what is wanted are used.
pub open spec fn objectives(args: Seq<Seq<char>>) -> int {
    (if flag_at(args, "--objective"@, 0) is Some {
        1int
    } else {
        0
    }) + (if flag_at(args, "--objective-file"@, 0) is Some {
        1int
    } else {
        0
    }) + (if flag_at(args, "--request-file"@, 0) is Some {
        1int
    } else {
        0
    })
}

/// Why `prepare` does not take its arguments, if it does not.
pub open spec fn prepare_refusal(args: Seq<Seq<char>>) -> Option<Seq<char>> {
    if args.len() % 2 != 0 {
        Some(FLAG_VALUES@)
    } else {
        crate::error::either(
            flags_refusal(args, 0),
            if objectives(args) != 1 {
                Some(ONE_OBJECTIVE@)
            } else {
                None
            },
        )
    }
}

/// Where the objective comes from.
#[derive(Debug, PartialEq, Eq)]
pub enum ObjectiveSource {
    Objective(String),
    ObjectiveFile(String),
    RequestFile(String),
}

/// What was given for limits.
#[derive(Debug, PartialEq, Eq)]
pub struct LimitTexts {
    pub bytes: Option<String>,
    pub primary: Option<String>,
    pub neighbors: Option<String>,
    pub tests: Option<String>,
    pub files: Option<String>,
    pub canonical: Option<String>,
    pub facts: Option<String>,
    pub notes: Option<String>,
    pub excerpt_bytes: Option<String>,
    pub excerpt_lines: Option<String>,
}

#[derive(Debug, PartialEq, Eq)]
pub struct Prepare {
    pub source: ObjectiveSource,
    pub query: Option<String>,
    pub verify: Option<String>,
    pub limits: LimitTexts,
}

/// Whether the flags are what was given.
pub open spec fn prepare_is(p: Prepare, args: Seq<Seq<char>>) -> bool {
    &&& match p.source {
        ObjectiveSource::RequestFile(f) => flag_at(args, "--request-file"@, 0) == Some(f@),
        ObjectiveSource::Objective(t) => flag_at(args, "--objective"@, 0) == Some(t@),
        ObjectiveSource::ObjectiveFile(f) => flag_at(args, "--objective-file"@, 0) == Some(f@),
    }
    &&& validation::message(p.query) == flag_at(args, "--query"@, 0)
    &&& validation::message(p.verify) == flag_at(args, "--verify"@, 0)
    &&& validation::message(p.limits.bytes) == flag_at(args, "--bytes"@, 0)
    &&& validation::message(p.limits.primary) == flag_at(args, "--primary"@, 0)
    &&& validation::message(p.limits.neighbors) == flag_at(args, "--neighbors"@, 0)
    &&& validation::message(p.limits.tests) == flag_at(args, "--tests"@, 0)
    &&& validation::message(p.limits.files) == flag_at(args, "--files"@, 0)
    &&& validation::message(p.limits.canonical) == flag_at(args, "--canonical"@, 0)
    &&& validation::message(p.limits.facts) == flag_at(args, "--facts"@, 0)
    &&& validation::message(p.limits.notes) == flag_at(args, "--notes"@, 0)
    &&& validation::message(p.limits.excerpt_bytes) == flag_at(args, "--excerpt-bytes"@, 0)
    &&& validation::message(p.limits.excerpt_lines) == flag_at(args, "--excerpt-lines"@, 0)
}

fn is_flag_repeated(args: &[&str], i: usize) -> (r: bool)
    requires
        i < args@.len(),
    ensures
        r == flag_repeated(text::strs(args@), i as int),
{
    let ghost all = text::strs(args@);
    let mut j: usize = 0;
    while j < i
        invariant
            j <= i + 1,
            j % 2 == 0,
            i < args@.len(),
            all == text::strs(args@),
            forall|k: int| 0 <= k < j && k < i && k % 2 == 0 ==> #[trigger] all[k] != all[i as int],
        decreases i + 1 - j,
    {
        assert(all[j as int] == args@[j as int]@ && all[i as int] == args@[i as int]@);
        if text::same(args[j], args[i]) {
            return true;
        }
        if i - j == 1 {
            assert forall|k: int| 0 <= k < i && k % 2 == 0 implies #[trigger] all[k]
                != all[i as int] by {
                assert(k != i);
            }
            return false;
        }
        j += 2;
    }
    false
}

fn check_flags(args: &[&str]) -> (r: Result<(), Error>)
    requires
        args@.len() % 2 == 0,
    ensures
        crate::error::settles(r, flags_refusal(text::strs(args@), 0)),
{
    let ghost all = text::strs(args@);
    let mut i: usize = 0;
    while i < args.len()
        invariant
            i <= args@.len(),
            i % 2 == 0,
            args@.len() % 2 == 0,
            all == text::strs(args@),
            flags_refusal(all, 0) == flags_refusal(all, i as int),
        decreases args@.len() - i,
    {
        assert(all[i as int] == args@[i as int]@);
        if !prepare_flag(args[i]) {
            let said: String = text::join2("unknown prepare flag ", args[i]);
            return invalid(said.as_str());
        }
        if is_flag_repeated(args, i) {
            return invalid(FLAG_REPEATED);
        }
        i += 2;
    }
    Ok(())
}

/// Reads the arguments of `prepare`.
pub fn parse_prepare(args: &[&str]) -> (r: Result<Prepare, Error>)
    ensures
        crate::error::settles(r, prepare_refusal(text::strs(args@))),
        r matches Ok(p) ==> prepare_is(p, text::strs(args@)),
{
    if args.len() % 2 != 0 {
        return invalid(FLAG_VALUES);
    }
    match check_flags(args) {
        Ok(()) => {},
        Err(e) => return Err(e),
    }
    let objective: Option<String> = find_flag(args, "--objective");
    let objective_file: Option<String> = find_flag(args, "--objective-file");
    let request_file: Option<String> = find_flag(args, "--request-file");
    let source: ObjectiveSource = match (objective, objective_file, request_file) {
        (Some(t), None, None) => ObjectiveSource::Objective(t),
        (None, Some(f), None) => ObjectiveSource::ObjectiveFile(f),
        (None, None, Some(f)) => ObjectiveSource::RequestFile(f),
        _ => return invalid(ONE_OBJECTIVE),
    };
    Ok(
        Prepare {
            source,
            query: find_flag(args, "--query"),
            verify: find_flag(args, "--verify"),
            limits: LimitTexts {
                bytes: find_flag(args, "--bytes"),
                primary: find_flag(args, "--primary"),
                neighbors: find_flag(args, "--neighbors"),
                tests: find_flag(args, "--tests"),
                files: find_flag(args, "--files"),
                canonical: find_flag(args, "--canonical"),
                facts: find_flag(args, "--facts"),
                notes: find_flag(args, "--notes"),
                excerpt_bytes: find_flag(args, "--excerpt-bytes"),
                excerpt_lines: find_flag(args, "--excerpt-lines"),
            },
        },
    )
}

/// The request that an objective alone makes.
pub fn draft_for(objective: String) -> (r: RequestDraft)
    ensures
        r.objective == objective,
        r.query is None,
        r.scope@.len() == 0,
        r.constraints@.len() == 0,
        r.definition_of_done@.len() == 0,
        r.verification is None,
        r.invariant_refs@.len() == 0,
        r.provenance.actor@ == "local-cli"@,
        text::texts(r.provenance.source_refs@) == seq!["explicit-user-objective"@],
        r.provenance.provider is None,
{
    let mut refs: Vec<String> = Vec::new();
    refs.push("explicit-user-objective".to_owned());
    assert(text::texts(refs@) =~= seq!["explicit-user-objective"@]);
    RequestDraft {
        objective,
        query: None,
        scope: Vec::new(),
        constraints: Vec::new(),
        definition_of_done: Vec::new(),
        verification: None,
        invariant_refs: Vec::new(),
        provenance: PlanningProvenance {
            actor: "local-cli".to_owned(),
            source_refs: refs,
            provider: None,
        },
    }
}

/// The texts that hold something, from the `i`-th on, without the white space
/// around them.
pub open spec fn solid_texts(parts: Seq<Seq<char>>, i: int) -> Seq<Seq<char>>
    decreases parts.len() - i,
{
    if i < 0 || i >= parts.len() {
        Seq::empty()
    } else {
        let one = text::trimmed(parts[i]);
        if one.len() > 0 {
            seq![one] + solid_texts(parts, i + 1)
        } else {
            solid_texts(parts, i + 1)
        }
    }
}

/// The keys that a list names.
pub open spec fn verify_keys(keys: Seq<char>) -> Seq<Seq<char>> {
    solid_texts(text::pieces(keys, ','), 0)
}

fn split_keys(keys: &str) -> (r: Vec<String>)
    ensures
        text::texts(r@) == verify_keys(keys@),
{
    let parts: Vec<&str> = text::split_ascii(keys, 44u8);
    assert(44u8 as char == ',');
    let ghost all = text::strs(parts@);
    let mut out: Vec<String> = Vec::new();
    let ghost full = solid_texts(all, 0);
    assert(text::texts(out@) + full =~= full);
    let mut i: usize = 0;
    while i < parts.len()
        invariant
            i <= parts@.len(),
            all == text::strs(parts@),
            text::texts(out@) + solid_texts(all, i as int) == full,
        decreases parts@.len() - i,
    {
        assert(all[i as int] == parts@[i as int]@);
        let one: &str = text::trim(parts[i]);
        if one.unicode_len() > 0 {
            let ghost so_far = text::texts(out@);
            let ghost rest = solid_texts(all, i + 1);
            out.push(one.to_owned());
            proof {
                assert(text::texts(out@) =~= so_far.push(one@));
                assert(so_far.push(one@) + rest =~= so_far + (seq![one@] + rest));
            }
        }
        i += 1;
    }
    assert(text::texts(out@) + solid_texts(all, i as int) =~= text::texts(out@));
    out
}

pub const VERIFY_CONFLICT: &'static str =
    "--verify conflicts with the request file's own verification";

pub const NO_PROFILE: &'static str =
    "plan prepare: the project declares no [verification.KEY] profile, so no plan could be verified; declare one in .agentctl/project.toml";

/// Why the checks of a request cannot be chosen, if they cannot.
pub open spec fn verification_refusal(
    given: bool,
    verify: Option<String>,
    declared: Seq<Seq<char>>,
) -> Option<Seq<char>> {
    if verify is Some {
        if given {
            Some(VERIFY_CONFLICT@)
        } else {
            None
        }
    } else if given || declared.len() == 1 {
        None
    } else if declared.len() == 0 {
        Some(NO_PROFILE@)
    } else {
        Some(
            "plan prepare: choose the checks the plan is judged by with --verify KEY[,KEY] (declared: "@
                + text::listed(declared, ", "@) + ")"@,
        )
    }
}

/// Chooses the checks that a plan is judged by: those of the request, those that
/// were asked for, or the only one that the project declares.
pub fn choose_verification(
    given: Option<VerificationRequirements>,
    verify: &Option<String>,
    declared: &Vec<String>,
) -> (r: Result<VerificationRequirements, Error>)
    ensures
        crate::error::settles(
            r,
            verification_refusal(given is Some, *verify, text::texts(declared@)),
        ),
        r matches Ok(v) ==> match (*verify, given) {
            (Some(keys), _) => text::texts(v.requirement_refs@) == verify_keys(keys@)
                && v.evidence_required,
            (None, Some(g)) => v == g,
            (None, None) => text::texts(v.requirement_refs@) == text::texts(declared@)
                && v.evidence_required,
        },
{
    match verify {
        Some(keys) => {
            if given.is_some() {
                return invalid(VERIFY_CONFLICT);
            }
            return Ok(
                VerificationRequirements {
                    requirement_refs: split_keys(keys.as_str()),
                    evidence_required: true,
                },
            );
        },
        None => {},
    }
    match given {
        Some(g) => return Ok(g),
        None => {},
    }
    if declared.len() == 0 {
        return invalid(NO_PROFILE);
    }
    if declared.len() > 1 {
        let names: String = text::list(declared, ", ");
        let said: String = text::join3(
            "plan prepare: choose the checks the plan is judged by with --verify KEY[,KEY] (declared: ",
            names.as_str(),
            ")",
        );
        return invalid(said.as_str());
    }
    Ok(
        VerificationRequirements {
            requirement_refs: text::copied(declared),
            evidence_required: true,
        },
    )
}

/// The number that was given for a limit, or the limit where none was.
pub open spec fn limit_value(given: Option<String>, limit: usize) -> Option<nat> {
    match given {
        Some(t) => text::number(t@, usize::MAX as nat),
        None => Some(limit as nat),
    }
}

/// What is said of a limit that is no number, if it is none.
pub open spec fn limit_refusal(given: Option<String>, name: Seq<char>) -> Option<Seq<char>> {
    if limit_value(given, 0) is None {
        Some("invalid numeric "@ + name)
    } else {
        None
    }
}

fn read_limit(given: &Option<String>, name: &str, limit: usize) -> (r: Result<usize, Error>)
    ensures
        crate::error::settles(r, limit_refusal(*given, name@)),
        r matches Ok(n) ==> limit_value(*given, limit) == Some(n as nat),
{
    match given {
        None => Ok(limit),
        Some(t) => match text::parse(t.as_str(), usize::MAX as u64) {
            Some(n) => Ok(n as usize),
            None => {
                let said: String = text::join2("invalid numeric ", name);
                invalid(said.as_str())
            },
        },
    }
}

/// Why the limits that were given cannot be used, if they cannot.
pub open spec fn limits_refusal(t: LimitTexts) -> Option<Seq<char>> {
    crate::error::either(
        limit_refusal(t.bytes, "--bytes"@),
        crate::error::either(
            limit_refusal(t.primary, "--primary"@),
            crate::error::either(
                limit_refusal(t.neighbors, "--neighbors"@),
                crate::error::either(
                    limit_refusal(t.tests, "--tests"@),
                    crate::error::either(
                        limit_refusal(t.files, "--files"@),
                        crate::error::either(
                            limit_refusal(t.canonical, "--canonical"@),
                            crate::error::either(
                                limit_refusal(t.facts, "--facts"@),
                                crate::error::either(
                                    limit_refusal(t.notes, "--notes"@),
                                    crate::error::either(
                                        limit_refusal(t.excerpt_bytes, "--excerpt-bytes"@),
                                        limit_refusal(t.excerpt_lines, "--excerpt-lines"@),
                                    ),
                                ),
                            ),
                        ),
                    ),
                ),
            ),
        ),
    )
}

/// Applies the limits that were given.
pub fn apply_limits(given: &LimitTexts, limits: &PlanningLimits) -> (r: Result<
    PlanningLimits,
    Error,
>)
    ensures
        crate::error::settles(r, limits_refusal(*given)),
        r matches Ok(l) ==> {
            &&& limit_value(given.bytes, limits.bytes) == Some(l.bytes as nat)
            &&& limit_value(given.primary, limits.graph.primary) == Some(l.graph.primary as nat)
            &&& limit_value(given.neighbors, limits.graph.neighbors) == Some(
                l.graph.neighbors as nat,
            )
            &&& limit_value(given.tests, limits.graph.tests) == Some(l.graph.tests as nat)
            &&& l.graph.depth == limits.graph.depth
            &&& limit_value(given.files, limits.files) == Some(l.files as nat)
            &&& limit_value(given.canonical, limits.memory.canonical) == Some(
                l.memory.canonical as nat,
            )
            &&& limit_value(given.facts, limits.memory.facts) == Some(l.memory.facts as nat)
            &&& limit_value(given.notes, limits.memory.notes) == Some(l.memory.notes as nat)
            &&& l.memory.bytes == limits.memory.bytes
            &&& limit_value(given.excerpt_bytes, limits.excerpt_bytes) == Some(
                l.excerpt_bytes as nat,
            )
            &&& limit_value(given.excerpt_lines, limits.excerpt_lines) == Some(
                l.excerpt_lines as nat,
            )
        },
{
    let mut l: PlanningLimits = *limits;
    match read_limit(&given.bytes, "--bytes", l.bytes) {
        Ok(n) => l.bytes = n,
        Err(e) => return Err(e),
    }
    match read_limit(&given.primary, "--primary", l.graph.primary) {
        Ok(n) => l.graph.primary = n,
        Err(e) => return Err(e),
    }
    match read_limit(&given.neighbors, "--neighbors", l.graph.neighbors) {
        Ok(n) => l.graph.neighbors = n,
        Err(e) => return Err(e),
    }
    match read_limit(&given.tests, "--tests", l.graph.tests) {
        Ok(n) => l.graph.tests = n,
        Err(e) => return Err(e),
    }
    match read_limit(&given.files, "--files", l.files) {
        Ok(n) => l.files = n,
        Err(e) => return Err(e),
    }
    match read_limit(&given.canonical, "--canonical", l.memory.canonical) {
        Ok(n) => l.memory.canonical = n,
        Err(e) => return Err(e),
    }
    match read_limit(&given.facts, "--facts", l.memory.facts) {
        Ok(n) => l.memory.facts = n,
        Err(e) => return Err(e),
    }
    match read_limit(&given.notes, "--notes", l.memory.notes) {
        Ok(n) => l.memory.notes = n,
        Err(e) => return Err(e),
    }
    match read_limit(&given.excerpt_bytes, "--excerpt-bytes", l.excerpt_bytes) {
        Ok(n) => l.excerpt_bytes = n,
        Err(e) => return Err(e),
    }
    match read_limit(&given.excerpt_lines, "--excerpt-lines", l.excerpt_lines) {
        Ok(n) => l.excerpt_lines = n,
        Err(e) => return Err(e),
    }
    Ok(l)
}

pub const INPUT_FILE: &'static str = "planning input must be a bounded regular file";

pub const INPUT_LIMIT: &'static str = "planning input exceeds limit";

/// Refuses input that is no regular file or too long, before it is read.
pub fn check_input_file(is_file: bool, length: u64, limit: u64) -> (r: Result<(), Error>)
    ensures
        crate::error::settles(
            r,
            if !(is_file && length <= limit) {
                Some(INPUT_FILE@)
            } else {
                None
            },
        ),
{
    if !(is_file && length <= limit) {
        return invalid(INPUT_FILE);
    }
    Ok(())
}

/// Refuses input that turned out too long.
pub fn check_input(input: &str, limit: u64) -> (r: Result<(), Error>)
    ensures
        crate::error::settles(
            r,
            if text::size(input@) > limit {
                Some(INPUT_LIMIT@)
            } else {
                None
            },
        ),
{
    if text::byte_len(input) as u64 > limit {
        return invalid(INPUT_LIMIT);
    }
    Ok(())
}

// ---------------------------------------------------------------------------
// Other commands
// ---------------------------------------------------------------------------

pub const LIST_USAGE: &'static str = "plan list [--all] [--limit N]";

pub const LIST_LIMIT: &'static str = "invalid plan limit";

/// What `list` asks for, or why it does not take its arguments.
pub open spec fn list_of(args: Seq<Seq<char>>) -> Result<(bool, nat), Seq<char>> {
    if args.len() == 0 {
        Ok((false, 20))
    } else if args.len() == 1 && args[0] == "--all"@ {
        Ok((true, 20))
    } else if args.len() == 2 && args[0] == "--limit"@ {
        match text::number(args[1], usize::MAX as nat) {
            Some(n) => Ok((false, n)),
            None => Err(LIST_LIMIT@),
        }
    } else if args.len() == 3 && args[0] == "--all"@ && args[1] == "--limit"@ {
        match text::number(args[2], usize::MAX as nat) {
            Some(n) => Ok((true, n)),
            None => Err(LIST_LIMIT@),
        }
    } else {
        Err(LIST_USAGE@)
    }
}

/// Reads the arguments of `list`.
pub fn parse_list(args: &[&str]) -> (r: Result<(bool, usize), Error>)
    ensures
        match list_of(text::strs(args@)) {
            Ok(v) => r matches Ok(l) && l.0 == v.0 && l.1 == v.1,
            Err(m) => crate::error::refused(r, m),
        },
{
    proof {
        reveal_strlit("--all");
        reveal_strlit("--limit");
    }
    let ghost words = text::strs(args@);
    let n: usize = args.len();
    if n == 0 {
        return Ok((false, 20));
    }
    assert(words[0] == args@[0]@);
    let all: bool = text::same(args[0], "--all");
    let from: usize = if all {
        1
    } else {
        0
    };
    if n == from {
        return Ok((true, 20));
    }
    if n - from == 2 && text::same(args[from], "--limit") {
        assert(words[from as int] == args@[from as int]@ && words[from + 1] == args@[from + 1]@);
        return match text::parse(args[from + 1], usize::MAX as u64) {
            Some(limit) => Ok((all, limit as usize)),
            None => invalid(LIST_LIMIT),
        };
    }
    proof {
        if n == 3 && all {
            assert(words[1] == args@[1]@);
        }
        if n == 2 {
            assert(words[0] == "--all"@ ==> words[0] != "--limit"@);
        }
    }
    invalid(LIST_USAGE)
}

pub const IMPORT_USAGE: &'static str = "plan import requires one JSON file";

pub const CONTEXT_USAGE: &'static str = "plan context <request-id> [--manifest]";

pub const SUPERSEDE_USAGE: &'static str = "plan supersede OLD --with NEW";

pub const CANCEL_USAGE: &'static str = "plan cancel ID --reason TEXT";

pub const UNEXPECTED: &'static str = "unexpected plan arguments";

pub const NEEDS_ID: &'static str = "plan command requires an ID";

pub const UNKNOWN: &'static str = "unknown planning command; run agentctl --help";

/// Reads the arguments of `import`: one file.
pub fn check_import(args: &[&str]) -> (r: Result<(), Error>)
    ensures
        crate::error::settles(
            r,
            if args@.len() != 1 {
                Some(IMPORT_USAGE@)
            } else {
                None
            },
        ),
{
    if args.len() != 1 {
        return invalid(IMPORT_USAGE);
    }
    Ok(())
}

/// Reads the arguments of `context`: a request, and whether only its manifest is
/// wanted.
pub fn parse_context(args: &[&str]) -> (r: Result<bool, Error>)
    ensures
        ({
            let words = text::strs(args@);
            &&& crate::error::settles(
                r,
                if !(words.len() == 1 || (words.len() == 2 && words[1] == "--manifest"@)) {
                    Some(CONTEXT_USAGE@)
                } else {
                    None
                },
            )
            &&& r matches Ok(manifest) ==> manifest == (words.len() == 2)
        }),
{
    let ghost words = text::strs(args@);
    if args.len() == 1 {
        return Ok(false);
    }
    if args.len() == 2 {
        assert(words[1] == args@[1]@);
        if text::same(args[1], "--manifest") {
            return Ok(true);
        }
    }
    invalid(CONTEXT_USAGE)
}

/// What is to be done with a plan.
#[derive(Debug, Clone, Copy, PartialEq, Eq, Structural)]
pub enum PlanCommand {
    Supersede,
    Cancel,
    Activate,
    Validate,
    Show,
    Export,
    Tasks,
    Ready,
    Blocked,
}

/// The command that a word names, if it names one.
pub open spec fn command_of(word: Seq<char>) -> Option<PlanCommand> {
    if word == "supersede"@ {
        Some(PlanCommand::Supersede)
    } else if word == "cancel"@ {
        Some(PlanCommand::Cancel)
    } else if word == "activate"@ {
        Some(PlanCommand::Activate)
    } else if word == "validate"@ {
        Some(PlanCommand::Validate)
    } else if word == "show"@ {
        Some(PlanCommand::Show)
    } else if word == "export"@ {
        Some(PlanCommand::Export)
    } else if word == "tasks"@ {
        Some(PlanCommand::Tasks)
    } else if word == "ready"@ {
        Some(PlanCommand::Ready)
    } else if word == "blocked"@ {
        Some(PlanCommand::Blocked)
    } else {
        None
    }
}

/// Why a command on a plan does not take its arguments, if it does not. `id_rule`
/// is what the rule of identifiers has against the first of them.
pub open spec fn command_refusal(word: Seq<char>, args: Seq<Seq<char>>, id_rule: Option<String>) -> Option<
    Seq<char>,
> {
    if args.len() == 0 {
        Some(NEEDS_ID@)
    } else {
        crate::error::either(
            validation::message(id_rule),
            match command_of(word) {
                None => Some(UNKNOWN@),
                Some(PlanCommand::Supersede) => if !(args.len() == 3 && args[1] == "--with"@) {
                    Some(SUPERSEDE_USAGE@)
                } else {
                    None
                },
                Some(PlanCommand::Cancel) => if !(args.len() == 3 && args[1] == "--reason"@) {
                    Some(CANCEL_USAGE@)
                } else {
                    None
                },
                Some(_) => if args.len() != 1 {
                    Some(UNEXPECTED@)
                } else {
                    None
                },
            },
        )
    }
}

fn read_command(word: &str) -> (r: Option<PlanCommand>)
    ensures
        r == command_of(word@),
{
    if text::same(word, "supersede") {
        Some(PlanCommand::Supersede)
    } else if text::same(word, "cancel") {
        Some(PlanCommand::Cancel)
    } else if text::same(word, "activate") {
        Some(PlanCommand::Activate)
    } else if text::same(word, "validate") {
        Some(PlanCommand::Validate)
    } else if text::same(word, "show") {
        Some(PlanCommand::Show)
    } else if text::same(word, "export") {
        Some(PlanCommand::Export)
    } else if text::same(word, "tasks") {
        Some(PlanCommand::Tasks)
    } else if text::same(word, "ready") {
        Some(PlanCommand::Ready)
    } else if text::same(word, "blocked") {
        Some(PlanCommand::Blocked)
    } else {
        None
    }
}

/// Reads a command on a plan.
pub fn parse_command(word: &str, args: &[&str], id_rule: &Option<String>) -> (r: Result<
    PlanCommand,
    Error,
>)
    ensures
        crate::error::settles(r, command_refusal(word@, text::strs(args@), *id_rule)),
        r matches Ok(c) ==> command_of(word@) == Some(c),
{
    let ghost words = text::strs(args@);
    if args.len() == 0 {
        return invalid(NEEDS_ID);
    }
    match unless(id_rule) {
        Ok(()) => {},
        Err(e) => return Err(e),
    }
    let command: PlanCommand = match read_command(word) {
        Some(c) => c,
        None => return invalid(UNKNOWN),
    };
    assert(args@.len() > 1 ==> words[1] == args@[1]@);
    match command {
        PlanCommand::Supersede => {
            if !(args.len() == 3 && text::same(args[1], "--with")) {
                return invalid(SUPERSEDE_USAGE);
            }
        },
        PlanCommand::Cancel => {
            if !(args.len() == 3 && text::same(args[1], "--reason")) {
                return invalid(CANCEL_USAGE);
            }
        },
        _ => {
            if args.len() != 1 {
                return invalid(UNEXPECTED);
            }
        },
    }
    Ok(command)
}

/// Whether a command on tasks shows a task.
pub open spec fn shows(command: PlanCommand, t: TaskInspection) -> bool {
    match command {
        PlanCommand::Ready => t.structurally_ready,
        PlanCommand::Blocked => !t.structurally_ready && !(t.state is Verified),
        _ => true,
    }
}

/// The positions of the tasks that a command shows, from the `i`-th on.
pub open spec fn shown_from(command: PlanCommand, tasks: Seq<TaskInspection>, i: int) -> Seq<int>
    decreases tasks.len() - i,
{
    if i < 0 || i >= tasks.len() {
        Seq::empty()
    } else if shows(command, tasks[i]) {
        seq![i] + shown_from(command, tasks, i + 1)
    } else {
        shown_from(command, tasks, i + 1)
    }
}

/// The tasks that a command shows, by their positions.
pub fn select_tasks(command: PlanCommand, tasks: &Vec<TaskInspection>) -> (r: Vec<usize>)
    ensures
        r@.map_values(|i: usize| i as int) == shown_from(command, tasks@, 0),
        forall|k: int| 0 <= k < r@.len() ==> (#[trigger] r@[k]) < tasks@.len(),
{
    let mut out: Vec<usize> = Vec::new();
    let ghost all = shown_from(command, tasks@, 0);
    assert(out@.map_values(|i: usize| i as int) + all =~= all);
    let mut i: usize = 0;
    while i < tasks.len()
        invariant
            i <= tasks@.len(),
            out@.map_values(|i: usize| i as int) + shown_from(command, tasks@, i as int) == all,
            forall|k: int| 0 <= k < out@.len() ==> (#[trigger] out@[k]) < tasks@.len(),
        decreases tasks@.len() - i,
    {
        let verified: bool = match tasks[i].state {
            TaskState::Verified => true,
            _ => false,
        };
        let shown: bool = match command {
            PlanCommand::Ready => tasks[i].structurally_ready,
            PlanCommand::Blocked => !tasks[i].structurally_ready && !verified,
            _ => true,
        };
        if shown {
            let ghost so_far = out@.map_values(|i: usize| i as int);
            let ghost rest = shown_from(command, tasks@, i + 1);
            out.push(i);
            proof {
                assert(out@.map_values(|i: usize| i as int) =~= so_far.push(i as int));
                assert(so_far.push(i as int) + rest =~= so_far + (seq![i as int] + rest));
            }
        }
        i += 1;
    }
    assert(out@.map_values(|i: usize| i as int) + shown_from(command, tasks@, i as int)
        =~= out@.map_values(|i: usize| i as int));
    out
}

// ---------------------------------------------------------------------------
// Reports
// ---------------------------------------------------------------------------

/// The first line of a text without the white space around it, cut so that it
/// fits on a line.
pub open spec fn headline(s: Seq<char>) -> Seq<char> {
    let line = text::trimmed(text::pieces(s, '\n')[0]);
    if line.len() > 96 {
        line.take(95) + "…"@
    } else {
        line
    }
}

pub fn first_line(s: &str) -> (r: String)
    ensures
        r@ == headline(s@),
{
    let parts: Vec<&str> = text::split_ascii(s, 10u8);
    proof {
        text::lemma_pieces_nonempty(s@, '\n');
        assert(10u8 as char == '\n');
        assert(text::strs(parts@)[0] == parts@[0]@);
    }
    let line: &str = text::trim(parts[0]);
    if line.unicode_len() > 96 {
        let head: &str = line.substring_char(0, 95);
        assert(head@ =~= line@.take(95));
        text::join2(head, "…")
    } else {
        line.to_owned()
    }
}

/// How the size of a context is told.
pub open spec fn context_size(bytes: nat, truncated: bool) -> Seq<char> {
    text::digits(bytes) + " bytes"@ + if truncated {
        " (truncated to limits)"@
    } else {
        ""@
    }
}

fn show_context_size(bytes: usize, truncated: bool) -> (r: String)
    ensures
        r@ == context_size(bytes as nat, truncated),
{
    let n: String = text::decimal(bytes as u64);
    text::join3(
        n.as_str(),
        " bytes",
        if truncated {
            " (truncated to limits)"
        } else {
            ""
        },
    )
}

/// What is told of a request that was prepared.
pub open spec fn prepared_lines(
    id: Seq<char>,
    objective: Seq<char>,
    verification: Seq<Seq<char>>,
    bytes: nat,
    truncated: bool,
) -> Seq<LineView> {
    seq![
        LineView::Title("Planning request prepared"@),
        report::field("Request"@, id),
        report::field("Objective"@, headline(objective)),
        report::field("Verify"@, text::listed(verification, ", "@)),
        report::field("Context"@, context_size(bytes, truncated)),
        LineView::Next(
            seq![
                "agentctl run planner "@ + id,
                "Inspect the frozen planner input: agentctl plan context "@ + id + " --json"@,
            ],
        ),
    ]
}

pub fn prepared_report(
    id: &str,
    objective: &str,
    verification: &Vec<String>,
    bytes: usize,
    truncated: bool,
) -> (r: Report)
    ensures
        r@ == prepared_lines(
            id@,
            objective@,
            text::texts(verification@),
            bytes as nat,
            truncated,
        ),
{
    let mut out: Report = Report::new("Planning request prepared");
    out.field("Request", id);
    let line: String = first_line(objective);
    out.field("Objective", line.as_str());
    let keys: String = text::list(verification, ", ");
    out.field("Verify", keys.as_str());
    let size: String = show_context_size(bytes, truncated);
    out.field("Context", size.as_str());
    let mut steps: Vec<String> = Vec::new();
    steps.push(text::join2("agentctl run planner ", id));
    steps.push(
        text::join3("Inspect the frozen planner input: agentctl plan context ", id, " --json"),
    );
    assert(text::texts(steps@) =~= seq![
        "agentctl run planner "@ + id@,
        "Inspect the frozen planner input: agentctl plan context "@ + id@ + " --json"@,
    ]);
    out.next(steps);
    assert(out@ =~= prepared_lines(
        id@,
        objective@,
        text::texts(verification@),
        bytes as nat,
        truncated,
    ));
    out
}

/// What is told of a request.
pub open spec fn context_lines(id: Seq<char>, objective: Seq<char>, bytes: nat, truncated: bool) -> Seq<
    LineView,
> {
    seq![
        LineView::Title("Planning request"@),
        report::field("Request"@, id),
        report::field("Objective"@, headline(objective)),
        report::field("Context"@, context_size(bytes, truncated)),
        LineView::Text(""@),
        LineView::Text("Frozen planner input:  agentctl plan context "@ + id + " --json"@),
        LineView::Text("Context manifest:      agentctl plan context "@ + id + " --manifest"@),
    ]
}

pub fn context_report(id: &str, objective: &str, bytes: usize, truncated: bool) -> (r: Report)
    ensures
        r@ == context_lines(id@, objective@, bytes as nat, truncated),
{
    let mut out: Report = Report::new("Planning request");
    out.field("Request", id);
    let line: String = first_line(objective);
    out.field("Objective", line.as_str());
    let size: String = show_context_size(bytes, truncated);
    out.field("Context", size.as_str());
    out.text("");
    let frozen: String = text::join3(
        "Frozen planner input:  agentctl plan context ",
        id,
        " --json",
    );
    out.text(frozen.as_str());
    let manifest: String = text::join3(
        "Context manifest:      agentctl plan context ",
        id,
        " --manifest",
    );
    out.text(manifest.as_str());
    assert(out@ =~= context_lines(id@, objective@, bytes as nat, truncated));
    out
}

/// How a plan and its parts are named.
#[derive(Debug, PartialEq, Eq)]
pub struct PlanNames {
    pub state: String,
    /// The decision of the integration proof, where there is one.
    pub integration: Option<String>,
    /// The revision of the final source, where there is one.
    pub final_revision: Option<String>,
}

/// The fields of the first `n` tasks of a plan.
pub open spec fn task_fields(view: ExecutionPlanView, n: int) -> Seq<LineView>
    decreases n,
{
    if n <= 0 {
        Seq::empty()
    } else {
        let t = view.plan.packet.tasks@[n - 1];
        task_fields(view, n - 1).push(report::field(t.task_id@, headline(t.objective@)))
    }
}

/// What can be done next with a plan.
pub open spec fn plan_steps(state: PlanState, plan: Seq<char>) -> Seq<LineView> {
    match state {
        PlanState::Validated => seq![
            LineView::Next(seq!["agentctl plan activate "@ + plan]),
        ],
        PlanState::Active => seq![
            LineView::Next(
                seq![
                    "agentctl run plan "@ + plan + " --dry-run"@,
                    "agentctl run plan "@ + plan,
                ],
            ),
        ],
        _ => Seq::empty(),
    }
}

/// What is told of a plan.
pub open spec fn plan_lines(title: Seq<char>, view: ExecutionPlanView, names: PlanNames) -> Seq<
    LineView,
> {
    let packet = view.plan.packet;
    seq![
        LineView::Title(title),
        report::field("Plan"@, packet.plan_id@),
        report::field("Status"@, names.state@),
        report::field("Objective"@, headline(packet.objective@)),
        report::field("Request"@, view.plan.metadata.request_id@),
    ] + report::field_opt(
        "Replaces"@,
        match view.plan.metadata.replan {
            Some(p) => Some(p.previous_plan_id@),
            None => None,
        },
    ) + report::field_opt("Superseded"@, validation::message(view.superseded_by))
        + report::field_opt("Integration"@, validation::message(names.integration))
        + report::field_opt("Final source"@, validation::message(names.final_revision)) + seq![
        LineView::Section("Tasks ("@ + text::digits(packet.tasks@.len()) + ")"@),
    ] + task_fields(view, packet.tasks@.len() as int) + plan_steps(view.state, packet.plan_id@)
}

pub fn plan_report(title: &str, view: &ExecutionPlanView, names: &PlanNames) -> (r: Report)
    ensures
        r@ == plan_lines(title@, *view, *names),
{
    let plan: &str = view.plan.packet.plan_id.as_str();
    let mut out: Report = Report::new(title);
    out.field("Plan", plan);
    out.field("Status", names.state.as_str());
    let line: String = first_line(view.plan.packet.objective.as_str());
    out.field("Objective", line.as_str());
    out.field("Request", view.plan.metadata.request_id.as_str());
    assert(out@ =~= seq![
        LineView::Title(title@),
        report::field("Plan"@, plan@),
        report::field("Status"@, names.state@),
        report::field("Objective"@, headline(view.plan.packet.objective@)),
        report::field("Request"@, view.plan.metadata.request_id@),
    ]);
    let replaces: Option<String> = match &view.plan.metadata.replan {
        Some(p) => Some(p.previous_plan_id.clone()),
        None => None,
    };
    out.field_opt("Replaces", &replaces);
    out.field_opt("Superseded", &view.superseded_by);
    out.field_opt("Integration", &names.integration);
    out.field_opt("Final source", &names.final_revision);
    let count: String = text::decimal(view.plan.packet.tasks.len() as u64);
    let heading: String = text::join3("Tasks (", count.as_str(), ")");
    let ghost top = out@;
    out.section(heading.as_str());
    let ghost head = out@;
    assert(head =~= top + seq![
        LineView::Section("Tasks ("@ + text::digits(view.plan.packet.tasks@.len()) + ")"@),
    ]);
    let mut i: usize = 0;
    assert(out@ =~= head + task_fields(*view, 0));
    while i < view.plan.packet.tasks.len()
        invariant
            i <= view.plan.packet.tasks@.len(),
            out@ == head + task_fields(*view, i as int),
        decreases view.plan.packet.tasks@.len() - i,
    {
        let about: String = first_line(view.plan.packet.tasks[i].objective.as_str());
        out.field(view.plan.packet.tasks[i].task_id.as_str(), about.as_str());
        i += 1;
        assert(out@ =~= head + task_fields(*view, i as int));
    }
    let ghost body = out@;
    match view.state {
        PlanState::Validated => {
            let mut steps: Vec<String> = Vec::new();
            steps.push(text::join2("agentctl plan activate ", plan));
            assert(text::texts(steps@) =~= seq!["agentctl plan activate "@ + plan@]);
            out.next(steps);
        },
        PlanState::Active => {
            let mut steps: Vec<String> = Vec::new();
            steps.push(text::join3("agentctl run plan ", plan, " --dry-run"));
            steps.push(text::join2("agentctl run plan ", plan));
            assert(text::texts(steps@) =~= seq![
                "agentctl run plan "@ + plan@ + " --dry-run"@,
                "agentctl run plan "@ + plan@,
            ]);
            out.next(steps);
        },
        _ => {},
    }
    assert(out@ =~= body + plan_steps(view.state, plan@));
    out
}

/// What a command that changed or shows a plan is headed by.
pub open spec fn title_of(command: PlanCommand) -> Seq<char> {
    match command {
        PlanCommand::Validate => "Plan validated"@,
        PlanCommand::Activate => "Plan activated"@,
        PlanCommand::Supersede => "Plan superseded"@,
        PlanCommand::Cancel => "Plan cancelled"@,
        _ => "Plan"@,
    }
}

pub fn plan_title(command: PlanCommand) -> (r: &'static str)
    ensures
        r@ == title_of(command),
{
    match command {
        PlanCommand::Validate => "Plan validated",
        PlanCommand::Activate => "Plan activated",
        PlanCommand::Supersede => "Plan superseded",
        PlanCommand::Cancel => "Plan cancelled",
        _ => "Plan",
    }
}

/// What heads the report on an imported plan of a size.
pub fn import_title(bytes: usize) -> (r: String)
    ensures
        r@ == "Plan imported ("@ + text::digits(bytes as nat) + " bytes)"@,
{
    let n: String = text::decimal(bytes as u64);
    text::join3("Plan imported (", n.as_str(), " bytes)")
}

/// A yes or a no.
pub open spec fn yes_no(b: bool) -> Seq<char> {
    if b {
        "yes"@
    } else {
        "no"@
    }
}

/// What is told of one task.
pub open spec fn task_lines(t: TaskInspection, state: Seq<char>) -> Seq<LineView> {
    seq![
        LineView::Section("Task "@ + t.packet.task_id@),
        report::field("Status"@, state),
        report::field("Ready"@, yes_no(t.structurally_ready)),
        report::field("Objective"@, headline(t.packet.objective@)),
    ] + (if t.packet.dependencies@.len() > 0 {
        seq![
            report::field("Depends"@, text::listed(text::texts(t.packet.dependencies@), ", "@)),
        ]
    } else {
        Seq::empty()
    }) + (if t.reasons@.len() > 0 {
        seq![report::field("Waiting"@, text::listed(text::texts(t.reasons@), "\n"@))]
    } else {
        Seq::empty()
    })
}

fn add_task(out: &mut Report, t: &TaskInspection, state: &str)
    ensures
        final(out)@ == old(out)@ + task_lines(*t, state@),
{
    let ghost before = out@;
    let heading: String = text::join2("Task ", t.packet.task_id.as_str());
    out.section(heading.as_str());
    out.field("Status", state);
    out.field(
        "Ready",
        if t.structurally_ready {
            "yes"
        } else {
            "no"
        },
    );
    let about: String = first_line(t.packet.objective.as_str());
    out.field("Objective", about.as_str());
    if t.packet.dependencies.len() > 0 {
        let names: String = text::list(&t.packet.dependencies, ", ");
        out.field("Depends", names.as_str());
    }
    if t.reasons.len() > 0 {
        let reasons: String = text::list(&t.reasons, "\n");
        out.field("Waiting", reasons.as_str());
    }
    assert(out@ =~= before + task_lines(*t, state@));
}

/// What is told of the first `n` of some tasks.
pub open spec fn all_task_lines(
    tasks: Seq<TaskInspection>,
    at: Seq<usize>,
    states: Seq<Seq<char>>,
    n: int,
) -> Seq<LineView>
    decreases n,
{
    if n <= 0 {
        Seq::empty()
    } else {
        all_task_lines(tasks, at, states, n - 1) + task_lines(
            tasks[at[n - 1] as int],
            states[at[n - 1] as int],
        )
    }
}

/// Tells of some tasks, given by their positions. `states` names the state of
/// every task.
pub fn tasks_report(tasks: &Vec<TaskInspection>, at: &Vec<usize>, states: &Vec<String>) -> (r:
    Report)
    requires
        states@.len() == tasks@.len(),
        forall|k: int| 0 <= k < at@.len() ==> (#[trigger] at@[k]) < tasks@.len(),
    ensures
        r@ == all_task_lines(tasks@, at@, text::texts(states@), at@.len() as int),
{
    let mut out: Report = Report::empty();
    let mut i: usize = 0;
    while i < at.len()
        invariant
            i <= at@.len(),
            states@.len() == tasks@.len(),
            forall|k: int| 0 <= k < at@.len() ==> (#[trigger] at@[k]) < tasks@.len(),
            out@ == all_task_lines(tasks@, at@, text::texts(states@), i as int),
        decreases at@.len() - i,
    {
        let k: usize = at[i];
        assert(text::texts(states@)[k as int] == states@[k as int]@);
        add_task(&mut out, &tasks[k], states[k].as_str());
        i += 1;
    }
    out
}

/// What is said where no task is shown.
pub fn no_tasks(word: &str) -> (r: String)
    ensures
        r@ == "No "@ + word@ + " tasks"@,
{
    text::join3("No ", word, " tasks")
}

/// How many bytes the longest identifier of the first `n` plans has.
pub open spec fn widest(list: Seq<PlanSummary>, n: int) -> int
    decreases n,
{
    if n <= 0 {
        0
    } else {
        let one = text::size(list[n - 1].plan_id@) as int;
        let rest = widest(list, n - 1);
        if one > rest {
            one
        } else {
            rest
        }
    }
}

fn find_widest(list: &Vec<PlanSummary>) -> (r: usize)
    ensures
        r == widest(list@, list@.len() as int),
{
    let mut most: usize = 0;
    let mut i: usize = 0;
    while i < list.len()
        invariant
            i <= list@.len(),
            most == widest(list@, i as int),
        decreases list@.len() - i,
    {
        let one: usize = text::byte_len(list[i].plan_id.as_str());
        if one > most {
            most = one;
        }
        i += 1;
    }
    most
}

/// One line of a list of plans.
pub open spec fn list_line(id: Seq<char>, state: Seq<char>, about: Seq<char>, width: int) -> Seq<char> {
    text::padded(id, width) + "  "@ + text::padded(state, 10) + "  "@ + about
}

fn show_list_line(id: &str, state: &str, about: &str, width: usize) -> (r: String)
    ensures
        r@ == list_line(id@, state@, about@, width as int),
{
    let id: String = text::pad(id, width);
    let state: String = text::pad(state, 10);
    let head: String = text::join3(id.as_str(), "  ", state.as_str());
    text::join3(head.as_str(), "  ", about)
}

/// The lines of a list of plans up to the `n`-th.
pub open spec fn list_lines(list: Seq<PlanSummary>, states: Seq<Seq<char>>, n: int) -> Seq<Seq<char>>
    decreases n,
{
    let width = widest(list, list.len() as int);
    if n <= 0 {
        seq![list_line("PLAN"@, "STATUS"@, "OBJECTIVE"@, width)]
    } else {
        list_lines(list, states, n - 1).push(
            list_line(
                list[n - 1].plan_id@,
                states[n - 1],
                headline(list[n - 1].objective@),
                width,
            ),
        )
    }
}

/// What is told of a list of plans.
pub open spec fn list_text(list: Seq<PlanSummary>, states: Seq<Seq<char>>, all: bool) -> Seq<char> {
    if list.len() == 0 {
        if all {
            "No plans in this workspace"@
        } else {
            "No validated or active plans in this workspace"@
        }
    } else {
        text::listed(list_lines(list, states, list.len() as int), "\n"@)
    }
}

/// Tells of a list of plans. `states` names the state of every plan.
pub fn list_report(list: &Vec<PlanSummary>, states: &Vec<String>, all: bool) -> (r: String)
    requires
        states@.len() == list@.len(),
    ensures
        r@ == list_text(list@, text::texts(states@), all),
{
    if list.len() == 0 {
        return if all {
            "No plans in this workspace".to_owned()
        } else {
            "No validated or active plans in this workspace".to_owned()
        };
    }
    let width: usize = find_widest(list);
    let ghost names = text::texts(states@);
    let mut lines: Vec<String> = Vec::new();
    lines.push(show_list_line("PLAN", "STATUS", "OBJECTIVE", width));
    assert(text::texts(lines@) =~= list_lines(list@, names, 0));
    let mut i: usize = 0;
    while i < list.len()
        invariant
            i <= list@.len(),
            states@.len() == list@.len(),
            names == text::texts(states@),
            width == widest(list@, list@.len() as int),
            text::texts(lines@) == list_lines(list@, names, i as int),
        decreases list@.len() - i,
    {
        let ghost so_far = text::texts(lines@);
        assert(names[i as int] == states@[i as int]@);
        let about: String = first_line(list[i].objective.as_str());
        lines.push(
            show_list_line(list[i].plan_id.as_str(), states[i].as_str(), about.as_str(), width),
        );
        i += 1;
        assert(text::texts(lines@) =~= list_lines(list@, names, i as int));
    }
    text::list(&lines, "\n")
}

} // verus!
