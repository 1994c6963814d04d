use agentctl::error::Error;
use agentctl::planning::cli as plan_cli;
use agentctl::planning::cli::{ObjectiveSource, PlanCommand};
use agentctl::planning::model::{PlanState, PlanSummary, PlanningLimits};
use agentctl::protocol::VerificationRequirements;
use agentctl::report::{Line, Report};
use agentctl::runtime::cli as run_cli;
use agentctl::runtime::cli::{
    Authentication, Candidate, ConfiguredRole, Finding, Inspection, JobLine, Named, ProviderRow,
    ResolvedRole, RoleRow, Route, RunCommand, Subject, WaitingDecision,
};
use agentctl::runtime::experiment::ExperimentCommand;
use agentctl::runtime::experiment_cli;
use agentctl::runtime::experiment_events::{
    ExperimentEventData, ExperimentHealthKind, ExperimentRuntimeEvent,
};
use agentctl::runtime::record::{RunRecord, RunState};
use agentctl::source::ArtifactRef;

fn message<T: std::fmt::Debug>(r: Result<T, Error>) -> String {
    match r.unwrap_err() {
        Error::Invalid(m) => m,
    }
}

fn field(name: &str, value: &str) -> Line {
    Line::Field { name: name.into(), value: value.into() }
}

fn next(report: &Report) -> Vec<String> {
    match report.lines.last() {
        Some(Line::Next(steps)) => steps.clone(),
        other => panic!("{other:?}"),
    }
}

// --- planning --------------------------------------------------------------

#[test]
fn prepare_takes_one_objective() {
    let p = plan_cli::parse_prepare(&["--objective", "do it", "--files", "3", "--verify", "a, b,"])
        .unwrap();
    assert_eq!(p.source, ObjectiveSource::Objective("do it".into()));
    assert_eq!(p.limits.files.as_deref(), Some("3"));
    assert_eq!(p.verify.as_deref(), Some("a, b,"));
    assert_eq!(p.query, None);
    assert_eq!(
        message(plan_cli::parse_prepare(&["--objective"])),
        "prepare flags require values"
    );
    assert_eq!(
        message(plan_cli::parse_prepare(&["--nope", "x"])),
        "unknown prepare flag --nope"
    );
    assert_eq!(
        message(plan_cli::parse_prepare(&["--query", "x", "--query", "y"])),
        "repeated prepare flag"
    );
    assert_eq!(
        message(plan_cli::parse_prepare(&["--query", "x"])),
        "choose one objective, objective-file or request-file"
    );
    assert!(plan_cli::parse_prepare(&["--objective", "a", "--request-file", "b"]).is_err());
}

#[test]
fn a_plan_is_judged_by_chosen_checks() {
    let declared = |names: &[&str]| names.iter().map(|s| s.to_string()).collect::<Vec<_>>();
    let own = || VerificationRequirements {
        requirement_refs: vec!["own".into()],
        evidence_required: false,
    };
    let chosen =
        plan_cli::choose_verification(None, &Some(" a, ,b ".into()), &declared(&[])).unwrap();
    assert_eq!(chosen.requirement_refs, ["a", "b"]);
    assert!(chosen.evidence_required);
    assert_eq!(
        message(plan_cli::choose_verification(
            Some(own()),
            &Some("a".into()),
            &declared(&[])
        )),
        "--verify conflicts with the request file's own verification"
    );
    assert_eq!(
        plan_cli::choose_verification(Some(own()), &None, &declared(&["x", "y"]))
            .unwrap()
            .requirement_refs,
        ["own"]
    );
    assert_eq!(
        plan_cli::choose_verification(None, &None, &declared(&["x"]))
            .unwrap()
            .requirement_refs,
        ["x"]
    );
    assert!(
        message(plan_cli::choose_verification(None, &None, &declared(&[])))
            .starts_with("plan prepare: the project declares no [verification.KEY] profile")
    );
    assert!(
        message(plan_cli::choose_verification(None, &None, &declared(&["x", "y"])))
            .ends_with("(declared: x, y)")
    );
}

#[test]
fn limits_are_numbers() {
    let p = plan_cli::parse_prepare(&["--objective", "o", "--bytes", "5000", "--notes", "2"])
        .unwrap();
    let l = plan_cli::apply_limits(&p.limits, &PlanningLimits::default()).unwrap();
    assert_eq!(l.bytes, 5000);
    assert_eq!(l.memory.notes, 2);
    assert_eq!(l.files, 8);
    let p = plan_cli::parse_prepare(&["--objective", "o", "--tests", "-1"]).unwrap();
    assert_eq!(
        message(plan_cli::apply_limits(&p.limits, &PlanningLimits::default())),
        "invalid numeric --tests"
    );
}

#[test]
fn input_is_bounded() {
    assert!(plan_cli::check_input_file(true, 10, 10).is_ok());
    assert_eq!(
        message(plan_cli::check_input_file(false, 1, 10)),
        "planning input must be a bounded regular file"
    );
    assert_eq!(
        message(plan_cli::check_input("abc", 2)),
        "planning input exceeds limit"
    );
    let draft = plan_cli::draft_for("goal".into());
    assert_eq!(draft.provenance.actor, "local-cli");
    assert_eq!(draft.provenance.source_refs, ["explicit-user-objective"]);
}

#[test]
fn planning_commands_take_their_arguments() {
    assert_eq!(plan_cli::parse_list(&[]).unwrap(), (false, 20));
    assert_eq!(
        plan_cli::parse_list(&["--all", "--limit", "5"]).unwrap(),
        (true, 5)
    );
    assert_eq!(
        message(plan_cli::parse_list(&["--limit", "x"])),
        "invalid plan limit"
    );
    for bad in [&["--limit"][..], &["--all", "--all"], &["--limit", "1", "--all"]] {
        assert_eq!(
            message(plan_cli::parse_list(bad)),
            "plan list [--all] [--limit N]"
        );
    }
    assert!(!plan_cli::parse_context(&["r"]).unwrap());
    assert!(plan_cli::parse_context(&["r", "--manifest"]).unwrap());
    assert!(plan_cli::parse_context(&["r", "x"]).is_err());
    assert!(plan_cli::check_import(&[]).is_err());
    let parse = |word: &str, args: &[&str]| plan_cli::parse_command(word, args, &None);
    assert_eq!(
        parse("supersede", &["a", "--with", "b"]).unwrap(),
        PlanCommand::Supersede
    );
    assert_eq!(
        message(parse("supersede", &["a", "b", "c"])),
        "plan supersede OLD --with NEW"
    );
    assert_eq!(
        message(parse("cancel", &["a"])),
        "plan cancel ID --reason TEXT"
    );
    assert_eq!(message(parse("show", &["a", "b"])), "unexpected plan arguments");
    assert_eq!(message(parse("show", &[])), "plan command requires an ID");
    assert_eq!(
        message(parse("fly", &["a"])),
        "unknown planning command; run agentctl --help"
    );
    assert_eq!(
        message(plan_cli::parse_command("fly", &["a"], &Some("bad id".into()))),
        "bad id"
    );
    assert_eq!(plan_cli::plan_title(PlanCommand::Activate), "Plan activated");
    assert_eq!(plan_cli::import_title(9), "Plan imported (9 bytes)");
}

#[test]
fn headlines_fit_on_a_line() {
    assert_eq!(plan_cli::first_line("  one \r\ntwo"), "one");
    assert_eq!(plan_cli::first_line(""), "");
    assert_eq!(plan_cli::first_line(&"x".repeat(96)), "x".repeat(96));
    assert_eq!(
        plan_cli::first_line(&"é".repeat(97)),
        format!("{}…", "é".repeat(95))
    );
}

#[test]
fn plans_are_listed_in_columns() {
    let plan = |id: &str, objective: &str| PlanSummary {
        plan_id: id.into(),
        state: PlanState::Active,
        workspace_id: "w".into(),
        objective: objective.into(),
    };
    assert_eq!(
        plan_cli::list_report(&vec![], &vec![], false),
        "No validated or active plans in this workspace"
    );
    assert_eq!(
        plan_cli::list_report(&vec![], &vec![], true),
        "No plans in this workspace"
    );
    assert_eq!(
        plan_cli::list_report(
            &vec![plan("plan:a", "one\nmore"), plan("plan:long", "two")],
            &vec!["ACTIVE".into(), "VALIDATED".into()],
            true
        ),
        "PLAN       STATUS      OBJECTIVE\nplan:a     ACTIVE      one\nplan:long  VALIDATED   two"
    );
}

#[test]
fn prepared_requests_are_told() {
    let r = plan_cli::prepared_report("request:1", "goal\nx", &vec!["a".into(), "b".into()], 7, true);
    assert_eq!(r.lines[0], Line::Title("Planning request prepared".into()));
    assert_eq!(r.lines[2], field("Objective", "goal"));
    assert_eq!(r.lines[3], field("Verify", "a, b"));
    assert_eq!(r.lines[4], field("Context", "7 bytes (truncated to limits)"));
    assert_eq!(next(&r)[0], "agentctl run planner request:1");
    let c = plan_cli::context_report("request:1", "goal", 7, false);
    assert_eq!(c.lines[3], field("Context", "7 bytes"));
}

// --- runs ------------------------------------------------------------------

fn words(s: &str) -> Vec<String> {
    s.split_whitespace().map(str::to_owned).collect()
}

fn split(s: &str) -> Result<run_cli::Split, Error> {
    let args: Vec<&str> = s.split_whitespace().collect();
    run_cli::split_overrides(&args)
}

#[test]
fn overrides_are_taken_out_of_the_words() {
    let s = split("run --override executor:codex:big plan --override planner:x p").unwrap();
    assert_eq!(s.words, ["run", "plan", "p"]);
    assert_eq!(s.overrides[0].role, "executor");
    assert_eq!(s.overrides[0].provider, "codex");
    assert_eq!(s.overrides[0].model.as_deref(), Some("big"));
    assert_eq!(s.overrides[1].model, None);
    assert_eq!(
        message(split("run --override")),
        "--override needs role:provider[:model]"
    );
    for bad in ["--override a", "--override a:b:c:d", "--override a::c"] {
        assert_eq!(
            message(split(bad)),
            "--override requires exactly 2 or 3 nonempty segments: role:provider[:model]"
        );
    }
    assert_eq!(
        message(split("--override a:b --override a:c")),
        "duplicate role override"
    );
}

#[test]
fn questions_about_roles_are_read() {
    let names = words("planner executor verifier docs");
    let none = vec![];
    let ask = |s: &str| run_cli::parse_inspection(&words(s), &none, &names);
    assert!(run_cli::is_inspection(&words("route x")));
    assert!(!run_cli::is_inspection(&words("run x")));
    assert_eq!(ask("roles").unwrap(), Inspection::Roles);
    assert_eq!(ask("role show docs").unwrap(), Inspection::RoleShow("docs".into()));
    assert_eq!(ask("route check").unwrap(), Inspection::RouteCheck);
    assert_eq!(ask("route docs").unwrap(), Inspection::Route("docs".into()));
    assert_eq!(
        message(ask("role docs")),
        "expected roles, role show <role>, route <role>, or route check"
    );
    let with = |s: &str, o: &str| {
        let overrides = split(&format!("--override {o}")).unwrap().overrides;
        run_cli::parse_inspection(&words(s), &overrides, &names)
    };
    assert!(with("route docs", "docs:x").is_ok());
    assert!(with("route check", "docs:x").is_ok());
    assert_eq!(
        message(with("route docs", "planner:x")),
        "override must target the requested role"
    );
    assert_eq!(
        message(with("roles", "planner:x")),
        "overrides require a route inspection or execution command"
    );
    assert_eq!(
        message(with("route docs", "other:x")),
        "explicit override names an unknown role"
    );
    assert_eq!(
        message(run_cli::check_role(&names, "x", &words("planner executor"))),
        "unknown role x; agentctl launches planner, executor, and configuration may add inspection profiles"
    );
    assert!(run_cli::check_routing(false).is_ok());
    assert!(message(run_cli::check_routing(true)).starts_with("routing validation failed"));
}

#[test]
fn run_commands_are_read() {
    let none = vec![];
    let parse = |s: &str| run_cli::parse_run(&words(s), &none);
    assert_eq!(
        parse("run replace a b").unwrap(),
        RunCommand::Replace { old: "a".into(), new: "b".into() }
    );
    assert_eq!(
        parse("run plan p --dry-run").unwrap(),
        RunCommand::DryRun { id: "p".into() }
    );
    assert_eq!(parse("run plan p").unwrap(), RunCommand::Plan { id: "p".into() });
    assert_eq!(
        parse("run context decide p f").unwrap(),
        RunCommand::Decide { id: "p".into(), file: "f".into() }
    );
    assert_eq!(
        parse("run context decide").unwrap(),
        RunCommand::Context { id: "decide".into() }
    );
    assert_eq!(
        parse("provider doctor").unwrap(),
        RunCommand::Providers { doctor: true }
    );
    assert_eq!(
        message(parse("provider x")),
        "expected provider list or provider doctor"
    );
    for bad in ["", "run", "run plan", "run fly p", "run plan p x", "walk plan p"] {
        assert_eq!(
            message(parse(bad)),
            "unrecognized run command; run agentctl run --help"
        );
    }
    let with = |s: &str, o: &str| {
        let overrides = split(&format!("--override {o}")).unwrap().overrides;
        run_cli::parse_run(&words(s), &overrides)
    };
    assert!(with("run resume p", "verifier:x").is_ok());
    assert_eq!(
        message(with("run status p", "verifier:x")),
        "--override is only supported for route inspection or worker execution"
    );
    assert_eq!(
        message(with("run plan p", "docs:x")),
        "run overrides must name an executable role: planner, executor, verifier"
    );
    assert!(run_cli::check_decided_plan("p", "p").is_ok());
    assert!(run_cli::check_decided_plan("p", "q").is_err());
}

fn route(provider: &str, model: Option<&str>, effort: Option<&str>) -> Route {
    Route {
        provider: Some(provider.into()),
        model: model.map(str::to_owned),
        effort: effort.map(str::to_owned),
    }
}

#[test]
fn roles_and_providers_are_told() {
    assert_eq!(
        run_cli::route_label(&route("codex", Some("m"), Some("high"))),
        "codex/m (effort high)"
    );
    let unknown = Route { provider: None, model: None, effort: None };
    assert_eq!(run_cli::route_label(&unknown), "?");
    let mut report = Report::empty();
    run_cli::route_report(
        &mut report,
        &RoleRow {
            role: Some("planner".into()),
            outcome: Ok(ResolvedRole {
                primary: route("a", None, None),
                fallbacks: vec![route("b", None, None), route("c", None, None)],
                policy_skipped: vec![route("d", None, None)],
                timeout_ms: Some(61_999),
                network: true,
                read_only: false,
                candidates: vec![
                    Candidate { provider: Some("a".into()), executable_exists: true },
                    Candidate { provider: Some("b".into()), executable_exists: false },
                    Candidate { provider: None, executable_exists: false },
                ],
            }),
        },
    );
    assert_eq!(
        report.lines,
        [
            Line::Section("Role planner".into()),
            field("Status", "OK"),
            field("Primary", "a"),
            field("Fallbacks", "b, c"),
            field("Skipped", "d (project policy)"),
            field("Timeout", "61s"),
            field("Network", "yes"),
            field("Read-only", "no"),
            field("Missing", "executable for b"),
        ]
    );
    let mut report = Report::empty();
    run_cli::route_report(&mut report, &RoleRow { role: None, outcome: Err("why".into()) });
    assert_eq!(report.lines[0], Line::Section("Role ?".into()));
    assert_eq!(report.lines[2], field("Reason", "why"));
    let row = ProviderRow {
        provider: "p".into(),
        adapter: "codex".into(),
        executable: "/bin/x".into(),
        exists: false,
        version: None,
        authentication: Some(Authentication {
            authenticated: false,
            method: None,
            guidance: Some("log in".into()),
        }),
        sandbox_available: true,
    };
    let report = run_cli::providers_report(&vec![row]);
    assert_eq!(report.lines[2], field("Executable", "/bin/x  (MISSING)"));
    assert_eq!(report.lines[3], field("Auth", "NOT AUTHENTICATED (?)"));
    assert_eq!(report.lines[4], field("Guidance", "log in"));
    let none = run_cli::providers_report(&vec![]);
    assert_eq!(none.lines[0], Line::Text("No providers configured".into()));
    assert_eq!(run_cli::version(true, " 1.2.3\n").unwrap(), "1.2.3");
    assert_eq!(
        message(run_cli::version(false, "")),
        "provider version query failed"
    );
}

fn artifact(hash: &str) -> ArtifactRef {
    ArtifactRef { hash: hash.into(), bytes: 1 }
}

fn run_record(state: RunState) -> RunRecord {
    RunRecord {
        engineering_session: None,
        plan_id: "plan:a".into(),
        workspace_id: "w".into(),
        state,
        baseline: artifact("base"),
        expected: artifact("now"),
        verified: None,
        policy_hash: "policy".into(),
        accepted: vec![],
        pending: None,
        branches: vec![],
        batch_authority: None,
        reconciliation: None,
        reason: None,
        correction_round: 0,
        context: vec![],
        executor_relaunches: vec![],
        refused: None,
    }
}

fn jobs(n: usize) -> Vec<JobLine> {
    (0..n)
        .map(|i| JobLine {
            job_id: format!("job:{i}"),
            role: "EXECUTOR".into(),
            state: "FAILED".into(),
            task_id: Some("task:a".into()),
            failure_class: None,
        })
        .collect()
}

#[test]
fn runs_are_told_with_what_can_be_done_next() {
    let running = run_cli::run_report(&run_record(RunState::Running), "RUNNING", &vec![]);
    assert_eq!(
        running.lines,
        [
            Line::Title("Run".into()),
            field("Plan", "plan:a"),
            field("Status", "RUNNING"),
            field("Verified", "0 task(s)"),
            field("Source", "now"),
            Line::Next(vec![
                "agentctl run status plan:a".into(),
                "agentctl run cancel plan:a".into()
            ]),
        ]
    );
    let mut blocked = run_record(RunState::Blocked);
    blocked.reason = Some("[X] stop".into());
    blocked.correction_round = 2;
    let report = run_cli::run_report(&blocked, "BLOCKED", &jobs(10));
    assert_eq!(report.lines[4], field("Correction", "round 2"));
    assert_eq!(report.lines[6], Line::Section("Blocked".into()));
    assert_eq!(report.lines[7], Line::Reason("[X] stop".into()));
    assert_eq!(report.lines[9], field("job:2", "EXECUTOR   FAILED       task:a"));
    assert_eq!(
        report.lines[17],
        Line::Text("… 2 earlier job(s); agentctl run status plan:a --json".into())
    );
    assert!(next(&report)[0].starts_with("Prepare a replacement plan"));
    blocked.refused = Some(artifact("r"));
    let report = run_cli::run_report(&blocked, "BLOCKED", &vec![]);
    assert_eq!(
        next(&report)[0],
        "Discard the refused result: agentctl run restore plan:a"
    );
    let done = run_cli::run_report(&run_record(RunState::Complete), "COMPLETE", &vec![]);
    assert!(next(&done)[0].starts_with("Review the changes"));
}

#[test]
fn other_reports_are_told() {
    assert_eq!(
        next(&run_cli::no_run_report("p")),
        ["agentctl plan show p", "agentctl run plan p"]
    );
    assert_eq!(
        run_cli::replaced_report("a", "b").lines[2],
        field("Replacement", "b  (VALIDATED, not active)")
    );
    assert_eq!(
        run_cli::cancelled_report("p", RunState::Running, "x").lines[2],
        field("Status", "RUNNING")
    );
    assert_eq!(
        run_cli::cancelled_report("p", RunState::Cancelled, "CANCELLED").lines[2],
        field("Status", "CANCELLED")
    );
    assert!(next(&run_cli::restored_report("p"))[0].contains("agentctl run replace p"));
    assert_eq!(
        run_cli::produced_report("p", "VALIDATED", 3, "o").lines[3],
        field("Tasks", "3")
    );
    let findings = vec![Finding {
        capability: "REFUSE_STALE_SOURCE".into(),
        status: "SUPPORTED".into(),
        evidence: 2,
    }];
    let report = run_cli::capabilities_report("p", "COMPLETE", &None, &findings, "p");
    assert_eq!(report.lines[3], field("Generation", "none"));
    assert_eq!(
        report.lines[5],
        field("REFUSE_STALE_SOURCE", "SUPPORTED  (2 evidence)")
    );
    let roles = vec![ConfiguredRole {
        role: "planner".into(),
        route: route("codex", None, None),
    }];
    let ready = vec![Named { name: "task:a".into(), value: "do".into() }];
    let report = run_cli::dry_run_report("p", "w", "/r", &roles, &ready);
    assert_eq!(report.lines[6], field("planner", "codex"));
    assert_eq!(report.lines[7], Line::Section("Ready tasks (1)".into()));
    assert_eq!(report.lines[8], field("task:a", "do"));
    let empty = run_cli::dry_run_report("p", "w", "/r", &vec![], &vec![]);
    assert_eq!(
        empty.lines[6],
        Line::Text("none configured (agentctl route check)".into())
    );
    let subject = |decision: Option<WaitingDecision>| Subject {
        subject: "executor:task:a".into(),
        state: "OPEN".into(),
        rounds_used: 1,
        max_rounds: 3,
        granted_bytes: 10,
        task_bytes_remaining: 90,
        escalations: 0,
        decision,
    };
    let report = run_cli::context_report("p", "BLOCKED", &None, &vec![subject(None)]);
    assert_eq!(report.lines[5], field("Rounds", "1/3"));
    assert_eq!(report.lines[6], field("Granted", "10 bytes (90 remaining)"));
    let waiting = WaitingDecision {
        outside_paths: vec!["a".into(), "b".into()],
        approvable: false,
        detail: "why".into(),
    };
    let report = run_cli::context_report("p", "BLOCKED", &None, &vec![subject(Some(waiting))]);
    assert_eq!(report.lines[8], field("Requested", "a\nb"));
    assert_eq!(report.lines[9], field("Approvable", "no — why"));
    assert_eq!(next(&report)[1], "agentctl run context decide p <decision.json>");
    let none = run_cli::context_report("p", "RUNNING", &Some("r".into()), &vec![]);
    assert_eq!(none.lines[3], Line::Reason("r".into()));
    assert_eq!(
        none.lines[4],
        Line::Text("No context requests recorded.".into())
    );
}

// --- experiments -----------------------------------------------------------

#[test]
fn event_queries_are_read() {
    let q = experiment_cli::event_query(
        &["experiment:a", "--attempt", "2", "--name", "loss", "--limit", "9"],
        Some("METRIC"),
        true,
        &None,
    )
    .unwrap();
    assert_eq!(q.attempt, Some(2));
    assert_eq!(q.metric_name.as_deref(), Some("loss"));
    assert_eq!(q.limit, 9);
    assert_eq!(q.event_type.as_deref(), Some("METRIC"));
    let refused = |args: &[&str], allow: bool| {
        message(experiment_cli::event_query(args, None, allow, &None))
    };
    assert_eq!(refused(&[], true), "experiment event query requires an ID");
    assert_eq!(refused(&["e", "--attempt"], true), "--attempt needs a value");
    assert_eq!(refused(&["e", "--attempt", "x"], true), "invalid --attempt");
    assert_eq!(
        refused(&["e", "--attempt", "0"], true),
        "--attempt must be at least 1"
    );
    assert_eq!(refused(&["e", "--limit", "x"], true), "invalid --limit");
    assert_eq!(
        refused(&["e", "--name", "x"], false),
        "unknown experiment event query flag --name"
    );
    assert_eq!(
        message(experiment_cli::event_query(&["e"], None, true, &Some("id".into()))),
        "id"
    );
    assert_eq!(experiment_cli::shown_type("metrics"), Some("METRIC"));
    assert_eq!(experiment_cli::shown_type("events"), None);
}

#[test]
fn an_experiment_has_exactly_one_command() {
    let parse = |args: &[&str]| experiment_cli::parse_run(args);
    let f = parse(&[
        "--program", "make", "--arg", "-j", "--arg", "4", "--network", "--env", "A",
        "--timeout-ms", "77",
    ])
    .unwrap();
    assert_eq!(f.args, ["-j", "4"]);
    assert_eq!(f.env, ["A"]);
    assert!(f.network);
    assert_eq!(f.timeout_ms, 77);
    match experiment_cli::command_source(&f).unwrap() {
        ExperimentCommand::Explicit(c) => {
            assert_eq!(c.program, "make");
            assert_eq!(c.args, ["-j", "4"]);
            assert_eq!(c.cwd, ".");
        }
        other => panic!("{other:?}"),
    }
    let project = parse(&["--command", "bench"]).unwrap();
    assert_eq!(project.timeout_ms, 86_400_000);
    assert_eq!(
        experiment_cli::command_source(&project).unwrap(),
        ExperimentCommand::Project("bench".into())
    );
    let both = parse(&["--command", "bench", "--program", "x"]).unwrap();
    assert_eq!(
        message(experiment_cli::command_source(&both)),
        "experiment run requires exactly one of --program or --command"
    );
    let mixed = parse(&["--command", "bench", "--cwd", "x"]).unwrap();
    assert!(message(experiment_cli::command_source(&mixed)).starts_with("--command uses"));
    assert_eq!(message(parse(&["--arg"])), "--arg needs a value");
    assert_eq!(message(parse(&["--x"])), "unknown experiment run flag --x");
    assert_eq!(
        message(parse(&["--timeout-ms", "x"])),
        "invalid --timeout-ms"
    );
    assert_eq!(
        message(experiment_cli::check_one_id("status", &[])),
        "experiment status requires exactly one ID"
    );
    assert_eq!(
        message(experiment_cli::check_list(&["x"])),
        "experiment list takes no arguments"
    );
    assert_eq!(
        message(experiment_cli::parse_action("fly")),
        "expected experiment run|status|list|cancel|restart|metrics|checkpoints|events"
    );
}

#[test]
fn events_are_told() {
    let event = |event: ExperimentEventData| ExperimentRuntimeEvent {
        arrival_sequence: 3,
        experiment_id: "e".into(),
        workspace_id: agentctl::repository::WorkspaceId::for_git_directory("/w"),
        attempt: 1,
        channel: "EVENT_FILE".into(),
        source_sequence: 9,
        timestamp_ms: 10,
        observed_at_ms: 11,
        source: "s".into(),
        event,
    };
    let metric = event(ExperimentEventData::Metric {
        name: "loss".into(),
        value: 0.5f64.to_bits(),
        step: Some(4),
        epoch: None,
        index: None,
        unit: None,
        tags: vec![],
    });
    assert_eq!(
        experiment_cli::human_event(&metric, "0.5"),
        "3  attempt=1 source_seq=9 timestamp_ms=10 source=s  metric loss=0.5 step=Some(4) epoch=None"
    );
    let health = event(ExperimentEventData::Health {
        kind: ExperimentHealthKind::IngestionError,
        message: Some("m".into()),
    });
    assert!(experiment_cli::human_event(&health, "").ends_with("health IngestionError m"));
    let checkpoint = event(ExperimentEventData::Checkpoint {
        name: "n".into(),
        path: "p".into(),
        step: None,
        epoch: None,
        byte_size: 12,
        modified_at_ms: None,
        content_hash: None,
    });
    assert!(experiment_cli::human_event(&checkpoint, "").ends_with("checkpoint n path=p bytes=12"));
    let status = event(ExperimentEventData::ProcessStatus {
        status: "warm".into(),
        message: None,
    });
    assert!(experiment_cli::human_event(&status, "").ends_with("status warm "));
    assert_eq!(experiment_cli::joined_or(&vec![], "none"), "none");
    assert_eq!(
        experiment_cli::joined_or(&vec!["a".into(), "b".into()], "none"),
        "a\nb"
    );
}
