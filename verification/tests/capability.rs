use agentctl::error::Error;
use agentctl::planning::completion;
use agentctl::repository::RepositoryId;
use agentctl::runtime::auth;
use rusqlite::functions::FunctionFlags;
use rusqlite::{params_from_iter, Connection};
use std::sync::{Arc, Mutex};

const FLAGS: FunctionFlags = FunctionFlags::SQLITE_UTF8.union(FunctionFlags::SQLITE_INNOCUOUS);

/// Revokes a completion permit when it goes out of scope.
struct CompletionGuard(Arc<Mutex<completion::Permit>>);
impl Drop for CompletionGuard {
    fn drop(&mut self) {
        self.0.lock().unwrap().revoke();
    }
}

fn register_completion(c: &Connection) {
    c.create_scalar_function("agentctl_completion_authorized", 5, FLAGS, |_| Ok(false))
        .unwrap();
}

fn authorize_completion(c: &Connection, expected: &[String; 5]) -> CompletionGuard {
    let permit = Arc::new(Mutex::new(completion::Permit::authorize(expected.to_vec())));
    let held = permit.clone();
    c.create_scalar_function("agentctl_completion_authorized", 5, FLAGS, move |ctx| {
        let mut values = vec![];
        for i in 0..5 {
            values.push(ctx.get::<String>(i)?);
        }
        Ok(held.lock().unwrap().allows(&values))
    })
    .unwrap();
    CompletionGuard(permit)
}

#[test]
fn completion_capability_is_connection_local_exact_and_revoked_on_error() {
    let c = Connection::open_in_memory().unwrap();
    let other = Connection::open_in_memory().unwrap();
    register_completion(&c);
    register_completion(&other);
    let expected = ["repo", "plan", "workspace", "proof", "source"].map(str::to_owned);
    let allowed = |c: &Connection, values: &[String; 5]| -> bool {
        c.query_row(
            "SELECT agentctl_completion_authorized(?1,?2,?3,?4,?5)",
            params_from_iter(values),
            |r| r.get(0),
        )
        .unwrap()
    };
    assert!(!allowed(&c, &expected));
    let attempt = || -> Result<(), Error> {
        let _permit = authorize_completion(&c, &expected);
        assert!(allowed(&c, &expected));
        assert!(!allowed(&other, &expected));
        for i in 0..5 {
            let mut wrong = expected.clone();
            wrong[i].push_str("-other");
            assert!(!allowed(&c, &wrong));
        }
        Err(Error::Invalid("injected".into()))
    };
    assert!(attempt().is_err());
    assert!(!allowed(&c, &expected));
    let permit = authorize_completion(&c, &expected);
    assert!(allowed(&c, &expected));
    drop(permit);
    assert!(!allowed(&c, &expected));
}

/// Revokes a runtime permit when it goes out of scope.
struct RuntimeGuard(Arc<Mutex<auth::Permit>>);
impl Drop for RuntimeGuard {
    fn drop(&mut self) {
        self.0.lock().unwrap().revoke();
    }
}

fn register_runtime(c: &Connection) {
    c.create_scalar_function("agentctl_runtime_authorized", 2, FLAGS, |_| Ok(false))
        .unwrap();
    c.create_scalar_function("agentctl_runtime_session_authorized", 3, FLAGS, |_| {
        Ok(false)
    })
    .unwrap();
}

fn authorize_runtime(c: &Connection, repo: &str, owner: &str, session: &str) -> RuntimeGuard {
    let permit = Arc::new(Mutex::new(auth::Permit::authorize(repo, owner, session)));
    let held = permit.clone();
    c.create_scalar_function(
        "agentctl_runtime_session_authorized",
        3,
        FLAGS,
        move |ctx| {
            let (repo, owner, session) = (
                ctx.get::<String>(0)?,
                ctx.get::<String>(1)?,
                ctx.get::<String>(2)?,
            );
            Ok(held.lock().unwrap().allows_session(&repo, &owner, &session))
        },
    )
    .unwrap();
    let held = permit.clone();
    c.create_scalar_function("agentctl_runtime_authorized", 2, FLAGS, move |ctx| {
        let (repo, owner) = (ctx.get::<String>(0)?, ctx.get::<String>(1)?);
        Ok(held.lock().unwrap().allows(&repo, &owner))
    })
    .unwrap();
    RuntimeGuard(permit)
}

#[test]
fn runtime_capability_is_exact_connection_local_and_revoked_on_unwind() {
    let a = Connection::open_in_memory().unwrap();
    let b = Connection::open_in_memory().unwrap();
    register_runtime(&a);
    register_runtime(&b);
    let repo = RepositoryId::for_common_directory("/fixture/.git");
    let allowed = |c: &Connection, owner: &str| {
        c.query_row::<bool, _, _>(
            "SELECT agentctl_runtime_authorized(?1,?2)",
            [repo.as_str(), owner],
            |r| r.get(0),
        )
        .unwrap()
    };
    assert!(!allowed(&a, "plan:a"));
    let controller = || -> Result<(), &'static str> {
        let _permit = authorize_runtime(&a, repo.as_str(), "plan:a", "engineering:a");
        assert!(!a
            .query_row::<bool, _, _>(
                "SELECT agentctl_runtime_session_authorized(?1,'plan:a','engineering:b')",
                [repo.as_str()],
                |r| r.get(0)
            )
            .unwrap());
        assert!(a
            .query_row::<bool, _, _>(
                "SELECT agentctl_runtime_session_authorized(?1,'plan:a','engineering:a')",
                [repo.as_str()],
                |r| r.get(0)
            )
            .unwrap());
        assert!(allowed(&a, "plan:a"));
        assert!(!allowed(&a, "plan:b"));
        assert!(!allowed(&b, "plan:a"));
        Err("simulated controller crash")
    };
    assert!(controller().is_err());
    assert!(!allowed(&a, "plan:a"));
}
