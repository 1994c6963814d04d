use agentctl::error::Error;
use agentctl::runtime::credentials::{
    native_status, read_login, redact, redact_text, AuthMode, Authentication, EnvChange,
    NativeAuth, ProviderProfile, WorkerAuth,
};

fn message<T: std::fmt::Debug>(r: Result<T, Error>) -> String {
    match r.unwrap_err() {
        Error::Invalid(m) => m,
    }
}

fn documented() -> ProviderProfile {
    ProviderProfile::keychain("other", "Other")
}

#[test]
fn providers_belong_to_one_of_two_families() {
    assert_eq!(ProviderProfile::of("codex", "other", "Other"), ProviderProfile::codex());
    assert_eq!(ProviderProfile::of("other", "other", "Other"), documented());
    let profile = documented();
    assert_eq!(profile.adapter, "other");
    assert_eq!(profile.home_directory, ".other");
    assert_eq!(profile.home_file.as_deref(), Some(".other.json"));
    assert_eq!(profile.home_variable, "CLAUDE_CONFIG_DIR");
    assert_eq!(profile.key_variable, "ANTHROPIC_API_KEY");
    assert_eq!(profile.login_files, [".credentials.json"]);
    assert_eq!(profile.status_args, ["--safe-mode", "auth", "status", "--json"]);
    assert!(profile.guidance.starts_with("Run other auth login with your normal HOME/"));
    assert!(!profile.names_home);
}

#[test]
fn keys_are_taken_out_of_output() {
    let shown = redact_text("token sk-abcdefghijklmnop end");
    assert!(!shown.contains("sk-abcdefghijklmnop"));
    assert!(shown.contains("token"));
    assert!(shown.contains("end"));
    assert_eq!(redact_text("nothing to see"), "nothing to see");
}

#[test]
fn bytes_that_are_no_text_are_replaced() {
    assert_eq!(redact(b"ok \xff"), "ok \u{fffd}".as_bytes());
    assert_eq!(redact(b"plain"), b"plain");
    let secret = "clé sk-abcdefghijklmnop";
    assert_eq!(redact(secret.as_bytes()), redact_text(secret).as_bytes());
}

#[test]
fn a_login_status_is_an_exit_or_a_document() {
    let codex = ProviderProfile::codex();
    assert_eq!(native_status(&codex, true, &vec![]).unwrap(), true);
    assert_eq!(native_status(&codex, false, &vec![]).unwrap(), false);
    let other = documented();
    let says = |s: &str| native_status(&other, true, &s.as_bytes().to_vec());
    assert_eq!(says("{\"loggedIn\":true}").unwrap(), true);
    assert_eq!(says("{\"loggedIn\":false}").unwrap(), false);
    assert_eq!(says("{\"loggedIn\":\"yes\"}").unwrap(), false);
    assert_eq!(says("[]").unwrap(), false);
    assert_eq!(message(says("not json")), "unsupported Other auth status response");
    assert_eq!(
        message(native_status(&other, true, &vec![b' '; 8193])),
        "provider auth status exceeded its bound"
    );
    assert_eq!(native_status(&other, false, &vec![b' '; 8193]).unwrap(), false);
    assert_eq!(read_login(&other, true, 10, &Ok(Some(true))).unwrap(), true);
    assert_eq!(read_login(&other, true, 10, &Ok(None)).unwrap(), false);
}

#[test]
fn a_login_is_found_where_the_provider_keeps_it() {
    let other = documented();
    let found = NativeAuth::discover("third", &other, Some("/home/u".into()), None, &None, &None).unwrap();
    assert_eq!(found.provider_home, "/home/u/.other");
    assert!(!found.config_override);
    assert_eq!(found.provider, "third");
    let moved = NativeAuth::discover(
        "third",
        &other,
        Some("/home/u".into()),
        Some("/elsewhere".into()),
        &None,
        &None,
    )
    .unwrap();
    assert_eq!(moved.provider_home, "/elsewhere");
    assert!(moved.config_override);
    assert_eq!(
        moved.readable_files(&other),
        ["/elsewhere/.credentials.json", "/elsewhere/.other.json"]
    );
    assert_eq!(
        found.readable_files(&other),
        ["/home/u/.other/.credentials.json", "/home/u/.other.json"]
    );
    assert_eq!(
        message(NativeAuth::discover("third", &other, None, None, &None, &None)),
        "native provider authentication requires HOME"
    );
    assert_eq!(
        message(NativeAuth::discover(
            "third",
            &other,
            Some("rel".into()),
            None,
            &Some("home rule".into()),
            &Some("login rule".into())
        )),
        "home rule"
    );
}

#[test]
fn a_worker_is_told_where_its_login_is() {
    let assign = |name: &str, value: &str| EnvChange::Assign {
        name: name.into(),
        value: value.into(),
    };
    let codex = ProviderProfile::codex();
    let auth = NativeAuth::located("codex", &codex, "/h".into(), None);
    assert_eq!(
        auth.environment(&codex, &Some("u".into()), &None),
        [
            assign("HOME", "/h"),
            assign("USER", "u"),
            assign("CODEX_HOME", "/h/.codex"),
        ]
    );
    let other = documented();
    let auth = NativeAuth::located("other", &other, "/h".into(), None);
    assert_eq!(
        auth.environment(&other, &None, &Some("l".into())),
        [
            assign("HOME", "/h"),
            assign("LOGNAME", "l"),
            EnvChange::Remove {
                name: "CLAUDE_CONFIG_DIR".into()
            },
        ]
    );
    let auth = NativeAuth::located("other", &other, "/h".into(), Some("/m".into()));
    assert_eq!(
        auth.environment(&other, &None, &None),
        [assign("HOME", "/h"), assign("CLAUDE_CONFIG_DIR", "/m")]
    );
}

#[test]
fn a_native_login_comes_before_a_key() {
    let codex = ProviderProfile::codex();
    let auto = Authentication { mode: AuthMode::Auto, api_key_env: Some("MY_KEY".into()) };
    assert_eq!(auto.preflight(&codex, true, true).unwrap().method, "NATIVE");
    assert_eq!(auto.preflight(&codex, false, true).unwrap().method, "API_KEY");
    assert_eq!(
        auto.preflight(&codex, false, false).unwrap().method,
        "UNAVAILABLE"
    );
    assert!(matches!(
        auto.configure(&codex, true, true).unwrap(),
        WorkerAuth::Native
    ));
    match auto.configure(&codex, false, true).unwrap() {
        WorkerAuth::ApiKey { from, to } => {
            assert_eq!(from, "MY_KEY");
            assert_eq!(to, "CODEX_API_KEY");
        }
        WorkerAuth::Native => panic!("no native login"),
    }
    assert!(message(auto.configure(&codex, false, false)).starts_with("Run codex login"));
    let native = Authentication { mode: AuthMode::Native, api_key_env: Some("MY_KEY".into()) };
    assert!(!native.preflight(&codex, false, true).unwrap().authenticated);
}

#[test]
fn settings_never_hold_a_key() {
    let bad = Authentication { mode: AuthMode::Auto, api_key_env: Some("sk-secret".into()) };
    assert_eq!(
        message(bad.validate()),
        "api_key_env must be an environment variable name, not a credential"
    );
    let none = Authentication { mode: AuthMode::ApiKey, api_key_env: None };
    assert_eq!(
        message(none.validate()),
        "API_KEY authentication requires api_key_env (variable name only)"
    );
}
