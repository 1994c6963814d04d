//! Provider-owned authentication: which variable a key may come from, which
//! method is used, and what is taken out of provider output.
use crate::error::{invalid, Error};
use crate::json;
use crate::json::{bool_field, parse_json};
use crate::planning::validation;
use crate::planning::validation::unless;
use crate::text;
use vstd::prelude::*;
use vstd::string::*;
use vstd::utf8::*;

verus! {

#[derive(Debug, Clone, Copy, PartialEq, Eq, Structural)]
pub enum AuthMode {
    Auto,
    Native,
    ApiKey,
}

impl Default for AuthMode {
    fn default() -> (r: Self)
        ensures
            r == AuthMode::Auto,
    {
        AuthMode::Auto
    }
}

#[derive(Debug, PartialEq, Eq)]
pub struct Authentication {
    pub mode: AuthMode,
    /// Environment variable name, never its value. Required to opt into API use.
    pub api_key_env: Option<String>,
}

impl Default for Authentication {
    fn default() -> (r: Self)
        ensures
            r.mode == AuthMode::Auto,
            r.api_key_env is None,
    {
        Authentication { mode: AuthMode::Auto, api_key_env: None }
    }
}

/// How a provider is authenticated, if it is.
#[derive(Debug, PartialEq, Eq)]
pub struct AuthStatus {
    pub authenticated: bool,
    pub method: &'static str,
    pub api_key_required: bool,
    pub guidance: String,
}

/// What is particular to one family of providers.
#[derive(Debug, PartialEq, Eq)]
pub struct ProviderProfile {
    /// The name that configuration knows the family by.
    pub adapter: String,
    /// The variable that moves the login directory.
    pub home_variable: String,
    /// The login directory below the home directory, where nothing moves it.
    pub home_directory: String,
    /// The variable a worker receives a key under.
    pub key_variable: String,
    /// Login files below the login directory.
    pub login_files: Vec<String>,
    /// A login file that stands in the home directory until the login
    /// directory is moved, and in the login directory from then on.
    pub home_file: Option<String>,
    /// What an operator is told where no login is found.
    pub guidance: String,
    /// What the program is asked for its login status with.
    pub status_args: Vec<String>,
    /// Where the status is a document, what is said of one that cannot be read.
    /// Otherwise the exit of the program is the status.
    pub unreadable_status: Option<String>,
    /// Whether a worker is always told where the login directory is, or only
    /// where it was moved.
    pub names_home: bool,
}

/// What is particular to the family that `codex` belongs to.
pub open spec fn codex_family(r: ProviderProfile) -> bool {
    &&& r.adapter@ == "codex"@
    &&& r.home_variable@ == "CODEX_HOME"@
    &&& r.home_directory@ == ".codex"@
    &&& r.key_variable@ == "CODEX_API_KEY"@
    &&& text::texts(r.login_files@) == seq!["auth.json"@]
    &&& r.home_file is None
    &&& r.guidance@ == CODEX_GUIDANCE@
    &&& text::texts(r.status_args@) == seq![
        "-c"@,
        "cli_auth_credentials_store=\"auto\""@,
        "login"@,
        "status"@,
    ]
    &&& r.unreadable_status is None
    &&& r.names_home
}

/// What is particular to the family whose login the native keychain may hold.
/// `name` is what its program and its adapter are called, and `title` what people
/// call it.
pub open spec fn keychain_family(r: ProviderProfile, name: Seq<char>, title: Seq<char>) -> bool {
    &&& r.adapter@ == name
    &&& r.home_variable@ == "CLAUDE_CONFIG_DIR"@
    &&& r.home_directory@ == "."@ + name
    &&& r.key_variable@ == "ANTHROPIC_API_KEY"@
    &&& text::texts(r.login_files@) == seq![".credentials.json"@]
    &&& validation::is_text(r.home_file, "."@ + name + ".json"@)
    &&& r.guidance@ == "Run "@ + name + KEYCHAIN_GUIDANCE@
    &&& text::texts(r.status_args@) == seq!["--safe-mode"@, "auth"@, "status"@, "--json"@]
    &&& validation::is_text(
        r.unreadable_status,
        "unsupported "@ + title + " auth status response"@,
    )
    &&& !r.names_home
}

impl ProviderProfile {
    /// The family that `codex` belongs to.
    pub fn codex() -> (r: Self)
        ensures
            codex_family(r),
    {
        let mut status_args: Vec<String> = Vec::new();
        status_args.push("-c".to_owned());
        status_args.push("cli_auth_credentials_store=\"auto\"".to_owned());
        status_args.push("login".to_owned());
        status_args.push("status".to_owned());
        assert(text::texts(status_args@) =~= seq![
            "-c"@,
            "cli_auth_credentials_store=\"auto\""@,
            "login"@,
            "status"@,
        ]);
        let mut login_files: Vec<String> = Vec::new();
        login_files.push("auth.json".to_owned());
        assert(text::texts(login_files@) =~= seq!["auth.json"@]);
        ProviderProfile {
            adapter: "codex".to_owned(),
            home_variable: "CODEX_HOME".to_owned(),
            home_directory: ".codex".to_owned(),
            key_variable: "CODEX_API_KEY".to_owned(),
            login_files,
            home_file: None,
            guidance: CODEX_GUIDANCE.to_owned(),
            status_args,
            unreadable_status: None,
            names_home: true,
        }
    }

    /// The family whose login the native keychain may hold.
    pub fn keychain(name: &str, title: &str) -> (r: Self)
        ensures
            keychain_family(r, name@, title@),
    {
        let mut status_args: Vec<String> = Vec::new();
        status_args.push("--safe-mode".to_owned());
        status_args.push("auth".to_owned());
        status_args.push("status".to_owned());
        status_args.push("--json".to_owned());
        assert(text::texts(status_args@) =~= seq![
            "--safe-mode"@,
            "auth"@,
            "status"@,
            "--json"@,
        ]);
        let mut login_files: Vec<String> = Vec::new();
        login_files.push(".credentials.json".to_owned());
        assert(text::texts(login_files@) =~= seq![".credentials.json"@]);
        ProviderProfile {
            adapter: name.to_owned(),
            home_variable: "CLAUDE_CONFIG_DIR".to_owned(),
            home_directory: text::join2(".", name),
            key_variable: "ANTHROPIC_API_KEY".to_owned(),
            login_files,
            home_file: Some(text::join3(".", name, ".json")),
            guidance: text::join3("Run ", name, KEYCHAIN_GUIDANCE),
            status_args,
            unreadable_status: Some(text::join3("unsupported ", title, " auth status response")),
            names_home: false,
        }
    }

    /// The family that a provider belongs to: `codex` names its own, and every
    /// other name the other one.
    pub fn of(provider: &str, name: &str, title: &str) -> (r: Self)
        ensures
            if provider@ == "codex"@ {
                codex_family(r)
            } else {
                keychain_family(r, name@, title@)
            },
    {
        if text::same(provider, "codex") {
            ProviderProfile::codex()
        } else {
            ProviderProfile::keychain(name, title)
        }
    }
}

/// Where a provider keeps its own login.
#[derive(Debug, PartialEq, Eq)]
pub struct NativeAuth {
    pub provider: String,
    pub home: String,
    pub provider_home: String,
    pub config_override: bool,
}

pub const KEY_NAME_RULE: &'static str =
    "api_key_env must be an environment variable name, not a credential";

pub const KEY_REQUIRED_RULE: &'static str =
    "API_KEY authentication requires api_key_env (variable name only)";

/// A character of an environment variable name.
pub open spec fn is_variable_char(c: char) -> bool {
    ('A' <= c && c <= 'Z') || ('0' <= c && c <= '9') || c == '_'
}

/// Whether a text can be the name of an environment variable.
pub open spec fn is_variable_name(name: Seq<char>) -> bool {
    &&& name.len() > 0
    &&& text::size(name) <= 128
    &&& forall|i: int| 0 <= i < name.len() ==> is_variable_char(#[trigger] name[i])
}

/// Why an authentication setting is not acceptable, if anything.
pub open spec fn authentication_refusal(a: Authentication) -> Option<Seq<char>> {
    if a.api_key_env matches Some(name) && !is_variable_name(name@) {
        Some(KEY_NAME_RULE@)
    } else if a.mode == AuthMode::ApiKey && a.api_key_env is None {
        Some(KEY_REQUIRED_RULE@)
    } else {
        None
    }
}

fn variable_name(name: &str) -> (r: bool)
    ensures
        r == is_variable_name(name@),
{
    if name.is_empty() || text::byte_len(name) > 128 {
        return false;
    }
    let all: Vec<char> = text::chars(name);
    let mut i: usize = 0;
    while i < all.len()
        invariant
            i <= all@.len(),
            all@ == name@,
            forall|j: int| 0 <= j < i ==> is_variable_char(#[trigger] name@[j]),
        decreases all@.len() - i,
    {
        let c: char = all[i];
        if !(('A' <= c && c <= 'Z') || ('0' <= c && c <= '9') || c == '_') {
            assert(!is_variable_char(name@[i as int]));
            return false;
        }
        i += 1;
    }
    true
}

pub const CODEX_GUIDANCE: &'static str =
    "Run codex login with your normal CODEX_HOME, or explicitly configure authentication.api_key_env; API keys are not required for native login.";

pub const KEYCHAIN_GUIDANCE: &'static str =
    " auth login with your normal HOME/CLAUDE_CONFIG_DIR and allow native Keychain access, or explicitly configure authentication.api_key_env.";

/// The status that a setting leads to: a native login comes first where the
/// mode allows it, then an explicitly configured key that is set.
pub open spec fn status_is(
    s: AuthStatus,
    a: Authentication,
    profile: ProviderProfile,
    native_login: bool,
    key_is_set: bool,
) -> bool {
    if a.mode != AuthMode::ApiKey && native_login {
        &&& s.authenticated
        &&& s.method@ == "NATIVE"@
        &&& !s.api_key_required
        &&& s.guidance@ == "provider-native login; fresh worker conversations"@
    } else if a.mode != AuthMode::Native && a.api_key_env is Some && key_is_set {
        &&& s.authenticated
        &&& s.method@ == "API_KEY"@
        &&& s.api_key_required
        &&& s.guidance@ == "explicitly configured API-key environment"@
    } else {
        &&& !s.authenticated
        &&& s.method@ == "UNAVAILABLE"@
        &&& !s.api_key_required
        &&& s.guidance == profile.guidance
    }
}

/// How a worker process is authenticated.
#[derive(Debug)]
pub enum WorkerAuth {
    Native,
    /// The key of the first variable is handed on under the second.
    ApiKey { from: String, to: String },
}

impl Authentication {
    pub fn validate(&self) -> (r: Result<(), Error>)
        ensures
            crate::error::settles(r, authentication_refusal(*self)),
    {
        if let Some(name) = &self.api_key_env {
            if !variable_name(name.as_str()) {
                return invalid(KEY_NAME_RULE);
            }
        }
        if self.mode == AuthMode::ApiKey && self.api_key_env.is_none() {
            return invalid(KEY_REQUIRED_RULE);
        }
        Ok(())
    }

    /// The authentication status, once it is known whether the provider's own
    /// login is present and whether the configured variable is set.
    pub fn preflight(&self, profile: &ProviderProfile, native_login: bool, key_is_set: bool) -> (r: Result<
        AuthStatus,
        Error,
    >)
        ensures
            crate::error::settles(r, authentication_refusal(*self)),
            r matches Ok(s) ==> status_is(s, *self, *profile, native_login, key_is_set),
    {
        match self.validate() {
            Ok(()) => {},
            Err(e) => return Err(e),
        }
        if self.mode != AuthMode::ApiKey && native_login {
            return Ok(
                AuthStatus {
                    authenticated: true,
                    method: "NATIVE",
                    api_key_required: false,
                    guidance: "provider-native login; fresh worker conversations".to_owned(),
                },
            );
        }
        if self.mode != AuthMode::Native && self.api_key_env.is_some() && key_is_set {
            return Ok(
                AuthStatus {
                    authenticated: true,
                    method: "API_KEY",
                    api_key_required: true,
                    guidance: "explicitly configured API-key environment".to_owned(),
                },
            );
        }
        Ok(
            AuthStatus {
                authenticated: false,
                method: "UNAVAILABLE",
                api_key_required: false,
                guidance: profile.guidance.clone(),
            },
        )
    }

    /// How a worker is authenticated; refused with the guidance where it is not.
    pub fn configure(&self, profile: &ProviderProfile, native_login: bool, key_is_set: bool) -> (r: Result<
        WorkerAuth,
        Error,
    >)
        ensures
            match authentication_refusal(*self) {
                Some(m) => crate::error::refused(r, m),
                None => if self.mode != AuthMode::ApiKey && native_login {
                    r matches Ok(WorkerAuth::Native)
                } else if self.mode != AuthMode::Native && self.api_key_env is Some && key_is_set {
                    r matches Ok(WorkerAuth::ApiKey { from, to }) && from == self.api_key_env->0
                        && to == profile.key_variable
                } else {
                    crate::error::refused(r, profile.guidance@)
                },
            },
    {
        let status: AuthStatus = match self.preflight(profile, native_login, key_is_set) {
            Ok(s) => s,
            Err(e) => return Err(e),
        };
        if !status.authenticated {
            return invalid(status.guidance.as_str());
        }
        if !status.api_key_required {
            return Ok(WorkerAuth::Native);
        }
        match &self.api_key_env {
            Some(name) => Ok(
                WorkerAuth::ApiKey {
                    from: name.clone(),
                    to: profile.key_variable.clone(),
                },
            ),
            None => invalid(status.guidance.as_str()),
        }
    }
}

/// A path below a directory.
pub open spec fn below(directory: Seq<char>, name: Seq<char>) -> Seq<char> {
    directory + "/"@ + name
}

/// The login files below a directory, the first `upto` of them.
pub open spec fn files_below(directory: Seq<char>, files: Seq<Seq<char>>, upto: int) -> Seq<
    Seq<char>,
> {
    Seq::new(upto as nat, |i: int| below(directory, files[i]))
}

pub const NEEDS_HOME: &'static str = "native provider authentication requires HOME";

/// What is done to a variable of a process.
#[derive(Debug, PartialEq, Eq)]
pub enum EnvChange {
    Assign { name: String, value: String },
    Remove { name: String },
}

/// A change of a variable, mathematically.
pub enum EnvChangeView {
    Assign(Seq<char>, Seq<char>),
    Remove(Seq<char>),
}

impl View for EnvChange {
    type V = EnvChangeView;

    open spec fn view(&self) -> EnvChangeView {
        match *self {
            EnvChange::Assign { name, value } => EnvChangeView::Assign(name@, value@),
            EnvChange::Remove { name } => EnvChangeView::Remove(name@),
        }
    }
}

/// A variable that is handed on where it is set.
pub open spec fn handed_on(name: Seq<char>, value: Option<String>) -> Seq<EnvChangeView> {
    match value {
        Some(v) => seq![EnvChangeView::Assign(name, v@)],
        None => Seq::empty(),
    }
}

/// What a process of a provider is told about its login.
pub open spec fn login_environment(
    auth: NativeAuth,
    profile: ProviderProfile,
    user: Option<String>,
    logname: Option<String>,
) -> Seq<EnvChangeView> {
    seq![EnvChangeView::Assign("HOME"@, auth.home@)] + handed_on("USER"@, user) + handed_on(
        "LOGNAME"@,
        logname,
    ) + seq![
        if profile.names_home || auth.config_override {
            EnvChangeView::Assign(profile.home_variable@, auth.provider_home@)
        } else {
            EnvChangeView::Remove(profile.home_variable@)
        },
    ]
}

pub open spec fn change_views(v: Seq<EnvChange>) -> Seq<EnvChangeView> {
    v.map_values(|c: EnvChange| c@)
}

fn change(out: &mut Vec<EnvChange>, one: EnvChange)
    ensures
        change_views(final(out)@) == change_views(old(out)@).push(one@),
{
    let ghost before = change_views(out@);
    out.push(one);
    assert(change_views(out@) =~= before.push(one@));
}

fn hand_on(out: &mut Vec<EnvChange>, name: &str, value: &Option<String>)
    ensures
        change_views(final(out)@) == change_views(old(out)@) + handed_on(name@, *value),
{
    let ghost before = change_views(out@);
    match value {
        Some(v) => {
            change(out, EnvChange::Assign { name: name.to_owned(), value: v.clone() });
            assert(change_views(out@) =~= before + handed_on(name@, *value));
        },
        None => {
            assert(change_views(out@) =~= before + handed_on(name@, *value));
        },
    }
}

impl NativeAuth {
    /// Finds the login of a provider, which keeps the name that it is given. Its
    /// family is told by the profile. The two rules are what the path rule of the
    /// machine has against the home and against the login directory.
    pub fn discover(
        provider: &str,
        profile: &ProviderProfile,
        home: Option<String>,
        moved: Option<String>,
        home_rule: &Option<String>,
        login_rule: &Option<String>,
    ) -> (r: Result<Self, Error>)
        ensures
            crate::error::settles(
                r,
                if home is None {
                    Some(NEEDS_HOME@)
                } else {
                    crate::error::either(
                        validation::message(*home_rule),
                        validation::message(*login_rule),
                    )
                },
            ),
            r matches Ok(a) ==> a.provider@ == provider@ && Some(a.home) == home
                && a.config_override == (moved is Some) && a.provider_home@ == match moved {
                Some(m) => m@,
                None => below(a.home@, profile.home_directory@),
            },
    {
        let home: String = match home {
            Some(h) => h,
            None => return invalid(NEEDS_HOME),
        };
        match unless(home_rule) {
            Ok(()) => {},
            Err(e) => return Err(e),
        }
        match unless(login_rule) {
            Ok(()) => {},
            Err(e) => return Err(e),
        }
        Ok(NativeAuth::located(provider, profile, home, moved))
    }

    /// What a process of the provider is told about its login. `user` and
    /// `logname` are the login identity, where the machine knows it.
    pub fn environment(
        &self,
        profile: &ProviderProfile,
        user: &Option<String>,
        logname: &Option<String>,
    ) -> (r: Vec<EnvChange>)
        ensures
            change_views(r@) == login_environment(*self, *profile, *user, *logname),
    {
        let mut out: Vec<EnvChange> = Vec::new();
        assert(change_views(out@) =~= Seq::<EnvChangeView>::empty());
        change(&mut out, EnvChange::Assign { name: "HOME".to_owned(), value: self.home.clone() });
        assert(change_views(out@) =~= seq![EnvChangeView::Assign("HOME"@, self.home@)]);
        hand_on(&mut out, "USER", user);
        hand_on(&mut out, "LOGNAME", logname);
        let ghost before = change_views(out@);
        if profile.names_home || self.config_override {
            change(
                &mut out,
                EnvChange::Assign {
                    name: profile.home_variable.clone(),
                    value: self.provider_home.clone(),
                },
            );
            assert(change_views(out@) =~= before + seq![
                EnvChangeView::Assign(profile.home_variable@, self.provider_home@),
            ]);
        } else {
            change(&mut out, EnvChange::Remove { name: profile.home_variable.clone() });
            assert(change_views(out@) =~= before + seq![
                EnvChangeView::Remove(profile.home_variable@),
            ]);
        }
        out
    }

    /// Where a provider keeps its login: the directory its variable names, or
    /// its own directory below the home directory.
    pub fn located(
        provider: &str,
        profile: &ProviderProfile,
        home: String,
        moved: Option<String>,
    ) -> (r: Self)
        ensures
            r.provider@ == provider@,
            r.home == home,
            r.config_override == (moved is Some),
            match moved {
                Some(m) => r.provider_home == m,
                None => r.provider_home@ == below(home@, profile.home_directory@),
            },
    {
        let config_override: bool = moved.is_some();
        let provider_home: String = match moved {
            Some(m) => m,
            None => text::join3(home.as_str(), "/", profile.home_directory.as_str()),
        };
        NativeAuth { provider: provider.to_owned(), home, provider_home, config_override }
    }

    /// The login files a sandboxed worker may read.
    pub fn readable_files(&self, profile: &ProviderProfile) -> (r: Vec<String>)
        ensures
            text::texts(r@) == files_below(
                self.provider_home@,
                text::texts(profile.login_files@),
                profile.login_files@.len() as int,
            ) + match profile.home_file {
                Some(f) => seq![
                    below(
                        if self.config_override {
                            self.provider_home@
                        } else {
                            self.home@
                        },
                        f@,
                    ),
                ],
                None => Seq::empty(),
            },
    {
        let mut out: Vec<String> = Vec::new();
        let ghost files = text::texts(profile.login_files@);
        let mut i: usize = 0;
        assert(text::texts(out@) =~= files_below(self.provider_home@, files, 0));
        while i < profile.login_files.len()
            invariant
                files == text::texts(profile.login_files@),
                i <= profile.login_files@.len(),
                text::texts(out@) == files_below(self.provider_home@, files, i as int),
            decreases profile.login_files@.len() - i,
        {
            let ghost before = out@;
            out.push(
                text::join3(self.provider_home.as_str(), "/", profile.login_files[i].as_str()),
            );
            assert(text::texts(out@) =~= text::texts(before).push(out@.last()@));
            assert(text::texts(out@) =~= files_below(self.provider_home@, files, i + 1));
            i += 1;
        }
        let ghost before = out@;
        match &profile.home_file {
            Some(f) => {
                let base: &str = if self.config_override {
                    self.provider_home.as_str()
                } else {
                    self.home.as_str()
                };
                out.push(text::join3(base, "/", f.as_str()));
                assert(text::texts(out@) =~= text::texts(before) + seq![below(base@, f@)]);
            },
            None => {
                assert(text::texts(out@) =~= text::texts(before) + Seq::<Seq<char>>::empty());
            },
        }
        out
    }
}

// ---------------------------------------------------------------------------
// Login status
// ---------------------------------------------------------------------------

/// The longest status document that is read, in bytes.
pub const MAX_STATUS_BYTES: usize = 8192;

pub const STATUS_BOUND: &'static str = "provider auth status exceeded its bound";

pub const STATUS_TIMEOUT: &'static str = "provider auth status timed out; no model was invoked";

pub const STATUS_START: &'static str =
    "provider authentication probe could not start; check executable";

/// What a status document says: whether it is logged in, if it says so, or that
/// it cannot be read.
pub open spec fn document_says(bytes: Seq<u8>) -> Result<Option<bool>, ()> {
    match json::json_of(bytes) {
        Ok(v) => Ok(json::field_bool(v, "loggedIn"@)),
        Err(_) => Err(()),
    }
}

/// Whether a provider is logged in, or why that is not known: from the exit of
/// the program that was asked and from the document that it wrote.
pub open spec fn login_of(
    profile: ProviderProfile,
    success: bool,
    size: nat,
    document: Result<Option<bool>, ()>,
) -> Result<bool, Seq<char>> {
    if !success {
        Ok(false)
    } else {
        match profile.unreadable_status {
            None => Ok(true),
            Some(m) => if size > MAX_STATUS_BYTES {
                Err(STATUS_BOUND@)
            } else {
                match document {
                    Ok(said) => Ok(said == Some(true)),
                    Err(_) => Err(m@),
                }
            },
        }
    }
}

/// Whether a provider is logged in, given what its document says.
pub fn read_login(
    profile: &ProviderProfile,
    success: bool,
    size: usize,
    document: &Result<Option<bool>, ()>,
) -> (r: Result<bool, Error>)
    ensures
        match login_of(*profile, success, size as nat, *document) {
            Ok(b) => r == Ok::<bool, Error>(b),
            Err(m) => crate::error::refused(r, m),
        },
{
    if !success {
        return Ok(false);
    }
    match &profile.unreadable_status {
        None => Ok(true),
        Some(m) => {
            if size > MAX_STATUS_BYTES {
                return invalid(STATUS_BOUND);
            }
            match document {
                Ok(said) => match said {
                    Some(b) => Ok(*b),
                    None => Ok(false),
                },
                Err(_) => invalid(m.as_str()),
            }
        },
    }
}

/// Whether a provider is logged in: from the exit of the program that was asked
/// and from what it wrote.
pub fn native_status(profile: &ProviderProfile, success: bool, output: &Vec<u8>) -> (r: Result<
    bool,
    Error,
>)
    ensures
        match login_of(*profile, success, output@.len(), document_says(output@)) {
            Ok(b) => r == Ok::<bool, Error>(b),
            Err(m) => crate::error::refused(r, m),
        },
{
    let document: Result<Option<bool>, ()> = match parse_json(output.as_slice()) {
        Ok(v) => Ok(bool_field(&v, "loggedIn")),
        Err(_) => Err(()),
    };
    read_login(profile, success, output.len(), &document)
}

// ---------------------------------------------------------------------------
// Redaction
// ---------------------------------------------------------------------------

/// Characters that end a word of provider output.
pub open spec fn ends_word(c: char) -> bool {
    text::is_space(c) || c == '"' || c == '\'' || c == '\\' || c == ',' || c == '}'
}

/// Whether a word, with the character that ends it, could hold a credential.
pub open spec fn suspicious(word: Seq<char>) -> bool {
    text::occurs(word, "sk-"@) || (text::occurs(word, "eyJ"@) && text::size(word) > 24)
}

/// Text with every suspicious word replaced; `word` is what has been read of
/// the current word.
pub open spec fn redacted_from(word: Seq<char>, rest: Seq<char>) -> Seq<char>
    decreases rest.len(),
{
    if rest.len() == 0 {
        if word.len() == 0 {
            Seq::empty()
        } else {
            shown_word(word)
        }
    } else {
        let longer = word.push(rest[0]);
        if ends_word(rest[0]) {
            shown_word(longer) + redacted_from(Seq::empty(), rest.drop_first())
        } else {
            redacted_from(longer, rest.drop_first())
        }
    }
}

/// What is shown of one word.
pub open spec fn shown_word(word: Seq<char>) -> Seq<char> {
    if suspicious(word) {
        "[REDACTED]"@
    } else {
        word
    }
}

/// Text with every suspicious word replaced.
pub open spec fn redacted(s: Seq<char>) -> Seq<char> {
    redacted_from(Seq::empty(), s)
}

fn word_end(c: char) -> (r: bool)
    ensures
        r == ends_word(c),
{
    text::space(c) || c == '"' || c == '\'' || c == '\\' || c == ',' || c == '}'
}

fn show_word(word: &str) -> (r: String)
    ensures
        r@ == shown_word(word@),
{
    if text::contains(word, "sk-") || (text::contains(word, "eyJ") && text::byte_len(word) > 24) {
        "[REDACTED]".to_owned()
    } else {
        word.to_owned()
    }
}

/// The text that bytes are read as, with what is not UTF-8 replaced.
pub uninterp spec fn lossy(bytes: Seq<u8>) -> Seq<char>;

/// `String::from_utf8_lossy` of the standard library: the text the bytes encode
/// where they are UTF-8. What it puts in place of other bytes is left open.
#[verifier::external_body]
pub(crate) fn lossy_text(bytes: &[u8]) -> (r: String)
    ensures
        r@ == lossy(bytes@),
        valid_utf8(bytes@) ==> r@ == decode_utf8(bytes@),
{
    String::from_utf8_lossy(bytes).into_owned()
}

/// Provider output with every suspicious word replaced.
pub fn redact(bytes: &[u8]) -> (r: Vec<u8>)
    ensures
        r@ == encode_utf8(redacted(lossy(bytes@))),
        valid_utf8(bytes@) ==> r@ == encode_utf8(redacted(decode_utf8(bytes@))),
{
    let shown: String = lossy_text(bytes);
    let clean: String = redact_text(shown.as_str());
    clean.as_str().as_bytes_vec()
}

/// Defense in depth for provider output; no credential files are inspected.
pub fn redact_text(s: &str) -> (r: String)
    ensures
        r@ == redacted(s@),
{
    let all: Vec<char> = text::chars(s);
    let mut out: String = String::new();
    let mut start: usize = 0;
    let mut i: usize = 0;
    proof {
        assert(s@.subrange(0, 0) =~= Seq::<char>::empty());
        assert(s@.skip(0) =~= s@);
        assert(out@ + redacted_from(s@.subrange(0, 0), s@.skip(0)) =~= redacted(s@));
    }
    while i < all.len()
        invariant
            all@ == s@,
            start <= i <= all@.len(),
            out@ + redacted_from(s@.subrange(start as int, i as int), s@.skip(i as int)) == redacted(s@),
        decreases all@.len() - i,
    {
        let ghost word = s@.subrange(start as int, i as int);
        let ghost rest = s@.skip(i as int);
        proof {
            assert(rest[0] == s@[i as int]);
            assert(rest.drop_first() =~= s@.skip(i + 1));
            assert(word.push(rest[0]) =~= s@.subrange(start as int, i + 1));
        }
        if word_end(all[i]) {
            let piece: &str = s.substring_char(start, i + 1);
            let shown: String = show_word(piece);
            let ghost before = out@;
            out.append(shown.as_str());
            start = i + 1;
            proof {
                assert(s@.subrange(i + 1, i + 1) =~= Seq::<char>::empty());
                let tail = redacted_from(Seq::<char>::empty(), s@.skip(i + 1));
                assert(before + (shown_word(word.push(rest[0])) + tail) =~= out@ + tail);
            }
        }
        i += 1;
    }
    let ghost word = s@.subrange(start as int, i as int);
    assert(s@.skip(i as int) =~= Seq::<char>::empty());
    if start < all.len() {
        let piece: &str = s.substring_char(start, all.len());
        let shown: String = show_word(piece);
        out.append(shown.as_str());
    } else {
        assert(out@ + Seq::<char>::empty() =~= out@);
    }
    out
}

proof fn lemma_occurs_in_part(whole: Seq<char>, lo: int, hi: int, part: Seq<char>)
    requires
        0 <= lo <= hi <= whole.len(),
        text::occurs(whole.subrange(lo, hi), part),
    ensures
        text::occurs(whole, part),
{
    let w = whole.subrange(lo, hi);
    let at = choose|at: int| #[trigger] text::occurs_at(w, part, at);
    assert(whole.subrange(lo + at, lo + at + part.len()) =~= w.subrange(at, at + part.len()));
    assert(text::occurs_at(whole, part, lo + at));
}

proof fn lemma_clean_words(whole: Seq<char>, start: int, i: int)
    requires
        0 <= start <= i <= whole.len(),
        !text::occurs(whole, "sk-"@),
        !text::occurs(whole, "eyJ"@),
    ensures
        redacted_from(whole.subrange(start, i), whole.skip(i)) == whole.skip(start),
    decreases whole.len() - i,
{
    let word = whole.subrange(start, i);
    let rest = whole.skip(i);
    if rest.len() == 0 {
        assert(word =~= whole.skip(start));
        if text::occurs(word, "sk-"@) {
            lemma_occurs_in_part(whole, start, i, "sk-"@);
        }
        if text::occurs(word, "eyJ"@) {
            lemma_occurs_in_part(whole, start, i, "eyJ"@);
        }
    } else {
        let longer = whole.subrange(start, i + 1);
        assert(word.push(rest[0]) =~= longer);
        assert(rest.drop_first() =~= whole.skip(i + 1));
        if ends_word(rest[0]) {
            if text::occurs(longer, "sk-"@) {
                lemma_occurs_in_part(whole, start, i + 1, "sk-"@);
            }
            if text::occurs(longer, "eyJ"@) {
                lemma_occurs_in_part(whole, start, i + 1, "eyJ"@);
            }
            lemma_clean_words(whole, i + 1, i + 1);
            assert(whole.subrange(i + 1, i + 1) =~= Seq::<char>::empty());
            assert(longer + whole.skip(i + 1) =~= whole.skip(start));
        } else {
            lemma_clean_words(whole, start, i + 1);
        }
    }
}

/// Text in which nothing looks like a credential is left as it is.
pub proof fn law_clean_text_is_left_alone(s: Seq<char>)
    requires
        !text::occurs(s, "sk-"@),
        !text::occurs(s, "eyJ"@),
    ensures
        redacted(s) == s,
{
    lemma_clean_words(s, 0, 0);
    assert(s.subrange(0, 0) =~= Seq::<char>::empty());
    assert(s.skip(0) =~= s);
}

proof fn lemma_no_key_in(word: Seq<char>, rest: Seq<char>)
    ensures
        !text::occurs(redacted_from(word, rest), "sk-"@),
    decreases rest.len(),
{
    reveal_strlit("sk-");
    reveal_strlit("[REDACTED]");
    let out = redacted_from(word, rest);
    if text::occurs(out, "sk-"@) {
        let at = choose|at: int| #[trigger] text::occurs_at(out, "sk-"@, at);
        let found = out.subrange(at, at + 3);
        assert(found[0] == out[at] && found[1] == out[at + 1] && found[2] == out[at + 2]);
        assert(out[at] == 's' && out[at + 1] == 'k' && out[at + 2] == '-');
        if rest.len() == 0 {
            if word.len() > 0 {
                if suspicious(word) {
                    assert(out == "[REDACTED]"@);
                } else {
                    assert(text::occurs(word, "sk-"@));
                }
            }
        } else if ends_word(rest[0]) {
            let longer = word.push(rest[0]);
            let piece = shown_word(longer);
            let tail = redacted_from(Seq::empty(), rest.drop_first());
            lemma_no_key_in(Seq::empty(), rest.drop_first());
            let n = piece.len() as int;
            if at >= n {
                assert(tail.subrange(at - n, at - n + 3) =~= found);
                assert(text::occurs_at(tail, "sk-"@, at - n));
            } else if at + 3 <= n {
                if suspicious(longer) {
                    assert(piece[at] == 's');
                } else {
                    assert(longer.subrange(at, at + 3) =~= found);
                    assert(text::occurs_at(longer, "sk-"@, at));
                }
            } else {
                assert(piece.last() == out[n - 1]);
                assert(piece.last() == 's' || piece.last() == 'k');
                if suspicious(longer) {
                    assert(piece.last() == ']');
                } else {
                    assert(piece.last() == rest[0]);
                }
            }
        } else {
            lemma_no_key_in(word.push(rest[0]), rest.drop_first());
        }
    }
}

/// No key in the form `sk-...` survives redaction, wherever it stood.
pub proof fn law_no_key_survives_redaction(s: Seq<char>)
    ensures
        !text::occurs(redacted(s), "sk-"@),
{
    lemma_no_key_in(Seq::empty(), s);
}

} // verus!
