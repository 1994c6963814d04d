//! Machine-owned runtime configuration and the bounds it must stay inside.
use crate::error::{invalid, Error};
use crate::protocol::AgentRole;
use crate::runtime::credentials::Authentication;
use crate::text;
use vstd::prelude::*;
use vstd::string::*;

verus! {

#[derive(Debug, PartialEq, Eq)]
pub struct RoleConfig {
    pub provider: String,
    pub model: Option<String>,
    pub effort: Option<String>,
}

#[derive(Debug, PartialEq, Eq)]
pub struct ProviderConfig {
    pub adapter: String,
    pub executable: String,
    pub authentication: Authentication,
}

/// Relaunches spent on one task whose launch provably mutated nothing
/// (controller crash, provider timeout, unusable reply). Machine-owned: it
/// exists so that a transient failure does not end a plan.
pub const MAX_EXECUTOR_RELAUNCHES: u32 = 2;

/// Fresh provider jobs that one invocation may spend on a mechanically
/// unusable exchange.
pub const MAX_PROVIDER_RETRIES: u32 = 2;

/// Fresh planner jobs issued after a planner decision is refused for a
/// planner-contract rule.
pub const MAX_PLAN_CORRECTIONS: u32 = 1;

pub const HARD_MAX_CONTEXT_ROUNDS: u32 = 4;

pub const HARD_MAX_VERIFIER_CONTEXT_ROUNDS: u32 = 2;

pub const HARD_MAX_CONTEXT_ROUND_BYTES: u32 = 32768;

pub const HARD_MAX_CONTEXT_TASK_BYTES: u32 = 98304;

pub const HARD_MAX_CONTEXT_ESCALATIONS: u32 = 2;

/// Ceiling on simultaneously active runtime agent jobs of every role.
#[derive(Debug, Clone, Copy, PartialEq, Eq, Structural)]
pub struct ConcurrencyConfig {
    pub max_agents: usize,
}

impl Default for ConcurrencyConfig {
    fn default() -> (r: Self)
        ensures
            r.max_agents == 4,
            concurrency_refusal(r) is None,
    {
        ConcurrencyConfig { max_agents: 4 }
    }
}

pub const MAX_AGENTS_RULE: &'static str =
    "runtime.concurrency.max_agents must be between 1 and 256 inclusive";

/// Why a concurrency ceiling is not acceptable, if anything.
pub open spec fn concurrency_refusal(c: ConcurrencyConfig) -> Option<Seq<char>> {
    if 1 <= c.max_agents <= 256 {
        None
    } else {
        Some(MAX_AGENTS_RULE@)
    }
}

impl ConcurrencyConfig {
    pub fn validate(&self) -> (r: Result<(), Error>)
        ensures
            crate::error::settles(r, concurrency_refusal(*self)),
    {
        if 1 <= self.max_agents && self.max_agents <= 256 {
            Ok(())
        } else {
            invalid(MAX_AGENTS_RULE)
        }
    }
}

/// What repository content a provider job can read.
#[derive(Debug, Clone, Copy, PartialEq, Eq, Structural)]
pub enum ContextVisibility {
    /// The whole workspace is readable.
    Workspace,
    /// Executor and verifier jobs read only the repository files actually
    /// issued to them.
    Issued,
}

impl Default for ContextVisibility {
    fn default() -> (r: Self)
        ensures
            r == ContextVisibility::Workspace,
    {
        ContextVisibility::Workspace
    }
}

/// Machine-owned budgets of the planner-mediated context relay.
#[derive(Debug, Clone, Copy, PartialEq, Eq, Structural)]
pub struct ContextConfig {
    /// Granted context rounds per executor task (fresh re-issues).
    pub max_rounds: u32,
    /// Granted context rounds per verification (packet or integration).
    pub verifier_max_rounds: u32,
    /// Bytes that one round may carry.
    pub max_round_bytes: u32,
    /// Cumulative bytes per task or verification.
    pub max_task_bytes: u32,
    /// Planner escalations per executor task.
    pub max_escalations: u32,
    pub visibility: ContextVisibility,
}

impl Default for ContextConfig {
    fn default() -> (r: Self)
        ensures
            r == (ContextConfig {
                max_rounds: 2,
                verifier_max_rounds: 1,
                max_round_bytes: 16384,
                max_task_bytes: 49152,
                max_escalations: 1,
                visibility: ContextVisibility::Workspace,
            }),
            context_refusal(r) is None,
    {
        ContextConfig {
            max_rounds: 2,
            verifier_max_rounds: 1,
            max_round_bytes: 16384,
            max_task_bytes: 49152,
            max_escalations: 1,
            visibility: ContextVisibility::Workspace,
        }
    }
}

pub const CONTEXT_ROUNDS_RULE: &'static str =
    "runtime.context: max_rounds 0–4, verifier_max_rounds 0–2, max_escalations 0–2";

pub const CONTEXT_BYTES_RULE: &'static str =
    "runtime.context: max_round_bytes 1024–32768, max_task_bytes 1024–98304, round ≤ task";

/// Why relay budgets are not acceptable, if anything.
pub open spec fn context_refusal(c: ContextConfig) -> Option<Seq<char>> {
    if !(c.max_rounds <= HARD_MAX_CONTEXT_ROUNDS && c.verifier_max_rounds
        <= HARD_MAX_VERIFIER_CONTEXT_ROUNDS && c.max_escalations <= HARD_MAX_CONTEXT_ESCALATIONS) {
        Some(CONTEXT_ROUNDS_RULE@)
    } else if !(1024 <= c.max_round_bytes <= HARD_MAX_CONTEXT_ROUND_BYTES && 1024 <= c.max_task_bytes
        <= HARD_MAX_CONTEXT_TASK_BYTES && c.max_round_bytes <= c.max_task_bytes) {
        Some(CONTEXT_BYTES_RULE@)
    } else {
        None
    }
}

impl ContextConfig {
    pub fn validate(&self) -> (r: Result<(), Error>)
        ensures
            crate::error::settles(r, context_refusal(*self)),
    {
        if !(self.max_rounds <= HARD_MAX_CONTEXT_ROUNDS && self.verifier_max_rounds
            <= HARD_MAX_VERIFIER_CONTEXT_ROUNDS && self.max_escalations
            <= HARD_MAX_CONTEXT_ESCALATIONS) {
            return invalid(CONTEXT_ROUNDS_RULE);
        }
        if !(1024 <= self.max_round_bytes && self.max_round_bytes <= HARD_MAX_CONTEXT_ROUND_BYTES
            && 1024 <= self.max_task_bytes && self.max_task_bytes <= HARD_MAX_CONTEXT_TASK_BYTES
            && self.max_round_bytes <= self.max_task_bytes) {
            return invalid(CONTEXT_BYTES_RULE);
        }
        Ok(())
    }
}

/// A provider under the name that roles refer to it by.
#[derive(Debug, PartialEq, Eq)]
pub struct NamedProvider {
    pub name: String,
    pub config: ProviderConfig,
}

/// A role and the provider it runs on.
#[derive(Debug, PartialEq, Eq)]
pub struct NamedRole {
    pub name: String,
    pub config: RoleConfig,
}

/// The runtime section of the machine configuration. Providers and roles are
/// kept in order of their names.
#[derive(Debug, PartialEq, Eq)]
pub struct RuntimeConfig {
    pub providers: Vec<NamedProvider>,
    pub roles: Vec<NamedRole>,
    pub timeout_ms: u64,
    pub max_correction_rounds: u32,
    pub concurrency: ConcurrencyConfig,
    pub context: ContextConfig,
}

impl Default for RuntimeConfig {
    fn default() -> (r: Self)
        ensures
            r.providers@.len() == 0,
            r.roles@.len() == 0,
            r.timeout_ms == 600_000,
            r.max_correction_rounds == 2,
            r.concurrency.max_agents == 4,
            r.context == (ContextConfig {
                max_rounds: 2,
                verifier_max_rounds: 1,
                max_round_bytes: 16384,
                max_task_bytes: 49152,
                max_escalations: 1,
                visibility: ContextVisibility::Workspace,
            }),
            context_refusal(r.context) is None,
    {
        RuntimeConfig {
            providers: Vec::new(),
            roles: Vec::new(),
            timeout_ms: 600_000,
            max_correction_rounds: 2,
            concurrency: ConcurrencyConfig::default(),
            context: ContextConfig::default(),
        }
    }
}

pub const TIMEOUT_RULE: &'static str = "runtime timeout must be 1–3600000 ms";

pub const CORRECTION_RULE: &'static str =
    "runtime correction limit must be 0–2; escalation is mandatory thereafter";

pub const ADAPTER_RULE: &'static str = "unknown provider adapter";

pub const MAPPING_RULE: &'static str = "invalid runtime role/provider mapping";

pub const OPAQUE_RULE: &'static str = "invalid opaque model/effort";

/// What other rules of the machine say of a configuration: the routing
/// profiles, the worker security section, and per provider its name and its
/// executable path. Nothing where a rule has no objection. Beside them the name
/// that the keychain family of providers is configured under.
#[derive(Debug)]
pub struct ConfigFacts {
    pub keychain_adapter: String,
    pub profiles: Option<String>,
    pub security: Option<String>,
    pub provider_names: Vec<Option<String>>,
    pub executables: Vec<Option<String>>,
    pub known_roles: Vec<bool>,
}

/// Whether a name is that of a provider family which can be launched.
pub open spec fn is_adapter(name: Seq<char>, keychain: Seq<char>) -> bool {
    name == "codex"@ || name == keychain
}

/// Whether a name is that of a provider family which can be launched.
pub fn known_adapter(name: &str, keychain: &str) -> (r: bool)
    ensures
        r == is_adapter(name@, keychain@),
{
    text::same(name, "codex") || text::same(name, keychain)
}

/// The refusal at a position, if there is one.
pub open spec fn fact_at(facts: Seq<Option<String>>, i: int) -> Option<Seq<char>> {
    if 0 <= i < facts.len() {
        match facts[i] {
            Some(m) => Some(m@),
            None => None,
        }
    } else {
        None
    }
}

/// Why the providers from the `i`-th on are not acceptable, if anything.
pub open spec fn providers_refusal(
    providers: Seq<NamedProvider>,
    facts: ConfigFacts,
    i: int,
) -> Option<Seq<char>>
    decreases providers.len() - i,
{
    if i < 0 || i >= providers.len() {
        None
    } else {
        let p = providers[i].config;
        crate::error::either(
            crate::runtime::credentials::authentication_refusal(p.authentication),
            crate::error::either(
                fact_at(facts.provider_names@, i),
                crate::error::either(
                    fact_at(facts.executables@, i),
                    if is_adapter(p.adapter@, facts.keychain_adapter@) {
                        providers_refusal(providers, facts, i + 1)
                    } else {
                        Some(ADAPTER_RULE@)
                    },
                ),
            ),
        )
    }
}

/// Whether a provider of this name is configured.
pub open spec fn has_provider(providers: Seq<NamedProvider>, name: Seq<char>) -> bool {
    exists|i: int| 0 <= i < providers.len() && (#[trigger] providers[i]).name@ == name
}

/// Whether an optional model or effort can be handed on as it is.
pub open spec fn opaque_ok(value: Option<String>) -> bool {
    value matches Some(v) ==> v@.len() > 0 && text::size(v@) <= 128 && !v@.contains('\0')
        && !v@.contains('\n') && !v@.contains('\r')
}

/// Why the roles from the `i`-th on are not acceptable, if anything.
pub open spec fn roles_refusal(
    roles: Seq<NamedRole>,
    providers: Seq<NamedProvider>,
    known: Seq<bool>,
    i: int,
) -> Option<Seq<char>>
    decreases roles.len() - i,
{
    if i < 0 || i >= roles.len() {
        None
    } else if !(known[i] && has_provider(providers, roles[i].config.provider@)) {
        Some(MAPPING_RULE@)
    } else if !(opaque_ok(roles[i].config.model) && opaque_ok(roles[i].config.effort)) {
        Some(OPAQUE_RULE@)
    } else {
        roles_refusal(roles, providers, known, i + 1)
    }
}

/// Why a runtime configuration is not acceptable, if anything.
pub open spec fn config_refusal(c: RuntimeConfig, facts: ConfigFacts) -> Option<Seq<char>> {
    crate::error::either(
        match facts.profiles {
            Some(m) => Some(m@),
            None => None,
        },
        crate::error::either(
            concurrency_refusal(c.concurrency),
            crate::error::either(
                match facts.security {
                    Some(m) => Some(m@),
                    None => None,
                },
                crate::error::either(
                    context_refusal(c.context),
                    if !(1 <= c.timeout_ms <= 3_600_000) {
                        Some(TIMEOUT_RULE@)
                    } else if !(c.max_correction_rounds <= 2) {
                        Some(CORRECTION_RULE@)
                    } else {
                        crate::error::either(
                            providers_refusal(c.providers@, facts, 0),
                            roles_refusal(c.roles@, c.providers@, facts.known_roles@, 0),
                        )
                    },
                ),
            ),
        ),
    )
}

fn opaque(value: &Option<String>) -> (r: bool)
    ensures
        r == opaque_ok(*value),
{
    match value {
        Some(v) => !v.as_str().is_empty() && text::byte_len(v.as_str()) <= 128 && !text::has_char(
            v.as_str(),
            '\0',
        ) && !text::has_char(v.as_str(), '\n') && !text::has_char(v.as_str(), '\r'),
        None => true,
    }
}

impl RuntimeConfig {
    fn configured(&self, name: &str) -> (r: bool)
        ensures
            r == has_provider(self.providers@, name@),
    {
        let mut i: usize = 0;
        while i < self.providers.len()
            invariant
                i <= self.providers@.len(),
                forall|j: int| 0 <= j < i ==> (#[trigger] self.providers@[j]).name@ != name@,
            decreases self.providers@.len() - i,
        {
            if text::same(self.providers[i].name.as_str(), name) {
                return true;
            }
            i += 1;
        }
        false
    }

    fn validate_providers(&self, facts: &ConfigFacts) -> (r: Result<(), Error>)
        requires
            facts.provider_names@.len() == self.providers@.len(),
            facts.executables@.len() == self.providers@.len(),
        ensures
            crate::error::settles(r, providers_refusal(self.providers@, *facts, 0)),
    {
        let mut i: usize = 0;
        while i < self.providers.len()
            invariant
                i <= self.providers@.len(),
                facts.provider_names@.len() == self.providers@.len(),
                facts.executables@.len() == self.providers@.len(),
                providers_refusal(self.providers@, *facts, 0) == providers_refusal(
                    self.providers@,
                    *facts,
                    i as int,
                ),
            decreases self.providers@.len() - i,
        {
            let p: &ProviderConfig = &self.providers[i].config;
            match p.authentication.validate() {
                Ok(()) => {},
                Err(e) => return Err(e),
            }
            if let Some(m) = &facts.provider_names[i] {
                return invalid(m.as_str());
            }
            if let Some(m) = &facts.executables[i] {
                return invalid(m.as_str());
            }
            if !known_adapter(p.adapter.as_str(), facts.keychain_adapter.as_str()) {
                return invalid(ADAPTER_RULE);
            }
            i += 1;
        }
        Ok(())
    }

    fn validate_roles(&self, known: &Vec<bool>) -> (r: Result<(), Error>)
        requires
            known@.len() == self.roles@.len(),
        ensures
            crate::error::settles(r, roles_refusal(self.roles@, self.providers@, known@, 0)),
    {
        let mut i: usize = 0;
        while i < self.roles.len()
            invariant
                i <= self.roles@.len(),
                known@.len() == self.roles@.len(),
                roles_refusal(self.roles@, self.providers@, known@, 0) == roles_refusal(
                    self.roles@,
                    self.providers@,
                    known@,
                    i as int,
                ),
            decreases self.roles@.len() - i,
        {
            let role: &RoleConfig = &self.roles[i].config;
            if !(known[i] && self.configured(role.provider.as_str())) {
                return invalid(MAPPING_RULE);
            }
            if !(opaque(&role.model) && opaque(&role.effort)) {
                return invalid(OPAQUE_RULE);
            }
            i += 1;
        }
        Ok(())
    }

    pub fn validate(&self, facts: &ConfigFacts) -> (r: Result<(), Error>)
        requires
            facts.provider_names@.len() == self.providers@.len(),
            facts.executables@.len() == self.providers@.len(),
            facts.known_roles@.len() == self.roles@.len(),
        ensures
            crate::error::settles(r, config_refusal(*self, *facts)),
    {
        if let Some(m) = &facts.profiles {
            return invalid(m.as_str());
        }
        match self.concurrency.validate() {
            Ok(()) => {},
            Err(e) => return Err(e),
        }
        if let Some(m) = &facts.security {
            return invalid(m.as_str());
        }
        match self.context.validate() {
            Ok(()) => {},
            Err(e) => return Err(e),
        }
        if !(1 <= self.timeout_ms && self.timeout_ms <= 3_600_000) {
            return invalid(TIMEOUT_RULE);
        }
        if !(self.max_correction_rounds <= 2) {
            return invalid(CORRECTION_RULE);
        }
        match self.validate_providers(facts) {
            Ok(()) => {},
            Err(e) => return Err(e),
        }
        self.validate_roles(&facts.known_roles)
    }

    /// The concurrent-agent ceiling in effect for a project: the machine value,
    /// optionally lowered by project policy, never raised by it.
    pub fn effective_max_agents(&self, project_max_agents: Option<usize>) -> (r: usize)
        ensures
            r <= self.concurrency.max_agents,
            r == match project_max_agents {
                Some(p) => if p < self.concurrency.max_agents {
                    p
                } else {
                    self.concurrency.max_agents
                },
                None => self.concurrency.max_agents,
            },
    {
        match project_max_agents {
            Some(p) => if p < self.concurrency.max_agents {
                p
            } else {
                self.concurrency.max_agents
            },
            None => self.concurrency.max_agents,
        }
    }

    /// The configuration of a role; refused where the role has none.
    pub fn role(&self, role: AgentRole) -> (r: Result<&RoleConfig, Error>)
        ensures
            match role_at(self.roles@, role_key(role), 0) {
                Some(i) => r == Ok::<&RoleConfig, Error>(&self.roles@[i].config),
                None => crate::error::refused(
                    r,
                    "configure runtime role "@ + role_name(role) + " before launching"@,
                ),
            },
    {
        let key: &'static str = key_of(role);
        let mut i: usize = 0;
        while i < self.roles.len()
            invariant
                key@ == role_key(role),
                i <= self.roles@.len(),
                role_at(self.roles@, key@, 0) == role_at(self.roles@, key@, i as int),
            decreases self.roles@.len() - i,
        {
            if text::same(self.roles[i].name.as_str(), key) {
                return Ok(&self.roles[i].config);
            }
            i += 1;
        }
        let m: String = text::join3("configure runtime role ", name_of(role), " before launching");
        invalid(m.as_str())
    }
}

/// The name that configuration uses for a role.
pub open spec fn role_key(role: AgentRole) -> Seq<char> {
    match role {
        AgentRole::Planner => "planner"@,
        AgentRole::Executor => "executor"@,
        AgentRole::Verifier => "verifier"@,
    }
}

/// The name that messages use for a role.
pub open spec fn role_name(role: AgentRole) -> Seq<char> {
    match role {
        AgentRole::Planner => "Planner"@,
        AgentRole::Executor => "Executor"@,
        AgentRole::Verifier => "Verifier"@,
    }
}

pub fn key_of(role: AgentRole) -> (r: &'static str)
    ensures
        r@ == role_key(role),
{
    match role {
        AgentRole::Planner => "planner",
        AgentRole::Executor => "executor",
        AgentRole::Verifier => "verifier",
    }
}

pub fn name_of(role: AgentRole) -> (r: &'static str)
    ensures
        r@ == role_name(role),
{
    match role {
        AgentRole::Planner => "Planner",
        AgentRole::Executor => "Executor",
        AgentRole::Verifier => "Verifier",
    }
}

/// The position of the configuration of a role from the `i`-th on.
pub open spec fn role_at(roles: Seq<NamedRole>, name: Seq<char>, i: int) -> Option<int>
    decreases roles.len() - i,
{
    if i < 0 || i >= roles.len() {
        None
    } else if roles[i].name@ == name {
        Some(i)
    } else {
        role_at(roles, name, i + 1)
    }
}

/// The default configuration is acceptable where no other rule objects.
pub proof fn law_the_default_configuration_is_valid(c: RuntimeConfig, facts: ConfigFacts)
    requires
        c.providers@.len() == 0,
        c.roles@.len() == 0,
        c.timeout_ms == 600_000,
        c.max_correction_rounds == 2,
        c.concurrency.max_agents == 4,
        context_refusal(c.context) is None,
        facts.profiles is None,
        facts.security is None,
    ensures
        config_refusal(c, facts) is None,
{
}

proof fn lemma_adapters(providers: Seq<NamedProvider>, facts: ConfigFacts, i: int, k: int)
    requires
        0 <= i <= k < providers.len(),
        providers_refusal(providers, facts, i) is None,
    ensures
        is_adapter(providers[k].config.adapter@, facts.keychain_adapter@),
    decreases k - i,
{
    if i < k {
        lemma_adapters(providers, facts, i + 1, k);
    }
}

/// An acceptable configuration names no provider family but the two that can be
/// launched.
pub proof fn law_only_known_families_are_configured(c: RuntimeConfig, facts: ConfigFacts, k: int)
    requires
        config_refusal(c, facts) is None,
        0 <= k < c.providers@.len(),
    ensures
        c.providers@[k].config.adapter@ == "codex"@ || c.providers@[k].config.adapter@
            == facts.keychain_adapter@,
{
    lemma_adapters(c.providers@, facts, 0, k);
}

} // verus!
