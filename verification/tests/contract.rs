use agentctl::protocol::AgentRole;
use agentctl::runtime::contract::RoleContract;
use serde_json::Value;
use std::collections::BTreeSet;

fn target(scope: &str) -> Value {
    let mut inner = serde_json::Map::new();
    inner.insert("scope".to_string(), Value::String(scope.to_string()));
    let mut outer = serde_json::Map::new();
    outer.insert("target".to_string(), Value::Object(inner));
    Value::Object(outer)
}

#[test]
fn every_role_states_output_and_rule_ids_once() {
    for contract in [
        RoleContract::Planner,
        RoleContract::Executor,
        RoleContract::TaskVerifier,
        RoleContract::IntegrationVerifier,
    ] {
        let text = contract.text();
        assert!(text.contains(contract.output().0), "{text}");
        assert!(text.contains(contract.output().1), "{text}");
        let mut ids = BTreeSet::new();
        for rule in contract.rules() {
            assert!(ids.insert(rule.id), "duplicate rule id {}", rule.id);
            assert!(text.contains(&format!("[{}]", rule.id)));
        }
    }
}

#[test]
fn verifier_contract_follows_the_target() {
    let integration = target("INTEGRATION");
    let packet = target("PACKET");
    assert_eq!(
        RoleContract::of(AgentRole::Verifier, &integration),
        RoleContract::IntegrationVerifier
    );
    assert_eq!(
        RoleContract::of(AgentRole::Verifier, &packet),
        RoleContract::TaskVerifier
    );
}

#[test]
fn other_roles_do_not_look_at_the_target() {
    let integration = target("INTEGRATION");
    assert_eq!(
        RoleContract::of(AgentRole::Planner, &integration),
        RoleContract::Planner
    );
    assert_eq!(
        RoleContract::of(AgentRole::Executor, &integration),
        RoleContract::Executor
    );
    assert_eq!(
        RoleContract::of(AgentRole::Verifier, &Value::Null),
        RoleContract::TaskVerifier
    );
    assert_eq!(
        RoleContract::of_target(AgentRole::Verifier, &Some("INTEGRATION".to_string())),
        RoleContract::IntegrationVerifier
    );
}
