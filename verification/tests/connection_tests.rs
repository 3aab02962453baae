use ofscp_transport::policy::ReconnectConfig;
use ofscp_transport::registry::ConnectionRegistry;
use ofscp_transport::state::{ConnectionMachine, ConnectionState};

fn policy(max_attempts: u32) -> ReconnectConfig {
    ReconnectConfig {
        max_attempts,
        initial_delay_ms: 10,
        max_delay_ms: 100,
        backoff_multiplier: 2,
    }
}

#[test]
fn two_failures_then_success_shows_connecting_then_reconnecting() {
    let mut m = ConnectionMachine::new(policy(5));
    let mut observed: Vec<ConnectionState> = Vec::new();

    m.begin_attempt();
    observed.push(m.state.clone());
    assert!(m.on_connect_failed().is_some());

    m.begin_attempt();
    observed.push(m.state.clone());
    assert!(m.on_connect_failed().is_some());

    m.begin_attempt();
    observed.push(m.state.clone());
    m.on_socket_opened();
    observed.push(m.state.clone());

    assert_eq!(
        observed,
        vec![
            ConnectionState::Connecting,
            ConnectionState::Reconnecting { attempt: 1 },
            ConnectionState::Reconnecting { attempt: 2 },
            ConnectionState::Connected,
        ]
    );
    assert!(!matches!(m.state, ConnectionState::Failed { .. }));
}

#[test]
fn exhausted_attempt_budget_is_terminal() {
    let mut m = ConnectionMachine::new(policy(1));

    m.begin_attempt();
    assert_eq!(m.state, ConnectionState::Connecting);
    // first failure: budget not yet exhausted, a delay is granted
    assert_eq!(m.on_connect_failed(), Some(10));

    m.begin_attempt();
    assert_eq!(m.state, ConnectionState::Reconnecting { attempt: 1 });
    // second failure: the budget is spent, the loop must exit
    assert_eq!(m.on_connect_failed(), None);
    match &m.state {
        ConnectionState::Failed { reason } => {
            assert_eq!(reason, "Max reconnect attempts (1) exceeded")
        },
        other => panic!("expected a terminal failure, got {:?}", other),
    }
}

#[test]
fn session_close_resets_to_disconnected_and_fresh_backoff() {
    let mut m = ConnectionMachine::new(policy(5));
    m.begin_attempt();
    assert!(m.on_connect_failed().is_some());
    m.begin_attempt();
    m.on_socket_opened();
    assert_eq!(m.state, ConnectionState::Connected);
    m.on_session_closed();
    assert_eq!(m.state, ConnectionState::Disconnected);
    // the counter was reset on success, so the next attempt shows Connecting
    m.begin_attempt();
    assert_eq!(m.state, ConnectionState::Connecting);
}

#[test]
fn missing_url_waits_without_spending_an_attempt() {
    let mut m = ConnectionMachine::new(policy(3));
    let before = m.attempt;
    let delay = m.on_url_unavailable();
    assert_eq!(delay, 1000);
    assert_eq!(m.state, ConnectionState::Disconnected);
    assert_eq!(m.attempt, before);
}

#[test]
fn connect_is_idempotent_per_normalized_host() {
    let mut reg = ConnectionRegistry::new();
    assert!(reg.connect_to_host("https://Chat.example/"));
    // the same host under a different spelling is already tracked
    assert!(!reg.connect_to_host("Chat.example"));
    assert_eq!(reg.get_state("Chat.example"), ConnectionState::Connecting);
}

#[test]
fn untracked_hosts_read_disconnected() {
    let reg = ConnectionRegistry::new();
    assert_eq!(reg.get_state("nowhere.example"), ConnectionState::Disconnected);
    assert!(!reg.is_connected("nowhere.example"));
}

#[test]
fn state_updates_are_visible_to_readers() {
    let mut reg = ConnectionRegistry::new();
    reg.connect_to_host("chat.example");
    reg.set_state("chat.example", ConnectionState::Connected);
    assert!(reg.is_connected("https://chat.example/"));
    reg.set_state("chat.example", ConnectionState::Reconnecting { attempt: 2 });
    assert_eq!(
        reg.get_state("chat.example"),
        ConnectionState::Reconnecting { attempt: 2 }
    );
}

#[test]
fn clear_connections_drops_everything() {
    let mut reg = ConnectionRegistry::new();
    reg.connect_to_host("a.example");
    reg.request_connection("b.example");
    reg.clear_connections();
    assert_eq!(reg.get_state("a.example"), ConnectionState::Disconnected);
    assert!(reg.connect_to_host("a.example"));
}

#[test]
fn requested_hosts_deduplicate() {
    let mut reg = ConnectionRegistry::new();
    reg.request_connection("https://b.example/");
    reg.request_connection("b.example");
    assert_eq!(reg.requested_hosts.len(), 1);
    assert_eq!(reg.requested_hosts[0], "b.example");
}
