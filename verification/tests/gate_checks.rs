//! The capability gate: memoized resolution, checks, and observer
//! events.

use spin_bridge::errors::Error;
use spin_bridge::gate::{
    parse_target, DisallowedHostHandler, OutboundAllowedHosts, OutboundNetworkingFactor,
    VariableSet,
};
use spin_bridge::pg::AllowedHostChecker;

fn gate_with(templates: Vec<&[u8]>) -> OutboundAllowedHosts {
    OutboundAllowedHosts::new(templates.into_iter().map(|t| t.to_vec()).collect())
}

#[test]
fn allowed_target_passes_and_records_no_event() {
    let mut gate = gate_with(vec![b"https://example.com"]);
    let vars = VariableSet::new();
    let ok = gate
        .check_url(&vars, &b"https://example.com".to_vec(), &b"https".to_vec())
        .unwrap();
    assert!(ok);
    assert!(gate.take_events().is_empty());
}

#[test]
fn non_matching_target_is_false_with_exactly_one_event_per_check() {
    let mut gate = gate_with(vec![b"https://example.com"]);
    let vars = VariableSet::new();
    let first = gate
        .check_url(&vars, &b"https://evil.test".to_vec(), &b"https".to_vec())
        .unwrap();
    assert!(!first);
    let second = gate
        .check_url(&vars, &b"https://evil.test:8443".to_vec(), &b"https".to_vec())
        .unwrap();
    assert!(!second);
    let events = gate.take_events();
    assert_eq!(events.len(), 2);
    assert_eq!(events[0].scheme, b"https".to_vec());
    assert_eq!(events[0].authority, b"evil.test".to_vec());
    assert_eq!(events[1].authority, b"evil.test:8443".to_vec());
    assert!(gate.take_events().is_empty());
}

#[test]
fn unparseable_target_is_false_without_an_event() {
    let mut gate = gate_with(vec![b"https://example.com"]);
    let vars = VariableSet::new();
    let ok = gate
        .check_url(&vars, &b"".to_vec(), &b"https".to_vec())
        .unwrap();
    assert!(!ok);
    assert!(gate.take_events().is_empty());
}

#[test]
fn resolution_is_memoized_across_variable_changes() {
    let mut gate = gate_with(vec![b"redis://{{host}}"]);
    let mut vars = VariableSet::new();
    vars.define(b"host".to_vec(), b"cache.local".to_vec());
    assert!(gate
        .check_url(&vars, &b"redis://cache.local".to_vec(), &b"redis".to_vec())
        .unwrap());
    // later variables do not re-resolve: the first resolution stands
    let mut other = VariableSet::new();
    other.define(b"host".to_vec(), b"elsewhere.local".to_vec());
    assert!(gate
        .check_url(&other, &b"redis://cache.local".to_vec(), &b"redis".to_vec())
        .unwrap());
    assert!(!gate
        .check_url(&other, &b"redis://elsewhere.local".to_vec(), &b"redis".to_vec())
        .unwrap());
}

#[test]
fn resolution_failure_is_cached_and_replayed() {
    let mut gate = gate_with(vec![b"redis://{{missing}}"]);
    let vars = VariableSet::new();
    let first = gate.resolve(&vars);
    assert!(matches!(first, Err(Error::BackendFailure(_))));
    // even though the variable exists now, the cached error replays
    let mut late = VariableSet::new();
    late.define(b"missing".to_vec(), b"cache.local".to_vec());
    let second = gate.resolve(&late);
    assert!(matches!(second, Err(Error::BackendFailure(_))));
    let check = gate.check_url(&late, &b"redis://cache.local".to_vec(), &b"redis".to_vec());
    assert!(matches!(check, Err(Error::BackendFailure(_))));
}

#[test]
fn star_template_allows_everything() {
    let mut gate = gate_with(vec![b"*"]);
    let vars = VariableSet::new();
    assert!(gate
        .check_url(&vars, &b"foo://anywhere:1234/path".to_vec(), &b"foo".to_vec())
        .unwrap());
}

#[test]
fn wildcards_ports_and_subdomains_match_as_configured() {
    let mut gate = gate_with(vec![b"*://*.example.com:*", b"http://plain.test"]);
    let vars = VariableSet::new();
    // subdomain matches, apex does not
    assert!(gate
        .check_url(&vars, &b"https://a.example.com:1".to_vec(), &b"https".to_vec())
        .unwrap());
    assert!(!gate
        .check_url(&vars, &b"https://example.com".to_vec(), &b"https".to_vec())
        .unwrap());
    // scheme-bound entry takes its default port
    assert!(gate
        .check_url(&vars, &b"http://plain.test:80".to_vec(), &b"http".to_vec())
        .unwrap());
    assert!(gate
        .check_url(&vars, &b"plain.test".to_vec(), &b"http".to_vec())
        .unwrap());
    assert!(!gate
        .check_url(&vars, &b"http://plain.test:81".to_vec(), &b"http".to_vec())
        .unwrap());
}

#[test]
fn relative_requests_need_a_self_entry() {
    let mut with_self = gate_with(vec![b"http://self"]);
    let vars = VariableSet::new();
    let schemes = vec![b"http".to_vec()];
    assert!(with_self.check_relative_url(&vars, &schemes).unwrap());
    assert!(with_self.take_events().is_empty());

    let mut without_self = gate_with(vec![b"http://example.com"]);
    assert!(!without_self.check_relative_url(&vars, &schemes).unwrap());
    let events = without_self.take_events();
    assert_eq!(events.len(), 1);
    assert_eq!(events[0].scheme, b"http".to_vec());
    assert_eq!(events[0].authority, b"self".to_vec());
}

#[test]
fn parse_target_splits_scheme_host_and_port() {
    let t = parse_target(&b"https://example.com:8443/path".to_vec(), &b"tcp".to_vec()).unwrap();
    assert_eq!(t.scheme, b"https".to_vec());
    assert_eq!(t.host, b"example.com".to_vec());
    assert_eq!(t.port, Some(8443));
    // no scheme: the caller's default applies
    let d = parse_target(&b"db.local:5432".to_vec(), &b"tcp".to_vec()).unwrap();
    assert_eq!(d.scheme, b"tcp".to_vec());
    assert_eq!(d.host, b"db.local".to_vec());
    assert_eq!(d.port, Some(5432));
    // a malformed port is unparseable
    assert!(parse_target(&b"db.local:54x2".to_vec(), &b"tcp".to_vec()).is_none());
    assert!(parse_target(&b"db.local:99999".to_vec(), &b"tcp".to_vec()).is_none());
}

#[test]
fn database_addresses_are_gated_pairwise() {
    let gate = gate_with(vec![b"postgres://db.local:5432"]);
    let mut checker = AllowedHostChecker::new(gate);
    let vars = VariableSet::new();
    let hosts = vec![b"db.local".to_vec()];
    let ports = vec![5432u16];
    assert!(checker.ensure_address_allowed(&vars, &hosts, &ports).is_ok());

    // a single configured port carries over to every host
    let gate2 = gate_with(vec![b"postgres://db.local:5432", b"postgres://backup.local:5432"]);
    let mut checker2 = AllowedHostChecker::new(gate2);
    let two_hosts = vec![b"db.local".to_vec(), b"backup.local".to_vec()];
    assert!(checker2.ensure_address_allowed(&vars, &two_hosts, &vec![5432u16]).is_ok());

    // a denied pair fails with a typed error
    let gate3 = gate_with(vec![b"postgres://db.local:5432"]);
    let mut checker3 = AllowedHostChecker::new(gate3);
    let bad_hosts = vec![b"db.local".to_vec(), b"other.local".to_vec()];
    assert_eq!(
        checker3.ensure_address_allowed(&vars, &bad_hosts, &vec![5432u16]),
        Err(Error::AccessDenied)
    );
}

#[test]
fn database_addresses_without_a_port_use_the_scheme_default() {
    let vars = VariableSet::new();

    // no port configured at all: the entry relying on the default
    // port matches the portless check
    let gate = gate_with(vec![b"postgres://db.local"]);
    let mut checker = AllowedHostChecker::new(gate);
    let hosts = vec![b"db.local".to_vec()];
    assert!(checker.ensure_address_allowed(&vars, &hosts, &vec![]).is_ok());

    // and an explicit default port matches it as well
    let gate2 = gate_with(vec![b"postgres://db.local"]);
    let mut checker2 = AllowedHostChecker::new(gate2);
    assert!(checker2.ensure_address_allowed(&vars, &hosts, &vec![5432u16]).is_ok());

    // a non-default explicit port does not
    let gate3 = gate_with(vec![b"postgres://db.local"]);
    let mut checker3 = AllowedHostChecker::new(gate3);
    assert_eq!(
        checker3.ensure_address_allowed(&vars, &hosts, &vec![5433u16]),
        Err(Error::AccessDenied)
    );
}

#[test]
fn empty_allow_list_denies_every_parsed_target() {
    let mut gate = gate_with(vec![]);
    let vars = VariableSet::new();
    assert!(!gate
        .check_url(&vars, &b"https://anywhere.test".to_vec(), &b"https".to_vec())
        .unwrap());
    assert_eq!(gate.take_events().len(), 1);
}

struct CountingHandler {
    calls: usize,
}

impl DisallowedHostHandler for CountingHandler {
    fn handle_disallowed_host(&mut self, _scheme: &str, _authority: &str) {
        self.calls += 1;
    }
}

#[test]
fn factor_prepares_a_gate_per_component_and_delivers_events() {
    let mut factor: OutboundNetworkingFactor<CountingHandler> = OutboundNetworkingFactor::new();
    assert!(factor.handler_mut().is_none());
    factor.set_disallowed_host_handler(CountingHandler { calls: 0 });

    let state = factor.configure_app(vec![
        ("frontend".to_string(), vec![b"https://api.example.com".to_vec()]),
        ("worker".to_string(), vec![]),
    ]);
    assert!(factor.prepare(&state, &"absent".to_string()).is_err());
    let mut instance = factor.prepare(&state, &"frontend".to_string()).unwrap();

    let vars = VariableSet::new();
    let gate = instance.allowed_hosts();
    assert!(gate
        .check_url(&vars, &b"https://api.example.com".to_vec(), &b"https".to_vec())
        .unwrap());
    assert!(!gate
        .check_url(&vars, &b"https://other.example.com".to_vec(), &b"https".to_vec())
        .unwrap());

    // the embedder drains the recorded denials into its observer
    let events = gate.take_events();
    let handler = factor.handler_mut().unwrap();
    for event in &events {
        let scheme = String::from_utf8(event.scheme.clone()).unwrap();
        let authority = String::from_utf8(event.authority.clone()).unwrap();
        handler.handle_disallowed_host(&scheme, &authority);
    }
    assert_eq!(handler.calls, 1);
}
