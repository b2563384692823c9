use qpm::codec::{ControlEvent, ProtocolError};
use qpm::daemon::{Action, Daemon, Phase, MAX_PAYLOAD};
use qpm::registry::{
    load_registry, LoadOutcome, ManagedProcessSpec, Registry, RegistryError, StoredRegistry,
};

fn spec(id: u64, command: &str, enabled: bool) -> ManagedProcessSpec {
    ManagedProcessSpec {
        id,
        created_at: 0,
        name: format!("p{}", id),
        command: command.to_string(),
        args: vec![],
        pwd: "/".to_string(),
        enabled,
    }
}

fn add_payload(name: &str, command: &str, args: &[&str], pwd: &str) -> Vec<u8> {
    ControlEvent::AddProcess {
        command: command.to_string(),
        args: args.iter().map(|a| a.to_string()).collect(),
        pwd: pwd.to_string(),
        name: name.to_string(),
    }
    .encode()
}

fn listening(specs: Vec<ManagedProcessSpec>) -> Daemon {
    let reg = Registry::from_specs(specs).unwrap();
    let mut d = Daemon::new(reg);
    d.begin_listening();
    d
}

#[test]
fn absent_file_loads_empty() {
    let (reg, outcome) = load_registry(StoredRegistry::Absent);
    assert_eq!(reg.len(), 0);
    assert_eq!(outcome, LoadOutcome::NoFile);
}

#[test]
fn corrupt_file_loads_empty() {
    let (reg, outcome) = load_registry(StoredRegistry::Unparseable);
    assert_eq!(reg.len(), 0);
    assert_eq!(outcome, LoadOutcome::Corrupt);
    let (reg, outcome) = load_registry(StoredRegistry::Unreadable);
    assert_eq!(reg.len(), 0);
    assert_eq!(outcome, LoadOutcome::Unreadable);
}

#[test]
fn repeated_ids_load_as_corrupt() {
    let (reg, outcome) =
        load_registry(StoredRegistry::Parsed(vec![spec(0, "/a", true), spec(0, "/b", true)]));
    assert_eq!(reg.len(), 0);
    assert_eq!(outcome, LoadOutcome::Corrupt);
}

#[test]
fn parsed_file_loads_in_order() {
    let (reg, outcome) =
        load_registry(StoredRegistry::Parsed(vec![spec(3, "/a", true), spec(1, "/b", false)]));
    assert_eq!(outcome, LoadOutcome::Loaded);
    assert_eq!(reg.processes, vec![spec(3, "/a", true), spec(1, "/b", false)]);
}

#[test]
fn next_id_is_one_past_the_largest() {
    assert_eq!(Registry::new().next_id(), Some(0));
    let reg = Registry::from_specs(vec![spec(4, "/a", true), spec(9, "/b", true), spec(2, "/c", true)])
        .unwrap();
    assert_eq!(reg.next_id(), Some(10));
    let full = Registry::from_specs(vec![spec(u64::MAX, "/a", true)]).unwrap();
    assert_eq!(full.next_id(), None);
}

#[test]
fn add_process_refused_when_ids_exhausted() {
    let mut full = Registry::from_specs(vec![spec(u64::MAX, "/a", true)]).unwrap();
    let r = full.add_process("n".to_string(), "/c".to_string(), vec![], "/".to_string(), 5);
    assert_eq!(r, Err(RegistryError::IdsExhausted));
    assert_eq!(full.len(), 1);
}

#[test]
fn startup_relaunches_every_enabled_spec() {
    let reg = Registry::from_specs(vec![
        spec(0, "/does/not/exist", true),
        spec(1, "/bin/false", false),
        spec(2, "/bin/true", true),
    ])
    .unwrap();
    let mut d = Daemon::new(reg);
    assert_eq!(d.phase(), Phase::Starting);
    let launches = d.begin_listening();
    assert_eq!(d.phase(), Phase::Listening);
    let commands: Vec<&str> = launches.iter().map(|s| s.command.as_str()).collect();
    assert_eq!(commands, vec!["/does/not/exist", "/bin/true"]);
    assert!(d.begin_listening().is_empty());
}

#[test]
fn accepted_add_process_grows_registry_by_one() {
    let mut d = listening(vec![spec(0, "/a", true), spec(5, "/b", false)]);
    let action = d.on_datagram(&add_payload("job", "/bin/sleep", &["10"], "/var"), 77);
    let stored = match action {
        Action::Persist(r) => r,
        other => panic!("expected Persist, got {:?}", other),
    };
    assert_eq!(stored.len(), 3);
    assert_eq!(d.registry().len(), 2);
    let launched = d.persisted(true).unwrap();
    assert_eq!(d.registry(), &stored);
    let new = &stored.processes[2];
    assert_eq!(new, &launched);
    assert_eq!(new.id, 6);
    assert_eq!(new.created_at, 77);
    assert_eq!(new.name, "job");
    assert_eq!(new.command, "/bin/sleep");
    assert_eq!(new.args, vec!["10".to_string()]);
    assert_eq!(new.pwd, "/var");
    assert!(new.enabled);
}

#[test]
fn failed_store_launches_nothing() {
    let mut d = listening(vec![]);
    let action = d.on_datagram(&add_payload("job", "/bin/true", &[], "/"), 1);
    assert!(matches!(action, Action::Persist(_)));
    assert_eq!(d.persisted(false), None);
    assert_eq!(d.registry().len(), 0);
    assert_eq!(d.persisted(true), None);
}

#[test]
fn undecodable_datagram_changes_nothing() {
    let mut d = listening(vec![spec(0, "/a", true)]);
    let before = d.clone();
    assert_eq!(d.on_datagram(b"garbage", 1), Action::Discard(ProtocolError::Malformed));
    assert_eq!(d, before);
    let big = vec![b'x'; MAX_PAYLOAD + 1];
    assert_eq!(d.on_datagram(&big, 2), Action::Discard(ProtocolError::TooLarge));
    assert_eq!(d, before);
    let action = d.on_datagram(&add_payload("web", "/bin/true", &[], "/tmp"), 3);
    assert!(matches!(action, Action::Persist(_)));
    assert!(d.persisted(true).is_some());
    assert_eq!(d.registry().len(), 2);
}

#[test]
fn kill_handshake_replies_then_stops() {
    let mut d = listening(vec![]);
    let action = d.on_datagram(&ControlEvent::Kill.encode(), 1);
    assert_eq!(action, Action::ReplyAndExit(ControlEvent::Success.encode()));
    assert_eq!(d.phase(), Phase::Terminating);
    assert_eq!(d.on_datagram(&ControlEvent::Kill.encode(), 2), Action::Idle);
    assert_eq!(
        d.on_datagram(&add_payload("web", "/bin/true", &[], "/tmp"), 3),
        Action::Idle
    );
    assert_eq!(d.registry().len(), 0);
}

#[test]
fn reserved_variants_do_nothing() {
    let mut d = listening(vec![spec(0, "/a", true)]);
    let before = d.clone();
    assert_eq!(d.on_datagram(&ControlEvent::Start.encode(), 1), Action::Idle);
    assert_eq!(d.on_datagram(&ControlEvent::Restart.encode(), 1), Action::Idle);
    assert_eq!(d.on_datagram(&ControlEvent::Success.encode(), 1), Action::Idle);
    assert_eq!(d, before);
}

#[test]
fn datagrams_before_listening_are_ignored() {
    let mut d = Daemon::new(Registry::new());
    assert_eq!(d.on_datagram(&ControlEvent::Kill.encode(), 1), Action::Idle);
    assert_eq!(d.phase(), Phase::Starting);
}

#[test]
fn web_on_empty_registry() {
    let mut d = listening(vec![]);
    let action = d.on_datagram(&add_payload("web", "/bin/true", &[], "/tmp"), 0);
    let stored = match action {
        Action::Persist(r) => r,
        other => panic!("expected Persist, got {:?}", other),
    };
    assert_eq!(stored.len(), 1);
    let entry = &stored.processes[0];
    assert_eq!(entry.name, "web");
    assert_eq!(entry.command, "/bin/true");
    assert!(entry.enabled);
    let launched = d.persisted(true).unwrap();
    assert_eq!(launched.command, "/bin/true");
    assert_eq!(launched.pwd, "/tmp");
    assert!(launched.args.is_empty());
}

#[test]
fn duplicate_add_gives_duplicate_spec_with_new_id() {
    let mut d = listening(vec![]);
    let p = add_payload("web", "/bin/true", &[], "/tmp");
    d.on_datagram(&p, 0);
    d.persisted(true);
    d.on_datagram(&p, 1);
    d.persisted(true);
    let reg = d.registry();
    assert_eq!(reg.len(), 2);
    assert_eq!(reg.processes[0].command, reg.processes[1].command);
    assert_ne!(reg.processes[0].id, reg.processes[1].id);
}
