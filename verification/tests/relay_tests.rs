use tcp_server::job::{ConnHandle, From, Job};
use tcp_server::relay::{Action, ServerState};
use tcp_server::schedule::ScheduleQueue;

fn accept(state: &mut ServerState, addr: u64, id: u64, origin: From) -> Action {
    state.dispatch(Job::Accept(ConnHandle { id, peer: Some(addr) }, origin))
}

#[test]
fn accepts_file_connections_into_their_pool() {
    let mut state = ServerState::new();
    let act = accept(&mut state, 7, 1, From::Client);
    assert!(matches!(act, Action::Accepted { addr: 7, origin: From::Client, replaced: None }));
    assert!(state.clients.contains(7));
    assert!(!state.nodes.contains(7));
}

#[test]
fn an_accept_without_a_peer_address_is_discarded() {
    let mut state = ServerState::new();
    let act = state.dispatch(Job::Accept(ConnHandle { id: 1, peer: None }, From::Client));
    assert!(matches!(act, Action::Ignore));
    assert!(state.clients.is_empty());
    assert!(state.nodes.is_empty());
}

#[test]
fn dropping_an_absent_address_is_no_error() {
    let mut state = ServerState::new();
    accept(&mut state, 7, 1, From::Client);
    let act = state.dispatch(Job::Drop(99, From::Client));
    assert!(matches!(act, Action::Dropped { addr: 99, released: None, .. }));
    assert!(state.clients.contains(7));
}

#[test]
fn a_read_for_a_departed_address_is_discarded() {
    let mut state = ServerState::new();
    let act = state.dispatch(Job::Read(5, From::Client));
    assert!(matches!(act, Action::Ignore));
}

#[test]
fn pools_are_isolated_even_for_identical_addresses() {
    let mut state = ServerState::new();
    accept(&mut state, 7, 1, From::Client);
    accept(&mut state, 7, 2, From::Node);
    assert!(matches!(state.clients.get(7), Some(1)));
    assert!(matches!(state.nodes.get(7), Some(2)));
    state.dispatch(Job::Drop(7, From::Client));
    assert!(!state.clients.contains(7));
    assert!(matches!(state.nodes.get(7), Some(2)));
}

#[test]
fn fanout_is_complete_under_partial_failure() {
    let mut state = ServerState::new();
    accept(&mut state, 1, 11, From::Client);
    accept(&mut state, 21, 31, From::Node);
    accept(&mut state, 22, 32, From::Node);
    accept(&mut state, 23, 33, From::Node);

    let plan = state.plan_broadcast(b"GET /x\r").unwrap();
    assert_eq!(plan.message, b"/x\r".to_vec());
    let mut targets = plan.targets.clone();
    targets.sort();
    assert_eq!(targets, vec![(21, 31), (22, 32), (23, 33)]);

    // the write to node 22 fails; the others succeeded already
    state.record_write_failures(&vec![22], 5);

    // exactly one drop is scheduled, for 22 alone, and it is already due
    let job = state.queue.get_late_schedule(5).unwrap();
    assert!(matches!(job, Job::Drop(22, From::Node)));
    assert!(state.queue.get_late_schedule(5).is_none());
    let act = state.dispatch(Job::Drop(22, From::Node));
    assert!(matches!(act, Action::Dropped { addr: 22, released: Some(32), .. }));
    assert!(matches!(state.nodes.get(21), Some(31)));
    assert!(!state.nodes.contains(22));
    assert!(matches!(state.nodes.get(23), Some(33)));
}

#[test]
fn a_non_get_line_commands_no_broadcast() {
    let mut state = ServerState::new();
    accept(&mut state, 21, 31, From::Node);
    assert!(state.plan_broadcast(b"POST /foo\r").is_none());
    let plan = state.plan_broadcast(b"GET /foo\r").unwrap();
    assert_eq!(plan.message, b"/foo\r".to_vec());
    assert_eq!(plan.targets, vec![(21, 31)]);
}

#[test]
fn invalid_text_is_replaced_not_fatal() {
    let mut state = ServerState::new();
    accept(&mut state, 21, 31, From::Node);
    let plan = state.plan_broadcast(b"GET /a\xFF\r").unwrap();
    let mut expected = b"/a".to_vec();
    expected.extend_from_slice("\u{FFFD}".as_bytes());
    expected.push(b'\r');
    assert_eq!(plan.message, expected);
}

#[test]
fn a_failed_read_evicts_exactly_that_connection() {
    let mut state = ServerState::new();
    accept(&mut state, 7, 1, From::Client);
    accept(&mut state, 8, 2, From::Client);

    // the drain read of 7 reports stream closure: no broadcast, a drop now
    state.on_read_failure(7, From::Client, 40);
    assert!(state.clients.contains(7));

    // the very next iteration drains the expired drop before racing anew
    let job = state.queue.get_late_schedule(40).unwrap();
    assert!(matches!(job, Job::Drop(7, From::Client)));
    let act = state.dispatch(job);
    assert!(matches!(act, Action::Dropped { addr: 7, released: Some(1), .. }));
    assert!(!state.clients.contains(7));
    assert!(matches!(state.clients.get(8), Some(2)));
}

#[test]
fn end_to_end_one_client_one_node() {
    let mut state = ServerState::new();

    // accept one client at address 100 and one node at address 200
    let act = accept(&mut state, 100, 1, From::Client);
    assert!(matches!(act, Action::Accepted { addr: 100, .. }));
    let act = accept(&mut state, 200, 2, From::Node);
    assert!(matches!(act, Action::Accepted { addr: 200, .. }));

    // the client becomes readable and sends one command
    let act = state.dispatch(Job::Read(100, From::Client));
    assert!(matches!(act, Action::ReadFrom { addr: 100, conn: 1, origin: From::Client }));
    let plan = state.plan_broadcast(b"GET /x\r").unwrap();
    assert_eq!(plan.message, b"/x\r".to_vec());
    assert_eq!(plan.targets, vec![(200, 2)]);

    // every write succeeded: nothing is scheduled
    state.record_write_failures(&vec![], 50);
    assert!(state.queue.is_empty());

    // the client closes its socket; the next read dispatch fails and the
    // address is removed before any new race
    let act = state.dispatch(Job::Read(100, From::Client));
    assert!(matches!(act, Action::ReadFrom { addr: 100, .. }));
    state.on_read_failure(100, From::Client, 60);
    let job = state.queue.get_late_schedule(60).unwrap();
    assert!(matches!(job, Job::Drop(100, From::Client)));
    let act = state.dispatch(job);
    assert!(matches!(act, Action::Dropped { addr: 100, released: Some(1), .. }));
    assert!(!state.clients.contains(100));

    // no further broadcast references the departed client
    let plan = state.plan_broadcast(b"GET /y\r").unwrap();
    assert_eq!(plan.targets, vec![(200, 2)]);
    assert!(plan.targets.iter().all(|t| t.0 != 100));
}

#[test]
fn reaccepting_an_address_replaces_the_old_connection() {
    let mut state = ServerState::new();
    accept(&mut state, 7, 1, From::Client);
    let act = accept(&mut state, 7, 9, From::Client);
    assert!(matches!(act, Action::Accepted { addr: 7, replaced: Some(1), .. }));
    assert!(matches!(state.clients.get(7), Some(9)));
}
