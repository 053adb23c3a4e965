use exclusive_worker::bridge::FutureState;
use exclusive_worker::command::{Error, Operation, Value};
use exclusive_worker::resource::AccessEvent;
use exclusive_worker::system::{System, WorkerPhase};

#[test]
fn basic_round_trip() {
    let mut sys = System::open(16).unwrap();
    let t1 = sys.insert("Alice".to_string());
    sys.run_until_idle();
    assert_eq!(*sys.poll(t1), FutureState::Resolved(Value::Id(1)));
    let t2 = sys.get(1);
    sys.run_until_idle();
    assert_eq!(*sys.poll(t2), FutureState::Resolved(Value::Found("Alice".to_string())));
}

#[test]
fn missing_row_resolves_not_found() {
    let mut sys = System::open(16).unwrap();
    let t = sys.get(999);
    sys.run_until_idle();
    // An absent row is an answer, not a failure: the future resolves.
    assert_eq!(*sys.poll(t), FutureState::Resolved(Value::NotFound));
}

#[test]
fn close_races_pending_work() {
    let mut sys = System::open(16).unwrap();
    let t1 = sys.insert("Bob".to_string());
    let t2 = sys.close();
    sys.run_until_idle();
    // FIFO: the insert queued ahead of the close still ran, and the close
    // was acknowledged after it.
    assert_eq!(*sys.poll(t1), FutureState::Resolved(Value::Id(1)));
    assert_eq!(*sys.poll(t2), FutureState::Resolved(Value::Done));
    assert_eq!(
        sys.worker.resource.log,
        vec![Operation::Insert("Bob".to_string()), Operation::Close]
    );
}

#[test]
fn use_after_close_is_rejected_immediately() {
    let mut sys = System::open(16).unwrap();
    let tc = sys.close();
    sys.run_until_idle();
    assert_eq!(*sys.poll(tc), FutureState::Resolved(Value::Done));
    let executed_before = sys.worker.resource.log.len();
    let t = sys.insert("Carol".to_string());
    // Rejected before any worker or host turn, and the resource never saw it.
    assert_eq!(*sys.poll(t), FutureState::Rejected(Error::Closed));
    assert_eq!(sys.worker.resource.log.len(), executed_before);
}

#[test]
fn fifo_execution_order() {
    let mut sys = System::open(16).unwrap();
    sys.insert("a".to_string());
    sys.insert("b".to_string());
    sys.get(1);
    sys.insert("c".to_string());
    sys.run_until_idle();
    assert_eq!(
        sys.worker.resource.log,
        vec![
            Operation::Insert("a".to_string()),
            Operation::Insert("b".to_string()),
            Operation::Get(1),
            Operation::Insert("c".to_string()),
        ]
    );
}

#[test]
fn access_record_never_overlaps() {
    let mut sys = System::open(16).unwrap();
    sys.insert("a".to_string());
    sys.get(1);
    sys.insert("b".to_string());
    sys.close();
    sys.run_until_idle();
    // The instrumented driver's counter of operations begun and not yet
    // finished must never exceed one, and must end at zero.
    let mut open: i64 = 0;
    let mut max_open: i64 = 0;
    for e in &sys.worker.resource.events {
        match e {
            AccessEvent::Begin(_) => {
                open += 1;
                if open > max_open {
                    max_open = open;
                }
            }
            AccessEvent::End => {
                open -= 1;
            }
        }
    }
    assert_eq!(max_open, 1);
    assert_eq!(open, 0);
}

#[test]
fn every_future_settles_exactly_once_across_forced_close() {
    let mut sys = System::open(16).unwrap();
    let mut tickets: Vec<usize> = Vec::new();
    tickets.push(sys.insert("a".to_string()));
    tickets.push(sys.insert("b".to_string()));
    tickets.push(sys.close());
    // Queued behind the close while the worker is still running: these reach
    // the channel, and are rejected when the worker stands down.
    tickets.push(sys.insert("c".to_string()));
    tickets.push(sys.get(1));
    sys.run_until_idle();
    for &t in &tickets {
        assert_ne!(*sys.poll(t), FutureState::Pending);
    }
    assert_eq!(*sys.poll(tickets[0]), FutureState::Resolved(Value::Id(1)));
    assert_eq!(*sys.poll(tickets[1]), FutureState::Resolved(Value::Id(2)));
    assert_eq!(*sys.poll(tickets[2]), FutureState::Resolved(Value::Done));
    assert_eq!(*sys.poll(tickets[3]), FutureState::Rejected(Error::Closed));
    assert_eq!(*sys.poll(tickets[4]), FutureState::Rejected(Error::Closed));
    // Settled futures stay exactly as they are through further turns.
    let before: Vec<FutureState> = tickets.iter().map(|&t| sys.poll(t).clone()).collect();
    sys.run_until_idle();
    let after: Vec<FutureState> = tickets.iter().map(|&t| sys.poll(t).clone()).collect();
    assert_eq!(before, after);
}

#[test]
fn construction_failure_reports_synchronously() {
    match System::open(0) {
        Err(e) => assert_eq!(e, Error::Construction),
        Ok(_) => panic!("a zero-capacity resource must not be created"),
    }
}

#[test]
fn operation_failure_rejects_only_its_own_future() {
    let mut sys = System::open(1).unwrap();
    let t1 = sys.insert("first".to_string());
    let t2 = sys.insert("second".to_string());
    let t3 = sys.get(1);
    sys.run_until_idle();
    assert_eq!(*sys.poll(t1), FutureState::Resolved(Value::Id(1)));
    // The table is full: the second insert fails, and only its future
    // rejects; the worker keeps running and serves the lookup after it.
    assert_eq!(*sys.poll(t2), FutureState::Rejected(Error::Operation));
    assert_eq!(*sys.poll(t3), FutureState::Resolved(Value::Found("first".to_string())));
    assert_eq!(sys.worker.phase, WorkerPhase::Running);
}

#[test]
fn settlement_failure_stops_the_worker() {
    let mut sys = System::open(16).unwrap();
    sys.insert("a".to_string());
    sys.host_shutdown();
    sys.run_worker();
    // With nobody left to receive results, the worker stands down instead
    // of computing into the void.
    assert_eq!(sys.worker.phase, WorkerPhase::Stopped);
}

#[test]
fn dropping_all_senders_stops_the_worker_after_the_backlog() {
    let mut sys = System::open(16).unwrap();
    let t = sys.insert("a".to_string());
    sys.drop_senders();
    sys.run_until_idle();
    // The command already queued still ran before the worker stopped.
    assert_eq!(*sys.poll(t), FutureState::Resolved(Value::Id(1)));
    assert_eq!(sys.worker.phase, WorkerPhase::Stopped);
    assert_eq!(sys.worker.resource.log, vec![Operation::Insert("a".to_string())]);
}

#[test]
fn get_with_zero_id_resolves_not_found() {
    let mut sys = System::open(4).unwrap();
    sys.insert("a".to_string());
    let t = sys.get(0);
    sys.run_until_idle();
    assert_eq!(*sys.poll(t), FutureState::Resolved(Value::NotFound));
}

#[test]
fn idle_worker_does_nothing() {
    let mut sys = System::open(4).unwrap();
    sys.run_until_idle();
    assert_eq!(sys.worker.phase, WorkerPhase::Running);
    assert_eq!(sys.future_count(), 0);
    assert!(sys.worker.resource.log.is_empty());
}
