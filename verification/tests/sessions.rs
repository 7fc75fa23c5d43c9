//! The decisions around the run of a command, and the tables that observations are kept in.

use runlens::boundary::{
    FileDescriptorSnapshot, ObservationBoundary, ProcessDescriptors, ProcessSnapshot,
};
use runlens::observation::ProcessObservation;
use runlens::report::ExecutionReport;
use runlens::session::{
    check_arguments, choose_ending, forward_pending_signal, install_signal_handlers, next_step,
    record_signal, wait_failure, Ending, Step, WaitEvent,
};
use runlens::table::Table;

#[test]
fn usage_is_told_without_a_program() {
    let failure = check_arguments(0).err().unwrap();
    assert_eq!(failure.message, "usage: runlens <executable> [args...]");
    assert_eq!(failure.exit_code, 2);
    assert!(check_arguments(1).is_ok());
}

#[test]
fn lost_commands_are_told() {
    let failure = wait_failure("\"sh\"", "gone");
    assert_eq!(failure.message, "runlens: failed to wait for \"sh\": gone");
    assert_eq!(failure.exit_code, 1);
}

#[test]
fn forwards_signal_and_preserves_signal_termination() {
    assert_eq!(install_signal_handlers(), vec![1, 2, 3, 15]);
    let mut pending = 15;
    let delivery = forward_pending_signal(&mut pending, 4321).unwrap();
    assert_eq!((delivery.pid, delivery.signal), (4321, 15));
    assert_eq!(pending, 0);
    assert!(forward_pending_signal(&mut pending, 4321).is_none());
    assert_eq!(pending, 0);
    let mut pending = 15;
    assert!(forward_pending_signal(&mut pending, 0x8000_0000).is_none());
    assert_eq!(pending, 0);
    let mut pending = 15;
    assert!(forward_pending_signal(&mut pending, 0x7fff_ffff).is_some());
    assert!(matches!(
        choose_ending(None, Some(15)),
        Ending::Signal { signal: 15, fallback: 143 }
    ));
    let mut observation = ProcessObservation::new(4321, None);
    let nothing = || {
        ObservationBoundary::new(ProcessSnapshot {
            processes: Table::new(),
            available: true,
            unreadable_pids: vec![],
        })
    };
    observation.observe(&nothing(), false);
    let report = ExecutionReport::new("sleep 30".to_string(), 1, 0, None, Some(15), observation);
    let report = report.render(&nothing(), Some(100)).join("\n");
    assert!(report.contains("Exit status: terminated by signal SIGTERM (15)"), "{report}");
}

#[test]
fn exit_codes_are_handed_on() {
    assert!(matches!(choose_ending(Some(7), None), Ending::Exit { code: 7 }));
    assert!(matches!(choose_ending(Some(0), None), Ending::Exit { code: 0 }));
    assert!(matches!(choose_ending(None, None), Ending::Exit { code: 1 }));
}

#[test]
fn the_first_signal_that_was_received_waits() {
    let mut pending = 0;
    record_signal(&mut pending, 0);
    assert_eq!(pending, 0);
    record_signal(&mut pending, 2);
    record_signal(&mut pending, 15);
    assert_eq!(pending, 2);
    assert_eq!(forward_pending_signal(&mut pending, 9).unwrap().signal, 2);
    record_signal(&mut pending, 15);
    assert_eq!(forward_pending_signal(&mut pending, 9).unwrap().signal, 15);
}

#[test]
fn steps_follow_events() {
    let mut pending = 2;
    match next_step(WaitEvent::Running, &mut pending, 50) {
        Step::Sample { delivery: Some(delivery) } => {
            assert_eq!((delivery.pid, delivery.signal), (50, 2))
        }
        _ => panic!("a running command is sampled"),
    }
    assert_eq!(pending, 0);
    assert!(matches!(
        next_step(WaitEvent::Running, &mut pending, 50),
        Step::Sample { delivery: None }
    ));
    let mut pending = 1;
    assert!(matches!(
        next_step(
            WaitEvent::Ended { exit_code: Some(3), termination_signal: None },
            &mut pending,
            50
        ),
        Step::Report { exit_code: Some(3), termination_signal: None }
    ));
    assert_eq!(pending, 1);
    assert!(matches!(next_step(WaitEvent::Lost, &mut pending, 50), Step::GiveUp));
    assert_eq!(pending, 1);
}

fn entry(pid: u32, limited: bool) -> ProcessDescriptors {
    ProcessDescriptors { pid, snapshot: FileDescriptorSnapshot { descriptors: vec![], limited } }
}

#[test]
fn tables_keep_one_item_for_a_key_in_order() {
    let mut table: Table<ProcessDescriptors> = Table::new();
    assert!(table.is_empty());
    for pid in [30, 10, 20, 10] {
        table.place(entry(pid, pid == 10 && table.len() == 3));
    }
    assert_eq!(table.len(), 3);
    let order: Vec<u32> = (0..3).map(|i| table.at(i).pid).collect();
    assert_eq!(order, vec![10, 20, 30]);
    assert_eq!(table.find(&20), Some(1));
    assert!(table.get(&10).unwrap().snapshot.limited);
    assert!(table.get(&25).is_none());
    assert_eq!(table.take_at(0).pid, 10);
    assert_eq!(table.find(&10), None);
    assert_eq!(table.len(), 2);
}

#[test]
fn tables_do_not_depend_on_the_order_of_placing() {
    let orders = [[1, 2, 3], [3, 1, 2], [2, 3, 1], [3, 2, 1]];
    for order in orders {
        let mut table: Table<ProcessDescriptors> = Table::new();
        for pid in order {
            table.place(entry(pid, pid == 2));
        }
        let found: Vec<(u32, bool)> =
            (0..3).map(|i| (table.at(i).pid, table.at(i).snapshot.limited)).collect();
        assert_eq!(found, vec![(1, false), (2, true), (3, false)]);
    }
}
