use sim2h_conmgr::{
    Backoff, CommandAction, ConMgrCommand, ConMgrEvent, ConMgrResult, ConnectionMgr,
    ConnectionWorker, ReadAction, ReadOutcome,
};
use sim2h_conmgr::{Intake, Received, WorkerReport};
use tokio::sync::mpsc::error::TryRecvError;

fn peer() -> String {
    "peerA".to_string()
}

fn one_worker(mgr: &mut ConnectionMgr<&'static str>) -> (ConnectionWorker<&'static str>, &'static str) {
    let mut fresh = mgr.take_new_workers();
    assert_eq!(fresh.len(), 1);
    let nw = fresh.remove(0);
    (nw.worker, nw.transport)
}

#[test]
fn read_error_disconnects_and_later_frames_are_dropped() {
    let (mut mgr, handle, mut out) = ConnectionMgr::<&'static str>::new();
    let _ = handle.connect(peer(), "T1");
    assert_eq!(mgr.process(), ConMgrResult::DidWork);
    let (mut w1, t) = one_worker(&mut mgr);
    assert_eq!(t, "T1");
    assert_eq!(w1.uri(), "peerA");

    let _ = handle.send_data(peer(), vec![0xF1]);
    assert_eq!(mgr.process(), ConMgrResult::DidWork);
    assert_eq!(w1.next_command(), CommandAction::Write(vec![0xF1]));
    assert_eq!(w1.next_command(), CommandAction::EndBatch);

    match w1.on_read(ReadOutcome::Failed("connection reset".to_string())) {
        ReadAction::Finish(ev) => assert!(w1.report(ev)),
        other => panic!("unexpected {:?}", other),
    }
    assert_eq!(mgr.process(), ConMgrResult::NoWork);
    assert_eq!(
        out.try_recv().unwrap(),
        ConMgrEvent::Disconnect(peer(), Some("connection reset".to_string()))
    );
    assert_eq!(mgr.worker_serial(&peer()), None);

    let _ = handle.send_data(peer(), vec![0xF2]);
    assert_eq!(mgr.process(), ConMgrResult::DidWork);
    assert_eq!(out.try_recv(), Err(TryRecvError::Empty));
    assert_eq!(mgr.worker_serial(&peer()), None);
    // the worker was told to stop when its disconnect came in, and got nothing after
    assert_eq!(w1.next_command(), CommandAction::Finish);
}

#[test]
fn second_connect_displaces_first_worker() {
    let (mut mgr, handle, mut out) = ConnectionMgr::<&'static str>::new();
    let _ = handle.connect(peer(), "T1");
    let _ = handle.connect(peer(), "T2");
    assert_eq!(mgr.process(), ConMgrResult::DidWork);
    let mut fresh = mgr.take_new_workers();
    assert_eq!(fresh.len(), 2);
    let nw2 = fresh.pop().unwrap();
    let nw1 = fresh.pop().unwrap();
    assert_eq!(nw1.transport, "T1");
    assert_eq!(nw2.transport, "T2");
    let mut w1 = nw1.worker;
    let mut w2 = nw2.worker;
    assert_ne!(w1.serial(), w2.serial());
    assert_eq!(mgr.worker_serial(&peer()), Some(w2.serial()));

    // the first worker was told to disconnect, and reports it
    assert_eq!(w1.next_command(), CommandAction::Finish);
    assert!(w1.report(w1.disconnect_event(None)));
    assert_eq!(mgr.process(), ConMgrResult::NoWork);
    assert_eq!(out.try_recv().unwrap(), ConMgrEvent::Disconnect(peer(), None));

    // the second worker stays registered and gets the traffic
    assert_eq!(mgr.worker_serial(&peer()), Some(w2.serial()));
    let _ = handle.send_data(peer(), vec![7, 8]);
    assert_eq!(mgr.process(), ConMgrResult::DidWork);
    assert_eq!(w2.next_command(), CommandAction::Write(vec![7, 8]));
}

#[test]
fn disconnect_of_unknown_identifier_is_a_no_op() {
    let (mut mgr, handle, mut out) = ConnectionMgr::<&'static str>::new();
    let _ = handle.disconnect("nobody".to_string());
    assert_eq!(mgr.process(), ConMgrResult::DidWork);
    assert_eq!(out.try_recv(), Err(TryRecvError::Empty));
    assert_eq!(mgr.worker_serial(&"nobody".to_string()), None);
    assert!(mgr.take_new_workers().is_empty());
}

#[test]
fn send_to_unknown_identifier_is_dropped() {
    let (mut mgr, handle, mut out) = ConnectionMgr::<&'static str>::new();
    let _ = handle.send_data("nobody".to_string(), vec![1, 2, 3]);
    assert_eq!(mgr.process(), ConMgrResult::DidWork);
    assert_eq!(out.try_recv(), Err(TryRecvError::Empty));
    assert_eq!(mgr.worker_serial(&"nobody".to_string()), None);
}

#[test]
fn explicit_disconnect_stops_the_worker() {
    let (mut mgr, handle, mut out) = ConnectionMgr::<&'static str>::new();
    let _ = handle.connect(peer(), "T1");
    mgr.process();
    let (mut w1, _) = one_worker(&mut mgr);
    let _ = handle.disconnect(peer());
    assert_eq!(mgr.process(), ConMgrResult::DidWork);
    assert_eq!(mgr.worker_serial(&peer()), None);
    assert_eq!(w1.next_command(), CommandAction::Finish);
    assert!(w1.report(w1.disconnect_event(None)));
    assert_eq!(mgr.process(), ConMgrResult::NoWork);
    assert_eq!(out.try_recv().unwrap(), ConMgrEvent::Disconnect(peer(), None));
}

#[test]
fn frames_of_one_identifier_keep_their_order() {
    let (mut mgr, handle, mut out) = ConnectionMgr::<&'static str>::new();
    let _ = handle.connect(peer(), "T1");
    let _ = handle.connect("peerB".to_string(), "T2");
    mgr.process();
    let mut fresh = mgr.take_new_workers();
    let wb = fresh.pop().unwrap().worker;
    let wa = fresh.pop().unwrap().worker;
    for i in 0..5u8 {
        match wa.on_read(ReadOutcome::Data(vec![i])) {
            ReadAction::Forward(ev) => assert!(wa.report(ev)),
            other => panic!("unexpected {:?}", other),
        }
        match wb.on_read(ReadOutcome::Data(vec![100 + i])) {
            ReadAction::Forward(ev) => assert!(wb.report(ev)),
            other => panic!("unexpected {:?}", other),
        }
    }
    assert_eq!(mgr.process(), ConMgrResult::NoWork);
    let mut a_frames = Vec::new();
    let mut b_frames = Vec::new();
    while let Ok(ev) = out.try_recv() {
        match ev {
            ConMgrEvent::ReceiveData(u, f) if u == "peerA" => a_frames.push(f[0]),
            ConMgrEvent::ReceiveData(_, f) => b_frames.push(f[0]),
            other => panic!("unexpected {:?}", other),
        }
    }
    assert_eq!(a_frames, vec![0, 1, 2, 3, 4]);
    assert_eq!(b_frames, vec![100, 101, 102, 103, 104]);
}

#[test]
fn dead_anchor_ends_the_manager_at_once() {
    let (mut mgr, handle, _out) = ConnectionMgr::<&'static str>::new();
    let _ = handle.connect(peer(), "T1");
    assert_eq!(mgr.tick(false), ConMgrResult::EndTask);
    assert_eq!(mgr.worker_serial(&peer()), None);
    assert_eq!(mgr.tick(true), ConMgrResult::DidWork);
    assert_eq!(mgr.worker_serial(&peer()), Some(0));
}

#[test]
fn dropping_every_handle_ends_manager_and_workers() {
    let (mut mgr, handle, _out) = ConnectionMgr::<&'static str>::new();
    let second = handle.clone();
    assert_eq!(std::sync::Arc::strong_count(handle.anchor()), 2);
    let _ = handle.connect(peer(), "T1");
    mgr.process();
    let (mut w1, _) = one_worker(&mut mgr);
    drop(handle);
    assert_eq!(mgr.process(), ConMgrResult::NoWork);
    drop(second);
    assert_eq!(mgr.process(), ConMgrResult::EndTask);
    drop(mgr);
    assert_eq!(w1.next_command(), CommandAction::Finish);
    assert!(!w1.report(w1.disconnect_event(None)));
}

#[test]
fn consumer_gone_ends_the_manager() {
    let (mut mgr, handle, out) = ConnectionMgr::<&'static str>::new();
    let _ = handle.connect(peer(), "T1");
    mgr.process();
    let (w1, _) = one_worker(&mut mgr);
    drop(out);
    assert!(w1.report(w1.disconnect_event(None)));
    assert_eq!(mgr.process(), ConMgrResult::EndTask);
}

#[test]
fn serial_numbers_count_up_from_zero() {
    let (mut mgr, handle, _out) = ConnectionMgr::<&'static str>::new();
    let _ = handle.connect("a".to_string(), "T1");
    let _ = handle.connect("b".to_string(), "T2");
    let _ = handle.connect("a".to_string(), "T3");
    mgr.process();
    assert_eq!(mgr.worker_serial(&"a".to_string()), Some(2));
    assert_eq!(mgr.worker_serial(&"b".to_string()), Some(1));
    let serials: Vec<u64> = mgr.take_new_workers().iter().map(|n| n.worker.serial()).collect();
    assert_eq!(serials, vec![0, 1, 2]);
}

#[test]
fn backoff_policy() {
    assert_eq!(ConMgrResult::DidWork.backoff(), Backoff::Yield);
    assert_eq!(ConMgrResult::NoWork.backoff(), Backoff::Sleep);
    assert_eq!(ConMgrResult::EndTask.backoff(), Backoff::Exit);
    assert_eq!(sim2h_conmgr::backoff_after(true), Backoff::Yield);
    assert_eq!(sim2h_conmgr::backoff_after(false), Backoff::Sleep);
    assert_eq!(sim2h_conmgr::IDLE_DELAY_MS, 5);
    assert_eq!(sim2h_conmgr::BATCH, 100);
}

#[test]
fn batch_caps_commands_per_tick() {
    let (mut mgr, handle, _out) = ConnectionMgr::<&'static str>::new();
    for i in 0..150u32 {
        let _ = handle.connect(format!("p{}", i), "T");
    }
    assert_eq!(mgr.process(), ConMgrResult::DidWork);
    assert_eq!(mgr.take_new_workers().len(), 100);
    assert_eq!(mgr.process(), ConMgrResult::DidWork);
    assert_eq!(mgr.take_new_workers().len(), 50);
    assert_eq!(mgr.process(), ConMgrResult::NoWork);
}

#[test]
fn step_functions_report_queue_outcomes() {
    let (mut mgr, _handle, mut out) = ConnectionMgr::<&'static str>::new();
    assert!(matches!(mgr.on_command(Received::Empty), Intake::Empty));
    assert!(matches!(mgr.on_command(Received::Closed), Intake::Closed));
    assert!(matches!(
        mgr.on_command(Received::Item(ConMgrCommand::Connect(peer(), "T1"))),
        Intake::Taken
    ));
    assert_eq!(mgr.worker_serial(&peer()), Some(0));
    let rep = WorkerReport { serial: 0, event: ConMgrEvent::ReceiveData(peer(), vec![5]) };
    assert!(matches!(mgr.on_report(Received::Item(rep)), Intake::Taken));
    assert_eq!(out.try_recv().unwrap(), ConMgrEvent::ReceiveData(peer(), vec![5]));
    drop(out);
    let rep = WorkerReport { serial: 0, event: ConMgrEvent::Disconnect(peer(), None) };
    assert!(matches!(mgr.on_report(Received::Item(rep)), Intake::Refused));
    assert_eq!(mgr.worker_serial(&peer()), None);
    assert!(matches!(mgr.on_report(Received::Empty), Intake::Empty));
}

#[test]
fn refused_frame_unregisters_the_worker() {
    let (mut mgr, handle, _out) = ConnectionMgr::<&'static str>::new();
    let _ = handle.connect(peer(), "T1");
    mgr.process();
    let (w1, _) = one_worker(&mut mgr);
    let _ = handle.send_data(peer(), vec![1]);
    mgr.process();
    assert_eq!(mgr.worker_serial(&peer()), Some(0));
    drop(w1);
    let _ = handle.send_data(peer(), vec![2]);
    assert_eq!(mgr.process(), ConMgrResult::DidWork);
    assert_eq!(mgr.worker_serial(&peer()), None);
}

#[test]
fn closed_command_queue_ends_after_queued_commands() {
    let (mut mgr, handle, _out) = ConnectionMgr::<&'static str>::new();
    let _ = handle.connect(peer(), "T1");
    let _ = handle.connect("peerB".to_string(), "T2");
    drop(handle);
    assert_eq!(mgr.process(), ConMgrResult::EndTask);
    assert_eq!(mgr.worker_serial(&peer()), Some(0));
    assert_eq!(mgr.worker_serial(&"peerB".to_string()), Some(1));
}

#[test]
fn handle_hands_back_commands_once_manager_is_gone() {
    let (mgr, handle, _out) = ConnectionMgr::<&'static str>::new();
    assert!(handle.send_data(peer(), vec![1]).is_ok());
    drop(mgr);
    match handle.connect(peer(), "T9") {
        Err(ConMgrCommand::Connect(u, t)) => {
            assert_eq!(u, "peerA");
            assert_eq!(t, "T9");
        }
        other => panic!("unexpected {:?}", other),
    }
    match handle.send_data(peer(), vec![4]) {
        Err(ConMgrCommand::SendData(u, f)) => {
            assert_eq!(u, "peerA");
            assert_eq!(f, vec![4]);
        }
        other => panic!("unexpected {:?}", other),
    }
    match handle.disconnect(peer()) {
        Err(ConMgrCommand::Disconnect(u)) => assert_eq!(u, "peerA"),
        other => panic!("unexpected {:?}", other),
    }
}
