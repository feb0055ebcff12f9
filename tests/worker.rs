use sim2h_conmgr::{Backoff, RoundStep, WorkerRound, BATCH};
use sim2h_conmgr::{
    command_action, read_action, CommandAction, ConMgrCommand, ConMgrEvent, ConnectionWorker,
    ReadAction, ReadOutcome, Received, WorkerEntry, WorkerRegistry, WorkerReport,
};

#[test]
fn commands_map_to_worker_actions() {
    let send: Received<ConMgrCommand<u8>> =
        Received::Item(ConMgrCommand::SendData("p".to_string(), vec![4, 5]));
    assert_eq!(command_action(send), CommandAction::Write(vec![4, 5]));
    let stop: Received<ConMgrCommand<u8>> = Received::Item(ConMgrCommand::Disconnect("p".to_string()));
    assert_eq!(command_action(stop), CommandAction::Finish);
    let connect: Received<ConMgrCommand<u8>> = Received::Item(ConMgrCommand::Connect("p".to_string(), 1));
    assert_eq!(command_action(connect), CommandAction::Finish);
    assert_eq!(command_action::<u8>(Received::Empty), CommandAction::EndBatch);
    assert_eq!(command_action::<u8>(Received::Closed), CommandAction::Finish);
}

#[test]
fn reads_map_to_worker_actions() {
    let uri = "peerA".to_string();
    assert_eq!(
        read_action(&uri, ReadOutcome::Data(vec![9])),
        ReadAction::Forward(ConMgrEvent::ReceiveData("peerA".to_string(), vec![9]))
    );
    assert_eq!(read_action(&uri, ReadOutcome::WouldBlock), ReadAction::EndBatch);
    assert_eq!(
        read_action(&uri, ReadOutcome::Failed("broken pipe".to_string())),
        ReadAction::Finish(ConMgrEvent::Disconnect("peerA".to_string(), Some("broken pipe".to_string())))
    );
}

#[test]
fn worker_reports_carry_its_serial() {
    let (_cmd_send, cmd_recv) = tokio::sync::mpsc::unbounded_channel::<ConMgrCommand<u8>>();
    let (evt_send, mut evt_recv) = tokio::sync::mpsc::unbounded_channel::<WorkerReport>();
    let w = ConnectionWorker::new("peerA".to_string(), 42, cmd_recv, evt_send);
    assert_eq!(w.serial(), 42);
    assert_eq!(w.uri(), "peerA");
    assert!(w.report(w.disconnect_event(Some("eof".to_string()))));
    let rep = evt_recv.try_recv().unwrap();
    assert_eq!(rep.serial, 42);
    assert_eq!(rep.event, ConMgrEvent::Disconnect("peerA".to_string(), Some("eof".to_string())));
    assert_eq!(rep.event.uri(), "peerA");
    drop(evt_recv);
    assert!(!w.report(w.disconnect_event(None)));
}

#[test]
fn worker_drains_its_queue_in_order() {
    let (cmd_send, cmd_recv) = tokio::sync::mpsc::unbounded_channel::<ConMgrCommand<u8>>();
    let (evt_send, _evt_recv) = tokio::sync::mpsc::unbounded_channel::<WorkerReport>();
    let mut w = ConnectionWorker::new("p".to_string(), 0, cmd_recv, evt_send);
    cmd_send.send(ConMgrCommand::SendData("p".to_string(), vec![1])).unwrap();
    cmd_send.send(ConMgrCommand::SendData("p".to_string(), vec![2])).unwrap();
    assert_eq!(w.next_command(), CommandAction::Write(vec![1]));
    assert_eq!(w.next_command(), CommandAction::Write(vec![2]));
    assert_eq!(w.next_command(), CommandAction::EndBatch);
    drop(cmd_send);
    assert_eq!(w.next_command(), CommandAction::Finish);
}

fn entry(uri: &str, serial: u64) -> WorkerEntry<u8> {
    let (cmd_send, _) = tokio::sync::mpsc::unbounded_channel();
    WorkerEntry { uri: uri.to_string(), serial, cmd_send }
}

#[test]
fn registry_keeps_one_entry_per_identifier() {
    let mut reg: WorkerRegistry<u8> = WorkerRegistry::new();
    assert!(reg.insert(entry("a", 1)).is_none());
    assert!(reg.insert(entry("b", 2)).is_none());
    let prev = reg.insert(entry("a", 3)).unwrap();
    assert_eq!(prev.serial, 1);
    assert_eq!(prev.uri, "a");
    assert_eq!(reg.serial_of(&"a".to_string()), Some(3));
    assert_eq!(reg.serial_of(&"b".to_string()), Some(2));
    assert_eq!(reg.get(&"a".to_string()).unwrap().serial, 3);
    let gone = reg.remove(&"a".to_string()).unwrap();
    assert_eq!(gone.serial, 3);
    assert!(reg.remove(&"a".to_string()).is_none());
    assert_eq!(reg.serial_of(&"a".to_string()), None);
    assert_eq!(reg.serial_of(&"b".to_string()), Some(2));
    assert!(reg.get(&"zzz".to_string()).is_none());
}

#[test]
fn writes_map_to_worker_events() {
    let uri = "peerA".to_string();
    assert_eq!(sim2h_conmgr::write_action(&uri, Ok(())), None);
    assert_eq!(
        sim2h_conmgr::write_action(&uri, Err("reset".to_string())),
        Some(ConMgrEvent::Disconnect("peerA".to_string(), Some("reset".to_string())))
    );
}

#[test]
fn tagged_report_holds_serial_and_event() {
    let (_cmd_send, cmd_recv) = tokio::sync::mpsc::unbounded_channel::<ConMgrCommand<u8>>();
    let (evt_send, _evt_recv) = tokio::sync::mpsc::unbounded_channel::<WorkerReport>();
    let w = ConnectionWorker::new("peerA".to_string(), 7, cmd_recv, evt_send);
    let rep = w.tagged(ConMgrEvent::ReceiveData("peerA".to_string(), vec![3]));
    assert_eq!(rep.serial, 7);
    assert_eq!(rep.event, ConMgrEvent::ReceiveData("peerA".to_string(), vec![3]));
    assert_eq!(
        w.on_write(Err("eof".to_string())),
        Some(ConMgrEvent::Disconnect("peerA".to_string(), Some("eof".to_string())))
    );
    assert_eq!(w.on_write(Ok(())), None);
}

#[test]
fn worker_round_counts_batches_and_work() {
    let mut r = WorkerRound::new();
    assert_eq!(r.after_command(&CommandAction::EndBatch, false), RoundStep::NextRead);
    assert_eq!(r.after_read(&ReadAction::EndBatch, true), RoundStep::Pause(Backoff::Sleep));

    let mut r = WorkerRound::new();
    for _ in 0..BATCH - 1 {
        assert_eq!(r.after_command(&CommandAction::Write(vec![1]), false), RoundStep::NextCommand);
    }
    assert_eq!(r.after_command(&CommandAction::Write(vec![1]), false), RoundStep::NextRead);
    assert!(r.did_work);
    assert_eq!(r.commands, BATCH);
    assert_eq!(r.after_read(&ReadAction::EndBatch, true), RoundStep::Pause(Backoff::Yield));

    let mut r = WorkerRound::new();
    assert_eq!(r.after_command(&CommandAction::Finish, false), RoundStep::Stop);
    let mut r = WorkerRound::new();
    let fwd = ReadAction::Forward(ConMgrEvent::ReceiveData("p".to_string(), vec![1]));
    assert_eq!(r.after_read(&fwd, true), RoundStep::NextRead);
    assert_eq!(r.reads, 1);
    assert_eq!(r.after_read(&fwd, false), RoundStep::Stop);
    let fin = ReadAction::Finish(ConMgrEvent::Disconnect("p".to_string(), None));
    assert_eq!(r.after_read(&fin, true), RoundStep::Stop);
    let mut r = WorkerRound::new();
    for _ in 0..BATCH - 1 {
        assert_eq!(r.after_read(&fwd, true), RoundStep::NextRead);
    }
    assert_eq!(r.after_read(&fwd, true), RoundStep::Pause(Backoff::Yield));
}

#[test]
fn failed_write_and_finish_end_the_worker() {
    let (mut r, first) = WorkerRound::start();
    assert_eq!(first, RoundStep::NextCommand);
    assert_eq!(r.after_command(&CommandAction::Write(vec![1]), true), RoundStep::Stop);
    assert!(!r.did_work);
    let (_cmd_send, cmd_recv) = tokio::sync::mpsc::unbounded_channel::<ConMgrCommand<u8>>();
    let (evt_send, _evt_recv) = tokio::sync::mpsc::unbounded_channel::<WorkerReport>();
    let w = ConnectionWorker::new("peerA".to_string(), 1, cmd_recv, evt_send);
    assert_eq!(
        w.closing_event(&CommandAction::Finish),
        Some(ConMgrEvent::Disconnect("peerA".to_string(), None))
    );
    assert_eq!(w.closing_event(&CommandAction::EndBatch), None);
    assert_eq!(w.closing_event(&CommandAction::Write(vec![2])), None);
}
