use vstd::prelude::*;
use tokio::sync::mpsc::{UnboundedReceiver, UnboundedSender};
use crate::channel::{send, try_recv, Received};
use crate::event::{ConMgrCommand, ConMgrEvent, WorkerReport};
use crate::manager::{backoff_after, Backoff, BATCH};

verus! {

/// What a worker does with the command it found.
#[derive(Debug, PartialEq, Eq)]
pub enum CommandAction {
    /// Write this frame to the transport.
    Write(Vec<u8>),
    /// No command is queued now: go on to reading.
    EndBatch,
    /// Report a disconnect without error and end.
    Finish,
}

/// What one non-blocking read of the transport gave.
#[derive(Debug, PartialEq, Eq)]
pub enum ReadOutcome {
    Data(Vec<u8>),
    WouldBlock,
    Failed(String),
}

/// What a worker does after a read.
#[derive(Debug, PartialEq, Eq)]
pub enum ReadAction {
    /// Report this event and read on.
    Forward(ConMgrEvent),
    /// Nothing more can be read now: end this round of reads.
    EndBatch,
    /// Report this event and end.
    Finish(ConMgrEvent),
}

/// What a worker does next within its round.
#[derive(Debug, PartialEq, Eq)]
pub enum RoundStep {
    /// Take the next command.
    NextCommand,
    /// Try the next read.
    NextRead,
    /// The round is over: back off as given, then start a new round.
    Pause(Backoff),
    /// The worker ends.
    Stop,
}

/// Where a worker stands in its round: how many commands and reads it has
/// handled, and whether any of them did work. A round handles at most
/// `BATCH` commands, then at most `BATCH` reads.
#[derive(Debug)]
pub struct WorkerRound {
    pub commands: usize,
    pub reads: usize,
    pub did_work: bool,
}

impl WorkerRound {
    /// A round that has handled nothing yet.
    pub fn new() -> (r: Self)
        ensures
            r.commands == 0,
            r.reads == 0,
            !r.did_work,
    {
        WorkerRound { commands: 0, reads: 0, did_work: false }
    }

    /// A new round, and its first step: every round starts with commands.
    pub fn start() -> (r: (Self, RoundStep))
        ensures
            r.0.commands == 0,
            r.0.reads == 0,
            !r.0.did_work,
            r.1 is NextCommand,
    {
        (WorkerRound::new(), RoundStep::NextCommand)
    }

    /// The step after a command action was carried out; `write_failed`
    /// says whether the write of a `Write` failed. A failed write ends the
    /// worker (after its disconnect is reported, see `on_write`); a write
    /// is work; after `BATCH` commands, or an empty queue, the round goes on
    /// to reads; `Finish` ends the worker (see `closing_event`).
    pub fn after_command(&mut self, a: &CommandAction, write_failed: bool) -> (s: RoundStep)
        requires
            old(self).commands < BATCH,
            old(self).reads == 0,
        ensures
            final(self).reads == 0,
            match a {
                CommandAction::Write(_) => if write_failed {
                    *final(self) == *old(self) && s is Stop
                } else {
                    &&& final(self).did_work
                    &&& final(self).commands == old(self).commands + 1
                    &&& s == if final(self).commands == BATCH {
                        RoundStep::NextRead
                    } else {
                        RoundStep::NextCommand
                    }
                },
                CommandAction::EndBatch => *final(self) == *old(self) && s is NextRead,
                CommandAction::Finish => *final(self) == *old(self) && s is Stop,
            },
    {
        match a {
            CommandAction::Write(_) => {
                if write_failed {
                    return RoundStep::Stop;
                }
                self.did_work = true;
                self.commands = self.commands + 1;
                if self.commands == BATCH {
                    RoundStep::NextRead
                } else {
                    RoundStep::NextCommand
                }
            },
            CommandAction::EndBatch => RoundStep::NextRead,
            CommandAction::Finish => RoundStep::Stop,
        }
    }

    /// The step after a read action was carried out; `delivered` says
    /// whether the event of a `Forward` reached the manager. A delivered
    /// frame is work; after `BATCH` reads, or a would-block, the round ends
    /// with the back-off that its work calls for; an undelivered event or a
    /// `Finish` ends the worker.
    pub fn after_read(&mut self, a: &ReadAction, delivered: bool) -> (s: RoundStep)
        requires
            old(self).reads < BATCH,
        ensures
            final(self).commands == old(self).commands,
            match a {
                ReadAction::Forward(_) => if delivered {
                    &&& final(self).did_work
                    &&& final(self).reads == old(self).reads + 1
                    &&& s == if final(self).reads == BATCH {
                        RoundStep::Pause(Backoff::Yield)
                    } else {
                        RoundStep::NextRead
                    }
                } else {
                    *final(self) == *old(self) && s is Stop
                },
                ReadAction::EndBatch => *final(self) == *old(self) && s == RoundStep::Pause(
                    if old(self).did_work {
                        Backoff::Yield
                    } else {
                        Backoff::Sleep
                    },
                ),
                ReadAction::Finish(_) => *final(self) == *old(self) && s is Stop,
            },
    {
        match a {
            ReadAction::Forward(_) => {
                if !delivered {
                    return RoundStep::Stop;
                }
                self.did_work = true;
                self.reads = self.reads + 1;
                if self.reads == BATCH {
                    RoundStep::Pause(backoff_after(true))
                } else {
                    RoundStep::NextRead
                }
            },
            ReadAction::EndBatch => RoundStep::Pause(backoff_after(self.did_work)),
            ReadAction::Finish(_) => RoundStep::Stop,
        }
    }
}

/// The action for what a worker found on its command queue. A frame is
/// written; an explicit disconnect, or a queue that no sender can reach any
/// more, ends the worker. A connect is never addressed to a worker, and ends
/// it too.
pub fn command_action<T>(r: Received<ConMgrCommand<T>>) -> (a: CommandAction)
    ensures
        match r {
            Received::Item(ConMgrCommand::SendData(_, f)) => a == CommandAction::Write(f),
            Received::Item(_) => a is Finish,
            Received::Empty => a is EndBatch,
            Received::Closed => a is Finish,
        },
{
    match r {
        Received::Item(ConMgrCommand::SendData(_, f)) => CommandAction::Write(f),
        Received::Item(_) => CommandAction::Finish,
        Received::Empty => CommandAction::EndBatch,
        Received::Closed => CommandAction::Finish,
    }
}

/// The action after a read on the connection under `uri`. Data is
/// reported as it was read; a would-block ends the round; a hard error is
/// reported as a disconnect carrying it, and ends the worker.
pub fn read_action(uri: &String, r: ReadOutcome) -> (a: ReadAction)
    ensures
        match r {
            ReadOutcome::Data(f) => a matches ReadAction::Forward(ConMgrEvent::ReceiveData(u, g))
                && u@ == uri@ && g == f,
            ReadOutcome::WouldBlock => a is EndBatch,
            ReadOutcome::Failed(e) => a matches ReadAction::Finish(ConMgrEvent::Disconnect(u, d))
                && u@ == uri@ && d == Some(e),
        },
{
    match r {
        ReadOutcome::Data(f) => ReadAction::Forward(ConMgrEvent::ReceiveData(uri.clone(), f)),
        ReadOutcome::WouldBlock => ReadAction::EndBatch,
        ReadOutcome::Failed(e) => ReadAction::Finish(ConMgrEvent::Disconnect(uri.clone(), Some(e))),
    }
}

/// The event after a write to the connection under `uri`: none when the
/// write succeeded; a failed write is a hard error, reported as a disconnect
/// carrying it, after which the worker ends.
pub fn write_action(uri: &String, r: Result<(), String>) -> (e: Option<ConMgrEvent>)
    ensures
        match r {
            Ok(()) => e is None,
            Err(d) => e matches Some(ConMgrEvent::Disconnect(u, x)) && u@ == uri@ && x == Some(d),
        },
{
    match r {
        Ok(()) => None,
        Err(d) => Some(ConMgrEvent::Disconnect(uri.clone(), Some(d))),
    }
}

/// The task serving one connection, without its transport: the identifier
/// it serves, its serial number, its command queue and the queue of reports
/// shared by all workers.
#[verifier::reject_recursive_types(T)]
pub struct ConnectionWorker<T> {
    uri: String,
    serial: u64,
    cmd_recv: UnboundedReceiver<ConMgrCommand<T>>,
    evt_send: UnboundedSender<WorkerReport>,
}

/// A worker that the manager has registered and that is yet to be started,
/// with the transport it is to own.
#[verifier::reject_recursive_types(T)]
pub struct NewWorker<T> {
    pub worker: ConnectionWorker<T>,
    pub transport: T,
}

impl<T> ConnectionWorker<T> {
    /// The identifier this worker serves.
    pub closed spec fn uri_view(&self) -> Seq<char> {
        self.uri@
    }

    /// This worker's serial number.
    pub closed spec fn serial_view(&self) -> u64 {
        self.serial
    }

    pub fn uri(&self) -> (r: &String)
        ensures
            r@ == self.uri_view(),
    {
        &self.uri
    }

    pub fn serial(&self) -> (r: u64)
        ensures
            r == self.serial_view(),
    {
        self.serial
    }

    pub fn new(
        uri: String,
        serial: u64,
        cmd_recv: UnboundedReceiver<ConMgrCommand<T>>,
        evt_send: UnboundedSender<WorkerReport>,
    ) -> (w: Self)
        ensures
            w.uri_view() == uri@,
            w.serial_view() == serial,
    {
        ConnectionWorker { uri, serial, cmd_recv, evt_send }
    }

    /// Takes the next command off the queue, without waiting, and says what
    /// to do with it (see `command_action`).
    pub fn next_command(&mut self) -> (a: CommandAction)
        ensures
            final(self).uri_view() == old(self).uri_view(),
            final(self).serial_view() == old(self).serial_view(),
    {
        command_action(try_recv(&mut self.cmd_recv))
    }

    /// What to do after a read of this worker's transport (see `read_action`).
    pub fn on_read(&self, r: ReadOutcome) -> (a: ReadAction)
        ensures
            match r {
                ReadOutcome::Data(f) => a matches ReadAction::Forward(ConMgrEvent::ReceiveData(u, g))
                    && u@ == self.uri_view() && g == f,
                ReadOutcome::WouldBlock => a is EndBatch,
                ReadOutcome::Failed(e) => a matches ReadAction::Finish(ConMgrEvent::Disconnect(u, d))
                    && u@ == self.uri_view() && d == Some(e),
            },
    {
        read_action(&self.uri, r)
    }

    /// The disconnect this worker reports when it ends, with the transport
    /// error that ended it, if any. A failed write is such an error.
    pub fn disconnect_event(&self, err: Option<String>) -> (e: ConMgrEvent)
        ensures
            e matches ConMgrEvent::Disconnect(u, d) && u@ == self.uri_view() && d == err,
    {
        ConMgrEvent::Disconnect(self.uri.clone(), err)
    }

    /// `event` tagged with this worker's serial number.
    pub fn tagged(&self, event: ConMgrEvent) -> (r: WorkerReport)
        ensures
            r.serial == self.serial_view(),
            r.event == event,
    {
        WorkerReport { serial: self.serial, event }
    }

    /// The event a worker reports when a command action ends it: an explicit
    /// disconnect, or a command queue that no sender can reach, is reported
    /// as a disconnect without error. Other actions report nothing here.
    pub fn closing_event(&self, a: &CommandAction) -> (e: Option<ConMgrEvent>)
        ensures
            a is Finish ==> (e matches Some(ConMgrEvent::Disconnect(u, x)) && u@ == self.uri_view()
                && x is None),
            !(a is Finish) ==> e is None,
    {
        match a {
            CommandAction::Finish => Some(self.disconnect_event(None)),
            _ => None,
        }
    }

    /// Hands `event` to the manager, tagged (see `tagged`). Returns false when
    /// the manager can no longer receive it.
    pub fn report(&self, event: ConMgrEvent) -> (ok: bool) {
        send(&self.evt_send, self.tagged(event)).is_ok()
    }

    /// What to do after a write of this worker's transport (see
    /// `write_action`).
    pub fn on_write(&self, r: Result<(), String>) -> (e: Option<ConMgrEvent>)
        ensures
            match r {
                Ok(()) => e is None,
                Err(d) => e matches Some(ConMgrEvent::Disconnect(u, x)) && u@ == self.uri_view()
                    && x == Some(d),
            },
    {
        write_action(&self.uri, r)
    }
}

} // verus!
