use vstd::prelude::*;
use std::sync::Arc;
use tokio::sync::mpsc::{UnboundedReceiver, UnboundedSender};
use crate::channel::{clone_sender, send, try_recv, unbounded_channel, Received};
use crate::event::{ConMgrCommand, ConMgrEvent, WorkerReport};
use crate::registry::{WorkerEntry, WorkerRegistry};
use crate::worker::{ConnectionWorker, NewWorker};

verus! {

/// Most commands, and most worker reports, that one tick handles.
pub const BATCH: usize = 100;

/// How long an idle task sleeps before its next round, in milliseconds.
pub const IDLE_DELAY_MS: u64 = 5;

/// The outcome of one tick of the manager.
#[derive(Debug, PartialEq, Eq, Structural)]
pub enum ConMgrResult {
    DidWork,
    NoWork,
    EndTask,
}

/// What a task's driving loop does after a round.
#[derive(Debug, PartialEq, Eq, Structural)]
pub enum Backoff {
    /// Go on at once, after letting other tasks run.
    Yield,
    /// Sleep for `IDLE_DELAY_MS` first.
    Sleep,
    /// Stop.
    Exit,
}

/// After a round of a worker: no delay when it did work, a short sleep when
/// it was idle.
pub fn backoff_after(did_work: bool) -> (b: Backoff)
    ensures
        did_work ==> b is Yield,
        !did_work ==> b is Sleep,
{
    if did_work {
        Backoff::Yield
    } else {
        Backoff::Sleep
    }
}

impl ConMgrResult {
    /// The manager's loop backs off as a worker does, and stops at the end.
    pub fn backoff(&self) -> (b: Backoff)
        ensures
            self is DidWork ==> b is Yield,
            self is NoWork ==> b is Sleep,
            self is EndTask ==> b is Exit,
    {
        match self {
            ConMgrResult::DidWork => Backoff::Yield,
            ConMgrResult::NoWork => Backoff::Sleep,
            ConMgrResult::EndTask => Backoff::Exit,
        }
    }
}

/// Relies on `Arc::clone` from std: one more strong reference to the anchor.
#[verifier::external_body]
fn clone_anchor(a: &Arc<()>) -> (r: Arc<()>) {
    Arc::clone(a)
}

/// A command handed to a worker, as a ghost record: the worker's serial
/// number, the frame for `SendData` (`None` for `Disconnect`), and whether
/// the worker's queue accepted it.
pub type Dispatch = (u64, Option<Seq<u8>>, bool);

/// How one attempt to take an item off one of the manager's queues ended.
pub enum Intake {
    /// An item was taken in (a report: and its event handed to the consumer).
    Taken,
    /// A report was taken in, but the consumer no longer accepts its event.
    Refused,
    /// Nothing was queued.
    Empty,
    /// Nothing was queued, and nothing more can come.
    Closed,
}

/// `post` is `pre` with one more command handed to worker `s`, with frame
/// `f` (`None` for a disconnect).
pub open spec fn sent_one(pre: Seq<Dispatch>, post: Seq<Dispatch>, s: u64, f: Option<Seq<u8>>) -> bool {
    &&& post.len() == pre.len() + 1
    &&& post.drop_last() == pre
    &&& post.last().0 == s
    &&& post.last().1 == f
}

proof fn lemma_push_keeps_taken(s: Seq<Intake>, k: Intake, lo: int, hi: int)
    requires
        0 <= lo,
        hi <= s.len(),
        forall|i: int| lo <= i < hi - 1 ==> #[trigger] s[i] is Taken,
        lo < hi ==> s[hi - 1] is Taken,
    ensures
        forall|i: int| lo <= i < hi ==> #[trigger] s.push(k)[i] is Taken,
{
    assert forall|i: int| lo <= i < hi implies #[trigger] s.push(k)[i] is Taken by {
        assert(s.push(k)[i] == s[i]);
    }
}

/// Worker `b` (identifier, serial number) is the one registered under its
/// identifier in `w`.
pub open spec fn registered(w: Map<Seq<char>, u64>, b: (Seq<char>, u64)) -> bool {
    w.contains_key(b.0) && w[b.0] == b.1
}

/// Worker `s` was told to disconnect, or its queue refused a frame (it is
/// gone).
pub open spec fn told_to_stop(d: Seq<Dispatch>, s: u64) -> bool {
    exists|j: int| 0 <= j < d.len() && (#[trigger] d[j]).0 == s && (d[j].1 is None || !d[j].2)
}

/// Every worker in `born` that is not the one registered under its
/// identifier in `w` was told to stop, as `d` records.
pub open spec fn displaced_told(born: Seq<(Seq<char>, u64)>, w: Map<Seq<char>, u64>, d: Seq<Dispatch>) -> bool {
    forall|i: int| 0 <= i < born.len() && !registered(w, #[trigger] born[i]) ==> told_to_stop(d, born[i].1)
}

proof fn lemma_displaced_told_kept(
    born: Seq<(Seq<char>, u64)>,
    w0: Map<Seq<char>, u64>,
    w1: Map<Seq<char>, u64>,
    d0: Seq<Dispatch>,
    d1: Seq<Dispatch>,
)
    requires
        displaced_told(born, w0, d0),
        d0.len() <= d1.len(),
        forall|j: int| 0 <= j < d0.len() ==> d1[j] == d0[j],
        forall|i: int| 0 <= i < born.len() && registered(w0, #[trigger] born[i]) && !registered(w1, born[i])
            ==> told_to_stop(d1, born[i].1),
    ensures
        displaced_told(born, w1, d1),
{
    assert forall|i: int| 0 <= i < born.len() && !registered(w1, #[trigger] born[i]) implies told_to_stop(
        d1,
        born[i].1,
    ) by {
        if !registered(w0, born[i]) {
            let j = choose|j: int| 0 <= j < d0.len() && (#[trigger] d0[j]).0 == born[i].1 && (d0[j].1 is None || !d0[j].2);
            assert(d1[j] == d0[j]);
        }
    }
}

/// A step that changes the registry from `w0` to `w1` keeps
/// `displaced_told` when the only worker it unregisters (or replaces) is the
/// one its last recorded command told to stop.
proof fn lemma_stop_recorded(
    born: Seq<(Seq<char>, u64)>,
    w0: Map<Seq<char>, u64>,
    w1: Map<Seq<char>, u64>,
    d0: Seq<Dispatch>,
    d1: Seq<Dispatch>,
)
    requires
        displaced_told(born, w0, d0),
        d0.len() <= d1.len(),
        forall|j: int| 0 <= j < d0.len() ==> d1[j] == d0[j],
        forall|k: Seq<char>| #[trigger]
            w0.contains_key(k) && !(w1.contains_key(k) && w1[k] == w0[k]) ==> d1.len() > 0
                && d1.last().0 == w0[k] && (d1.last().1 is None || !d1.last().2),
    ensures
        displaced_told(born, w1, d1),
{
    assert forall|i: int| 0 <= i < born.len() && registered(w0, #[trigger] born[i]) && !registered(w1, born[i])
        implies told_to_stop(d1, born[i].1) by {
        assert(w0.contains_key(born[i].0));
        assert(d1[d1.len() - 1] == d1.last());
    }
    lemma_displaced_told_kept(born, w0, w1, d0, d1);
}

/// The intake recorded for what a receive found.
pub open spec fn intake_of<A>(r: Received<A>) -> Intake {
    match r {
        Received::Item(_) => Intake::Taken,
        Received::Empty => Intake::Empty,
        Received::Closed => Intake::Closed,
    }
}

/// The manager: routes commands to the worker registered under their
/// identifier, and the reports of all workers to one outward queue.
///
/// Ghost records keep the commands handed to workers, the events of worker
/// reports as they are taken in, the events handed to the consumer, and how
/// each attempt on the command queue and on the report queue ended.
#[verifier::reject_recursive_types(T)]
pub struct ConnectionMgr<T> {
    cmd_recv: UnboundedReceiver<ConMgrCommand<T>>,
    evt_send_to_parent: UnboundedSender<ConMgrEvent>,
    evt_send_from_children: UnboundedSender<WorkerReport>,
    evt_recv_from_children: UnboundedReceiver<WorkerReport>,
    wss_map: WorkerRegistry<T>,
    next_serial: u64,
    spawned: Vec<NewWorker<T>>,
    dispatched: Ghost<Seq<Dispatch>>,
    reports: Ghost<Seq<ConMgrEvent>>,
    forwarded: Ghost<Seq<ConMgrEvent>>,
    cmd_log: Ghost<Seq<Intake>>,
    report_log: Ghost<Seq<Intake>>,
    born: Ghost<Seq<(Seq<char>, u64)>>,
    cmds_in: Ghost<Seq<ConMgrCommand<T>>>,
    reports_in: Ghost<Seq<WorkerReport>>,
}

/// The public face of a manager: it enqueues commands, and each of its
/// clones holds the manager alive through a strong reference to the anchor.
#[verifier::reject_recursive_types(T)]
pub struct ConnectionMgrHandle<T> {
    anchor: Arc<()>,
    send_cmd: UnboundedSender<ConMgrCommand<T>>,
}

impl<T> ConnectionMgr<T> {
    /// Identifier to serial number of the worker registered under it.
    pub closed spec fn workers(&self) -> Map<Seq<char>, u64> {
        self.wss_map@
    }

    /// The commands handed to workers so far, oldest first.
    pub closed spec fn dispatched(&self) -> Seq<Dispatch> {
        self.dispatched@
    }

    /// The events of the worker reports taken in so far, oldest first.
    pub closed spec fn reports(&self) -> Seq<ConMgrEvent> {
        self.reports@
    }

    /// The events handed to the consumer so far, oldest first.
    pub closed spec fn forwarded(&self) -> Seq<ConMgrEvent> {
        self.forwarded@
    }

    /// How each attempt on the command queue ended, oldest first.
    pub closed spec fn cmd_log(&self) -> Seq<Intake> {
        self.cmd_log@
    }

    /// How each attempt on the report queue ended, oldest first.
    pub closed spec fn report_log(&self) -> Seq<Intake> {
        self.report_log@
    }

    /// Registered workers that are yet to be started, oldest first.
    pub closed spec fn pending(&self) -> Seq<NewWorker<T>> {
        self.spawned@
    }

    /// The serial number that the next worker gets.
    pub closed spec fn next_serial_spec(&self) -> u64 {
        self.next_serial
    }

    /// Every worker ever registered, as identifier and serial number, oldest
    /// first.
    pub closed spec fn born(&self) -> Seq<(Seq<char>, u64)> {
        self.born@
    }

    /// The commands taken in so far, oldest first.
    pub closed spec fn commands_in(&self) -> Seq<ConMgrCommand<T>> {
        self.cmds_in@
    }

    /// The worker reports taken in so far, oldest first.
    pub closed spec fn reports_in(&self) -> Seq<WorkerReport> {
        self.reports_in@
    }

    /// `a` and `b` agree on the registry, the commands handed to workers,
    /// the workers awaiting start, the serial counter and the workers ever
    /// registered.
    pub open spec fn same_model(a: Self, b: Self) -> bool {
        &&& a.workers() == b.workers()
        &&& a.dispatched() == b.dispatched()
        &&& a.pending() == b.pending()
        &&& a.next_serial_spec() == b.next_serial_spec()
        &&& a.born() == b.born()
    }

    /// `trail` leads from `pre` to `post` by carrying out the commands `cs`
    /// in order (`command_done`), then taking in the reports `rs` in order
    /// (`report_done`).
    pub open spec fn trail_ok(
        pre: Self,
        post: Self,
        cs: Seq<ConMgrCommand<T>>,
        rs: Seq<WorkerReport>,
        trail: Seq<Self>,
    ) -> bool {
        &&& trail.len() == cs.len() + rs.len() + 1
        &&& Self::same_model(trail[0], pre)
        &&& Self::same_model(trail.last(), post)
        &&& forall|i: int| 0 <= i < cs.len() ==> Self::command_done(trail[i], trail[i + 1], #[trigger] cs[i])
        &&& forall|i: int|
            0 <= i < rs.len() ==> Self::report_done(
                trail[cs.len() + i],
                trail[cs.len() + i + 1],
                #[trigger] rs[i],
            )
    }

    /// The registry of live workers.
    pub closed spec fn registry(&self) -> WorkerRegistry<T> {
        self.wss_map
    }

    /// The registry is well formed; every registered serial number was
    /// handed out before the next one (short of the counter's last value);
    /// every worker ever registered that is no longer the one registered under
    /// its identifier was told to stop.
    pub closed spec fn wf(&self) -> bool {
        &&& self.wss_map.wf()
        &&& displaced_told(self.born@, self.wss_map@, self.dispatched@)
        &&& forall|k: Seq<char>| #[trigger]
            self.wss_map@.contains_key(k) ==> self.wss_map@[k] < self.next_serial
                || self.wss_map@[k] == u64::MAX
    }

    /// Nothing but the intake records differs between `pre` and `post`.
    pub open spec fn same_but_logs(pre: Self, post: Self) -> bool {
        &&& post.workers() == pre.workers()
        &&& post.dispatched() == pre.dispatched()
        &&& post.pending() == pre.pending()
        &&& post.next_serial_spec() == pre.next_serial_spec()
        &&& post.reports() == pre.reports()
        &&& post.forwarded() == pre.forwarded()
        &&& post.born() == pre.born()
    }

    /// What carrying out `cmd` does to the registry, the commands handed to
    /// workers and the workers awaiting start.
    ///
    /// `Connect` registers a new worker under the identifier, with a serial
    /// number that no registered worker has (short of the counter's last
    /// value); a worker registered there before is told to disconnect: the
    /// last connect wins. `SendData` hands the frame to the worker registered
    /// under the identifier, and forgets that worker exactly when its queue
    /// refuses the frame; with none registered, the frame is dropped.
    /// `Disconnect` takes out the worker registered under the identifier and
    /// tells it to disconnect; with none, nothing happens.
    pub open spec fn command_done(pre: Self, post: Self, cmd: ConMgrCommand<T>) -> bool {
        match cmd {
            ConMgrCommand::Connect(uri, t) => {
                let s = pre.next_serial_spec();
                &&& s < u64::MAX ==> forall|k: Seq<char>|
                    #[trigger] pre.workers().contains_key(k) ==> pre.workers()[k] != s
                &&& post.workers() == pre.workers().insert(uri@, s)
                &&& post.born() == pre.born().push((uri@, s))
                &&& if pre.workers().contains_key(uri@) {
                    sent_one(pre.dispatched(), post.dispatched(), pre.workers()[uri@], None)
                } else {
                    post.dispatched() == pre.dispatched()
                }
                &&& post.pending().len() == pre.pending().len() + 1
                &&& post.pending().drop_last() == pre.pending()
                &&& post.pending().last().worker.uri_view() == uri@
                &&& post.pending().last().worker.serial_view() == s
                &&& post.pending().last().transport == t
                &&& post.next_serial_spec() == if s < u64::MAX { (s + 1) as u64 } else { s }
            },
            ConMgrCommand::SendData(uri, f) => {
                &&& post.born() == pre.born()
                &&& post.pending() == pre.pending()
                &&& post.next_serial_spec() == pre.next_serial_spec()
                &&& if pre.workers().contains_key(uri@) {
                    &&& sent_one(pre.dispatched(), post.dispatched(), pre.workers()[uri@], Some(f@))
                    &&& post.workers() == if post.dispatched().last().2 {
                        pre.workers()
                    } else {
                        pre.workers().remove(uri@)
                    }
                } else {
                    &&& post.workers() == pre.workers()
                    &&& post.dispatched() == pre.dispatched()
                }
            },
            ConMgrCommand::Disconnect(uri) => {
                &&& post.born() == pre.born()
                &&& post.pending() == pre.pending()
                &&& post.next_serial_spec() == pre.next_serial_spec()
                &&& post.workers() == pre.workers().remove(uri@)
                &&& if pre.workers().contains_key(uri@) {
                    sent_one(pre.dispatched(), post.dispatched(), pre.workers()[uri@], None)
                } else {
                    post.dispatched() == pre.dispatched()
                }
            },
        }
    }

    /// What taking in `rep` does to the registry and the commands handed to
    /// workers: a disconnect reported by the worker registered under its
    /// identifier takes that worker out (and tells it so); one reported by a
    /// worker already taken out or displaced changes nothing.
    pub open spec fn report_done(pre: Self, post: Self, rep: WorkerReport) -> bool {
        let u = rep.event.uri_of();
        &&& post.born() == pre.born()
        &&& post.pending() == pre.pending()
        &&& post.next_serial_spec() == pre.next_serial_spec()
        &&& if rep.event is Disconnect && pre.workers().contains_key(u) && pre.workers()[u]
            == rep.serial {
            &&& post.workers() == pre.workers().remove(u)
            &&& sent_one(pre.dispatched(), post.dispatched(), rep.serial, None)
        } else {
            &&& post.workers() == pre.workers()
            &&& post.dispatched() == pre.dispatched()
        }
    }

    /// What one tick with a live anchor does. It makes at most `BATCH`
    /// attempts on the command queue, stopping early only when the queue is
    /// empty or closed; a closed command queue ends the task. Otherwise it
    /// makes at most `BATCH` attempts on the report queue, stopping early only
    /// when that queue is empty or closed or the consumer refuses an event;
    /// those two end the task too. Short of ending, the tick did work exactly
    /// when it took in a command. The registry, the commands handed to
    /// workers, the workers awaiting start and the workers ever registered
    /// change exactly as carrying out the commands taken in, in order, then
    /// the reports taken in, in order, requires (`trail_ok`). Every report
    /// taken in reaches the consumer unchanged and in order; only when the
    /// consumer refused one does the tick end short of the last.
    pub open spec fn tick_done(pre: Self, post: Self, r: ConMgrResult) -> bool {
        let c = post.cmd_log().subrange(pre.cmd_log().len() as int, post.cmd_log().len() as int);
        let e = post.report_log().subrange(
            pre.report_log().len() as int,
            post.report_log().len() as int,
        );
        let q = post.commands_in().subrange(
            pre.commands_in().len() as int,
            post.commands_in().len() as int,
        );
        let p = post.reports_in().subrange(
            pre.reports_in().len() as int,
            post.reports_in().len() as int,
        );
        let nr = post.reports().subrange(pre.reports().len() as int, post.reports().len() as int);
        let nf = post.forwarded().subrange(
            pre.forwarded().len() as int,
            post.forwarded().len() as int,
        );
        &&& pre.cmd_log().len() <= post.cmd_log().len()
        &&& post.cmd_log().subrange(0, pre.cmd_log().len() as int) == pre.cmd_log()
        &&& pre.report_log().len() <= post.report_log().len()
        &&& post.report_log().subrange(0, pre.report_log().len() as int) == pre.report_log()
        &&& 1 <= c.len() <= BATCH
        &&& forall|i: int| 0 <= i < c.len() - 1 ==> #[trigger] c[i] is Taken
        &&& c.last() is Taken || c.last() is Empty || c.last() is Closed
        &&& c.len() < BATCH ==> !(c.last() is Taken)
        &&& c.last() is Closed ==> e.len() == 0
        &&& !(c.last() is Closed) ==> {
            &&& 1 <= e.len() <= BATCH
            &&& forall|i: int| 0 <= i < e.len() - 1 ==> #[trigger] e[i] is Taken
            &&& e.len() < BATCH ==> !(e.last() is Taken)
        }
        &&& (r is EndTask <==> (c.last() is Closed || e.last() is Closed || e.last() is Refused))
        &&& (r is DidWork <==> (!(r is EndTask) && c[0] is Taken))
        &&& pre.pending().len() <= post.pending().len()
        &&& pre.reports().len() <= post.reports().len()
        &&& post.reports().subrange(0, pre.reports().len() as int) == pre.reports()
        &&& pre.forwarded().len() <= post.forwarded().len()
        &&& post.forwarded().subrange(0, pre.forwarded().len() as int) == pre.forwarded()
        &&& nf.len() <= nr.len()
        &&& nf == nr.subrange(0, nf.len() as int)
        &&& !(r is EndTask) ==> nf == nr
        &&& pre.commands_in().len() <= post.commands_in().len()
        &&& post.commands_in().subrange(0, pre.commands_in().len() as int) == pre.commands_in()
        &&& pre.reports_in().len() <= post.reports_in().len()
        &&& post.reports_in().subrange(0, pre.reports_in().len() as int) == pre.reports_in()
        &&& q.len() + (if c.last() is Taken { 0int } else { 1int }) == c.len()
        &&& p.len() + (if e.len() > 0 && !(e.last() is Taken || e.last() is Refused) {
            1int
        } else {
            0int
        }) == e.len()
        &&& exists|trail: Seq<Self>| #[trigger] Self::trail_ok(pre, post, q, p, trail)
    }

    /// At any time, the manager holds at most one worker entry per
    /// identifier.
    pub proof fn lemma_one_worker_per_identifier(&self, i: int, j: int)
        requires
            self.wf(),
            0 <= i < self.registry().len_spec(),
            0 <= j < self.registry().len_spec(),
            self.registry().uri_at(i) == self.registry().uri_at(j),
        ensures
            i == j,
    {
        self.wss_map.lemma_one_entry_per_identifier(i, j);
    }

    /// At any time, every worker this manager ever registered, other than
    /// the one now registered under its identifier, was told to disconnect
    /// or had already lost its queue: at most one live worker is meant to
    /// serve each identifier.
    pub proof fn lemma_displaced_workers_told_to_stop(&self, i: int)
        requires
            self.wf(),
            0 <= i < self.born().len(),
            !registered(self.workers(), self.born()[i]),
        ensures
            told_to_stop(self.dispatched(), self.born()[i].1),
    {
    }

    /// A manager with no worker, its handle, and the queue on which it
    /// reports to its consumer.
    pub fn new() -> (r: (ConnectionMgr<T>, ConnectionMgrHandle<T>, UnboundedReceiver<ConMgrEvent>))
        ensures
            r.0.wf(),
            r.0.workers() == Map::<Seq<char>, u64>::empty(),
            r.0.next_serial_spec() == 0,
            r.0.dispatched() == Seq::<Dispatch>::empty(),
            r.0.reports() == Seq::<ConMgrEvent>::empty(),
            r.0.forwarded() == Seq::<ConMgrEvent>::empty(),
            r.0.cmd_log() == Seq::<Intake>::empty(),
            r.0.report_log() == Seq::<Intake>::empty(),
            r.0.pending().len() == 0,
            r.0.born() == Seq::<(Seq<char>, u64)>::empty(),
            r.0.commands_in() == Seq::<ConMgrCommand<T>>::empty(),
            r.0.reports_in() == Seq::<WorkerReport>::empty(),
    {
        let (evt_p_send, evt_p_recv) = unbounded_channel();
        let (evt_c_send, evt_c_recv) = unbounded_channel();
        let (cmd_send, cmd_recv) = unbounded_channel();
        let con_mgr = ConnectionMgr {
            cmd_recv,
            evt_send_to_parent: evt_p_send,
            evt_send_from_children: evt_c_send,
            evt_recv_from_children: evt_c_recv,
            wss_map: WorkerRegistry::new(),
            next_serial: 0,
            spawned: Vec::new(),
            dispatched: Ghost(Seq::empty()),
            reports: Ghost(Seq::empty()),
            forwarded: Ghost(Seq::empty()),
            cmd_log: Ghost(Seq::empty()),
            report_log: Ghost(Seq::empty()),
            born: Ghost(Seq::empty()),
            cmds_in: Ghost(Seq::empty()),
            reports_in: Ghost(Seq::empty()),
        };
        let handle = ConnectionMgrHandle { anchor: Arc::new(()), send_cmd: cmd_send };
        (con_mgr, handle, evt_p_recv)
    }

    /// The serial number of the worker registered under `uri`, if any.
    pub fn worker_serial(&self, uri: &String) -> (r: Option<u64>)
        requires
            self.wf(),
        ensures
            r == (if self.workers().contains_key(uri@) {
                Some(self.workers()[uri@])
            } else {
                None::<u64>
            }),
    {
        self.wss_map.serial_of(uri)
    }

    /// Hands over the workers registered since the last call, to be started.
    pub fn take_new_workers(&mut self) -> (r: Vec<NewWorker<T>>)
        requires
            old(self).wf(),
        ensures
            final(self).wf(),
            r@ == old(self).pending(),
            final(self).pending().len() == 0,
            final(self).workers() == old(self).workers(),
            final(self).dispatched() == old(self).dispatched(),
            final(self).next_serial_spec() == old(self).next_serial_spec(),
            final(self).reports() == old(self).reports(),
            final(self).forwarded() == old(self).forwarded(),
            final(self).cmd_log() == old(self).cmd_log(),
            final(self).report_log() == old(self).report_log(),
            final(self).born() == old(self).born(),
            final(self).commands_in() == old(self).commands_in(),
            final(self).reports_in() == old(self).reports_in(),
    {
        let mut out: Vec<NewWorker<T>> = Vec::new();
        std::mem::swap(&mut out, &mut self.spawned);
        out
    }

    /// Carries out one command (see `command_done`).
    pub fn handle_command(&mut self, cmd: ConMgrCommand<T>)
        requires
            old(self).wf(),
        ensures
            final(self).wf(),
            Self::command_done(*old(self), *final(self), cmd),
            final(self).commands_in() == old(self).commands_in(),
            final(self).reports_in() == old(self).reports_in(),
            final(self).reports() == old(self).reports(),
            final(self).forwarded() == old(self).forwarded(),
            final(self).cmd_log() == old(self).cmd_log(),
            final(self).report_log() == old(self).report_log(),
    {
        match cmd {
            ConMgrCommand::SendData(uri, frame) => {
                let mut remove = false;
                match self.wss_map.get(&uri) {
                    Some(entry) => {
                        let ghost fv = frame@;
                        let ok = send(&entry.cmd_send, ConMgrCommand::SendData(uri.clone(), frame)).is_ok();
                        proof {
                            self.dispatched@ = self.dispatched@.push((entry.serial, Some(fv), ok));
                            assert(self.dispatched@.drop_last() =~= old(self).dispatched@);
                        }
                        if !ok {
                            remove = true;
                        }
                    },
                    None => {},
                }
                if remove {
                    let _ = self.wss_map.remove(&uri);
                }
                proof {
                    let d1 = self.dispatched@;
                    let w0 = old(self).wss_map@;
                    lemma_stop_recorded(self.born@, w0, self.wss_map@, old(self).dispatched@, d1);
                }
            },
            ConMgrCommand::Disconnect(uri) => {
                match self.wss_map.remove(&uri) {
                    Some(entry) => {
                        let ok = send(&entry.cmd_send, ConMgrCommand::Disconnect(uri)).is_ok();
                        proof {
                            self.dispatched@ = self.dispatched@.push((entry.serial, None, ok));
                            assert(self.dispatched@.drop_last() =~= old(self).dispatched@);
                        }
                    },
                    None => {},
                }
                proof {
                    let d1 = self.dispatched@;
                    let w0 = old(self).wss_map@;
                    lemma_stop_recorded(self.born@, w0, self.wss_map@, old(self).dispatched@, d1);
                }
            },
            ConMgrCommand::Connect(uri, wss) => {
                let serial = self.next_serial;
                if self.next_serial < u64::MAX {
                    self.next_serial = self.next_serial + 1;
                }
                let (cmd_send, cmd_recv) = unbounded_channel();
                let evt_send = clone_sender(&self.evt_send_from_children);
                let worker = ConnectionWorker::new(uri.clone(), serial, cmd_recv, evt_send);
                self.spawned.push(NewWorker { worker, transport: wss });
                assert(self.spawned@.drop_last() =~= old(self).spawned@);
                let ghost key = uri@;
                match self.wss_map.insert(WorkerEntry { uri, serial, cmd_send }) {
                    Some(old_entry) => {
                        let ok = send(&old_entry.cmd_send, ConMgrCommand::Disconnect(old_entry.uri)).is_ok();
                        proof {
                            self.dispatched@ = self.dispatched@.push((old_entry.serial, None, ok));
                            assert(self.dispatched@.drop_last() =~= old(self).dispatched@);
                        }
                    },
                    None => {},
                }
                proof {
                    let d1 = self.dispatched@;
                    let w0 = old(self).wss_map@;
                    let b0 = self.born@;
                    lemma_stop_recorded(b0, w0, self.wss_map@, old(self).dispatched@, d1);
                    self.born@ = b0.push((key, serial));
                    assert forall|i: int| 0 <= i < self.born@.len() && !registered(self.wss_map@, #[trigger] self.born@[i])
                        implies told_to_stop(d1, self.born@[i].1) by {
                        assert(i < b0.len());
                        assert(self.born@[i] == b0[i]);
                    }
                }
            },
        }
    }

    /// Carries out one report of a worker (see `report_done`), and returns
    /// the event to pass on to the consumer: always the reported event.
    pub fn handle_report(&mut self, rep: WorkerReport) -> (fwd: ConMgrEvent)
        requires
            old(self).wf(),
        ensures
            final(self).wf(),
            fwd == rep.event,
            Self::report_done(*old(self), *final(self), rep),
            final(self).commands_in() == old(self).commands_in(),
            final(self).reports_in() == old(self).reports_in(),
            final(self).reports() == old(self).reports(),
            final(self).forwarded() == old(self).forwarded(),
            final(self).cmd_log() == old(self).cmd_log(),
            final(self).report_log() == old(self).report_log(),
    {
        if let ConMgrEvent::Disconnect(uri, _) = &rep.event {
            if self.wss_map.serial_of(uri) == Some(rep.serial) {
                match self.wss_map.remove(uri) {
                    Some(entry) => {
                        let ok = send(&entry.cmd_send, ConMgrCommand::Disconnect(entry.uri)).is_ok();
                        proof {
                            self.dispatched@ = self.dispatched@.push((entry.serial, None, ok));
                            assert(self.dispatched@.drop_last() =~= old(self).dispatched@);
                        }
                    },
                    None => {},
                }
            }
        }
        proof {
            let d1 = self.dispatched@;
            let w0 = old(self).wss_map@;
            lemma_stop_recorded(self.born@, w0, self.wss_map@, old(self).dispatched@, d1);
        }
        rep.event
    }

    /// Acts on what one receive from the command queue found: a command is
    /// carried out; an empty or closed queue changes nothing. The outcome is
    /// recorded and returned.
    pub fn on_command(&mut self, r: Received<ConMgrCommand<T>>) -> (k: Intake)
        requires
            old(self).wf(),
        ensures
            final(self).wf(),
            k == intake_of(r),
            final(self).cmd_log() == old(self).cmd_log().push(k),
            final(self).report_log() == old(self).report_log(),
            final(self).reports() == old(self).reports(),
            final(self).forwarded() == old(self).forwarded(),
            final(self).reports_in() == old(self).reports_in(),
            match r {
                Received::Item(c) => Self::command_done(*old(self), *final(self), c)
                    && final(self).commands_in() == old(self).commands_in().push(c),
                _ => Self::same_but_logs(*old(self), *final(self)) && final(self).commands_in()
                    == old(self).commands_in(),
            },
    {
        let k = match r {
            Received::Item(cmd) => {
                let ghost c = cmd;
                self.handle_command(cmd);
                proof {
                    self.cmds_in@ = self.cmds_in@.push(c);
                }
                Intake::Taken
            },
            Received::Empty => Intake::Empty,
            Received::Closed => Intake::Closed,
        };
        proof {
            self.cmd_log@ = self.cmd_log@.push(k);
        }
        k
    }

    /// Acts on what one receive from the report queue found: a report is
    /// taken in and its event handed to the consumer (`Refused` when the
    /// consumer is gone); an empty or closed queue changes nothing. The
    /// outcome is recorded and returned.
    pub fn on_report(&mut self, r: Received<WorkerReport>) -> (k: Intake)
        requires
            old(self).wf(),
        ensures
            final(self).wf(),
            final(self).report_log() == old(self).report_log().push(k),
            final(self).cmd_log() == old(self).cmd_log(),
            final(self).commands_in() == old(self).commands_in(),
            match r {
                Received::Item(rep) => {
                    &&& final(self).reports_in() == old(self).reports_in().push(rep)
                    &&& k is Taken || k is Refused
                    &&& Self::report_done(*old(self), *final(self), rep)
                    &&& final(self).reports() == old(self).reports().push(rep.event)
                    &&& final(self).forwarded() == if k is Taken {
                        old(self).forwarded().push(rep.event)
                    } else {
                        old(self).forwarded()
                    }
                },
                Received::Empty => k is Empty && Self::same_but_logs(*old(self), *final(self))
                    && final(self).reports_in() == old(self).reports_in(),
                Received::Closed => k is Closed && Self::same_but_logs(*old(self), *final(self))
                    && final(self).reports_in() == old(self).reports_in(),
            },
    {
        let k = match r {
            Received::Item(rep) => {
                proof {
                    self.reports@ = self.reports@.push(rep.event);
                    self.reports_in@ = self.reports_in@.push(rep);
                }
                let evt = self.handle_report(rep);
                let ghost sent = evt;
                if send(&self.evt_send_to_parent, evt).is_ok() {
                    proof {
                        self.forwarded@ = self.forwarded@.push(sent);
                    }
                    Intake::Taken
                } else {
                    Intake::Refused
                }
            },
            Received::Empty => Intake::Empty,
            Received::Closed => Intake::Closed,
        };
        proof {
            self.report_log@ = self.report_log@.push(k);
        }
        k
    }

    /// One tick: up to `BATCH` commands, then up to `BATCH` worker reports
    /// (see `tick_done`).
    pub fn process(&mut self) -> (r: ConMgrResult)
        requires
            old(self).wf(),
        ensures
            final(self).wf(),
            Self::tick_done(*old(self), *final(self), r),
    {
        let ghost c0 = self.cmd_log@.len() as int;
        let ghost e0 = self.report_log@.len() as int;
        let ghost mut cs: Seq<ConMgrCommand<T>> = Seq::empty();
        let ghost mut rs: Seq<WorkerReport> = Seq::empty();
        let ghost mut nr: Seq<ConMgrEvent> = Seq::empty();
        let ghost mut nf: Seq<ConMgrEvent> = Seq::empty();
        let ghost mut trail: Seq<Self> = seq![*self];
        let mut did_work = false;
        let mut closed = false;
        let mut more = true;
        let mut n: usize = 0;
        while more
            invariant
                self.wf(),
                n <= BATCH,
                c0 == old(self).cmd_log@.len(),
                e0 == old(self).report_log@.len(),
                self.cmd_log@.len() == c0 + n,
                forall|i: int| 0 <= i < c0 ==> #[trigger] self.cmd_log@[i] == old(self).cmd_log@[i],
                forall|i: int| c0 <= i < c0 + n - 1 ==> #[trigger] self.cmd_log@[i] is Taken,
                forall|i: int| c0 <= i < c0 + n ==> !(#[trigger] self.cmd_log@[i] is Refused),
                more ==> n < BATCH && (n > 0 ==> self.cmd_log@[c0 + n - 1] is Taken),
                !more ==> n >= 1 && (self.cmd_log@[c0 + n - 1] is Taken ==> n == BATCH),
                closed <==> (!more && self.cmd_log@[c0 + n - 1] is Closed),
                did_work == (n > 0 && self.cmd_log@[c0] is Taken),
                self.report_log@ == old(self).report_log@,
                old(self).pending().len() <= self.pending().len(),
                self.reports() == old(self).reports(),
                self.forwarded() == old(self).forwarded(),
                self.reports_in() == old(self).reports_in(),
                self.commands_in() =~= old(self).commands_in() + cs,
                cs.len() + (if n > 0 && !(self.cmd_log@[c0 + n - 1] is Taken) { 1int } else { 0int }) == n,
                trail.len() == cs.len() + 1,
                Self::same_model(trail[0], *old(self)),
                Self::same_model(trail.last(), *self),
                forall|i: int| 0 <= i < cs.len() ==> Self::command_done(trail[i], trail[i + 1], #[trigger] cs[i]),
            decreases BATCH - n,
        {
            let got = try_recv(&mut self.cmd_recv);
            let ghost prev = self.cmd_log@;
            let ghost before = *self;
            let k = self.on_command(got);
            n = n + 1;
            proof {
                assert(self.cmd_log@[c0 + n - 1] == k);
                lemma_push_keeps_taken(prev, k, c0, c0 + n - 1);
                assert forall|i: int| c0 <= i < c0 + n implies !(#[trigger] self.cmd_log@[i] is Refused) by {
                    assert(self.cmd_log@[i] == prev.push(k)[i]);
                }
                assert(self.cmd_log@[c0] == prev.push(k)[c0]);
                if k is Taken {
                    let c = self.cmds_in@.last();
                    let t0 = trail;
                    assert(Self::command_done(t0.last(), *self, c));
                    cs = cs.push(c);
                    trail = t0.push(*self);
                    assert forall|i: int| 0 <= i < cs.len() implies Self::command_done(
                        trail[i],
                        trail[i + 1],
                        #[trigger] cs[i],
                    ) by {
                        if i < cs.len() - 1 {
                            assert(trail[i] == t0[i]);
                            assert(trail[i + 1] == t0[i + 1]);
                        }
                    }
                }
            }
            match k {
                Intake::Taken => {
                    did_work = true;
                    if n == BATCH {
                        more = false;
                    }
                },
                Intake::Closed => {
                    closed = true;
                    more = false;
                },
                _ => {
                    more = false;
                },
            }
        }
        proof {
            assert(self.cmd_log@.subrange(0, c0) =~= old(self).cmd_log@);
            let c = self.cmd_log@.subrange(c0, self.cmd_log@.len() as int);
            assert(forall|i: int| 0 <= i < c.len() ==> c[i] == self.cmd_log@[c0 + i]);
            assert(c.last() == self.cmd_log@[c0 + n - 1]);
            assert(self.commands_in().subrange(0, old(self).commands_in().len() as int) =~= old(self).commands_in());
            assert(self.commands_in().subrange(old(self).commands_in().len() as int, self.commands_in().len() as int) =~= cs);
        }
        if closed {
            proof {
                assert(self.report_log@.subrange(e0, e0) =~= Seq::<Intake>::empty());
                assert(self.report_log@.subrange(0, e0) =~= self.report_log@);
                assert(self.reports().subrange(0, self.reports().len() as int) =~= self.reports());
                assert(self.forwarded().subrange(0, self.forwarded().len() as int) =~= self.forwarded());
                assert(self.reports_in().subrange(0, self.reports_in().len() as int) =~= self.reports_in());
                assert(self.reports().subrange(self.reports().len() as int, self.reports().len() as int) =~= Seq::<ConMgrEvent>::empty());
                assert(self.forwarded().subrange(self.forwarded().len() as int, self.forwarded().len() as int) =~= Seq::<ConMgrEvent>::empty());
                assert(Seq::<ConMgrEvent>::empty().subrange(0, 0) =~= Seq::<ConMgrEvent>::empty());
                let p = self.reports_in().subrange(self.reports_in().len() as int, self.reports_in().len() as int);
                assert(p =~= Seq::<WorkerReport>::empty());
                assert(Self::trail_ok(*old(self), *self, cs, p, trail));
            }
            return ConMgrResult::EndTask;
        }
        let ghost c_end = self.cmd_log@;
        let ghost ncs = cs.len();
        let mut ended = false;
        let mut more = true;
        let mut m: usize = 0;
        while more
            invariant
                self.wf(),
                m <= BATCH,
                c0 == old(self).cmd_log@.len(),
                e0 == old(self).report_log@.len(),
                self.cmd_log@ == c_end,
                self.commands_in() == old(self).commands_in() + cs,
                ncs == cs.len(),
                self.report_log@.len() == e0 + m,
                forall|i: int| 0 <= i < e0 ==> #[trigger] self.report_log@[i] == old(self).report_log@[i],
                forall|i: int| e0 <= i < e0 + m - 1 ==> #[trigger] self.report_log@[i] is Taken,
                more ==> m < BATCH && (m > 0 ==> self.report_log@[e0 + m - 1] is Taken),
                !more ==> m >= 1 && (self.report_log@[e0 + m - 1] is Taken ==> m == BATCH),
                ended <==> (!more && (self.report_log@[e0 + m - 1] is Closed
                    || self.report_log@[e0 + m - 1] is Refused)),
                old(self).pending().len() <= self.pending().len(),
                self.reports() =~= old(self).reports() + nr,
                self.forwarded() =~= old(self).forwarded() + nf,
                nf.len() <= nr.len(),
                nf =~= nr.subrange(0, nf.len() as int),
                !ended ==> nf == nr,
                self.reports_in() =~= old(self).reports_in() + rs,
                rs.len() + (if m > 0 && !(self.report_log@[e0 + m - 1] is Taken
                    || self.report_log@[e0 + m - 1] is Refused) { 1int } else { 0int }) == m,
                trail.len() == ncs + rs.len() + 1,
                Self::same_model(trail[0], *old(self)),
                Self::same_model(trail.last(), *self),
                forall|i: int| 0 <= i < ncs ==> Self::command_done(trail[i], trail[i + 1], #[trigger] cs[i]),
                forall|i: int| 0 <= i < rs.len() ==> Self::report_done(
                    trail[ncs + i],
                    trail[ncs + i + 1],
                    #[trigger] rs[i],
                ),
            decreases BATCH - m,
        {
            let got = try_recv(&mut self.evt_recv_from_children);
            let ghost before = *self;
            let j = self.on_report(got);
            m = m + 1;
            proof {
                assert(self.report_log@ == before.report_log@.push(j));
                assert(self.report_log@[e0 + m - 1] == j);
                lemma_push_keeps_taken(before.report_log@, j, e0, e0 + m - 1);
                assert forall|i: int| 0 <= i < e0 implies #[trigger] self.report_log@[i] == old(self).report_log@[i] by {
                    assert(self.report_log@[i] == before.report_log@.push(j)[i]);
                }
                if j is Taken || j is Refused {
                    let rep = self.reports_in@.last();
                    let t0 = trail;
                    assert(Self::report_done(t0.last(), *self, rep));
                    rs = rs.push(rep);
                    nr = nr.push(rep.event);
                    if j is Taken {
                        nf = nf.push(rep.event);
                    }
                    trail = t0.push(*self);
                    assert forall|i: int| 0 <= i < ncs implies Self::command_done(
                        trail[i],
                        trail[i + 1],
                        #[trigger] cs[i],
                    ) by {
                        assert(trail[i] == t0[i]);
                        assert(trail[i + 1] == t0[i + 1]);
                    }
                    assert forall|i: int| 0 <= i < rs.len() implies Self::report_done(
                        trail[ncs + i],
                        trail[ncs + i + 1],
                        #[trigger] rs[i],
                    ) by {
                        if i < rs.len() - 1 {
                            assert(trail[ncs + i] == t0[ncs + i]);
                            assert(trail[ncs + i + 1] == t0[ncs + i + 1]);
                        }
                    }
                }
            }
            match j {
                Intake::Taken => {
                    if m == BATCH {
                        more = false;
                    }
                },
                Intake::Empty => {
                    more = false;
                },
                _ => {
                    ended = true;
                    more = false;
                },
            }
        }
        proof {
            assert(self.report_log@.subrange(0, e0) =~= old(self).report_log@);
            let e = self.report_log@.subrange(e0, self.report_log@.len() as int);
            assert(forall|i: int| 0 <= i < e.len() ==> e[i] == self.report_log@[e0 + i]);
            assert(e.last() == self.report_log@[e0 + m - 1]);
            assert(self.reports().subrange(0, old(self).reports().len() as int) =~= old(self).reports());
            assert(self.reports().subrange(old(self).reports().len() as int, self.reports().len() as int) =~= nr);
            assert(self.forwarded().subrange(0, old(self).forwarded().len() as int) =~= old(self).forwarded());
            assert(self.forwarded().subrange(old(self).forwarded().len() as int, self.forwarded().len() as int) =~= nf);
            assert(self.commands_in().subrange(0, old(self).commands_in().len() as int) =~= old(self).commands_in());
            assert(self.commands_in().subrange(old(self).commands_in().len() as int, self.commands_in().len() as int) =~= cs);
            assert(self.reports_in().subrange(0, old(self).reports_in().len() as int) =~= old(self).reports_in());
            assert(self.reports_in().subrange(old(self).reports_in().len() as int, self.reports_in().len() as int) =~= rs);
            assert(Self::trail_ok(*old(self), *self, cs, rs, trail));
        }
        if ended {
            return ConMgrResult::EndTask;
        }
        if did_work {
            ConMgrResult::DidWork
        } else {
            ConMgrResult::NoWork
        }
    }

    /// One tick of the driving loop. `anchor_alive` says whether any clone of
    /// the handle still holds the anchor; once none does, the task ends at
    /// once and nothing is touched. Dropping the manager then drops every
    /// worker's command sender, which ends each worker in turn. With a live
    /// anchor, the tick is `process`.
    pub fn tick(&mut self, anchor_alive: bool) -> (r: ConMgrResult)
        requires
            old(self).wf(),
        ensures
            final(self).wf(),
            !anchor_alive ==> r is EndTask && *final(self) == *old(self),
            anchor_alive ==> Self::tick_done(*old(self), *final(self), r),
    {
        if !anchor_alive {
            return ConMgrResult::EndTask;
        }
        self.process()
    }
}

impl<T> ConnectionMgrHandle<T> {
    /// The anchor this handle holds.
    pub closed spec fn anchor_spec(&self) -> Arc<()> {
        self.anchor
    }

    /// The lifecycle anchor: the manager's task lives while a strong
    /// reference to it exists.
    pub fn anchor(&self) -> (r: &Arc<()>)
        ensures
            *r == self.anchor_spec(),
    {
        &self.anchor
    }

    /// Enqueues `cmd` for the manager. When the manager is gone (it is
    /// shutting down) the queue refuses the command and hands it back, for
    /// the caller to log; it is never raised further.
    fn enqueue(&self, cmd: ConMgrCommand<T>) -> (r: Result<(), ConMgrCommand<T>>)
        ensures
            r matches Err(c) ==> c == cmd,
    {
        send(&self.send_cmd, cmd)
    }

    /// Asks the manager to serve `wss` under `uri`: enqueues
    /// `Connect(uri, wss)`, or hands it back when the manager is gone.
    pub fn connect(&self, uri: String, wss: T) -> (r: Result<(), ConMgrCommand<T>>)
        ensures
            r matches Err(c) ==> c == ConMgrCommand::Connect(uri, wss),
    {
        self.enqueue(ConMgrCommand::Connect(uri, wss))
    }

    /// Asks the manager to write `frame` to the connection under `uri`:
    /// enqueues `SendData(uri, frame)`, or hands it back when the manager is
    /// gone.
    pub fn send_data(&self, uri: String, frame: Vec<u8>) -> (r: Result<(), ConMgrCommand<T>>)
        ensures
            r matches Err(c) ==> c == ConMgrCommand::<T>::SendData(uri, frame),
    {
        self.enqueue(ConMgrCommand::SendData(uri, frame))
    }

    /// Asks the manager to close the connection under `uri`: enqueues
    /// `Disconnect(uri)`, or hands it back when the manager is gone.
    pub fn disconnect(&self, uri: String) -> (r: Result<(), ConMgrCommand<T>>)
        ensures
            r matches Err(c) ==> c == ConMgrCommand::<T>::Disconnect(uri),
    {
        self.enqueue(ConMgrCommand::Disconnect(uri))
    }
}

impl<T> Clone for ConnectionMgrHandle<T> {
    fn clone(&self) -> Self {
        ConnectionMgrHandle { anchor: clone_anchor(&self.anchor), send_cmd: clone_sender(&self.send_cmd) }
    }
}

} // verus!
