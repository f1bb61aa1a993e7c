//! Per-connection driver state machines.
//!
//! One driver exists per physical connection. The surrounding task performs
//! the outside work — socket reads and writes, channel sends, sleeps — and
//! hands the resulting events to the state machines here, which decide what to
//! do next. The central ordering rule is that **at most one send to the
//! coordinator is outstanding at any time**: while a send is in flight the
//! driver neither touches the socket state machine nor pulls further
//! messages.

use vstd::prelude::*;

verus! {

/// What the surrounding task must do next.
pub enum DriverInstruction<TOut> {
    /// Wait for the next event.
    Continue,
    /// Start sending this message to the coordinator, then acknowledge the
    /// send once the channel accepted it.
    StartSend(TOut),
    /// Release the connection and exit.
    Exit,
}

/// The connection state machine of a single-stream connection, as the driver
/// owns it: messages produced for the coordinator, messages injected by the
/// coordinator, and whether the connection was reset.
pub struct SingleStreamConnectionTask<TOut, TIn> {
    /// Messages produced for the coordinator, oldest first.
    to_coordinator: Vec<TOut>,
    /// Messages injected by the coordinator that have not been processed yet.
    from_coordinator: Vec<TIn>,
    /// True once the connection has been reset.
    reset_called: bool,
}

impl<TOut, TIn> SingleStreamConnectionTask<TOut, TIn> {
    /// Messages waiting to be handed to the coordinator.
    pub closed spec fn outbox(&self) -> Seq<TOut> {
        self.to_coordinator@
    }

    /// Messages injected by the coordinator and not processed yet.
    pub closed spec fn inbox(&self) -> Seq<TIn> {
        self.from_coordinator@
    }

    /// Whether the connection has been reset.
    pub closed spec fn is_reset(&self) -> bool {
        self.reset_called
    }

    /// A fresh state machine.
    pub fn new() -> (r: SingleStreamConnectionTask<TOut, TIn>)
        ensures
            r.outbox().len() == 0,
            r.inbox().len() == 0,
            !r.is_reset(),
    {
        SingleStreamConnectionTask {
            to_coordinator: Vec::new(),
            from_coordinator: Vec::new(),
            reset_called: false,
        }
    }

    /// Marks the connection as reset. Called when the socket has failed.
    pub fn reset(&mut self)
        ensures
            final(self).is_reset(),
            final(self).outbox() == old(self).outbox(),
            final(self).inbox() == old(self).inbox(),
    {
        self.reset_called = true;
    }

    /// Whether [`SingleStreamConnectionTask::reset`] has been called.
    pub fn is_reset_called(&self) -> (r: bool)
        ensures
            r == self.is_reset(),
    {
        self.reset_called
    }

    /// Queues a message for the coordinator.
    pub fn queue_to_coordinator(&mut self, message: TOut)
        ensures
            final(self).outbox() == old(self).outbox().push(message),
            final(self).inbox() == old(self).inbox(),
            final(self).is_reset() == old(self).is_reset(),
    {
        self.to_coordinator.push(message);
    }

    /// Injects a message from the coordinator.
    pub fn inject_coordinator_message(&mut self, message: TIn)
        ensures
            final(self).inbox() == old(self).inbox().push(message),
            final(self).outbox() == old(self).outbox(),
            final(self).is_reset() == old(self).is_reset(),
    {
        self.from_coordinator.push(message);
    }

    /// Pulls the oldest message destined to the coordinator.
    ///
    /// Returns the message, if any, and whether the task still has work to do:
    /// `false` means the task is gone and the connection must be closed.
    pub fn pull_message_to_coordinator(&mut self) -> (r: (bool, Option<TOut>))
        ensures
            old(self).outbox().len() > 0 ==> {
                &&& r.1 matches Some(m) && m == old(self).outbox()[0]
                &&& final(self).outbox() == old(self).outbox().skip(1)
                &&& r.0
            },
            old(self).outbox().len() == 0 ==> {
                &&& r.1 is None
                &&& final(self).outbox() == old(self).outbox()
                &&& r.0 == !old(self).is_reset()
            },
            final(self).inbox() == old(self).inbox(),
            final(self).is_reset() == old(self).is_reset(),
    {
        if self.to_coordinator.len() > 0 {
            let m = self.to_coordinator.remove(0);
            (true, Some(m))
        } else {
            (!self.reset_called, None)
        }
    }
}

/// The state of a single-stream connection driver between two suspension
/// points.
pub struct SingleStreamDriver<TOut, TIn> {
    /// The connection state machine, or `None` once the task is gone.
    task: Option<SingleStreamConnectionTask<TOut, TIn>>,
    /// True while a send to the coordinator is in flight.
    message_sending: bool,
    /// Number of sends to the coordinator that were started.
    sends_started: u64,
    /// Number of sends to the coordinator that were completed.
    sends_completed: u64,
}

impl<TOut, TIn> SingleStreamDriver<TOut, TIn> {
    /// The held connection state machine.
    pub closed spec fn task_spec(&self) -> Option<SingleStreamConnectionTask<TOut, TIn>> {
        self.task
    }

    /// True while a send to the coordinator is in flight.
    pub closed spec fn sending(&self) -> bool {
        self.message_sending
    }

    /// Number of sends to the coordinator that were started.
    pub closed spec fn sends_started_spec(&self) -> u64 {
        self.sends_started
    }

    /// Number of sends to the coordinator that were completed.
    pub closed spec fn sends_completed_spec(&self) -> u64 {
        self.sends_completed
    }

    /// A send is in flight exactly when one more send was started than
    /// completed; no second send ever starts before the first completes.
    pub open spec fn wf(&self) -> bool {
        &&& self.sends_completed_spec() <= self.sends_started_spec()
        &&& self.sends_started_spec() - self.sends_completed_spec() == if self.sending() {
            1int
        } else {
            0int
        }
    }

    /// A fresh driver around a task.
    pub fn new(task: SingleStreamConnectionTask<TOut, TIn>) -> (r: SingleStreamDriver<TOut, TIn>)
        ensures
            r.wf(),
            r.task_spec() == Some(task),
            !r.sending(),
    {
        SingleStreamDriver { task: Some(task), message_sending: false, sends_started: 0, sends_completed: 0 }
    }

    /// Processes the socket once and pulls at most one message for the
    /// coordinator. Must only be called while no send is in flight; if a
    /// message comes out, its send is started.
    ///
    /// `socket_failed` reports whether the surrounding task failed to access
    /// the socket, in which case the connection is reset.
    pub fn process_io(&mut self, socket_failed: bool) -> (r: DriverInstruction<TOut>)
        requires
            old(self).wf(),
            !old(self).sending(),
            old(self).task_spec() is Some,
            old(self).sends_started_spec() < u64::MAX,
        ensures
            final(self).wf(),
            match r {
                DriverInstruction::StartSend(m) => {
                    &&& final(self).sending()
                    &&& final(self).sends_started_spec() == old(self).sends_started_spec() + 1
                    &&& old(self).task_spec()->Some_0.outbox().len() > 0 && m == old(
                        self,
                    ).task_spec()->Some_0.outbox()[0]
                },
                DriverInstruction::Continue => {
                    &&& !final(self).sending()
                    &&& final(self).sends_started_spec() == old(self).sends_started_spec()
                },
                DriverInstruction::Exit => {
                    &&& !final(self).sending()
                    &&& final(self).task_spec() is None
                    &&& old(self).task_spec()->Some_0.outbox().len() == 0
                    &&& (old(self).task_spec()->Some_0.is_reset() || socket_failed)
                },
            },
    {
        let mut task = match self.task.take() {
            Some(t) => t,
            None => vstd::pervasive::unreached(),
        };
        if socket_failed && !task.is_reset_called() {
            task.reset();
        }
        let (alive, message) = task.pull_message_to_coordinator();
        if !alive {
            return DriverInstruction::Exit;
        }
        self.task = Some(task);
        match message {
            Some(m) => {
                self.message_sending = true;
                self.sends_started = self.sends_started + 1;
                DriverInstruction::StartSend(m)
            },
            None => DriverInstruction::Continue,
        }
    }

    /// Acknowledges that the in-flight send to the coordinator was accepted.
    pub fn on_message_sent(&mut self)
        requires
            old(self).wf(),
            old(self).sending(),
        ensures
            final(self).wf(),
            !final(self).sending(),
            final(self).sends_completed_spec() == old(self).sends_completed_spec() + 1,
            final(self).task_spec() == old(self).task_spec(),
    {
        self.message_sending = false;
        self.sends_completed = self.sends_completed + 1;
    }

    /// Hands a message from the coordinator to the connection state machine.
    pub fn on_coordinator_message(&mut self, message: TIn)
        requires
            old(self).wf(),
            old(self).task_spec() is Some,
        ensures
            final(self).wf(),
            final(self).sending() == old(self).sending(),
            final(self).task_spec() matches Some(t) && t.inbox() == old(
                self,
            ).task_spec()->Some_0.inbox().push(message),
    {
        let mut task = match self.task.take() {
            Some(t) => t,
            None => vstd::pervasive::unreached(),
        };
        task.inject_coordinator_message(message);
        self.task = Some(task);
    }
}

/// Under arbitrary event sequences, the number of sends to the coordinator
/// that were started never exceeds the number completed by more than one:
/// a driver never has two concurrent sends in flight.
pub proof fn lemma_single_in_flight_send<TOut, TIn>(d: SingleStreamDriver<TOut, TIn>)
    requires
        d.wf(),
    ensures
        d.sends_started_spec() - d.sends_completed_spec() <= 1,
{
}

/// The state of a multi-stream connection driver between two suspension
/// points. In addition to the single-stream rules it tracks the substreams
/// announced by the transport and the outbound substream opens that the
/// platform has not answered yet.
pub struct MultiStreamDriver<TOut, TIn> {
    inner: SingleStreamDriver<TOut, TIn>,
    /// Identifier to assign to the next substream.
    next_substream_id: u64,
    /// Substream identifiers in use, in the order they were assigned.
    substreams: Vec<u64>,
    /// Outbound substream opens the platform has not answered yet.
    pending_opening_out_substreams: u64,
}

impl<TOut, TIn> MultiStreamDriver<TOut, TIn> {
    /// The single-stream part of the driver.
    pub closed spec fn inner_spec(&self) -> SingleStreamDriver<TOut, TIn> {
        self.inner
    }

    /// The substream identifiers in use, in the order they were assigned.
    pub closed spec fn substreams_spec(&self) -> Seq<u64> {
        self.substreams@
    }

    /// The identifier to assign to the next substream.
    pub closed spec fn next_substream_id_spec(&self) -> u64 {
        self.next_substream_id
    }

    /// The number of outbound substream opens not yet answered.
    pub closed spec fn pending_opens(&self) -> u64 {
        self.pending_opening_out_substreams
    }

    /// Substream identifiers increase monotonically and are never reused.
    pub open spec fn wf(&self) -> bool {
        &&& self.inner_spec().wf()
        &&& forall|i: int, j: int|
            0 <= i < j < self.substreams_spec().len() ==> self.substreams_spec()[i]
                < self.substreams_spec()[j]
        &&& forall|i: int|
            0 <= i < self.substreams_spec().len() ==> (#[trigger] self.substreams_spec()[i])
                < self.next_substream_id_spec()
    }

    /// A fresh driver around a task.
    pub fn new(task: SingleStreamConnectionTask<TOut, TIn>) -> (r: MultiStreamDriver<TOut, TIn>)
        ensures
            r.wf(),
            r.substreams_spec().len() == 0,
            r.pending_opens() == 0,
    {
        MultiStreamDriver {
            inner: SingleStreamDriver::new(task),
            next_substream_id: 0,
            substreams: Vec::new(),
            pending_opening_out_substreams: 0,
        }
    }

    /// Records that the platform was asked to open an outbound substream.
    pub fn on_open_out_substream_started(&mut self)
        requires
            old(self).wf(),
            old(self).pending_opens() < u64::MAX,
        ensures
            final(self).wf(),
            final(self).pending_opens() == old(self).pending_opens() + 1,
            final(self).substreams_spec() == old(self).substreams_spec(),
    {
        self.pending_opening_out_substreams = self.pending_opening_out_substreams + 1;
        proof {
            assert forall|i: int, j: int|
                0 <= i < j < self.substreams@.len() implies self.substreams@[i]
                < self.substreams@[j] by {
                assert(old(self).substreams_spec()[i] < old(self).substreams_spec()[j]);
            }
            assert forall|i: int|
                0 <= i < self.substreams@.len() implies (#[trigger] self.substreams@[i])
                < self.next_substream_id by {
                assert(old(self).substreams_spec()[i] < old(self).next_substream_id_spec());
            }
        }
    }

    /// Records a substream announced by the transport and assigns it a fresh,
    /// monotonically increasing identifier.
    pub fn add_substream(&mut self, outbound: bool) -> (r: u64)
        requires
            old(self).wf(),
            old(self).next_substream_id_spec() < u64::MAX,
            outbound ==> old(self).pending_opens() > 0,
        ensures
            final(self).wf(),
            r == old(self).next_substream_id_spec(),
            final(self).substreams_spec() == old(self).substreams_spec().push(r),
            final(self).next_substream_id_spec() == old(self).next_substream_id_spec() + 1,
            outbound ==> final(self).pending_opens() == old(self).pending_opens() - 1,
            !outbound ==> final(self).pending_opens() == old(self).pending_opens(),
    {
        let id = self.next_substream_id;
        self.substreams.push(id);
        self.next_substream_id = self.next_substream_id + 1;
        if outbound {
            self.pending_opening_out_substreams = self.pending_opening_out_substreams - 1;
        }
        proof {
            assert forall|i: int, j: int|
                0 <= i < j < self.substreams@.len() implies self.substreams@[i]
                < self.substreams@[j] by {
                if j < self.substreams@.len() - 1 {
                    assert(old(self).substreams_spec()[i] < old(self).substreams_spec()[j]);
                } else {
                    assert(old(self).substreams_spec()[i] < old(self).next_substream_id_spec());
                }
            }
            assert forall|i: int|
                0 <= i < self.substreams@.len() implies (#[trigger] self.substreams@[i])
                < self.next_substream_id by {
                if i < self.substreams@.len() - 1 {
                    assert(old(self).substreams_spec()[i] < old(self).next_substream_id_spec());
                }
            }
        }
        id
    }
}

} // verus!
