//! The lifecycle event stream of a computation.
//!
//! A computation notifies exactly one `Start`, one `Progress` per
//! completed row, and exactly one `End`, in that order.  Events go to an
//! optional observer channel; sends never block and a missing or
//! disconnected observer changes nothing about the computation.  The
//! sink keeps a ghost history of everything notified, which is what the
//! engine's contracts speak about.

use vstd::prelude::*;
use std::sync::mpsc::Sender;

verus! {

/// One lifecycle event: `Progress(done, total)` reports that `done` rows
/// of `total` were already assembled when it was sent.
#[derive(Clone, Copy, Debug, PartialEq, Eq, Structural)]
pub enum ComputeEvent {
    Start,
    Progress(u32, u32),
    End,
}

/// std's mpsc sender, declared so a value of it can ride inside the sink.
#[verifier::external_type_specification]
#[verifier::external_body]
#[verifier::reject_recursive_types(T)]
pub struct ExSender<T>(Sender<T>);

/// Relies on std::sync::mpsc::Sender::send: hands the event to the
/// channel without blocking; the error for a disconnected receiver is
/// deliberately dropped, since progress reporting is fire-and-forget.
#[verifier::external_body]
fn send_event(tx: &Sender<ComputeEvent>, event: ComputeEvent) {
    let _ = tx.send(event);
}

/// The observer half of a computation: an optional channel to the
/// consumer, together with the history of every event notified through
/// this sink (oldest first), which the engine's contracts constrain.
pub struct ProgressSink {
    tx: Option<Sender<ComputeEvent>>,
    history: Ghost<Seq<ComputeEvent>>,
}

impl View for ProgressSink {
    type V = Seq<ComputeEvent>;

    closed spec fn view(&self) -> Seq<ComputeEvent> {
        self.history@
    }
}

impl ProgressSink {
    /// A sink that forwards every event to `tx`, when one is given.
    pub fn new(tx: Option<Sender<ComputeEvent>>) -> (s: ProgressSink)
        ensures
            s@ == Seq::<ComputeEvent>::empty(),
    {
        ProgressSink { tx, history: Ghost(Seq::empty()) }
    }

    /// A sink without an observer: events are recorded and dropped.
    pub fn none() -> (s: ProgressSink)
        ensures
            s@ == Seq::<ComputeEvent>::empty(),
    {
        ProgressSink { tx: None, history: Ghost(Seq::empty()) }
    }

    /// Notify one event.  The engine never blocks here, and an absent
    /// observer is a no-op rather than a change of behavior.
    pub fn notify(&mut self, event: ComputeEvent)
        ensures
            final(self)@ == old(self)@.push(event),
    {
        match &self.tx {
            Some(tx) => send_event(tx, event),
            None => {},
        }
        self.history = Ghost(self.history@.push(event));
    }
}

} // verus!
