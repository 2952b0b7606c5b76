//! The connection handle's once-only establishment.
//!
//! The adapter holds one lazily-initialized connection to one named
//! database, shared by every operation issued through the instance. The
//! cell here is the decision core of that handle: given its state and an
//! event — an operation arriving, or the in-flight establishment
//! completing — it says what the caller must do. The surrounding
//! asynchronous code performs the open and the schema declaration; the
//! cell guarantees that concurrent first operations start the work at
//! most once and that everyone else awaits the same outcome.
//!
//! Retry policy: establishment failure leaves the cell uninitialized, so
//! a later operation starts a fresh attempt rather than returning a
//! cached failure forever.

use vstd::prelude::*;

verus! {

/// Where the connection handle stands in its lifecycle.
#[derive(Clone, Copy, Debug, PartialEq, Eq, Structural)]
pub enum ConnectionState {
    /// No establishment has begun, or the last attempt failed.
    Uninitialized,
    /// One establishment is in flight; arrivals await its outcome.
    Initializing,
    /// The handle is cached and reused without further work.
    Ready,
}

/// What happens to the cell.
#[derive(Clone, Copy, Debug, PartialEq, Eq, Structural)]
pub enum ConnectionEvent {
    /// An operation arrived and needs the connection.
    Request,
    /// The in-flight establishment completed successfully.
    InitOk,
    /// The in-flight establishment failed.
    InitErr,
}

/// What an arriving operation must do.
#[derive(Clone, Copy, Debug, PartialEq, Eq, Structural)]
pub enum ConnectionAction {
    /// Perform the establishment: open the database and, on first
    /// creation, declare the record space.
    StartInit,
    /// Await the establishment already in flight and take its outcome.
    AwaitInFlight,
    /// Use the cached handle; no further work.
    UseReady,
}

/// The state after an event.
pub open spec fn step_state(s: ConnectionState, e: ConnectionEvent) -> ConnectionState {
    match e {
        ConnectionEvent::Request => match s {
            ConnectionState::Uninitialized => ConnectionState::Initializing,
            _ => s,
        },
        ConnectionEvent::InitOk => match s {
            ConnectionState::Initializing => ConnectionState::Ready,
            _ => s,
        },
        ConnectionEvent::InitErr => match s {
            ConnectionState::Initializing => ConnectionState::Uninitialized,
            _ => s,
        },
    }
}

/// The action an arriving operation is told to take.
pub open spec fn request_action(s: ConnectionState) -> ConnectionAction {
    match s {
        ConnectionState::Uninitialized => ConnectionAction::StartInit,
        ConnectionState::Initializing => ConnectionAction::AwaitInFlight,
        ConnectionState::Ready => ConnectionAction::UseReady,
    }
}

/// The future-backed initialize-once cell guarding the shared handle.
#[derive(Debug)]
pub struct ConnectionCell {
    state: ConnectionState,
}

impl ConnectionCell {
    /// The current lifecycle state.
    pub closed spec fn state(&self) -> ConnectionState {
        self.state
    }

    /// A fresh cell: nothing established yet.
    pub fn new() -> (r: ConnectionCell)
        ensures
            r.state() is Uninitialized,
    {
        ConnectionCell { state: ConnectionState::Uninitialized }
    }

    /// An operation arrives and needs the connection. Only the first
    /// arrival on an uninitialized cell is told to start the work;
    /// arrivals during establishment await it, and later ones use the
    /// cached handle.
    pub fn on_request(&mut self) -> (a: ConnectionAction)
        ensures
            final(self).state() == step_state(old(self).state(), ConnectionEvent::Request),
            a == request_action(old(self).state()),
            (a is StartInit) == (old(self).state() is Uninitialized),
    {
        match self.state {
            ConnectionState::Uninitialized => {
                self.state = ConnectionState::Initializing;
                ConnectionAction::StartInit
            },
            ConnectionState::Initializing => ConnectionAction::AwaitInFlight,
            ConnectionState::Ready => ConnectionAction::UseReady,
        }
    }

    /// The in-flight establishment completed. Success caches the handle
    /// for the adapter's lifetime; failure leaves the cell uninitialized
    /// so that a later operation may retry.
    pub fn on_init_result(&mut self, ok: bool)
        requires
            old(self).state() is Initializing,
        ensures
            final(self).state() == step_state(
                old(self).state(),
                if ok {
                    ConnectionEvent::InitOk
                } else {
                    ConnectionEvent::InitErr
                },
            ),
            ok ==> final(self).state() is Ready,
            !ok ==> final(self).state() is Uninitialized,
    {
        if ok {
            self.state = ConnectionState::Ready;
        } else {
            self.state = ConnectionState::Uninitialized;
        }
    }
}

/// The record space is declared only when the database is being created
/// for the first time: the upgrade that takes it to schema version 1.
/// Opening an existing database at the same version must not redeclare
/// it.
pub fn needs_schema_declaration(new_version: u32) -> (b: bool)
    ensures
        b == (new_version == 1),
{
    new_version == 1
}

/// The state after a whole sequence of events.
pub open spec fn run_states(s0: ConnectionState, events: Seq<ConnectionEvent>) -> ConnectionState
    decreases events.len(),
{
    if events.len() == 0 {
        s0
    } else {
        step_state(run_states(s0, events.drop_last()), events.last())
    }
}

/// How many arrivals along the sequence were told to start the
/// establishment.
pub open spec fn count_start_inits(s0: ConnectionState, events: Seq<ConnectionEvent>) -> nat
    decreases events.len(),
{
    if events.len() == 0 {
        0
    } else {
        count_start_inits(s0, events.drop_last()) + (
        if events.last() is Request && run_states(s0, events.drop_last()) is Uninitialized {
            1nat
        } else {
            0nat
        })
    }
}

/// As long as no establishment fails, a cell that has started the work
/// never returns to the uninitialized state, so no further start can be
/// issued.
proof fn lemma_init_counts(s0: ConnectionState, events: Seq<ConnectionEvent>)
    requires
        s0 is Uninitialized,
        forall|i: int| 0 <= i < events.len() ==> !(#[trigger] events[i] is InitErr),
    ensures
        count_start_inits(s0, events) <= 1,
        run_states(s0, events) is Uninitialized ==> count_start_inits(s0, events) == 0,
    decreases events.len(),
{
    if events.len() > 0 {
        let pre = events.drop_last();
        assert(forall|i: int| 0 <= i < pre.len() ==> pre[i] == events[i]);
        lemma_init_counts(s0, pre);
    }
}

/// Concurrent initialization is once-only: along any sequence of
/// arrivals and completions in which no establishment attempt fails, at
/// most one arrival is ever told to start the work — every other
/// arrival awaits the in-flight attempt or uses the cached handle, so
/// exactly one schema-declaration event can occur.
pub proof fn lemma_init_once(events: Seq<ConnectionEvent>)
    requires
        forall|i: int| 0 <= i < events.len() ==> !(#[trigger] events[i] is InitErr),
    ensures
        count_start_inits(ConnectionState::Uninitialized, events) <= 1,
{
    lemma_init_counts(ConnectionState::Uninitialized, events);
}

} // verus!
