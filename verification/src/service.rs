//! The decision core of the background ingestion loop. The loop itself
//! lives outside the library (it awaits version-change notifications and a
//! cancellation signal); every decision it takes goes through the pure
//! transition function here, so the loop's behaviour — ingest on launch
//! and on every change, stop on cancellation or on a fatal ingest error,
//! never retry automatically — is stated and checked once.

use vstd::prelude::*;

verus! {

/// Where the background loop stands.
#[derive(PartialEq, Eq, Structural, Clone, Copy, Debug)]
pub enum ServiceState {
    /// Waiting for a version-availability change.
    Idle,
    /// An ingestion batch is in flight.
    Ingesting,
    /// The loop has ended; no further work is taken.
    Stopped,
}

/// What the loop observed.
#[derive(PartialEq, Eq, Structural, Clone, Copy, Debug)]
pub enum ServiceEvent {
    /// The set of available versions changed (or the loop just launched).
    VersionsChanged,
    /// The in-flight ingestion finished; `true` means success.
    IngestFinished(bool),
    /// The cancellation signal fired.
    Cancelled,
}

/// What the loop does next.
#[derive(PartialEq, Eq, Structural, Clone, Copy, Debug)]
pub enum ServiceAction {
    /// Ingest the full current version set.
    StartIngest,
    /// Wait for the next event.
    Wait,
    /// Terminate the loop.
    Stop,
}

/// The transition function of the loop.
pub open spec fn spec_service_step(state: ServiceState, event: ServiceEvent) -> (
    ServiceState,
    ServiceAction,
) {
    match (state, event) {
        (_, ServiceEvent::Cancelled) => (ServiceState::Stopped, ServiceAction::Stop),
        (ServiceState::Stopped, _) => (ServiceState::Stopped, ServiceAction::Stop),
        (ServiceState::Idle, ServiceEvent::VersionsChanged) => (
            ServiceState::Ingesting,
            ServiceAction::StartIngest,
        ),
        (ServiceState::Idle, ServiceEvent::IngestFinished(_)) => (
            ServiceState::Idle,
            ServiceAction::Wait,
        ),
        (ServiceState::Ingesting, ServiceEvent::VersionsChanged) => (
            ServiceState::Ingesting,
            ServiceAction::Wait,
        ),
        (ServiceState::Ingesting, ServiceEvent::IngestFinished(ok)) => if ok {
            (ServiceState::Idle, ServiceAction::Wait)
        } else {
            (ServiceState::Stopped, ServiceAction::Stop)
        },
    }
}

/// Executes one step of the loop's state machine.
pub fn service_step(state: ServiceState, event: ServiceEvent) -> (r: (ServiceState, ServiceAction))
    ensures
        r == spec_service_step(state, event),
{
    match (state, event) {
        (_, ServiceEvent::Cancelled) => (ServiceState::Stopped, ServiceAction::Stop),
        (ServiceState::Stopped, _) => (ServiceState::Stopped, ServiceAction::Stop),
        (ServiceState::Idle, ServiceEvent::VersionsChanged) => (
            ServiceState::Ingesting,
            ServiceAction::StartIngest,
        ),
        (ServiceState::Idle, ServiceEvent::IngestFinished(_)) => (
            ServiceState::Idle,
            ServiceAction::Wait,
        ),
        (ServiceState::Ingesting, ServiceEvent::VersionsChanged) => (
            ServiceState::Ingesting,
            ServiceAction::Wait,
        ),
        (ServiceState::Ingesting, ServiceEvent::IngestFinished(ok)) => if ok {
            (ServiceState::Idle, ServiceAction::Wait)
        } else {
            (ServiceState::Stopped, ServiceAction::Stop)
        },
    }
}

/// Cancellation always stops the loop, whatever it was doing, and a
/// stopped loop never takes work again.
pub proof fn lemma_cancellation_stops(state: ServiceState, event: ServiceEvent)
    ensures
        spec_service_step(state, ServiceEvent::Cancelled) == (
            ServiceState::Stopped,
            ServiceAction::Stop,
        ),
        spec_service_step(ServiceState::Stopped, event) == (
            ServiceState::Stopped,
            ServiceAction::Stop,
        ),
{
}

/// Ingestion errors are not retried: a failed ingest ends the loop.
pub proof fn lemma_ingest_error_stops()
    ensures
        spec_service_step(ServiceState::Ingesting, ServiceEvent::IngestFinished(false)) == (
            ServiceState::Stopped,
            ServiceAction::Stop,
        ),
{
}

} // verus!
