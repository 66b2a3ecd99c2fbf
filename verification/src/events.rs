//! Node lifecycle events and how a node reacts to them.
//!
//! The attachment layer feeds a stream of typed events; the decision of
//! what each one means for the node — most importantly, that full public
//! internet attachment is the signal the node waits on before any record
//! operation — lives here, while performing the resulting action (printing,
//! firing a readiness signal) stays with the caller.

use vstd::prelude::*;
use crate::watch::ChangeEvent;

verus! {

/// One event from the node's update stream.
#[derive(Debug)]
pub enum UpdateEvent {
    /// A log line; carries nothing the node acts on.
    Log,
    /// An application-level message with its payload.
    AppMessage { message: Vec<u8> },
    /// An application-level call expecting an answer.
    AppCall,
    /// The attachment state moved; `public_internet_ready` says whether
    /// the node is now fully reachable.
    Attachment { public_internet_ready: bool },
    /// The network state moved.
    Network,
    /// The configuration was (re)loaded.
    Config,
    /// A private route appeared or died.
    RouteChange,
    /// A watched record's subkey changed.
    ValueChange { event: ChangeEvent },
    /// The node is shutting down.
    Shutdown,
}

/// What the caller must do in reaction to one event.
#[derive(Clone, Copy, PartialEq, Eq, Structural, Debug)]
pub enum NodeAction {
    /// Nothing.
    Ignore,
    /// Display the message payload.
    ShowMessage,
    /// Fire the one-shot readiness signal: the node is fully attached.
    SignalReady,
    /// Report the configuration change.
    ShowConfig,
    /// Report the route change.
    ShowRouteChange,
    /// Report the record change.
    ShowValueChange,
    /// Report the shutdown.
    ShowShutdown,
}

/// The reaction each event calls for. Only a fully ready attachment
/// signals readiness; partial attachment states are ignored.
pub open spec fn spec_handle_update(ev: UpdateEvent) -> NodeAction {
    match ev {
        UpdateEvent::Log => NodeAction::Ignore,
        UpdateEvent::AppMessage { .. } => NodeAction::ShowMessage,
        UpdateEvent::AppCall => NodeAction::Ignore,
        UpdateEvent::Attachment { public_internet_ready } => if public_internet_ready {
            NodeAction::SignalReady
        } else {
            NodeAction::Ignore
        },
        UpdateEvent::Network => NodeAction::Ignore,
        UpdateEvent::Config => NodeAction::ShowConfig,
        UpdateEvent::RouteChange => NodeAction::ShowRouteChange,
        UpdateEvent::ValueChange { .. } => NodeAction::ShowValueChange,
        UpdateEvent::Shutdown => NodeAction::ShowShutdown,
    }
}

/// Maps one update-stream event to the caller's action.
pub fn handle_update(ev: &UpdateEvent) -> (r: NodeAction)
    ensures
        r == spec_handle_update(*ev),
{
    match ev {
        UpdateEvent::Log => NodeAction::Ignore,
        UpdateEvent::AppMessage { .. } => NodeAction::ShowMessage,
        UpdateEvent::AppCall => NodeAction::Ignore,
        UpdateEvent::Attachment { public_internet_ready } => {
            if *public_internet_ready {
                NodeAction::SignalReady
            } else {
                NodeAction::Ignore
            }
        },
        UpdateEvent::Network => NodeAction::Ignore,
        UpdateEvent::Config => NodeAction::ShowConfig,
        UpdateEvent::RouteChange => NodeAction::ShowRouteChange,
        UpdateEvent::ValueChange { .. } => NodeAction::ShowValueChange,
        UpdateEvent::Shutdown => NodeAction::ShowShutdown,
    }
}

} // verus!
