//! A client handle to the sigint actor, which listens for SIGINT and notifies
//! the supervisor to gracefully shut down upon its receipt.

use super::channel::send;
use std::sync::mpsc::Sender;
use vstd::prelude::*;

verus! {

/// The messages that can be sent to the sigint actor.
#[derive(Debug)]
pub enum SigintMessage {
    /// Stop the actor.
    Shutdown,
}

/// A client to the sigint actor.
#[derive(Clone, Debug)]
pub struct Sigint {
    pub sender: Sender<SigintMessage>,
}

impl Sigint {
    /// Tell the SIGINT actor to shutdown.
    pub fn shutdown(&self) {
        let _ = send(&self.sender, SigintMessage::Shutdown);
    }
}

} // verus!
