//! The channels over which actors receive their messages.

use std::sync::mpsc::Sender;
use vstd::prelude::*;

verus! {

#[verifier::external_type_specification]
#[verifier::external_body]
#[verifier::reject_recursive_types(T)]
pub struct ExSender<T>(Sender<T>);

/// `Sender::clone`: another sender to the same channel. Nothing is stated
/// of it.
pub assume_specification<T>[ <Sender<T> as Clone>::clone ](sender: &Sender<T>) -> Sender<T>;

/// `Sender::send`: hand the message to the actor listening at the other end
/// of the channel. Whether it is delivered depends on whether that actor is
/// still listening, so nothing is stated of the result.
#[verifier::external_body]
pub fn send<T>(sender: &Sender<T>, message: T) -> (delivered: bool) {
    sender.send(message).is_ok()
}

} // verus!
