//! The channel ends of crossbeam that the library takes in, and the two
//! receiver operations that it performs on them.
use vstd::prelude::*;

use crate::value_parsing::DataValue;

verus! {

#[verifier::external_type_specification]
#[verifier::external_body]
#[verifier::reject_recursive_types(T)]
pub struct ExReceiver<T>(crossbeam::channel::Receiver<T>);

#[verifier::external_type_specification]
#[verifier::external_body]
#[verifier::reject_recursive_types(T)]
pub struct ExSendError<T>(crossbeam::channel::SendError<T>);

/// Relies on crossbeam's `Receiver::try_recv`: it takes a message that is
/// ready, if there is one, without waiting. Whether one is ready, and which,
/// depends on the other threads, so nothing is stated of the result.
#[verifier::external_body]
pub(crate) fn receive_ready(rx: &crossbeam::channel::Receiver<DataValue>) -> (r: Option<DataValue>) {
    rx.try_recv().ok()
}

/// Relies on crossbeam's `Receiver::len`: the number of messages waiting in
/// the channel at the moment of the call, which other threads change at will.
#[verifier::external_body]
pub(crate) fn waiting_count(rx: &crossbeam::channel::Receiver<DataValue>) -> (r: usize) {
    rx.len()
}

}
