//! The guest side: a slot for the handler that receives each inbound
//! message.
use vstd::prelude::*;

verus! {

/// Why an inbound message was not handled.
#[derive(Clone, Debug)]
pub enum HandlerError {
    /// No handler was set before the message came.
    NotInitialized,
    /// The handler failed, for this reason.
    Failed(String),
}

/// What a guest implements to receive messages.
pub trait MessageHandler {
    fn on_message(&mut self, message: &[u8]) -> Result<(), HandlerError>;
}

/// Holds the guest's handler, once one is set. There is no queue: a message
/// that comes before the handler is refused.
#[verifier::reject_recursive_types(H)]
pub struct HandlerSlot<H> {
    handler: Option<H>,
}

impl<H: MessageHandler> HandlerSlot<H> {
    /// Whether a handler was set.
    pub closed spec fn is_set(&self) -> bool {
        self.handler is Some
    }

    /// The handler that receives messages, once one is set.
    pub closed spec fn handler(&self) -> Option<H> {
        self.handler
    }

    /// A slot with no handler.
    pub fn new() -> (r: HandlerSlot<H>)
        ensures
            !r.is_set(),
    {
        HandlerSlot { handler: None }
    }
}

/// Sets the handler that receives every later message, in place of any
/// earlier one.
pub fn set_message_handler<H: MessageHandler>(slot: &mut HandlerSlot<H>, new_handler: H)
    ensures
        final(slot).is_set(),
        final(slot).handler() == Some(new_handler),
{
    slot.handler = Some(new_handler);
}

/// Hands `message` to the handler; an error when none was set.
pub fn on_message_slice<H: MessageHandler>(slot: &mut HandlerSlot<H>, message: &[u8]) -> (r: Result<
    (),
    HandlerError,
>)
    ensures
        final(slot).is_set() == old(slot).is_set(),
        !old(slot).is_set() ==> r matches Err(HandlerError::NotInitialized),
{
    match &mut slot.handler {
        Some(h) => h.on_message(message),
        None => Err(HandlerError::NotInitialized),
    }
}

} // verus!
