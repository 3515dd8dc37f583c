use grayarea::sdk::{on_message_slice, set_message_handler, HandlerError, HandlerSlot, MessageHandler};
use std::sync::{Arc, RwLock};

#[derive(Debug, PartialEq)]
struct State(usize);

struct Processor(Arc<RwLock<State>>);

impl MessageHandler for Processor {
    fn on_message(&mut self, _: &[u8]) -> Result<(), HandlerError> {
        self.0.write().unwrap().0 += 1;
        Ok(())
    }
}

impl State {
    pub fn count(&self) -> usize {
        self.0
    }
}

#[test]
fn it_works() {
    assert_eq!(2 + 2, 4);
}

#[test]
fn message_handler() {
    let state = Arc::new(RwLock::new(State(0)));
    let processor = Processor(state.clone());
    let mut slot = HandlerSlot::new();
    set_message_handler(&mut slot, processor);
    let msg: &[u8] = b"message";
    let r = on_message_slice(&mut slot, &msg[..7]);
    assert!(r.is_ok());
    assert_eq!(state.read().unwrap().count(), 1);
}

#[test]
fn message_before_handler_is_refused() {
    let mut slot: HandlerSlot<Processor> = HandlerSlot::new();
    let r = on_message_slice(&mut slot, b"message");
    assert!(matches!(r, Err(HandlerError::NotInitialized)));
}
