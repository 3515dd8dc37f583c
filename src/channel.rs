//! Duplex bridges between the supervisor and a stage.
//!
//! Each direction is an ipc-channel stream of message frames. A bridge end
//! holds a sending half and a receiving half, each of which can be taken
//! out once.
use vstd::prelude::*;
use ipc_channel::ipc::{IpcReceiver, IpcSender};

verus! {

#[verifier::external_type_specification]
#[verifier::external_body]
#[verifier::reject_recursive_types(T)]
pub struct ExIpcSender<T>(IpcSender<T>);

#[verifier::external_type_specification]
#[verifier::external_body]
#[verifier::reject_recursive_types(T)]
pub struct ExIpcReceiver<T>(IpcReceiver<T>);

#[verifier::external_type_specification]
#[verifier::external_body]
pub struct ExIoError(std::io::Error);

/// Sending half of one direction of a bridge; it carries message frames.
pub type Sender = IpcSender<Vec<u8>>;

/// Receiving half of one direction of a bridge.
pub type Receiver = IpcReceiver<Vec<u8>>;

/// Relies on `ipc_channel::ipc::channel`: it opens one OS-level channel and
/// returns its two ends, or the OS error.
#[verifier::external_body]
fn open_frame_channel() -> (r: Result<(Sender, Receiver), std::io::Error>) {
    ipc_channel::ipc::channel::<Vec<u8>>()
}

/// Why a bridge end could not be made or split.
#[derive(Clone, Copy, Debug, PartialEq, Eq, Structural)]
pub enum ChannelError {
    /// The operating system refused to open a channel.
    Open,
    /// The sending half was already taken.
    NoSender,
    /// The receiving half was already taken.
    NoReceiver,
}

/// What is left in a bridge end: whether each half is still there.
pub struct ChannelView {
    pub tx: bool,
    pub rx: bool,
}

/// The state after a half is taken, and whether that take found the half.
pub open spec fn take_tx_spec(v: ChannelView) -> (bool, ChannelView) {
    (v.tx, ChannelView { tx: false, rx: v.rx })
}

/// The state after the receiving half is taken, and whether that take found
/// it.
pub open spec fn take_rx_spec(v: ChannelView) -> (bool, ChannelView) {
    (v.rx, ChannelView { tx: v.tx, rx: false })
}

/// A half that has been taken cannot be taken again: the second attempt finds
/// nothing, whatever state the bridge end was in.
pub proof fn lemma_take_once(v: ChannelView)
    ensures
        !take_tx_spec(take_tx_spec(v).1).0,
        !take_rx_spec(take_rx_spec(v).1).0,
        take_tx_spec(take_tx_spec(v).1).1 == take_tx_spec(v).1,
        take_rx_spec(take_rx_spec(v).1).1 == take_rx_spec(v).1,
{
}

/// One end of a bridge: a sending half and a receiving half, each present
/// until taken.
pub struct Channel {
    pub tx: Option<Sender>,
    pub rx: Option<Receiver>,
}

impl View for Channel {
    type V = ChannelView;

    open spec fn view(&self) -> ChannelView {
        ChannelView { tx: self.tx is Some, rx: self.rx is Some }
    }
}

impl Channel {
    /// Opens one channel and holds both of its ends.
    pub fn simplex() -> (r: Result<Channel, ChannelError>)
        ensures
            r matches Ok(c) ==> c@ == (ChannelView { tx: true, rx: true }),
            r matches Err(e) ==> e == ChannelError::Open,
    {
        match open_frame_channel() {
            Ok((tx, rx)) => Ok(Channel { tx: Some(tx), rx: Some(rx) }),
            Err(_) => Err(ChannelError::Open),
        }
    }

    /// Two opposite bridge ends from two opened channels: the first end
    /// sends on the first channel and receives on the second, the other end
    /// the other way round.
    pub fn cross(first: (Sender, Receiver), second: (Sender, Receiver)) -> (r: (Channel, Channel))
        ensures
            r.0.tx == Some(first.0),
            r.0.rx == Some(second.1),
            r.1.tx == Some(second.0),
            r.1.rx == Some(first.1),
    {
        let (tx1, rx1) = first;
        let (tx2, rx2) = second;
        (Channel { tx: Some(tx1), rx: Some(rx2) }, Channel { tx: Some(tx2), rx: Some(rx1) })
    }

    /// Opens two channels and returns two opposite ends, crossed by
    /// `cross`: what the first sends the second receives, and the other way
    /// round.
    pub fn duplex() -> (r: Result<(Channel, Channel), ChannelError>)
        ensures
            r matches Ok((a, b)) ==> a@ == (ChannelView { tx: true, rx: true }) && b@ == (
            ChannelView { tx: true, rx: true }),
            r matches Err(e) ==> e == ChannelError::Open,
    {
        let first = match open_frame_channel() {
            Ok(p) => p,
            Err(_) => return Err(ChannelError::Open),
        };
        let second = match open_frame_channel() {
            Ok(p) => p,
            Err(_) => return Err(ChannelError::Open),
        };
        Ok(Channel::cross(first, second))
    }

    /// Both halves, when neither was taken.
    pub fn split(self) -> (r: Result<(Sender, Receiver), ChannelError>)
        ensures
            r.is_ok() <==> self@.tx && self@.rx,
            r matches Err(e) ==> (if !self@.tx {
                e == ChannelError::NoSender
            } else {
                e == ChannelError::NoReceiver
            }),
    {
        let Channel { tx, rx } = self;
        match tx {
            None => Err(ChannelError::NoSender),
            Some(tx) => match rx {
                None => Err(ChannelError::NoReceiver),
                Some(rx) => Ok((tx, rx)),
            },
        }
    }

    /// Takes the sending half out; `None` once it has been taken.
    pub fn tx_take(&mut self) -> (r: Option<Sender>)
        ensures
            (r is Some, final(self)@) == take_tx_spec(old(self)@),
            r == old(self).tx,
            final(self).tx is None,
            final(self).rx == old(self).rx,
    {
        self.tx.take()
    }

    /// Takes the receiving half out; `None` once it has been taken.
    pub fn rx_take(&mut self) -> (r: Option<Receiver>)
        ensures
            (r is Some, final(self)@) == take_rx_spec(old(self)@),
            r == old(self).rx,
            final(self).rx is None,
            final(self).tx == old(self).tx,
    {
        self.rx.take()
    }
}

} // verus!
