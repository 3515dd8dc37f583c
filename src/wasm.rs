//! A running Wasm guest: its start, and the delivery of each inbound payload
//! through the buffer the guest sets aside.
use vstd::prelude::*;
use crate::host::{plan_delivery, HostError, U8WasmPtr, BUFFER_LEN};
use wasmer::{ExportError, Instance, Memory, RuntimeError};

verus! {

#[verifier::external_type_specification]
#[verifier::external_body]
pub struct ExInstance(Instance);

#[verifier::external_type_specification]
#[verifier::external_body]
pub struct ExMemory(Memory);

#[verifier::external_type_specification]
#[verifier::external_body]
pub struct ExExportError(ExportError);

#[verifier::external_type_specification]
#[verifier::external_body]
pub struct ExRuntimeError(RuntimeError);

/// Why a call into the guest failed.
#[derive(Debug)]
pub enum GuestError {
    /// The host refused to deliver the payload.
    Host(HostError),
    /// The guest lacks an export it must provide, or has it with another
    /// signature.
    Export(ExportError),
    /// The guest trapped.
    Runtime(RuntimeError),
}

/// A call the host made into the guest.
#[derive(Clone, Copy, Debug, PartialEq, Eq, Structural)]
pub enum GuestCall {
    /// The entry point.
    Start,
    /// `buffer_pointer()`, with the pointer it returned when it returned one.
    BufferPointer(Option<i32>),
    /// `on_message(ptr, len)`.
    OnMessage(i32, i32),
}

/// The unsigned offset a guest's 32-bit pointer stands for.
pub open spec fn guest_offset(p: i32) -> int {
    if p >= 0 {
        p as int
    } else {
        p + 0x1_0000_0000
    }
}

/// The writes that put `msg` at `offset`, in order: address and byte.
pub open spec fn delivery_writes(offset: int, msg: Seq<u8>) -> Seq<(int, u8)> {
    Seq::new(msg.len(), |k: int| (offset + k, msg[k]))
}

/// Relies on wasmer's `Exports::get_function` and `Function::call`: runs the
/// guest's `_start` export. The guest sees memory as the host last knew it.
#[verifier::external_body]
fn call_start(g: &mut WasmInstance) -> (r: Result<(), GuestError>)
    ensures
        r matches Err(e) ==> !(e is Host),
        final(g).calls@ == old(g).calls@.push(GuestCall::Start),
        final(g).seen@ == old(g).seen@.push(old(g).mem@),
        final(g).writes@ == old(g).writes@,
        final(g).sizes@ == old(g).sizes@,
        final(g).refused@ == old(g).refused@,
{
    match g.instance.exports.get_function("_start") {
        Ok(f) => f.call(&[]).map(|_| ()).map_err(GuestError::Runtime),
        Err(e) => Err(GuestError::Export(e)),
    }
}

/// Relies on wasmer's `Exports::get_native_function` and `NativeFunc::call`:
/// asks the guest's `buffer_pointer` export where its inbound buffer is.
#[verifier::external_body]
fn call_buffer_pointer(g: &mut WasmInstance) -> (r: Result<i32, GuestError>)
    ensures
        r matches Err(e) ==> !(e is Host),
        final(g).calls@ == old(g).calls@.push(
            GuestCall::BufferPointer(
                match r {
                    Ok(p) => Some(p),
                    Err(_) => None,
                },
            ),
        ),
        final(g).seen@ == old(g).seen@.push(old(g).mem@),
        final(g).writes@ == old(g).writes@,
        final(g).sizes@ == old(g).sizes@,
        final(g).refused@ == old(g).refused@,
{
    match g.instance.exports.get_native_function::<(), i32>("buffer_pointer") {
        Ok(f) => f.call().map_err(GuestError::Runtime),
        Err(e) => Err(GuestError::Export(e)),
    }
}

/// Relies on wasmer's `Exports::get_native_function` and `NativeFunc::call`:
/// calls the guest's `on_message(ptr, len)` export.
#[verifier::external_body]
fn call_on_message(g: &mut WasmInstance, ptr: i32, len: i32) -> (r: Result<(), GuestError>)
    ensures
        r matches Err(e) ==> !(e is Host),
        final(g).calls@ == old(g).calls@.push(GuestCall::OnMessage(ptr, len)),
        final(g).seen@ == old(g).seen@.push(old(g).mem@),
        final(g).writes@ == old(g).writes@,
        final(g).sizes@ == old(g).sizes@,
        final(g).refused@ == old(g).refused@,
{
    match g.instance.exports.get_native_function::<(i32, i32), ()>("on_message") {
        Ok(f) => f.call(ptr, len).map_err(GuestError::Runtime),
        Err(e) => Err(GuestError::Export(e)),
    }
}

/// Relies on wasmer's `Memory::data_size`: the current size of the guest's
/// linear memory, in bytes. The host's model of memory takes that size.
#[verifier::external_body]
fn memory_size(g: &mut WasmInstance) -> (r: u64)
    ensures
        final(g).mem@.len() == r,
        final(g).sizes@ == old(g).sizes@.push(r),
        final(g).refused@ == old(g).refused@,
        final(g).calls@ == old(g).calls@,
        final(g).seen@ == old(g).seen@,
        final(g).writes@ == old(g).writes@,
{
    g.memory.data_size()
}

/// Relies on wasmer's `Memory::uint8view`: sets byte `i` of the guest's
/// linear memory to `b`; `false`, and nothing written, when `i` is past the
/// end of the view. Linear memory never shrinks, so `i` is within the size
/// last read.
#[verifier::external_body]
fn set_guest_byte(g: &mut WasmInstance, i: usize, b: u8) -> (r: bool)
    requires
        i < old(g).mem@.len(),
    ensures
        r ==> final(g).mem@ == old(g).mem@.update(i as int, b),
        r ==> final(g).writes@ == old(g).writes@.push((i as int, b)),
        !r ==> final(g).mem@ == old(g).mem@ && final(g).writes@ == old(g).writes@,
        r ==> final(g).refused@ == old(g).refused@,
        !r ==> final(g).refused@ == old(g).refused@.push(i as int),
        final(g).sizes@ == old(g).sizes@,
        final(g).calls@ == old(g).calls@,
        final(g).seen@ == old(g).seen@,
{
    match g.memory.uint8view().get(i) {
        Some(cell) => {
            cell.set(b);
            true
        },
        None => false,
    }
}

/// A guest instance and its linear memory, driven from one thread.
pub struct WasmInstance {
    instance: Instance,
    memory: Memory,
    calls: Ghost<Seq<GuestCall>>,
    seen: Ghost<Seq<Seq<u8>>>,
    mem: Ghost<Seq<u8>>,
    writes: Ghost<Seq<(int, u8)>>,
    sizes: Ghost<Seq<u64>>,
    refused: Ghost<Seq<int>>,
}

impl WasmInstance {
    /// The calls made into the guest, in order.
    pub closed spec fn calls(&self) -> Seq<GuestCall> {
        self.calls@
    }

    /// The guest's memory as the host knew it when each call was made.
    pub closed spec fn seen(&self) -> Seq<Seq<u8>> {
        self.seen@
    }

    /// The guest's memory as the host last read or wrote it.
    pub closed spec fn memory(&self) -> Seq<u8> {
        self.mem@
    }

    /// The sizes of the guest's memory, as the host read them, in order.
    pub closed spec fn sizes(&self) -> Seq<u64> {
        self.sizes@
    }

    /// The addresses at which the guest's memory refused a write, in order.
    pub closed spec fn refused(&self) -> Seq<int> {
        self.refused@
    }

    /// The bytes the host wrote into the guest's memory to deliver payloads,
    /// in order (what the guest's imports write is not counted).
    pub closed spec fn writes(&self) -> Seq<(int, u8)> {
        self.writes@
    }

    pub fn new(instance: Instance, memory: Memory) -> (r: WasmInstance)
        ensures
            r.calls() == Seq::<GuestCall>::empty(),
            r.seen() == Seq::<Seq<u8>>::empty(),
            r.writes() == Seq::<(int, u8)>::empty(),
    {
        WasmInstance {
            instance,
            memory,
            calls: Ghost(Seq::empty()),
            seen: Ghost(Seq::empty()),
            mem: Ghost(Seq::empty()),
            writes: Ghost(Seq::empty()),
            sizes: Ghost(Seq::empty()),
            refused: Ghost(Seq::empty()),
        }
    }

    /// Runs the guest's entry point.
    pub fn start(&mut self) -> (r: Result<(), GuestError>)
        ensures
            r matches Err(e) ==> !(e is Host),
            final(self).calls() == old(self).calls().push(GuestCall::Start),
            final(self).writes() == old(self).writes(),
    {
        call_start(self)
    }

    /// Delivers one inbound payload: asks the guest for its buffer, refuses a
    /// payload over `BUFFER_LEN` bytes or one that would reach past the end
    /// of memory, copies the payload to the buffer and calls `on_message`.
    #[verifier::loop_isolation(false)]
    pub fn on_message(&mut self, msg: &[u8]) -> (r: Result<(), GuestError>)
        ensures
            ({
                let n = old(self).calls().len();
                &&& final(self).calls().len() >= n + 1
                &&& final(self).calls().subrange(0, n as int) == old(self).calls()
                &&& final(self).calls()[n as int] is BufferPointer
            }),
            r is Ok ==> ({
                let n = old(self).calls().len();
                let p = final(self).calls()[n as int]->BufferPointer_0->Some_0;
                let off = guest_offset(p);
                let sn = old(self).seen().len() as int;
                &&& msg@.len() <= BUFFER_LEN
                &&& final(self).calls() == old(self).calls().push(GuestCall::BufferPointer(Some(p))).push(
                    GuestCall::OnMessage(p, msg@.len() as i32),
                )
                &&& final(self).seen().len() == sn + 2
                &&& off + msg@.len() <= final(self).seen()[sn + 1].len()
                &&& final(self).seen()[sn + 1].subrange(off, off + msg@.len()) == msg@
                &&& final(self).writes() == old(self).writes() + delivery_writes(off, msg@)
                &&& final(self).sizes().len() == old(self).sizes().len() + 1
                &&& final(self).sizes().subrange(0, old(self).sizes().len() as int) == old(self).sizes()
                &&& off + msg@.len() <= final(self).sizes().last()
                &&& final(self).refused() == old(self).refused()
            }),
            r matches Err(e) && !(e is Host) ==> ({
                let n = old(self).calls().len();
                ||| (final(self).calls() == old(self).calls().push(GuestCall::BufferPointer(None))
                    && final(self).writes() == old(self).writes())
                ||| ({
                    let p = final(self).calls()[n as int]->BufferPointer_0->Some_0;
                    let off = guest_offset(p);
                    let sn = old(self).seen().len() as int;
                    &&& final(self).calls()[n as int] is BufferPointer
                    &&& final(self).calls()[n as int]->BufferPointer_0 is Some
                    &&& msg@.len() <= BUFFER_LEN
                    &&& final(self).calls() == old(self).calls().push(GuestCall::BufferPointer(Some(p))).push(
                        GuestCall::OnMessage(p, msg@.len() as i32),
                    )
                    &&& final(self).seen().len() == sn + 2
                    &&& off + msg@.len() <= final(self).seen()[sn + 1].len()
                    &&& final(self).seen()[sn + 1].subrange(off, off + msg@.len()) == msg@
                    &&& final(self).writes() == old(self).writes() + delivery_writes(off, msg@)
                })
            }),
            r matches Err(GuestError::Host(e)) ==> ({
                let n = old(self).calls().len();
                let p = final(self).calls()[n as int]->BufferPointer_0->Some_0;
                &&& final(self).calls() == old(self).calls().push(GuestCall::BufferPointer(Some(p)))
                &&& (msg@.len() > BUFFER_LEN <==> e == HostError::Oversize(msg.len()))
                &&& (e is Oversize ==> final(self).writes() == old(self).writes())
                &&& (e is OutOfBounds ==> msg@.len() <= BUFFER_LEN)
                &&& final(self).sizes().len() == old(self).sizes().len() + 1
                &&& final(self).sizes().subrange(0, old(self).sizes().len() as int) == old(self).sizes()
                &&& (e is OutOfBounds ==> guest_offset(p) + msg@.len() > final(self).sizes().last()
                    || guest_offset(p) + msg@.len() > usize::MAX || exists|k: int|
                    0 <= k < msg@.len() && final(self).refused() == old(self).refused().push(
                        guest_offset(p) + k,
                    ) && final(self).writes() == old(self).writes() + delivery_writes(
                        guest_offset(p),
                        msg@,
                    ).take(k))
                &&& (msg@.len() <= BUFFER_LEN && guest_offset(p) + msg@.len()
                    > final(self).memory().len() ==> e == HostError::OutOfBounds
                    && final(self).writes() == old(self).writes())
                &&& exists|k: int|
                    0 <= k <= msg@.len() && final(self).writes() == old(self).writes() + delivery_writes(
                        guest_offset(p),
                        msg@,
                    ).take(k)
            }),
    {
        let ghost n = self.calls@.len();
        let ptr = match call_buffer_pointer(self) {
            Ok(p) => p,
            Err(e) => return Err(e),
        };
        let offset: u32 = if ptr >= 0 {
            ptr as u32
        } else {
            (ptr as i64 + 0x1_0000_0000i64) as u32
        };
        assert(offset as int == guest_offset(ptr));
        let size = memory_size(self);
        let size: usize = if size > usize::MAX as u64 {
            usize::MAX
        } else {
            size as usize
        };
        assert(size <= self.mem@.len());
        let ghost w0 = self.writes@;
        let ghost m0 = self.mem@;
        let ghost c1 = self.calls@;
        let ghost s1 = self.seen@;
        let ghost sizes1 = self.sizes@;
        let (start, end) = match plan_delivery(U8WasmPtr { offset }, msg.len(), size) {
            Ok(range) => range,
            Err(e) => {
                assert(delivery_writes(guest_offset(ptr), msg@).take(0) =~= Seq::<(int, u8)>::empty());
                assert(w0 + Seq::<(int, u8)>::empty() =~= w0);
                return Err(GuestError::Host(e));
            },
        };
        let mut i: usize = start;
        while i < end
            invariant
                start <= i <= end,
                start == offset,
                end - start == msg@.len(),
                end <= m0.len(),
                self.calls@ == c1,
                self.seen@ == s1,
                self.sizes@ == sizes1,
                self.refused@ == old(self).refused@,
                self.mem@.len() == m0.len(),
                forall|j: int|
                    0 <= j < m0.len() ==> #[trigger] self.mem@[j] == (if start <= j < i {
                        msg@[j - start]
                    } else {
                        m0[j]
                    }),
                self.writes@ == w0 + delivery_writes(start as int, msg@).take(i - start),
            decreases end - i,
        {
            if !set_guest_byte(self, i, msg[i - start]) {
                assert(0 <= i - start < msg@.len());
                assert(self.refused@ == old(self).refused@.push(guest_offset(ptr) + (i - start)));
                assert(self.writes@ == old(self).writes@ + delivery_writes(guest_offset(ptr), msg@).take(
                    i - start,
                ));
                return Err(GuestError::Host(HostError::OutOfBounds));
            }
            assert(delivery_writes(start as int, msg@).take(i + 1 - start) =~= delivery_writes(
                start as int,
                msg@,
            ).take(i - start).push((i as int, msg@[i - start])));
            i += 1;
        }
        assert(delivery_writes(start as int, msg@).take(msg@.len() as int) =~= delivery_writes(
            start as int,
            msg@,
        ));
        assert(self.mem@.subrange(start as int, end as int) =~= msg@);
        call_on_message(self, ptr, msg.len() as i32)
    }
}

} // verus!
