use vstd::prelude::*;
use crate::task::array_queue::{byte_queue_cap, byte_queue_elems, byte_queue_pop, byte_queue_push, new_byte_queue};
use crate::task::executor::{ReadyQueue, TaskWaker};

verus! {

/// The value types pc_keyboard's decoder yields. They are opaque here: the
/// library strings the decoding steps together and hands the results on,
/// claiming nothing about their values.
#[verifier::external_type_specification]
#[verifier::external_body]
pub struct ExKeyEvent(pc_keyboard::KeyEvent);

#[verifier::external_type_specification]
#[verifier::external_body]
pub struct ExDecodedKey(pc_keyboard::DecodedKey);

/// pc_keyboard's stateful scancode decoder, in the configuration this
/// kernel uses: scancode set 1 with the US 104-key layout. The decoder type
/// carries trait bounds Verus cannot take in a type declaration, so the
/// value is held opaquely in this struct and reached only through the
/// trusted wrappers below.
#[verifier::external_body]
pub struct UsKeyboard {
    inner: pc_keyboard::Keyboard<pc_keyboard::layouts::Us104Key, pc_keyboard::ScancodeSet1>,
}

/// Relies on pc_keyboard::Keyboard::new, fed a decoder state from
/// pc_keyboard::ScancodeSet1::new, configured for the US 104-key layout
/// with control keys passed through unchanged.
#[verifier::external_body]
pub fn make_keyboard() -> UsKeyboard {
    UsKeyboard {
        inner: pc_keyboard::Keyboard::new(
            pc_keyboard::ScancodeSet1::new(),
            pc_keyboard::layouts::Us104Key,
            pc_keyboard::HandleControl::Ignore,
        ),
    }
}

/// Relies on pc_keyboard::Keyboard::add_byte: advances the decoder by one
/// raw scan byte and may complete a key event. The outcome depends on the
/// decoder's accumulated state, so nothing is claimed of it; decode errors
/// are dropped, as the interrupt path drops them.
#[verifier::external_body]
fn keyboard_add_byte(kb: &mut UsKeyboard, b: u8) -> Option<pc_keyboard::KeyEvent> {
    match kb.inner.add_byte(b) {
        Ok(ev) => ev,
        Err(_) => None,
    }
}

/// Relies on pc_keyboard::Keyboard::process_keyevent: applies the layout
/// and the modifier state to a key event, yielding a printable key, if any.
#[verifier::external_body]
fn keyboard_process_keyevent(kb: &mut UsKeyboard, ev: pc_keyboard::KeyEvent) -> Option<
    pc_keyboard::DecodedKey,
> {
    kb.inner.process_keyevent(ev)
}

/// Feed one raw scan byte to the decoder; a byte that completes a key event
/// yields the decoded key to print. The decoding itself is pc_keyboard's,
/// so the result is handed on without further claims.
pub fn decode_scancode(keyboard: &mut UsKeyboard, scancode: u8) -> Option<pc_keyboard::DecodedKey> {
    match keyboard_add_byte(keyboard, scancode) {
        Some(ev) => keyboard_process_keyevent(keyboard, ev),
        None => None,
    }
}

/// What one poll of the byte stream reports: a buffered byte, or a promise
/// to be woken when one arrives.
#[derive(Debug, Clone, Copy, PartialEq, Eq, Structural)]
pub enum PollByte {
    Ready(u8),
    Pending,
}

/// The bytes buffered after the producer path runs once: a full queue
/// drops the byte, any other queue appends it.
pub open spec fn produce_bytes(bytes: Seq<u8>, cap: nat, b: u8) -> Seq<u8> {
    if bytes.len() < cap {
        bytes.push(b)
    } else {
        bytes
    }
}

/// Whether the producer path accepts the byte rather than dropping it.
pub open spec fn produce_accepted(bytes: Seq<u8>, cap: nat) -> bool {
    bytes.len() < cap
}

/// The bridge between the keyboard interrupt and its consumer task: a
/// bounded byte queue fed from interrupt context, and the single waker slot
/// of the task waiting on it.
pub struct ScancodeStream {
    pub queue: crossbeam_queue::ArrayQueue<u8>,
    pub waker: Option<TaskWaker>,
}

impl ScancodeStream {
    /// The buffered scan bytes, oldest first.
    pub open spec fn view_bytes(self) -> Seq<u8> {
        byte_queue_elems(self.queue)
    }

    /// The fixed capacity of the byte queue.
    pub open spec fn cap(self) -> nat {
        byte_queue_cap(self.queue)
    }

    pub open spec fn wf(self) -> bool {
        &&& self.view_bytes().len() <= self.cap()
        &&& self.cap() > 0
    }

    /// The stream's backing queue is created here, once; keeping the single
    /// instance single is the caller's side of the contract.
    pub fn new() -> (r: Self)
        ensures
            r.wf(),
            r.view_bytes() == Seq::<u8>::empty(),
            r.cap() == 100,
            r.waker is None,
    {
        ScancodeStream { queue: new_byte_queue(100), waker: None }
    }

    /// The producer path, run by the keyboard interrupt handler for each
    /// scan byte; it must not block or allocate, and does neither. A full
    /// queue drops the byte and reports it, so the handler can emit a
    /// diagnostic; otherwise the byte is appended and the registered waker,
    /// if any, is taken and invoked to schedule the consumer.
    pub fn add_scancode(&mut self, scancode: u8, ready: &mut ReadyQueue) -> (accepted: bool)
        requires
            old(self).wf(),
            old(ready).wf(),
            old(ready).view_elems().len() < old(ready).cap(),
        ensures
            final(self).wf(),
            final(self).cap() == old(self).cap(),
            final(ready).wf(),
            final(ready).cap() == old(ready).cap(),
            accepted == produce_accepted(old(self).view_bytes(), old(self).cap()),
            final(self).view_bytes() == produce_bytes(
                old(self).view_bytes(),
                old(self).cap(),
                scancode,
            ),
            !accepted ==> final(self).waker == old(self).waker && final(ready).view_elems() == old(
                ready,
            ).view_elems(),
            accepted ==> final(self).waker is None,
            accepted ==> (match old(self).waker {
                Option::Some(w) => final(ready).view_elems() == old(ready).view_elems().push(
                    w.task_id.spec_u64(),
                ),
                Option::None => final(ready).view_elems() == old(ready).view_elems(),
            }),
    {
        let pushed = byte_queue_push(&mut self.queue, scancode);
        if pushed {
            let registered = self.waker.take();
            match registered {
                Some(w) => {
                    w.wake_task(ready);
                },
                None => {},
            }
            true
        } else {
            false
        }
    }

    /// The consumer's fast path: take the oldest buffered byte, if any,
    /// without touching the waker slot.
    pub fn try_pop(&mut self) -> (r: Option<u8>)
        requires
            old(self).wf(),
        ensures
            final(self).wf(),
            final(self).cap() == old(self).cap(),
            final(self).waker == old(self).waker,
            old(self).view_bytes().len() == 0 ==> r is None && final(self).view_bytes() == old(
                self,
            ).view_bytes(),
            old(self).view_bytes().len() > 0 ==> r == Some(old(self).view_bytes().first())
                && final(self).view_bytes() == old(self).view_bytes().drop_first(),
    {
        byte_queue_pop(&mut self.queue)
    }

    /// Park the consumer: record its waker in the single slot, overwriting
    /// any earlier registration.
    pub fn register_waker(&mut self, waker: TaskWaker)
        requires
            old(self).wf(),
        ensures
            final(self).wf(),
            final(self).cap() == old(self).cap(),
            final(self).view_bytes() == old(self).view_bytes(),
            final(self).waker == Some(waker),
    {
        self.waker = Some(waker);
    }

    /// The consumer's second look, made after registering its waker: it
    /// observes any byte produced between the fast path and registration,
    /// which closes the lost-wakeup window. On a byte the registration is
    /// withdrawn; on an empty queue the consumer stays parked.
    pub fn poll_after_register(&mut self) -> (r: PollByte)
        requires
            old(self).wf(),
        ensures
            final(self).wf(),
            final(self).cap() == old(self).cap(),
            old(self).view_bytes().len() == 0 ==> {
                &&& r is Pending
                &&& final(self).view_bytes() == old(self).view_bytes()
                &&& final(self).waker == old(self).waker
            },
            old(self).view_bytes().len() > 0 ==> {
                &&& r == PollByte::Ready(old(self).view_bytes().first())
                &&& final(self).view_bytes() == old(self).view_bytes().drop_first()
                &&& final(self).waker is None
            },
    {
        match byte_queue_pop(&mut self.queue) {
            Some(b) => {
                self.waker = None;
                PollByte::Ready(b)
            },
            None => PollByte::Pending,
        }
    }

    /// One full poll of the stream by the consumer task: the fast path, and
    /// on an empty queue a waker registration followed by the re-check.
    pub fn poll_next(&mut self, waker: TaskWaker) -> (r: PollByte)
        requires
            old(self).wf(),
        ensures
            final(self).wf(),
            final(self).cap() == old(self).cap(),
            old(self).view_bytes().len() > 0 ==> {
                &&& r == PollByte::Ready(old(self).view_bytes().first())
                &&& final(self).view_bytes() == old(self).view_bytes().drop_first()
                &&& final(self).waker == old(self).waker
            },
            old(self).view_bytes().len() == 0 ==> {
                &&& r is Pending
                &&& final(self).view_bytes() == old(self).view_bytes()
                &&& final(self).waker == Some(waker)
            },
    {
        match self.try_pop() {
            Some(b) => PollByte::Ready(b),
            None => {
                self.register_waker(waker);
                self.poll_after_register()
            },
        }
    }
}

/// Law: the lost-wakeup window is closed. When the producer runs strictly
/// between the consumer's empty fast-path pop and its waker registration,
/// the byte it buffered is still at the front of the queue afterwards
/// (registration leaves the queue untouched), so the consumer's second pop
/// returns it rather than parking forever.
pub proof fn lemma_lost_wakeup_closed(bytes: Seq<u8>, cap: nat, b: u8)
    requires
        bytes.len() == 0,
        cap > 0,
    ensures
        produce_accepted(bytes, cap),
        produce_bytes(bytes, cap, b).len() > 0,
        produce_bytes(bytes, cap, b).first() == b,
{
}

/// Law: a producer that meets a full queue drops the byte and leaves every
/// buffered byte in place and in order; any other producer appends its byte
/// at the back, preserving first-in-first-out order of consumption.
pub proof fn lemma_overflow_drops_only_new_byte(bytes: Seq<u8>, cap: nat, b: u8)
    ensures
        !produce_accepted(bytes, cap) ==> produce_bytes(bytes, cap, b) == bytes,
        produce_accepted(bytes, cap) ==> produce_bytes(bytes, cap, b) == bytes.push(b),
{
}

} // verus!
