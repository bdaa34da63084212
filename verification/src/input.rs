//! The input ring: characters from the keyboard and the serial line wait
//! here for the terminal to read them.

use vstd::prelude::*;

verus! {

/// Slots of the input ring (one is always left empty).
pub const INPUT_RING_SIZE: usize = 64;

/// Input ring: `buffer[tail..head)` (modulo the size) waits to be read.
pub struct InputRing {
    buffer: [u8; 64],
    head: usize,
    tail: usize,
}

/// What happens to an emitted character.
#[derive(Clone, Copy, PartialEq, Eq, Structural, Debug)]
pub enum EmitOutcome {
    /// Ctrl+C: echo "^C", interrupt the foreground process; not queued.
    Interrupt,
    /// Queued for reading.
    Queued,
    /// The ring is full: dropped.
    Dropped,
}

impl View for InputRing {
    type V = Seq<u8>;

    /// The waiting characters, oldest first.
    closed spec fn view(&self) -> Seq<u8> {
        Seq::new(((self.head + INPUT_RING_SIZE - self.tail) % (INPUT_RING_SIZE as int)) as nat,
            |i: int| self.buffer@[(self.tail + i) % (INPUT_RING_SIZE as int)])
    }
}

impl InputRing {
    /// Both positions inside the ring.
    pub closed spec fn wf(&self) -> bool {
        self.head < INPUT_RING_SIZE && self.tail < INPUT_RING_SIZE
    }

    /// An empty ring.
    pub fn new() -> (r: Self)
        ensures
            r.wf(),
            r@ == Seq::<u8>::empty(),
    {
        let r = InputRing { buffer: [0u8; 64], head: 0, tail: 0 };
        assert(r@ =~= Seq::<u8>::empty());
        r
    }

    /// Empty the ring.
    pub fn init(&mut self)
        ensures
            final(self).wf(),
            final(self)@ == Seq::<u8>::empty(),
    {
        self.head = 0;
        self.tail = 0;
        assert(self@ =~= Seq::<u8>::empty());
    }

    /// Offer a character: Ctrl+C (0x03) interrupts instead of being queued;
    /// anything else is queued unless the ring already holds 63.
    pub fn emit_char(&mut self, character: u8) -> (o: EmitOutcome)
        requires
            old(self).wf(),
        ensures
            final(self).wf(),
            character == 3 ==> o == EmitOutcome::Interrupt && final(self)@ == old(self)@,
            character != 3 && old(self)@.len() == INPUT_RING_SIZE - 1 ==> o == EmitOutcome::Dropped && final(self)@ == old(self)@,
            character != 3 && old(self)@.len() < INPUT_RING_SIZE - 1 ==> o == EmitOutcome::Queued
                && final(self)@ == old(self)@.push(character),
            old(self)@.len() < INPUT_RING_SIZE,
    {
        if character == 3 {
            return EmitOutcome::Interrupt;
        }
        let next_head = (self.head + 1) % INPUT_RING_SIZE;
        if next_head == self.tail {
            return EmitOutcome::Dropped;
        }
        let ghost before = self@;
        self.buffer[self.head] = character;
        self.head = next_head;
        assert(self@ =~= before.push(character));
        EmitOutcome::Queued
    }

    /// Take the oldest character, if any.
    pub fn try_getchar(&mut self) -> (r: Option<u8>)
        requires
            old(self).wf(),
        ensures
            final(self).wf(),
            old(self)@.len() == 0 ==> r is None && final(self)@ == old(self)@,
            old(self)@.len() > 0 ==> r == Some(old(self)@[0]) && final(self)@ == old(self)@.drop_first(),
    {
        if self.head == self.tail {
            return None;
        }
        let ghost before = self@;
        let c = self.buffer[self.tail];
        self.tail = (self.tail + 1) % INPUT_RING_SIZE;
        assert(self@ =~= before.drop_first());
        Some(c)
    }
}

} // verus!
