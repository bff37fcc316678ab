//! The stack and the heap that a program runs with.

use crate::formatting::{write_str, written};
use vstd::prelude::*;
use vstd::slice::slice_subrange;

verus! {

/// Initial stack size
pub const STACK_SIZE: usize = 32_768;

/// Initial heap size
pub const HEAP_SIZE: usize = 32_768;

/// A part of the heap.
#[derive(Debug, Clone, Copy)]
pub struct Span {
    /// Where it starts.
    pub start: usize,
    /// How many bytes it has.
    pub len: usize,
}

impl Span {
    /// Whether the span lies in what has been allocated.
    pub open spec fn lies_in(self, memory: Seq<u8>) -> bool {
        self.start + self.len <= memory.len()
    }

    /// The bytes of the span.
    pub open spec fn of(self, memory: Seq<u8>) -> Seq<u8> {
        memory.subrange(self.start as int, self.start + self.len)
    }

}

/// Where the bytes of a value are.
#[derive(Clone, Copy)]
pub enum Slot<'a> {
    /// On the heap.
    Heap(Span),
    /// With whoever pushed the value.
    Lent(&'a [u8]),
}

impl<'a> Slot<'a> {
    /// Whether the bytes are there, with a heap off which this has been allocated.
    pub open spec fn lies_in(self, memory: Seq<u8>) -> bool {
        match self {
            Slot::Heap(span) => span.lies_in(memory),
            Slot::Lent(_) => true,
        }
    }

    /// The bytes.
    pub open spec fn of(self, memory: Seq<u8>) -> Seq<u8> {
        match self {
            Slot::Heap(span) => span.of(memory),
            Slot::Lent(bytes) => bytes@,
        }
    }

    /// What a slot of the stack holds when there is no value in it.
    fn empty() -> (slot: Slot<'a>)
        ensures
            slot matches Slot::Lent(bytes) && bytes@.len() == 0,
    {
        Slot::Lent(&[])
    }
}

/// Env is a representation of a stack and the heap.
///
/// A value on the stack is a part of the heap, or bytes that somebody else has: to push, to
/// move or to repeat a value is not to copy its bytes. What has been allocated stays where it
/// is, as it is, until the Env is dropped.
pub struct Env<'a> {
    stack: Vec<Slot<'a>>,
    stack_size: usize,
    heap: Vec<u8>,
    heap_ptr: usize,
}

impl<'a> core::fmt::Debug for Env<'a> {
    fn fmt(&self, fmt: &mut core::fmt::Formatter<'_>) -> (result: Result<(), core::fmt::Error>)
        ensures
            result is Ok ==> written(*final(fmt)) == written(*old(fmt)) + "Env()"@,
    {
        write_str(fmt, "Env()")
    }
}

impl<'a> View for Env<'a> {
    type V = Seq<Seq<u8>>;

    /// The values on the stack, the top of the stack last.
    closed spec fn view(&self) -> Seq<Seq<u8>> {
        Seq::new(self.stack_size as nat, |i: int| self.stack@[i].of(self.memory()))
    }
}

/// What an environment takes up.
#[verifier::ext_equal]
pub struct Usage {
    /// The bytes that have been allocated off the heap, in the order of their allocation.
    pub memory: Seq<u8>,
    /// The size of the heap.
    pub heap_size: nat,
    /// The number of values that the stack can hold before it has to grow.
    pub slots: nat,
}

impl Usage {
    /// What is taken up once further bytes have been allocated.
    pub open spec fn allocated(self, bytes: Seq<u8>) -> Usage {
        Usage {
            memory: self.memory + bytes,
            heap_size: if self.memory.len() + bytes.len() < self.heap_size {
                self.heap_size
            } else if bytes.len() > HEAP_SIZE {
                self.heap_size + bytes.len()
            } else {
                self.heap_size + HEAP_SIZE as nat
            },
            slots: self.slots,
        }
    }

    /// What is taken up once a value has been pushed on top of `depth` others.
    pub open spec fn pushed(self, depth: nat) -> Usage {
        Usage {
            slots: if depth == self.slots {
                self.slots + STACK_SIZE as nat
            } else {
                self.slots
            },
            ..self
        }
    }

    /// What is taken up by an environment without values.
    pub open spec fn initial(slots: nat) -> Usage {
        Usage { memory: Seq::empty(), heap_size: HEAP_SIZE as nat, slots }
    }
}

/// The values in the lowest slots of a stack.
pub open spec fn lowest(stack: Seq<&[u8]>, stack_size: nat) -> Seq<Seq<u8>> {
    Seq::new(stack_size, |i: int| stack[i]@)
}

impl<'a> Env<'a> {
    /// There is a slot for every value and room on the heap, and every value on the stack that is a part of the heap has been allocated off it.
    pub closed spec fn wf(&self) -> bool {
        &&& self.stack_size <= self.stack@.len()
        &&& self.heap_ptr < self.heap@.len()
        &&& forall|i: int|
            0 <= i < self.stack_size ==> (#[trigger] self.stack@[i]).lies_in(self.memory())
    }

    closed spec fn memory(&self) -> Seq<u8> {
        self.heap@.take(self.heap_ptr as int)
    }

    /// There is a slot for every value of an environment, and there is more of its heap than has
    /// been allocated off it.
    pub proof fn law_values_have_slots(&self)
        requires
            self.wf(),
        ensures
            self@.len() <= self.usage().slots,
            self.usage().memory.len() < self.usage().heap_size,
    {
    }

    /// What the environment takes up.
    pub closed spec fn usage(&self) -> Usage {
        Usage { memory: self.memory(), heap_size: self.heap@.len(), slots: self.stack@.len() }
    }

    /// Creates an environment with an empty stack of default size
    pub fn new() -> (env: Env<'a>)
        ensures
            env.wf(),
            env@ == Seq::<Seq<u8>>::empty(),
            env.usage() == Usage::initial(STACK_SIZE as nat),
    {
        Env::new_with_stack_size(STACK_SIZE)
    }

    /// Creates an environment with an empty stack of specific size
    pub fn new_with_stack_size(size: usize) -> (env: Env<'a>)
        ensures
            env.wf(),
            env@ == Seq::<Seq<u8>>::empty(),
            env.usage() == Usage::initial(size as nat),
    {
        let env = Env {
            stack: vec![Slot::empty(); size],
            stack_size: 0,
            heap: vec![0u8; HEAP_SIZE],
            heap_ptr: 0,
        };
        assert(env@ =~= Seq::<Seq<u8>>::empty());
        assert(env.memory() =~= Seq::<u8>::empty());
        env
    }

    /// Creates an environment with an existing stack and a pointer to the
    /// topmost element (stack_size)
    ///
    /// This function is useful for working with result stacks received from
    /// the VM
    pub fn new_with_stack(stack: Vec<&'a [u8]>, stack_size: usize) -> (env: Env<'a>)
        requires
            stack_size <= stack@.len(),
        ensures
            env.wf(),
            env@.len() == stack_size,
            forall|i: int| 0 <= i < stack_size ==> #[trigger] env@[i] == stack@[i]@,
            env@ == lowest(stack@, stack_size as nat),
            env.usage() == Usage::initial(stack@.len()),
    {
        let mut slots: Vec<Slot<'a>> = Vec::new();
        let mut i: usize = 0;
        while i < stack.len()
            invariant
                i <= stack@.len(),
                slots@.len() == i,
                forall|j: int| 0 <= j < i ==> #[trigger] slots@[j] == Slot::Lent(stack@[j]),
            decreases stack@.len() - i,
        {
            slots.push(Slot::Lent(stack[i]));
            i += 1;
        }
        let env = Env { stack: slots, stack_size, heap: vec![0u8; HEAP_SIZE], heap_ptr: 0 };
        assert(env@ =~= lowest(stack@, stack_size as nat));
        assert(env.memory() =~= Seq::<u8>::empty());
        env
    }

    /// The size of the heap
    pub fn heap_size(&self) -> (size: usize)
        ensures
            size == self.usage().heap_size,
    {
        self.heap.len()
    }

    /// The number of values that the stack can hold before it has to grow
    pub fn stack_slots(&self) -> (slots: usize)
        ensures
            slots == self.usage().slots,
    {
        self.stack.len()
    }

    /// The number of values on the stack
    pub fn stack_size(&self) -> (size: usize)
        requires
            self.wf(),
        ensures
            size == self@.len(),
    {
        self.stack_size
    }

    /// The number of bytes that have been allocated off the heap
    pub(crate) fn allocated(&self) -> (len: usize)
        requires
            self.wf(),
        ensures
            len == self.usage().memory.len(),
    {
        self.heap_ptr
    }

    /// The bytes of a value
    pub(crate) fn bytes(&self, slot: Slot<'a>) -> (bytes: &[u8])
        requires
            self.wf(),
            slot.lies_in(self.usage().memory),
        ensures
            bytes@ == slot.of(self.usage().memory),
    {
        match slot {
            Slot::Heap(span) => {
                let bytes: &[u8] = slice_subrange(
                    self.heap.as_slice(),
                    span.start,
                    span.start + span.len,
                );
                assert(bytes@ =~= span.of(self.memory()));
                bytes
            },
            Slot::Lent(bytes) => bytes,
        }
    }

    /// Returns the entire stack, the top of the stack last
    pub fn stack(&self) -> (stack: Vec<&[u8]>)
        requires
            self.wf(),
        ensures
            stack@.len() == self@.len(),
            forall|i: int| 0 <= i < self@.len() ==> (#[trigger] stack@[i])@ == self@[i],
    {
        let mut stack: Vec<&[u8]> = Vec::new();
        let mut i: usize = 0;
        while i < self.stack_size
            invariant
                self.wf(),
                i <= self.stack_size,
                stack@.len() == i,
                forall|j: int| 0 <= j < i ==> (#[trigger] stack@[j])@ == self@[j],
            decreases self.stack_size - i,
        {
            stack.push(self.bytes(self.stack[i]));
            i += 1;
        }
        stack
    }

    /// The value so many places below the top of the stack
    pub(crate) fn value(&self, depth: usize) -> (value: &[u8])
        requires
            self.wf(),
            depth < self@.len(),
        ensures
            value@ == self@[self@.len() - 1 - depth],
    {
        self.bytes(self.stack[self.stack_size - 1 - depth])
    }

    /// Returns top of the stack without removing it
    pub fn stack_top(&self) -> (top: Option<&[u8]>)
        requires
            self.wf(),
        ensures
            match top {
                None => self@.len() == 0,
                Some(value) => self@.len() > 0 && value@ == self@.last(),
            },
    {
        if self.stack_size == 0 {
            None
        } else {
            Some(self.bytes(self.stack[self.stack_size - 1]))
        }
    }

    /// Removes the top of the stack and returns it
    pub fn pop(&mut self) -> (top: Option<&[u8]>)
        requires
            old(self).wf(),
        ensures
            final(self).wf(),
            match top {
                None => old(self)@.len() == 0 && final(self)@ == old(self)@,
                Some(value) => {
                    &&& old(self)@.len() > 0
                    &&& value@ == old(self)@.last()
                    &&& final(self)@ == old(self)@.drop_last()
                },
            },
            final(self).usage() == old(self).usage(),
    {
        match self.pop_slot() {
            None => None,
            Some(slot) => Some(self.bytes(slot)),
        }
    }

    /// Removes the top of the stack and returns where it is
    pub(crate) fn pop_slot(&mut self) -> (top: Option<Slot<'a>>)
        requires
            old(self).wf(),
        ensures
            final(self).wf(),
            match top {
                None => old(self)@.len() == 0 && final(self)@ == old(self)@,
                Some(slot) => {
                    &&& old(self)@.len() > 0
                    &&& slot.lies_in(final(self).usage().memory)
                    &&& slot.of(final(self).usage().memory) == old(self)@.last()
                    &&& final(self)@ == old(self)@.drop_last()
                    &&& final(self)@.len() < final(self).usage().slots
                },
            },
            final(self).usage() == old(self).usage(),
    {
        if self.stack_size == 0 {
            None
        } else {
            let slot: Slot<'a> = self.stack[self.stack_size - 1];
            self.stack.set(self.stack_size - 1, Slot::empty());
            self.stack_size -= 1;
            assert(self@ =~= old(self)@.drop_last());
            Some(slot)
        }
    }

    /// Pushes value on top of the stack
    ///
    /// The bytes stay where they are.
    pub fn push(&mut self, data: &'a [u8])
        requires
            old(self).wf(),
        ensures
            final(self).wf(),
            final(self)@ == old(self)@.push(data@),
            final(self).usage() == old(self).usage().pushed(old(self)@.len()),
    {
        self.push_slot(Slot::Lent(data));
    }

    /// Pushes the value in a slot on top of the stack
    pub(crate) fn push_slot(&mut self, slot: Slot<'a>)
        requires
            old(self).wf(),
            slot.lies_in(old(self).usage().memory),
        ensures
            final(self).wf(),
            final(self)@ == old(self)@.push(slot.of(old(self).usage().memory)),
            final(self).usage() == old(self).usage().pushed(old(self)@.len()),
    {
        // check if we are at capacity
        if self.stack_size == self.stack.len() {
            let mut vec: Vec<Slot<'a>> = vec![Slot::empty(); STACK_SIZE];
            self.stack.append(&mut vec);
        }
        assert(self.stack_size < self.stack.len());
        self.stack.set(self.stack_size, slot);
        self.stack_size += 1;
        assert(self@ =~= old(self)@.push(slot.of(old(self).memory())));
    }

    /// Allocates a slice off the Env-specific heap. Will be collected
    /// once this Env is dropped.
    ///
    /// What is written to the slice disturbs nothing that was allocated before, and no
    /// value on the stack.
    pub fn allocate(&mut self, len: usize) -> (slice: &mut [u8])
        requires
            old(self).wf(),
        ensures
            slice@.len() == len,
            final(slice)@.len() == len ==> {
                &&& final(self).wf()
                &&& final(self)@ == old(self)@
                &&& final(self).usage() == old(self).usage().allocated(final(slice)@)
            },
    {
        let size: usize = self.heap.len();
        if len >= size - self.heap_ptr {
            let increase: usize = if len > HEAP_SIZE {
                len
            } else {
                HEAP_SIZE
            };
            let mut vec: Vec<u8> = vec![0u8; increase];
            self.heap.append(&mut vec);
        }
        let start: usize = self.heap_ptr;
        assert(start + len <= self.heap.len());
        self.heap_ptr = start + len;
        let ghost heap = self.heap@;
        let (head, tail) = self.heap.as_mut_slice().split_at_mut(start);
        let (slice, rest) = tail.split_at_mut(len);
        assert(heap.take(start as int) =~= old(self).memory());
        assert(after_borrow(self).heap@ =~= heap.take(start as int) + final(slice)@ + heap.skip(
            start + len,
        ));
        assert(final(slice)@.len() == len ==> after_borrow(self).memory() =~= old(self).memory()
            + final(slice)@);
        assert(final(slice)@.len() == len ==> after_borrow(self).wf());
        assert(final(slice)@.len() == len ==> after_borrow(self).usage() =~= old(
            self,
        ).usage().allocated(final(slice)@));
        assert(final(slice)@.len() == len ==> forall|i: int|
            0 <= i < old(self).stack_size ==> old(self).stack@[i].lies_in(old(self).memory()) && (
            #[trigger] after_borrow(self)@[i]) =~= old(self)@[i]);
        assert(final(slice)@.len() == len ==> after_borrow(self)@ =~= old(self)@);
        slice
    }

    /// Pushes bytes that are copied to the heap on top of the stack
    pub(crate) fn push_copy(&mut self, data: &[u8])
        requires
            old(self).wf(),
        ensures
            final(self).wf(),
            final(self)@ == old(self)@.push(data@),
            final(self).usage() == old(self).usage().allocated(data@).pushed(old(self)@.len()),
    {
        let span: Span = self.copy_in(data);
        self.push_slot(Slot::Heap(span));
    }

    /// Copies bytes to the heap and returns where they are
    pub(crate) fn copy_in(&mut self, data: &[u8]) -> (span: Span)
        requires
            old(self).wf(),
        ensures
            final(self).wf(),
            span.lies_in(final(self).usage().memory),
            span.of(final(self).usage().memory) == data@,
            final(self)@ == old(self)@,
            final(self).usage() == old(self).usage().allocated(data@),
    {
        let start: usize = self.heap_ptr;
        let slice = self.allocate(data.len());
        copy_bytes(slice, 0, data);
        let span = Span { start, len: data.len() };
        assert(span.of(self.memory()) =~= data@);
        span
    }
}

/// Copies bytes into a slice.
pub(crate) fn copy_bytes(slice: &mut [u8], at: usize, data: &[u8])
    requires
        at + data@.len() <= old(slice)@.len(),
    ensures
        final(slice)@ == old(slice)@.take(at as int) + data@ + old(slice)@.skip(at + data@.len()),
{
    let len: usize = slice.len();
    let mut i: usize = 0;
    while i < data.len()
        invariant
            i <= data@.len(),
            at + data@.len() <= len,
            len == old(slice)@.len(),
            slice@ == old(slice)@.take(at as int) + data@.take(i as int) + old(slice)@.skip(at + i),
        decreases data@.len() - i,
    {
        slice[at + i] = data[i];
        i += 1;
        assert(slice@ =~= old(slice)@.take(at as int) + data@.take(i as int) + old(slice)@.skip(
            at + i,
        ));
    }
    assert(data@.take(i as int) =~= data@);
}

} // verus!
