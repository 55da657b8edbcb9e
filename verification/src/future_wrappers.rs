//! How a task hands over its output.
//!
//! Each task owns one heap slot, known by its address. [`WriteOutput`] follows
//! the task's future: when the future is ready it writes the output into the
//! slot and gives the address away as a [`SendPtr`]. From then on the slot
//! belongs to whoever joins the task. If the future is dropped before it is
//! ready, the slot is released by the wrapper instead.

use std::marker::PhantomData;

use vstd::prelude::*;

use crate::progress::Progress;

verus! {

/// The address of the heap slot that holds a task's output. It is never null.
///
/// This is what a task yields. The address identifies the slot by itself: no
/// table has to be consulted to find the output again.
#[derive(Debug)]
pub struct SendPtr {
    inner: usize,
}

impl View for SendPtr {
    type V = usize;

    closed spec fn view(&self) -> usize {
        self.inner
    }
}

impl SendPtr {
    #[verifier::type_invariant]
    spec fn non_null(self) -> bool {
        self.inner != 0
    }

    /// Wraps the address of an output slot.
    pub fn new(inner: usize) -> (ptr: Self)
        requires
            inner != 0,
        ensures
            ptr@ == inner,
    {
        SendPtr { inner }
    }
}

impl std::ops::Deref for SendPtr {
    type Target = usize;

    /// The address of the slot.
    fn deref(&self) -> (inner: &usize)
        ensures
            *inner == self@,
            *inner != 0,
    {
        proof {
            use_type_invariant(self);
        }
        &self.inner
    }
}

/// A slot for the output of one task: empty when it is reserved, filled at most
/// once, emptied by taking the output out.
#[derive(Debug)]
pub struct OutputSlot<TaskOutput> {
    value: Option<TaskOutput>,
}

impl<TaskOutput> View for OutputSlot<TaskOutput> {
    type V = Option<TaskOutput>;

    closed spec fn view(&self) -> Option<TaskOutput> {
        self.value
    }
}

impl<TaskOutput> OutputSlot<TaskOutput> {
    /// A slot that no output has been written to.
    pub fn empty() -> (slot: Self)
        ensures
            slot@ == None::<TaskOutput>,
    {
        OutputSlot { value: None }
    }

    /// Whether the slot holds an output.
    pub fn is_written(&self) -> (written: bool)
        ensures
            written == (self@ is Some),
    {
        self.value.is_some()
    }

    /// Puts `output` into the slot.
    pub fn write(&mut self, output: TaskOutput)
        ensures
            final(self)@ == Some(output),
    {
        self.value = Some(output);
    }

    /// Takes the output out of a slot that holds one.
    pub fn into_output(self) -> (output: TaskOutput)
        requires
            self@ is Some,
        ensures
            self@ == Some(output),
    {
        self.value.unwrap()
    }
}

/// What is known of a task's wrapper: the slot that it writes to, and whether
/// it has written the output and given the slot away.
pub struct WriteState {
    pub output_ptr: usize,
    pub success: bool,
}

/// Follows a task's future and moves the future's output into the task's slot.
#[derive(Debug)]
pub struct WriteOutput<TaskOutput> {
    output_ptr: usize,
    success: bool,
    _marker: PhantomData<TaskOutput>,
}

impl<TaskOutput> View for WriteOutput<TaskOutput> {
    type V = WriteState;

    closed spec fn view(&self) -> WriteState {
        WriteState { output_ptr: self.output_ptr, success: self.success }
    }
}

/// The wrapper's state, the slot, and the address given away, after the future
/// has been polled once: nothing changes while the future is pending, and when
/// it is ready its output is in the slot and the slot is given away.
pub open spec fn poll_step<TaskOutput>(
    state: WriteState,
    slot: Option<TaskOutput>,
    output: Progress<TaskOutput>,
) -> (WriteState, Option<TaskOutput>, Option<usize>) {
    match output {
        Progress::Pending => (state, slot, None),
        Progress::Ready(value) => (
            WriteState { output_ptr: state.output_ptr, success: true },
            Some(value),
            Some(state.output_ptr),
        ),
    }
}

/// The address that a poll has given away, if any.
pub open spec fn given_away(res: Progress<SendPtr>) -> Option<usize> {
    match res {
        Progress::Pending => None,
        Progress::Ready(ptr) => Some(ptr@),
    }
}

/// The address of the slot that is released when the wrapper is dropped: its
/// own, unless it has given the slot away.
pub open spec fn released_on_drop(state: WriteState) -> Option<usize> {
    if state.success {
        None
    } else {
        Some(state.output_ptr)
    }
}

impl<TaskOutput> WriteOutput<TaskOutput> {
    #[verifier::type_invariant]
    spec fn non_null(self) -> bool {
        self.output_ptr != 0
    }

    /// A wrapper for a future that has not been polled yet, and whose output
    /// will go to the slot at `output_ptr`.
    pub fn new(output_ptr: usize) -> (wrapper: Self)
        requires
            output_ptr != 0,
        ensures
            wrapper@ == (WriteState { output_ptr, success: false }),
    {
        WriteOutput { output_ptr, success: false, _marker: PhantomData }
    }

    /// The address of the slot that the output goes to.
    pub fn output_ptr(&self) -> (output_ptr: usize)
        ensures
            output_ptr == self@.output_ptr,
            output_ptr != 0,
    {
        proof {
            use_type_invariant(self);
        }
        self.output_ptr
    }

    /// Takes note of what polling the future has brought about. `slot` is the
    /// slot at this wrapper's address.
    ///
    /// When the future is ready, its output is written into the slot and the
    /// slot's address is given away.
    pub fn poll(
        &mut self,
        output: Progress<TaskOutput>,
        slot: &mut OutputSlot<TaskOutput>,
    ) -> (res: Progress<SendPtr>)
        ensures
            (final(self)@, final(slot)@, given_away(res)) == poll_step(
                old(self)@,
                old(slot)@,
                output,
            ),
    {
        proof {
            use_type_invariant(&*self);
        }
        match output {
            Progress::Pending => Progress::Pending,
            Progress::Ready(value) => {
                slot.write(value);
                self.success = true;
                Progress::Ready(SendPtr::new(self.output_ptr))
            },
        }
    }

    /// What has to be released when the wrapper is dropped: the slot, if it was
    /// not given away, because the future never completed.
    pub fn drop(&self) -> (released: Option<SendPtr>)
        ensures
            released is Some <==> released_on_drop(self@) is Some,
            released matches Some(ptr) ==> released_on_drop(self@) == Some(ptr@),
    {
        proof {
            use_type_invariant(self);
        }
        if !self.success {
            Some(SendPtr::new(self.output_ptr))
        } else {
            None
        }
    }
}

} // verus!
