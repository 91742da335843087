use vstd::prelude::*;

use crate::errors::ArtError;
use crate::types::{ArtResult, Sample};

verus! {

/// A fixed-capacity sample buffer used as a stack.
///
/// `push` reserves a region at the top and `pop` releases one; `read`,
/// `write`, `add` and `zero` act on explicit index ranges, proved in
/// bounds, so that two disjoint regions of the one buffer can be worked on
/// independently. The cursor never exceeds the capacity and the capacity
/// is fixed at construction.
pub struct ChannelStack {
    data: Vec<Sample>,
    position: usize,
}

impl ChannelStack {
    /// The whole buffer's contents.
    pub closed spec fn view(&self) -> Seq<Sample> {
        self.data@
    }

    /// The stack cursor: everything below it is reserved.
    pub closed spec fn pos(&self) -> int {
        self.position as int
    }

    /// The cursor never exceeds the fixed capacity.
    pub open spec fn wf(&self) -> bool {
        0 <= self.pos() <= self.view().len()
    }

    /// A zeroed stack of `capacity` samples with the cursor at the bottom.
    pub fn new(capacity: usize) -> (r: ChannelStack)
        ensures
            r.wf(),
            r.pos() == 0,
            r.view().len() == capacity,
            forall|i: int| 0 <= i < capacity ==> r.view()[i] == 0,
    {
        ChannelStack { data: vec![0; capacity], position: 0 }
    }

    /// The fixed capacity in samples.
    pub fn capacity(&self) -> (r: usize)
        ensures
            r == self.view().len(),
    {
        self.data.len()
    }

    /// The current cursor.
    pub fn position(&self) -> (r: usize)
        ensures
            r == self.pos(),
    {
        self.position
    }

    /// Reserve `samples` at the top and return the reserved region's start
    /// offset. Fails with `StackOverflow`, moving nothing, exactly when the
    /// reservation would pass the capacity.
    pub fn push(&mut self, samples: usize) -> (r: ArtResult<usize>)
        requires
            old(self).wf(),
        ensures
            final(self).wf(),
            final(self).view() == old(self).view(),
            match r {
                Ok(index) => {
                    &&& old(self).pos() + samples <= old(self).view().len()
                    &&& index == old(self).pos()
                    &&& final(self).pos() == old(self).pos() + samples
                },
                Err(e) => {
                    &&& e == ArtError::StackOverflow
                    &&& old(self).pos() + samples > old(self).view().len()
                    &&& final(self).pos() == old(self).pos()
                },
            },
    {
        if samples > self.data.len() - self.position {
            return Err(ArtError::StackOverflow);
        }
        let index = self.position;
        self.position = self.position + samples;
        Ok(index)
    }

    /// Release the top `samples` and return the new cursor. Fails with
    /// `StackUnderflow`, moving nothing, exactly when fewer than `samples`
    /// are reserved.
    pub fn pop(&mut self, samples: usize) -> (r: ArtResult<usize>)
        requires
            old(self).wf(),
        ensures
            final(self).wf(),
            final(self).view() == old(self).view(),
            match r {
                Ok(index) => {
                    &&& samples <= old(self).pos()
                    &&& index == old(self).pos() - samples
                    &&& final(self).pos() == old(self).pos() - samples
                },
                Err(e) => {
                    &&& e == ArtError::StackUnderflow
                    &&& samples > old(self).pos()
                    &&& final(self).pos() == old(self).pos()
                },
            },
    {
        if samples > self.position {
            return Err(ArtError::StackUnderflow);
        }
        self.position = self.position - samples;
        Ok(self.position)
    }

    /// Copy out the `samples` values starting at `index`. Fails with
    /// `InvalidStack` exactly when the range is out of bounds.
    pub fn read(&self, index: usize, samples: usize) -> (r: ArtResult<Vec<Sample>>)
        ensures
            match r {
                Ok(values) => {
                    &&& index + samples <= self.view().len()
                    &&& values@ == self.view().subrange(index as int, index + samples)
                },
                Err(e) => {
                    &&& e == ArtError::InvalidStack
                    &&& index + samples > self.view().len()
                },
            },
    {
        if samples > self.data.len() || index > self.data.len() - samples {
            return Err(ArtError::InvalidStack);
        }
        let mut values: Vec<Sample> = Vec::new();
        let mut i: usize = 0;
        while i < samples
            invariant
                index + samples <= self.data@.len(),
                self.data@.len() <= usize::MAX,
                i <= samples,
                values@.len() == i,
                forall|j: int| 0 <= j < i ==> values@[j] == self.data@[index + j],
            decreases samples - i,
        {
            values.push(self.data[index + i]);
            i = i + 1;
        }
        proof {
            assert(values@ =~= self.view().subrange(index as int, index + samples));
        }
        Ok(values)
    }

    /// Overwrite the region starting at `index` with `values`. Fails with
    /// `InvalidStack`, touching nothing, exactly when the range is out of
    /// bounds. The cursor does not move.
    pub fn write(&mut self, index: usize, values: &Vec<Sample>) -> (r: ArtResult<()>)
        ensures
            final(self).pos() == old(self).pos(),
            final(self).view().len() == old(self).view().len(),
            match r {
                Ok(()) => {
                    &&& index + values@.len() <= old(self).view().len()
                    &&& forall|j: int|
                        0 <= j < values@.len() ==> final(self).view()[index + j] == values@[j]
                    &&& forall|j: int|
                        0 <= j < old(self).view().len() && !(index <= j < index + values@.len())
                            ==> final(self).view()[j] == old(self).view()[j]
                },
                Err(e) => {
                    &&& e == ArtError::InvalidStack
                    &&& index + values@.len() > old(self).view().len()
                    &&& final(self).view() == old(self).view()
                },
            },
    {
        let n = values.len();
        if n > self.data.len() || index > self.data.len() - n {
            return Err(ArtError::InvalidStack);
        }
        let mut i: usize = 0;
        while i < n
            invariant
                index + n <= self.data@.len(),
                self.data@.len() <= usize::MAX,
                i <= n,
                values@.len() == n,
                self.data@.len() == old(self).data@.len(),
                self.position == old(self).position,
                forall|j: int| 0 <= j < i ==> self.data@[index + j] == values@[j],
                forall|j: int|
                    0 <= j < self.data@.len() && !(index <= j < index + i) ==> self.data@[j]
                        == old(self).data@[j],
            decreases n - i,
        {
            self.data.set(index + i, values[i]);
            i = i + 1;
        }
        Ok(())
    }

    /// Mix `values` into the region starting at `index` by wrapping
    /// addition. Fails with `InvalidStack`, touching nothing, exactly when
    /// the range is out of bounds. The cursor does not move.
    pub fn add(&mut self, index: usize, values: &Vec<Sample>) -> (r: ArtResult<()>)
        ensures
            final(self).pos() == old(self).pos(),
            final(self).view().len() == old(self).view().len(),
            match r {
                Ok(()) => {
                    &&& index + values@.len() <= old(self).view().len()
                    &&& forall|j: int|
                        0 <= j < values@.len() ==> final(self).view()[index + j] == old(
                            self,
                        ).view()[index + j].wrapping_add(values@[j])
                    &&& forall|j: int|
                        0 <= j < old(self).view().len() && !(index <= j < index + values@.len())
                            ==> final(self).view()[j] == old(self).view()[j]
                },
                Err(e) => {
                    &&& e == ArtError::InvalidStack
                    &&& index + values@.len() > old(self).view().len()
                    &&& final(self).view() == old(self).view()
                },
            },
    {
        let n = values.len();
        if n > self.data.len() || index > self.data.len() - n {
            return Err(ArtError::InvalidStack);
        }
        let mut i: usize = 0;
        while i < n
            invariant
                index + n <= self.data@.len(),
                self.data@.len() <= usize::MAX,
                i <= n,
                values@.len() == n,
                self.data@.len() == old(self).data@.len(),
                self.position == old(self).position,
                forall|j: int|
                    0 <= j < i ==> self.data@[index + j] == old(self).data@[index + j].wrapping_add(
                        values@[j],
                    ),
                forall|j: int|
                    0 <= j < self.data@.len() && !(index <= j < index + i) ==> self.data@[j]
                        == old(self).data@[j],
            decreases n - i,
        {
            let sum = self.data[index + i].wrapping_add(values[i]);
            self.data.set(index + i, sum);
            i = i + 1;
        }
        Ok(())
    }

    /// Clear the `samples` values starting at `index` to zero. Fails with
    /// `InvalidStack`, touching nothing, exactly when the range is out of
    /// bounds. The cursor does not move.
    pub fn zero(&mut self, index: usize, samples: usize) -> (r: ArtResult<()>)
        ensures
            final(self).pos() == old(self).pos(),
            final(self).view().len() == old(self).view().len(),
            match r {
                Ok(()) => {
                    &&& index + samples <= old(self).view().len()
                    &&& forall|j: int| 0 <= j < samples ==> #[trigger] final(self).view()[index + j] == 0
                    &&& forall|j: int|
                        0 <= j < old(self).view().len() && !(index <= j < index + samples)
                            ==> final(self).view()[j] == old(self).view()[j]
                },
                Err(e) => {
                    &&& e == ArtError::InvalidStack
                    &&& index + samples > old(self).view().len()
                    &&& final(self).view() == old(self).view()
                },
            },
    {
        if samples > self.data.len() || index > self.data.len() - samples {
            return Err(ArtError::InvalidStack);
        }
        let mut i: usize = 0;
        while i < samples
            invariant
                index + samples <= self.data@.len(),
                self.data@.len() <= usize::MAX,
                i <= samples,
                self.data@.len() == old(self).data@.len(),
                self.position == old(self).position,
                forall|j: int| 0 <= j < i ==> #[trigger] self.data@[index + j] == 0,
                forall|j: int|
                    0 <= j < self.data@.len() && !(index <= j < index + i) ==> self.data@[j]
                        == old(self).data@[j],
            decreases samples - i,
        {
            self.data.set(index + i, 0);
            i = i + 1;
        }
        Ok(())
    }

    /// Reserving a region and immediately releasing it leaves the stack
    /// exactly where it began: the moves that `push` and `pop` prescribe
    /// cancel, whatever the count.
    pub proof fn lemma_push_pop_balance(s0: ChannelStack, s1: ChannelStack, s2: ChannelStack, n: usize)
        requires
            s1.view() == s0.view(),
            s1.pos() == s0.pos() + n,
            s2.view() == s1.view(),
            s2.pos() == s1.pos() - n,
        ensures
            s2.pos() == s0.pos(),
            s2.view() == s0.view(),
    {
    }

    /// Move the cursor back to the bottom without touching the contents.
    pub fn reset(&mut self)
        ensures
            final(self).wf(),
            final(self).view() == old(self).view(),
            final(self).pos() == 0,
    {
        self.position = 0;
    }
}

} // verus!
