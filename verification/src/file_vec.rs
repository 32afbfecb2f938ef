//! Append-only, random-access sequence of fixed-size records.
//!
//! The store keeps every record it was given, in order; `get` and `get_range`
//! answer reads straight from that sequence. Reads outside `0 .. len()`
//! report [`CaptureError::OutOfRange`].

use vstd::prelude::*;

use crate::CaptureError;

verus! {

pub struct FileVec<T> {
    records: Vec<T>,
}

impl<T: Copy> View for FileVec<T> {
    type V = Seq<T>;

    closed spec fn view(&self) -> Seq<T> {
        self.records@
    }
}

/// A record vector never holds more records than `usize` can count.
pub broadcast proof fn lemma_file_vec_len_bound<T: Copy>(v: &FileVec<T>)
    ensures
        #[trigger] v@.len() <= usize::MAX,
{
    vstd::std_specs::vec::axiom_spec_len(&v.records);
}

impl<T: Copy> FileVec<T> {
    pub fn new() -> (r: Self)
        ensures
            r@ == Seq::<T>::empty(),
    {
        FileVec { records: Vec::new() }
    }

    /// Appends one record at the end of the sequence.
    pub fn push(&mut self, record: T)
        ensures
            final(self)@ == old(self)@.push(record),
    {
        self.records.push(record);
    }

    /// Appends every record of `records`, in order.
    pub fn append_slice(&mut self, records: &[T])
        ensures
            final(self)@ == old(self)@ + records@,
    {
        let n = records.len();
        let mut i: usize = 0;
        while i < n
            invariant
                i <= n,
                n == records@.len(),
                self@ == old(self)@ + records@.subrange(0, i as int),
            decreases n - i,
        {
            self.records.push(records[i]);
            i = i + 1;
            proof {
                assert(records@.subrange(0, i as int)
                    == records@.subrange(0, i - 1 as int).push(records@[i - 1]));
            }
        }
        proof {
            assert(records@.subrange(0, n as int) == records@);
        }
    }

    pub fn len(&self) -> (r: u64)
        ensures
            r == self@.len(),
    {
        self.records.len() as u64
    }

    /// Bytes the records occupy, saturating at `u64::MAX`.
    pub open spec fn spec_size(&self) -> u64 {
        if self@.len() * vstd::layout::size_of::<T>() > u64::MAX {
            u64::MAX
        } else {
            (self@.len() * vstd::layout::size_of::<T>()) as u64
        }
    }

    /// Number of bytes the records occupy, saturating at `u64::MAX`.
    pub fn size(&self) -> (r: u64)
        ensures
            r == self.spec_size(),
    {
        let count = self.records.len() as u64;
        let width = core::mem::size_of::<T>() as u64;
        match count.checked_mul(width) {
            Some(bytes) => bytes,
            None => u64::MAX,
        }
    }

    /// The record at `index`, which must be in range.
    pub fn at(&self, index: usize) -> (r: T)
        requires
            index < self@.len(),
        ensures
            r == self@[index as int],
    {
        self.records[index]
    }

    /// The record at `index`; `OutOfRange` if and only if `index >= len()`.
    pub fn get(&self, index: u64) -> (r: Result<T, CaptureError>)
        ensures
            index < self@.len() ==> r == Ok::<T, CaptureError>(self@[index as int]),
            index >= self@.len() ==> r == Err::<T, CaptureError>(CaptureError::OutOfRange),
    {
        if index < self.records.len() as u64 {
            Ok(self.records[index as usize])
        } else {
            Err(CaptureError::OutOfRange)
        }
    }

    /// The records at `start .. end`, in order; `OutOfRange` if and only if
    /// the range is not within `0 ..= len()` in increasing order.
    pub fn get_range(&self, start: u64, end: u64) -> (r: Result<Vec<T>, CaptureError>)
        ensures
            start <= end <= self@.len() ==> (r matches Ok(v)
                && v@ == self@.subrange(start as int, end as int)),
            !(start <= end <= self@.len()) ==> r == Err::<Vec<T>, CaptureError>(
                CaptureError::OutOfRange),
    {
        if start <= end && end <= self.records.len() as u64 {
            let start_us = start as usize;
            let end_us = end as usize;
            let mut out: Vec<T> = Vec::new();
            let mut i: usize = start_us;
            while i < end_us
                invariant
                    start_us <= i <= end_us <= self@.len(),
                    start_us == start as int,
                    end_us == end as int,
                    out@ == self@.subrange(start_us as int, i as int),
                decreases end_us - i,
            {
                out.push(self.records[i]);
                i = i + 1;
                proof {
                    assert(self@.subrange(start_us as int, i as int)
                        == self@.subrange(start_us as int, i - 1 as int).push(self@[i - 1]));
                }
            }
            Ok(out)
        } else {
            Err(CaptureError::OutOfRange)
        }
    }
}

} // verus!
