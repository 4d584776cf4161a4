//! Hands out the records of the queue, one for each job, in order.
//!
//! The iterator does not read the file of the queue itself: the caller
//! reads it piece by piece and feeds the bytes to the iterator.

use vstd::prelude::*;
use vstd::slice::slice_subrange;

verus! {

/// What the iterator has to give.
#[derive(Debug)]
pub enum Next {
    /// A record, the number of its job, and the number of records after it.
    Record(Vec<u8>, usize, usize),
    /// Nothing before more bytes of the queue are fed.
    Starved,
    /// Nothing: every record has been handed out.
    Done,
}

/// The same as a plain value.
pub enum NextView {
    Record(Seq<u8>, int, int),
    Starved,
    Done,
}

impl View for Next {
    type V = NextView;

    open spec fn view(&self) -> NextView {
        match self {
            Next::Record(record, job_id, remaining) => NextView::Record(
                record@,
                *job_id as int,
                *remaining as int,
            ),
            Next::Starved => NextView::Starved,
            Next::Done => NextView::Done,
        }
    }
}

/// The position of the first end of line in `bytes` at or after `from`, or
/// the length of `bytes` where there is none.
pub open spec fn line_end(bytes: Seq<u8>, from: int) -> int
    decreases bytes.len() - from,
{
    if from < 0 || from >= bytes.len() {
        bytes.len() as int
    } else if bytes[from] == 0x0au8 {
        from
    } else {
        line_end(bytes, from + 1)
    }
}

/// A cursor over the records of the queue.
pub struct InputIterator {
    total_arguments: usize,
    curr_argument: usize,
    data: Vec<u8>,
    offset: usize,
}

impl InputIterator {
    spec fn start(self) -> int {
        if self.offset <= self.data@.len() {
            self.offset as int
        } else {
            self.data@.len() as int
        }
    }

    /// The number of records of the queue.
    pub closed spec fn total(self) -> int {
        self.total_arguments as int
    }

    /// The number of records that were handed out.
    pub closed spec fn handed(self) -> int {
        self.curr_argument as int
    }

    /// The bytes that were fed and not yet handed out.
    pub closed spec fn unread(self) -> Seq<u8> {
        self.data@.subrange(self.start(), self.data@.len() as int)
    }

    /// What `next` gives: the first line of what is unread, without its
    /// end, as the record of the next job, as long as records are left.
    pub open spec fn upcoming(self) -> NextView {
        let end = line_end(self.unread(), 0);
        if self.handed() >= self.total() {
            NextView::Done
        } else if end >= self.unread().len() {
            NextView::Starved
        } else {
            NextView::Record(
                self.unread().subrange(0, end),
                self.handed() + 1,
                self.total() - self.handed() - 1,
            )
        }
    }

    /// What is unread once `next` has given its answer.
    pub open spec fn left_unread(self) -> Seq<u8> {
        let end = line_end(self.unread(), 0);
        if self.handed() < self.total() && end < self.unread().len() {
            self.unread().subrange(end + 1, self.unread().len() as int)
        } else {
            self.unread()
        }
    }

    /// A cursor over a queue of `total_arguments` records, of which no byte
    /// has been fed.
    pub fn new(total_arguments: usize) -> (inputs: InputIterator)
        ensures
            inputs.total() == total_arguments,
            inputs.handed() == 0,
            inputs.unread() == Seq::<u8>::empty(),
    {
        let inputs = InputIterator { total_arguments, curr_argument: 0, data: Vec::new(), offset: 0 };
        assert(inputs.unread() =~= Seq::<u8>::empty());
        inputs
    }

    /// Feeds the next bytes of the queue.
    pub fn feed(&mut self, bytes: &[u8])
        ensures
            final(self).total() == old(self).total(),
            final(self).handed() == old(self).handed(),
            final(self).unread() == old(self).unread() + bytes@,
    {
        let start = self.first();
        let mut data: Vec<u8> = Vec::new();
        data.extend_from_slice(slice_subrange(self.data.as_slice(), start, self.data.len()));
        data.extend_from_slice(bytes);
        assert(data@ =~= old(self).unread() + bytes@);
        self.data = data;
        self.offset = 0;
        assert(self.unread() =~= old(self).unread() + bytes@);
    }

    fn first(&self) -> (start: usize)
        ensures
            start == self.start(),
            start <= self.data@.len(),
    {
        if self.offset <= self.data.len() {
            self.offset
        } else {
            self.data.len()
        }
    }

    /// The number of records that are left.
    pub fn remaining(&self) -> (left: usize)
        ensures
            left == if self.handed() <= self.total() {
                self.total() - self.handed()
            } else {
                0
            },
    {
        if self.curr_argument <= self.total_arguments {
            self.total_arguments - self.curr_argument
        } else {
            0
        }
    }

    /// Hands out the next record with the number of its job. The jobs are
    /// numbered from one, in the order of the records.
    pub fn next(&mut self) -> (next: Next)
        ensures
            next@ == old(self).upcoming(),
            final(self).total() == old(self).total(),
            final(self).handed() == if next is Record {
                old(self).handed() + 1
            } else {
                old(self).handed()
            },
            final(self).unread() == old(self).left_unread(),
    {
        if self.curr_argument >= self.total_arguments {
            return Next::Done;
        }
        let ghost unread = self.unread();
        let start = self.first();
        let mut end: usize = start;
        while end < self.data.len() && self.data[end] != 0x0au8
            invariant
                start <= end <= self.data@.len(),
                start == self.start(),
                *self == *old(self),
                unread == self.unread(),
                line_end(unread, end - start) == line_end(unread, 0),
            decreases self.data@.len() - end,
        {
            end += 1;
        }
        if end >= self.data.len() {
            return Next::Starved;
        }
        let mut record: Vec<u8> = Vec::new();
        record.extend_from_slice(slice_subrange(self.data.as_slice(), start, end));
        assert(record@ =~= unread.subrange(0, end - start));
        self.offset = end + 1;
        self.curr_argument += 1;
        assert(self.unread() =~= unread.subrange(end + 1 - start, unread.len() as int));
        Next::Record(record, self.curr_argument, self.total_arguments - self.curr_argument)
    }
}

} // verus!
