//! The running totals of a scan: bytes read and newlines found in them.

use crate::error::CountError;
use crate::newlines::{count_newlines, count_occurrences, lemma_count_byte_bounded, NEWLINE};
use vstd::prelude::*;

verus! {

/// How many bytes were read, and how many of them were newlines.
///
/// The newlines never outnumber the bytes.
#[derive(Clone, Copy, Debug)]
pub struct SampleResult {
    total_bytes_read: u64,
    total_newlines: u64,
}

impl SampleResult {
    #[verifier::type_invariant]
    spec fn consistent(self) -> bool {
        self.total_newlines <= self.total_bytes_read
    }

    /// The number of bytes read.
    pub closed spec fn bytes(self) -> nat {
        self.total_bytes_read as nat
    }

    /// The number of newlines among the bytes read.
    pub closed spec fn newlines(self) -> nat {
        self.total_newlines as nat
    }

    /// Both counts fit in a `u64`.
    pub proof fn lemma_counts_fit(self)
        ensures
            self.bytes() <= u64::MAX,
            self.newlines() <= u64::MAX,
    {
    }

    /// The totals before anything was read.
    pub fn new() -> (r: Self)
        ensures
            r.bytes() == 0,
            r.newlines() == 0,
    {
        SampleResult { total_bytes_read: 0, total_newlines: 0 }
    }

    /// The totals with the given counts, unless the newlines outnumber the
    /// bytes.
    pub fn from_counts(total_bytes_read: u64, total_newlines: u64) -> (r: Option<Self>)
        ensures
            r is Some <==> total_newlines <= total_bytes_read,
            r matches Some(s) ==> s.bytes() == total_bytes_read && s.newlines() == total_newlines,
    {
        if total_newlines <= total_bytes_read {
            Some(SampleResult { total_bytes_read, total_newlines })
        } else {
            None
        }
    }

    /// The number of bytes read.
    pub fn total_bytes_read(&self) -> (n: u64)
        ensures
            n == self.bytes(),
            self.newlines() <= self.bytes(),
    {
        proof {
            use_type_invariant(self);
        }
        self.total_bytes_read
    }

    /// The number of newlines among the bytes read.
    pub fn total_newlines(&self) -> (n: u64)
        ensures
            n == self.newlines(),
            self.newlines() <= self.bytes(),
    {
        proof {
            use_type_invariant(self);
        }
        self.total_newlines
    }

    /// Adds one chunk to the totals: its length to the bytes, its newlines to
    /// the newlines. Fails, and leaves the totals as they were, when the bytes
    /// would no longer fit in a `u64`.
    pub fn record(&mut self, chunk: &[u8]) -> (r: Result<(), CountError>)
        ensures
            old(self).bytes() + chunk@.len() <= u64::MAX ==> {
                &&& r is Ok
                &&& final(self).bytes() == old(self).bytes() + chunk@.len()
                &&& final(self).newlines() == old(self).newlines() + count_newlines(chunk@)
            },
            old(self).bytes() + chunk@.len() > u64::MAX ==> {
                &&& r == Err::<(), CountError>(CountError::InputTooLarge)
                &&& final(self).bytes() == old(self).bytes()
                &&& final(self).newlines() == old(self).newlines()
            },
    {
        proof {
            use_type_invariant(&*self);
            lemma_count_byte_bounded(chunk@, NEWLINE);
        }
        let found = count_occurrences(chunk, NEWLINE);
        let length = chunk.len() as u64;
        if length > u64::MAX - self.total_bytes_read {
            return Err(CountError::InputTooLarge);
        }
        self.total_bytes_read = self.total_bytes_read + length;
        self.total_newlines = self.total_newlines + found as u64;
        Ok(())
    }

    /// Adds the totals of another scan to these. Fails, and leaves the totals
    /// as they were, when the bytes would no longer fit in a `u64`.
    pub fn merge(&mut self, other: &SampleResult) -> (r: Result<(), CountError>)
        ensures
            old(self).bytes() + other.bytes() <= u64::MAX ==> {
                &&& r is Ok
                &&& final(self).bytes() == old(self).bytes() + other.bytes()
                &&& final(self).newlines() == old(self).newlines() + other.newlines()
            },
            old(self).bytes() + other.bytes() > u64::MAX ==> {
                &&& r == Err::<(), CountError>(CountError::InputTooLarge)
                &&& final(self).bytes() == old(self).bytes()
                &&& final(self).newlines() == old(self).newlines()
            },
    {
        proof {
            use_type_invariant(&*self);
            use_type_invariant(other);
        }
        if other.total_bytes_read > u64::MAX - self.total_bytes_read {
            return Err(CountError::InputTooLarge);
        }
        self.total_bytes_read = self.total_bytes_read + other.total_bytes_read;
        self.total_newlines = self.total_newlines + other.total_newlines;
        Ok(())
    }
}

} // verus!
