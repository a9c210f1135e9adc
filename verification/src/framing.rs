//! Line framing for one connection.
//!
//! Bytes arrive from the socket in arbitrary chunks; the buffer yields
//! them back as complete lines, with the newline terminator stripped.
//! When the peer closes the connection, whatever is left in the buffer is
//! the final, unterminated line.

use vstd::prelude::*;
use crate::text::subvec;

verus! {

/// Index `i` holds the first newline of `s`.
pub open spec fn is_first_newline(s: Seq<u8>, i: int) -> bool {
    &&& 0 <= i < s.len()
    &&& s[i] == '\n' as u8
    &&& forall|k: int| 0 <= k < i ==> s[k] != '\n' as u8
}

/// `s` holds at least one complete line.
pub open spec fn has_line(s: Seq<u8>) -> bool {
    exists|i: int| is_first_newline(s, i)
}

/// The index of the first newline of `s`.
pub open spec fn line_end(s: Seq<u8>) -> int {
    choose|i: int| is_first_newline(s, i)
}

/// The receive buffer of one connection: the bytes fed from the socket
/// that no yielded line has consumed yet.
pub struct LineBuffer {
    pending: Vec<u8>,
}

impl View for LineBuffer {
    type V = Seq<u8>;

    closed spec fn view(&self) -> Seq<u8> {
        self.pending@
    }
}

impl LineBuffer {
    /// An empty buffer for a fresh connection.
    pub fn new() -> (b: Self)
        ensures
            b@ == Seq::<u8>::empty(),
    {
        LineBuffer { pending: Vec::new() }
    }

    /// Appends one received chunk to the buffer.
    pub fn feed(&mut self, chunk: &Vec<u8>)
        ensures
            final(self)@ == old(self)@ + chunk@,
    {
        let ghost orig = self.pending@;
        proof {
            assert(orig + chunk@.take(0) =~= orig);
        }
        let n = chunk.len();
        let mut k: usize = 0;
        while k < n
            invariant
                k <= n,
                n == chunk@.len(),
                self.pending@ == orig + chunk@.take(k as int),
            decreases n - k,
        {
            self.pending.push(chunk[k]);
            proof {
                assert(self.pending@ =~= orig + chunk@.take(k + 1 as int));
            }
            k = k + 1;
        }
        proof {
            assert(orig + chunk@.take(n as int) =~= orig + chunk@);
        }
    }

    /// Takes the next complete line out of the buffer, without its
    /// newline terminator, or reports that no complete line is buffered
    /// yet.
    pub fn take_line(&mut self) -> (r: Option<Vec<u8>>)
        ensures
            r is Some <==> has_line(old(self)@),
            (r matches Some(l) ==> {
                &&& l@ == old(self)@.subrange(0, line_end(old(self)@))
                &&& final(self)@ == old(self)@.subrange(
                    line_end(old(self)@) + 1,
                    old(self)@.len() as int,
                )
            }),
            (r is None ==> final(self)@ == old(self)@),
    {
        let n = self.pending.len();
        let mut i: usize = 0;
        while i < n && self.pending[i] != '\n' as u8
            invariant
                i <= n,
                n == self.pending@.len(),
                forall|k: int| 0 <= k < i ==> self.pending@[k] != '\n' as u8,
            decreases n - i,
        {
            i = i + 1;
        }
        if i == n {
            proof {
                assert forall|m: int| !is_first_newline(self.pending@, m) by {
                    if 0 <= m < n {
                        assert(self.pending@[m] != '\n' as u8);
                    }
                }
            }
            return None;
        }
        proof {
            assert(is_first_newline(self.pending@, i as int));
            let i0 = line_end(self.pending@);
            assert(is_first_newline(self.pending@, i0));
            if i0 < i as int {
                assert(self.pending@[i0] != '\n' as u8);
            }
            if i0 > i as int {
                assert(self.pending@[i as int] != '\n' as u8);
            }
        }
        let line = subvec(&self.pending, 0, i);
        let rest = subvec(&self.pending, i + 1, n);
        self.pending = rest;
        Some(line)
    }

    /// Flushes the final unterminated line once the peer has closed the
    /// connection; the buffer is left empty.
    pub fn take_remainder(&mut self) -> (r: Option<Vec<u8>>)
        ensures
            r is Some <==> old(self)@.len() > 0,
            (r matches Some(l) ==> l@ == old(self)@),
            final(self)@ == Seq::<u8>::empty(),
    {
        if self.pending.len() == 0 {
            return None;
        }
        let rest = subvec(&self.pending, 0, self.pending.len());
        proof {
            assert(rest@ =~= self.pending@);
        }
        self.pending = Vec::new();
        Some(rest)
    }
}

} // verus!
